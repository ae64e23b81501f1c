//! Values on the stack and on the heap, function values, ownership and
//! borrowing: the small pieces that the larger modules take for granted.

use std::ops::Add;
use vstd::prelude::*;
use vstd::std_specs::ops::AddSpec;

verus! {

/// Twice what [`fun2`] makes of ten.
pub fn fun1() -> (r: i32)
    ensures
        r == 400,
{
    let a: i32 = 10;
    return 2 * fun2(a);
}

/// Twenty times `a`. Both `a` and the factor live in this call's frame.
pub fn fun2(a: i32) -> (r: i32)
    requires
        i32::MIN <= a * 20 <= i32::MAX,
    ensures
        r == a * 20,
{
    let b: i32 = 20;
    return a * b;
}

/// Computes a value on the heap and lets it go again when the frame ends.
pub fn fun3() {
    let a: i32 = 10;
    let _b = fun4(a);
}

/// Twenty times `a`, in a box that outlives this call's frame.
pub fn fun4(a: i32) -> (r: Box<i32>)
    requires
        i32::MIN <= a * 20 <= i32::MAX,
    ensures
        *r == a * 20,
{
    let mut tmp: Box<i32> = Box::new(0);
    *tmp = a * 20;
    return tmp;
}

/// What `f` asks of its argument.
pub open spec fn domain<F: Fn(u64) -> u64>(f: F) -> spec_fn(u64) -> bool {
    |a: u64| call_requires(f, (a,))
}

/// What `f` may return for which argument.
pub open spec fn graph<F: Fn(u64) -> u64>(f: F) -> spec_fn(u64, u64) -> bool {
    |a: u64, b: u64| call_ensures(f, (a,), b)
}

/// A function with the given domain and graph can be applied to `x`, to
/// whatever that gives, and so on, `n` times in all.
pub open spec fn appliable(
    domain: spec_fn(u64) -> bool,
    graph: spec_fn(u64, u64) -> bool,
    n: nat,
    x: u64,
) -> bool
    decreases n,
{
    n == 0 || (domain(x) && forall|y: u64| #[trigger]
        graph(x, y) ==> appliable(domain, graph, (n - 1) as nat, y))
}

/// `r` is what `n` applications of a function with the given graph, each to
/// the result of the one before, can make of `x`.
pub open spec fn applied(graph: spec_fn(u64, u64) -> bool, n: nat, x: u64, r: u64) -> bool
    decreases n,
{
    if n == 0 {
        r == x
    } else {
        exists|y: u64| #[trigger] graph(x, y) && applied(graph, (n - 1) as nat, y, r)
    }
}

/// Applies `f` to `x`, then to the result, and so on, `n` times in all.
pub fn app_n<F: Fn(u64) -> u64>(f: F, n: u64, x: u64) -> (r: u64)
    requires
        appliable(domain(f), graph(f), n as nat, x),
    ensures
        applied(graph(f), n as nat, x, r),
{
    let mut left = n;
    let mut acc = x;
    loop
        invariant
            appliable(domain(f), graph(f), left as nat, acc),
            forall|r: u64|
                applied(graph(f), left as nat, acc, r) ==> applied(graph(f), n as nat, x, r),
        decreases left,
    {
        if left == 0 {
            assert(applied(graph(f), 0, acc, acc));
            return acc;
        }
        let ghost before = acc;
        assert(domain(f)(acc));
        acc = f(acc);
        left -= 1;
        proof {
            assert(graph(f)(before, acc));
            assert forall|r: u64| applied(graph(f), left as nat, acc, r) implies applied(
                graph(f),
                n as nat,
                x,
                r,
            ) by {
                assert(applied(graph(f), (left + 1) as nat, before, r));
            }
        }
    }
}

/// Twice `x`.
pub fn mul2(x: u64) -> (r: u64)
    requires
        x * 2 <= u64::MAX,
    ensures
        r == x * 2,
{
    x * 2
}

/// A function that multiplies by `x`, which it has captured by value. It
/// may be applied to any `y` whose product with `x` fits a `u64`.
pub fn mul_x(x: u64) -> (f: impl Fn(u64) -> u64)
    ensures
        forall|y: u64| x * y <= u64::MAX ==> call_requires(f, (y,)),
        forall|y: u64, z: u64| call_ensures(f, (y,), z) ==> z == x * y,
{
    move |y: u64| -> (z: u64)
        requires
            x * y <= u64::MAX,
        ensures
            z == x * y,
        { x * y }
}

/// One apple. It can be sold or eaten, not both.
pub struct Apple {}

/// What an apple sells for.
pub struct Gold {}

/// What eating an apple gives.
pub struct FullStomach {}

/// Sells the apple. The apple is moved in and is gone afterwards.
pub fn get_gold(a: Apple) -> (g: Gold)
    ensures
        g == (Gold {  }),
{
    Gold {  }
}

/// Eats the apple. The apple is moved in and is gone afterwards.
pub fn get_full_stomach(a: Apple) -> (s: FullStomach)
    ensures
        s == (FullStomach {  }),
{
    FullStomach {  }
}

/// Sells the one apple there is; nothing is left to eat.
pub fn my_func5() -> (g: Gold)
    ensures
        g == (Gold {  }),
{
    let a = Apple {  };
    get_gold(a)
}

/// A value that is lent out by reference.
pub struct Foo {
    pub val: u32,
}

/// The sum of two borrowed values, both borrowed for the same lifetime.
pub fn add<'a>(x: &'a Foo, y: &'a Foo) -> (sum: u32)
    requires
        x.val + y.val <= u32::MAX,
    ensures
        sum == x.val + y.val,
{
    x.val + y.val
}

/// A value that is handed over and handed back.
pub struct Foo2 {
    pub val: u32,
}

/// The sum of two values, together with the values themselves, so that the
/// caller owns them again.
pub fn add_val(x: Foo2, y: Foo2) -> (r: (u32, Foo2, Foo2))
    requires
        x.val + y.val <= u32::MAX,
    ensures
        r.0 == x.val + y.val,
        r.1 == x,
        r.2 == y,
{
    (x.val + y.val, x, y)
}

/// The product of two values, together with the values themselves.
pub fn mul_val(x: Foo2, y: Foo2) -> (r: (u32, Foo2, Foo2))
    requires
        x.val * y.val <= u32::MAX,
    ensures
        r.0 == x.val * y.val,
        r.1 == x,
        r.2 == y,
{
    (x.val * y.val, x, y)
}

/// A value that is borrowed mutably and immutably in turn.
pub struct Foo3 {
    pub val: u32,
}

/// `a + a + a`, for any type that can be added to itself and copied.
pub fn add_3times<T>(a: T) -> (r: T) where T: Add<Output = T> + Copy
    requires
        T::obeys_add_spec(),
        a.add_req(a),
        a.add_spec(a).add_req(a),
    ensures
        r == a.add_spec(a).add_spec(a),
{
    a + a + a
}

} // verus!
