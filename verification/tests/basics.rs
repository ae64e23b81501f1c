use greenthread::add;
use greenthread::basics::{
    add_3times, add_val, app_n, fun1, fun2, fun3, fun4, get_full_stomach, get_gold, mul2, mul_val,
    mul_x, my_func5, Apple, Foo, Foo2, Foo3, FullStomach, Gold,
};
use greenthread::sync::{compare_and_swap2, mutex02, some_func4};

#[test]
fn it_works() {
    let result = add(2, 2);
    assert_eq!(result, 4);
    assert_eq!(fun1(), 400);
    fun3();

    compare_and_swap2();
    mutex02();

    some_func4();
}

#[test]
fn twenty_times() {
    assert_eq!(fun2(10), 200);
    assert_eq!(fun2(-3), -60);
    assert_eq!(*fun4(10), 200);
    assert_eq!(*fun4(0), 0);
}

#[test]
fn app_n_applies_n_times() {
    assert_eq!(app_n(mul2, 4, 3), 48);
    assert_eq!(app_n(mul2, 0, 3), 3);
    assert_eq!(app_n(|x: u64| x + 1, 10, 5), 15);
}

#[test]
fn mul_x_captures_its_factor() {
    let f = mul_x(3);
    assert_eq!(f(5), 15);
    assert_eq!(f(0), 0);
    assert_eq!(app_n(mul_x(3), 2, 1), 9);
}

#[test]
fn an_apple_is_sold_or_eaten() {
    let _g: Gold = get_gold(Apple {});
    let _s: FullStomach = get_full_stomach(Apple {});
    let _g: Gold = my_func5();
}

#[test]
fn borrowed_values_are_added() {
    let x = Foo { val: 10 };
    let y = Foo { val: 20 };
    assert_eq!(greenthread::basics::add(&x, &y), 30);
    assert_eq!(x.val, 10);
}

#[test]
fn owned_values_come_back() {
    let x = Foo2 { val: 3 };
    let y = Foo2 { val: 6 };
    let (a, xn, yn) = add_val(x, y);
    assert_eq!(a, 9);
    let (b, xm, ym) = mul_val(xn, yn);
    assert_eq!(b, 18);
    assert_eq!((xm.val, ym.val), (3, 6));
}

#[test]
fn a_value_is_borrowed_in_turn() {
    let mut x = Foo3 { val: 10 };
    {
        let a = &mut x;
        a.val = 30;
    }
    assert_eq!(x.val, 30);
}

#[test]
fn three_times_itself() {
    assert_eq!(add_3times(7u32), 21);
    assert_eq!(add_3times(-2i64), -6);
}
