//! A function that can be suspended and resumed, written out by hand.
//!
//! [`Hello`] greets in two steps and stops in between: it is a coroutine
//! whose only variable is the place it has reached. Each call of
//! [`Hello::poll`] runs it up to the next stop and says what it has to say
//! there; saying it, and calling again, is up to the caller.

use vstd::prelude::*;

verus! {

/// How far a [`Hello`] has come.
#[derive(Clone, Copy, Debug, PartialEq, Eq, Structural)]
pub enum StateHello {
    /// Nothing said yet.
    Hello,
    /// The first half has been said.
    World,
    /// Both halves have been said.
    End,
}

/// One half of the greeting.
#[derive(Clone, Copy, Debug, PartialEq, Eq, Structural)]
pub enum Part {
    /// `"Hello, "`
    Hello,
    /// `"World!"`
    World,
}

/// What one call of [`Hello::poll`] came to.
#[derive(Clone, Copy, Debug, PartialEq, Eq, Structural)]
pub enum Polled {
    /// The coroutine has said `say` and stopped; it wants to be polled
    /// again.
    Pending { say: Part },
    /// The coroutine has run to its end.
    Ready,
}

/// The greeting as a coroutine.
pub struct Hello {
    state: StateHello,
}

impl View for Hello {
    type V = StateHello;

    closed spec fn view(&self) -> StateHello {
        self.state
    }
}

/// The state that follows `state`.
pub open spec fn next_state(state: StateHello) -> StateHello {
    match state {
        StateHello::Hello => StateHello::World,
        StateHello::World => StateHello::End,
        StateHello::End => StateHello::End,
    }
}

/// What a poll in `state` reports.
pub open spec fn polled_in(state: StateHello) -> Polled {
    match state {
        StateHello::Hello => Polled::Pending { say: Part::Hello },
        StateHello::World => Polled::Pending { say: Part::World },
        StateHello::End => Polled::Ready,
    }
}

impl Hello {
    /// A greeting of which nothing has been said yet.
    pub fn new() -> (h: Hello)
        ensures
            h@ == StateHello::Hello,
    {
        Hello { state: StateHello::Hello }
    }

    /// Runs the coroutine up to its next stop.
    pub fn poll(&mut self) -> (r: Polled)
        ensures
            r == polled_in(old(self)@),
            final(self)@ == next_state(old(self)@),
    {
        match self.state {
            StateHello::Hello => {
                self.state = StateHello::World;
                Polled::Pending { say: Part::Hello }
            },
            StateHello::World => {
                self.state = StateHello::End;
                Polled::Pending { say: Part::World }
            },
            StateHello::End => Polled::Ready,
        }
    }
}

/// Three polls see a greeting through: the first two say its halves in
/// order, the third finds it at its end, and there it stays.
pub proof fn lemma_three_polls()
    ensures
        polled_in(StateHello::Hello) == (Polled::Pending { say: Part::Hello }),
        polled_in(next_state(StateHello::Hello)) == (Polled::Pending { say: Part::World }),
        polled_in(next_state(next_state(StateHello::Hello))) == Polled::Ready,
        forall|s: StateHello| polled_in(s) == Polled::Ready ==> next_state(s) == s,
{
}

} // verus!
