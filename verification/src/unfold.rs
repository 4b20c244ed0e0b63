//! Stages given by a state and a transition function.
//!
//! A stage built with `and_then` keeps one frame for every continuation
//! that has taken over from the one before, so a loop written by recursion
//! grows as it runs. A stage built here is resumed in place, whatever the
//! number of its steps.

use crate::behavior::{lemma_behavior_ext, Behavior, Event, Signal};
use crate::conduit::ConduitM;
use crate::machine::{Chain, Machine, Unit};
use vstd::prelude::*;

verus! {

/// The signal, after the events `h`, of the stage that shows `shown` in the
/// state `state` and goes on by `step`.
pub open spec fn unfold_at<S, I, O, A>(
    step: spec_fn(S, Event<I>) -> (S, Signal<O, A>),
    state: S,
    shown: Signal<O, A>,
    h: Seq<Event<I>>,
) -> Signal<O, A>
    decreases h.len(),
{
    if shown is Done || h.len() == 0 {
        shown
    } else {
        let next = step(state, h[0]);
        unfold_at(step, next.0, next.1, h.drop_first())
    }
}

/// The stage that shows `shown` in the state `state`, and that, resumed
/// with an event, moves to the state and shows the signal that `step`
/// gives for its state and the event. It has finished once it shows
/// `Done`.
pub open spec fn unfolded<S, I, O, A>(
    step: spec_fn(S, Event<I>) -> (S, Signal<O, A>),
    state: S,
    shown: Signal<O, A>,
) -> Behavior<I, O, A> {
    Behavior { at: |h: Seq<Event<I>>| unfold_at(step, state, shown, h) }
}

/// Whether `f` may be called on every state and event.
pub open spec fn total_step<S, I, O, A, F: Fn(S, Event<I>) -> (S, Signal<O, A>)>(f: F) -> bool {
    forall|s: S, e: Event<I>| call_requires(f, (s, e))
}

/// Whether `g` tells what `f` returns, for every state and event.
pub open spec fn computes_step<S, I, O, A, F: Fn(S, Event<I>) -> (S, Signal<O, A>)>(
    f: F,
    g: spec_fn(S, Event<I>) -> (S, Signal<O, A>),
) -> bool {
    forall|s: S, e: Event<I>, r: (S, Signal<O, A>)| #[trigger]
        call_ensures(f, (s, e), r) ==> r == g(s, e)
}

/// What the contract of `f` says of what `f` returns for a state and an
/// event.
pub open spec fn step_function<S, I, O, A, F: Fn(S, Event<I>) -> (S, Signal<O, A>)>(
    f: F,
) -> spec_fn(S, Event<I>) -> (S, Signal<O, A>) {
    |s: S, e: Event<I>| choose|r: (S, Signal<O, A>)| call_ensures(f, (s, e), r)
}

/// An unfolded stage that has not finished goes on, when resumed, from the
/// state and with the signal that `step` gives.
pub proof fn lemma_unfolded_after<S, I, O, A>(
    step: spec_fn(S, Event<I>) -> (S, Signal<O, A>),
    state: S,
    shown: Signal<O, A>,
    e: Event<I>,
)
    requires
        !(shown is Done),
    ensures
        unfolded(step, state, shown).head() == shown,
        unfolded(step, state, shown).after(e) == unfolded(
            step,
            step(state, e).0,
            step(state, e).1,
        ),
{
    let next = step(state, e);
    assert forall|h: Seq<Event<I>>| #[trigger]
        unfolded(step, state, shown).after(e).answer(h) == unfolded(step, next.0, next.1).answer(
            h,
        ) by {
        let eh = seq![e] + h;
        assert(eh[0] == e);
        assert(eh.drop_first() =~= h);
        assert(unfold_at(step, state, shown, eh) == unfold_at(step, next.0, next.1, h));
    }
    lemma_behavior_ext(unfolded(step, state, shown).after(e), unfolded(step, next.0, next.1));
}

/// A state, what the stage shows in it, and the function that moves it on.
pub(crate) struct Stepper<S, O, A, F, G> {
    pub(crate) state: Option<S>,
    pub(crate) shown: Ghost<Signal<O, A>>,
    pub(crate) step: F,
    pub(crate) model: Ghost<G>,
}

impl<S, I, O, A, F: Fn(S, Event<I>) -> (S, Signal<O, A>)> Machine<I, O, A> for Stepper<
    S,
    O,
    A,
    F,
    spec_fn(S, Event<I>) -> (S, Signal<O, A>),
> {
    closed spec fn inv(&self) -> bool {
        &&& self.state is Some
        &&& !(self.shown@ is Done)
        &&& total_step(self.step)
        &&& computes_step(self.step, self.model@)
    }

    closed spec fn behavior(&self) -> Behavior<I, O, A> {
        unfolded(self.model@, self.state->Some_0, self.shown@)
    }

    fn resume(&mut self, e: Event<I>) -> (s: Signal<O, A>) {
        proof {
            lemma_unfolded_after(self.model@, self.state->Some_0, self.shown@, e);
        }
        let state = self.state.take().unwrap();
        let (next, shown) = (self.step)(state, e);
        proof {
            if !(shown is Done) {
                lemma_unfolded_after(self.model@, next, shown, e);
            }
        }
        self.state = Some(next);
        self.shown = Ghost(shown);
        shown
    }
}

impl<'a, I: 'a, O: 'a, A: 'a> ConduitM<'a, I, O, A> {
    /// The stage that shows `shown` in the state `state`, and that, resumed
    /// with an event, moves to the state and shows the signal that `step`
    /// returns for its state and the event. What `step` returns is given by
    /// `g`.
    ///
    /// A stage that waits is resumed with `Event::Input`, one that has
    /// yielded with `Event::Next`. The stage is resumed in place: it takes
    /// the same room after a million steps as after one.
    pub fn unfold_as<S: 'a, F: Fn(S, Event<I>) -> (S, Signal<O, A>) + 'a>(
        state: S,
        shown: Signal<O, A>,
        step: F,
        Ghost(g): Ghost<spec_fn(S, Event<I>) -> (S, Signal<O, A>)>,
    ) -> (r: Self)
        requires
            total_step(step),
            computes_step(step, g),
        ensures
            r.wf(),
            r@ == unfolded(g, state, shown).now(),
            shown matches Signal::Done(a) ==> r matches ConduitM::Pure(b) && *b == a,
            shown is Wait ==> r is Await,
            shown matches Signal::Emit(o) ==> r matches ConduitM::Yield(p, _) && *p == o,
    {
        proof {
            if !(shown is Done) {
                lemma_unfolded_after(g, state, shown, Event::Next);
            }
        }
        let head = Unit {
            inner: Box::new(
                Stepper { state: Some(state), shown: Ghost(shown), step, model: Ghost(g) },
            ),
        };
        match shown {
            Signal::Done(a) => ConduitM::Pure(Box::new(a)),
            other => ConduitM::join(other, Chain::new(head)),
        }
    }

    /// The stage that shows `shown` in the state `state`, and that, resumed
    /// with an event, moves to the state and shows the signal that `step`
    /// returns for its state and the event.
    ///
    /// The contract of `step` has to fix what `step` returns. Where that is
    /// known as a function, `unfold_as` states the result over it.
    pub fn unfold<S: 'a, F: Fn(S, Event<I>) -> (S, Signal<O, A>) + 'a>(
        state: S,
        shown: Signal<O, A>,
        step: F,
    ) -> (r: Self)
        requires
            total_step(step),
            computes_step(step, step_function(step)),
        ensures
            r.wf(),
            r@ == unfolded(step_function(step), state, shown).now(),
            shown matches Signal::Done(a) ==> r matches ConduitM::Pure(b) && *b == a,
            shown is Wait ==> r is Await,
            shown matches Signal::Emit(o) ==> r matches ConduitM::Yield(p, _) && *p == o,
    {
        Self::unfold_as(state, shown, step, Ghost(step_function(step)))
    }
}

} // verus!
