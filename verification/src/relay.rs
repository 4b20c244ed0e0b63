//! The pass-through stage.

use crate::behavior::{lemma_behavior_ext, Behavior, Event, Signal};
use crate::conduit::ConduitM;
use crate::connect::Conduit;
use crate::kleisli::Kleisli;
use crate::machine::{Chain, Machine, Unit};
use vstd::prelude::*;

verus! {

/// The signal of the pass-through stage after the events `h`.
pub open spec fn relay_at<T>(h: Seq<Event<T>>) -> Signal<T, ()>
    decreases h.len(),
{
    if h.len() == 0 {
        Signal::Wait
    } else {
        match h[0] {
            Event::Input(None) => Signal::Done(()),
            Event::Input(Some(v)) => if h.len() == 1 {
                Signal::Emit(v)
            } else {
                relay_at(h.skip(2))
            },
            Event::Next => relay_at(h.drop_first()),
        }
    }
}

/// The pass-through stage: it waits for an input, yields it, and waits
/// again; when told that there is no more, it finishes.
pub open spec fn relay<T>() -> Behavior<T, T, ()> {
    Behavior { at: |h: Seq<Event<T>>| relay_at(h) }
}

/// The pass-through stage holding `v`, which it has just yielded.
pub open spec fn relayed<T>(v: T) -> Behavior<T, T, ()> {
    relay::<T>().step(Event::Input(Some(v)))
}

/// What the pass-through stage does in each of its states.
pub proof fn lemma_relay_steps<T>(v: T)
    ensures
        relay::<T>().head() is Wait,
        relay::<T>().step(Event::Input(None)).head() is Done,
        relayed(v).head() == Signal::<T, ()>::Emit(v),
        relayed(v).step(Event::Next) == relay::<T>(),
{
    let none = seq![Event::<T>::Input(None)] + Seq::empty();
    assert(none[0] == Event::<T>::Input(None));
    let some = seq![Event::Input(Some(v))] + Seq::empty();
    assert(some[0] == Event::Input(Some(v)));
    assert(relay::<T>().after(Event::Input(Some(v))).head() == relay_at(some));
    assert forall|h: Seq<Event<T>>| #[trigger]
        relayed(v).step(Event::Next).answer(h) == relay::<T>().answer(h) by {
        let full = seq![Event::Input(Some(v))] + (seq![Event::Next] + h);
        assert(full[0] == Event::Input(Some(v)));
        assert(full.skip(2) =~= h);
        assert(relayed(v).after(Event::Next).answer(h) == relay_at(full));
        let first = seq![Event::<T>::Next] + Seq::empty();
        let both = seq![Event::Input(Some(v))] + first;
        assert(both[0] == Event::Input(Some(v)));
        assert(both.skip(2) =~= Seq::<Event<T>>::empty());
        assert(relayed(v).after(Event::Next).head() == relay_at(both));
    }
    lemma_behavior_ext(relayed(v).step(Event::Next), relay::<T>());
}

/// The pass-through stage as a machine: it waits, or holds the value that
/// it has just yielded.
pub(crate) struct Relay<T> {
    pub(crate) held: Option<Ghost<T>>,
}

impl<T> Machine<T, T, ()> for Relay<T> {
    closed spec fn inv(&self) -> bool {
        true
    }

    closed spec fn behavior(&self) -> Behavior<T, T, ()> {
        match self.held {
            None => relay::<T>(),
            Some(v) => relayed(v@),
        }
    }

    fn resume(&mut self, e: Event<T>) -> (s: Signal<T, ()>) {
        proof {
            let first = seq![e] + Seq::empty();
            assert(first[0] == e);
            if self.held is Some {
                lemma_relay_steps(self.held->Some_0@);
            } else if e is Input && e->Input_0 is Some {
                lemma_relay_steps(e->Input_0->Some_0);
            }
        }
        match self.held {
            None => match e {
                Event::Input(Some(v)) => {
                    self.held = Some(Ghost(v));
                    Signal::Emit(v)
                },
                _ => Signal::Done(()),
            },
            Some(_) => {
                self.held = None;
                Signal::Wait
            },
        }
    }
}

/// The stage that passes every input downstream as it is, and finishes
/// when upstream has no more.
pub fn identity_conduit<'a, T: 'a>() -> (r: Conduit<'a, T, T>)
    ensures
        r.wf(),
        r is Await,
        r@ == relay::<T>(),
{
    proof {
        lemma_relay_steps::<T>(arbitrary());
    }
    let head = Unit { inner: Box::new(Relay { held: None }) };
    ConduitM::Await(Kleisli::from_chain(Chain::new(head)))
}

} // verus!
