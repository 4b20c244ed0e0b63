//! The mathematical model of a pipeline stage.
//!
//! A stage is suspended computation: it waits for an input, or has just
//! emitted an output, or has finished with a result. Resuming it yields the
//! next such state. Its whole future is therefore a function from the events
//! it is resumed with to the signal it answers the last of them with.

use vstd::prelude::*;

verus! {

/// What a suspended stage is resumed with.
pub enum Event<I> {
    /// The next value from upstream, or `None` once upstream has no more.
    Input(Option<I>),
    /// Control returns after an output was taken.
    Next,
}

/// What a stage shows when it stops: its result, a request for input, or
/// an output.
pub enum Signal<O, A> {
    /// The stage has finished with this result.
    Done(A),
    /// The stage waits for an input.
    Wait,
    /// The stage passes this output downstream.
    Emit(O),
}

impl<O, A> Signal<O, A> {
    /// The same signal for a stage with another type of result. Only a
    /// signal other than `Done` keeps its meaning.
    pub open spec fn retag<B>(self) -> Signal<O, B> {
        match self {
            Signal::Done(_) => Signal::Wait,
            Signal::Wait => Signal::Wait,
            Signal::Emit(o) => Signal::Emit(o),
        }
    }
}

/// The behaviour of a stage: for every sequence of events, the signal with
/// which the stage stops after being resumed with each of them in turn.
/// The empty sequence gives the signal the stage shows now.
#[verifier::reject_recursive_types(I)]
pub ghost struct Behavior<I, O, A> {
    pub at: spec_fn(Seq<Event<I>>) -> Signal<O, A>,
}

impl<I, O, A> Behavior<I, O, A> {
    /// The signal with which the stage stops after the events `h`.
    pub open spec fn answer(self, h: Seq<Event<I>>) -> Signal<O, A> {
        (self.at)(h)
    }

    /// The signal the stage shows now.
    pub open spec fn head(self) -> Signal<O, A> {
        (self.at)(Seq::empty())
    }

    /// The behaviour that remains once the stage has been resumed with `e`.
    pub open spec fn after(self, e: Event<I>) -> Self {
        Behavior { at: |h: Seq<Event<I>>| (self.at)(seq![e] + h) }
    }

    /// The same behaviour, with nothing left behind a result: a stage that
    /// shows `Done` is the finished stage.
    pub open spec fn now(self) -> Self {
        match self.head() {
            Signal::Done(a) => Self::finished(a),
            _ => self,
        }
    }

    /// The stage as it stands once it has been resumed with `e`.
    pub open spec fn step(self, e: Event<I>) -> Self {
        self.after(e).now()
    }

    /// Whether `e` is the event the stage is waiting for.
    pub open spec fn accepts(self, e: Event<I>) -> bool {
        match self.head() {
            Signal::Done(_) => false,
            Signal::Wait => e is Input,
            Signal::Emit(_) => e is Next,
        }
    }

    /// The stage that has finished with `a`.
    pub open spec fn finished(a: A) -> Self {
        Behavior { at: |h: Seq<Event<I>>| Signal::Done(a) }
    }

    /// The stage that waits for one input and finishes with it.
    pub open spec fn awaiting() -> Behavior<I, O, Option<I>> {
        Behavior {
            at: |h: Seq<Event<I>>|
                if h.len() == 0 {
                    Signal::Wait
                } else {
                    match h[0] {
                        Event::Input(x) => Signal::Done(x),
                        Event::Next => Signal::Done(None),
                    }
                },
        }
    }

    /// The stage that has emitted `o` and finishes when resumed.
    pub open spec fn yielding(o: O) -> Behavior<I, O, ()> {
        Behavior {
            at: |h: Seq<Event<I>>|
                if h.len() == 0 {
                    Signal::Emit(o)
                } else {
                    Signal::Done(())
                },
        }
    }
}

/// The signal of `first` followed by `rest` after the events `h`: `first`
/// runs until it finishes, and `rest`, applied to its result, takes over
/// at that very moment.
pub open spec fn bind_at<I, O, A, B>(
    first: Behavior<I, O, A>,
    rest: spec_fn(A) -> Behavior<I, O, B>,
    h: Seq<Event<I>>,
) -> Signal<O, B>
    decreases h.len(),
{
    match first.head() {
        Signal::Done(a) => (rest(a).at)(h),
        Signal::Wait => if h.len() == 0 {
            Signal::Wait
        } else {
            bind_at(first.after(h[0]), rest, h.drop_first())
        },
        Signal::Emit(o) => if h.len() == 0 {
            Signal::Emit(o)
        } else {
            bind_at(first.after(h[0]), rest, h.drop_first())
        },
    }
}

/// Sequential composition: `first`, then `rest` applied to its result.
pub open spec fn bind<I, O, A, B>(
    first: Behavior<I, O, A>,
    rest: spec_fn(A) -> Behavior<I, O, B>,
) -> Behavior<I, O, B> {
    Behavior { at: |h: Seq<Event<I>>| bind_at(first, rest, h) }
}

/// Two behaviours that answer every sequence of events alike are equal.
pub proof fn lemma_behavior_ext<I, O, A>(x: Behavior<I, O, A>, y: Behavior<I, O, A>)
    requires
        forall|h: Seq<Event<I>>| #[trigger] x.answer(h) == y.answer(h),
    ensures
        x == y,
{
    assert forall|h: Seq<Event<I>>| #[trigger] (x.at)(h) == (y.at)(h) by {
        assert(x.answer(h) == y.answer(h));
    }
    assert(x.at =~= y.at);
}

/// A finished stage hands its result straight to what follows.
pub proof fn lemma_bind_finished<I, O, A, B>(
    first: Behavior<I, O, A>,
    rest: spec_fn(A) -> Behavior<I, O, B>,
)
    requires
        first.head() is Done,
    ensures
        bind(first, rest) == rest(first.head()->Done_0),
{
    lemma_behavior_ext(bind(first, rest), rest(first.head()->Done_0));
}

/// A composition whose first part is still running shows the signal of
/// that part.
pub proof fn lemma_bind_head<I, O, A, B>(
    first: Behavior<I, O, A>,
    rest: spec_fn(A) -> Behavior<I, O, B>,
)
    requires
        !(first.head() is Done),
    ensures
        bind(first, rest).head() == first.head().retag::<B>(),
{
}

/// Resuming a composition whose first part is still running resumes that
/// first part.
pub proof fn lemma_bind_after<I, O, A, B>(
    first: Behavior<I, O, A>,
    rest: spec_fn(A) -> Behavior<I, O, B>,
    e: Event<I>,
)
    requires
        !(first.head() is Done),
    ensures
        bind(first, rest).after(e) == bind(first.after(e), rest),
{
    assert forall|h: Seq<Event<I>>| #[trigger]
        bind(first, rest).after(e).answer(h) == bind(first.after(e), rest).answer(h) by {
        let eh = seq![e] + h;
        assert(eh[0] == e);
        assert(eh.drop_first() =~= h);
    }
    lemma_behavior_ext(bind(first, rest).after(e), bind(first.after(e), rest));
}

} // verus!
