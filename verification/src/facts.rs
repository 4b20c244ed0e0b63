//! Facts for callers: how the elementary stages step, and what suffices
//! for a stage to be silent, steady, or fit to be fused.

use crate::behavior::{
    bind, bind_at, lemma_bind_after, lemma_bind_finished, Behavior, Event, Signal,
};
use crate::fuse::{
    advance, at_rest, fuses, fuses_along, hand_off, lemma_rest_settled, lemma_settle_step,
    settled, settles,
};
use crate::generalize::{lemma_ready_skipped, silent, steady, steady_for};
use vstd::prelude::*;

verus! {

/// Resuming a composition whose first part is still running resumes that
/// first part; where the first part finishes there, what follows takes over.
pub proof fn law_bind_step<I, O, A, B>(
    first: Behavior<I, O, A>,
    rest: spec_fn(A) -> Behavior<I, O, B>,
    e: Event<I>,
)
    requires
        !(first.head() is Done),
    ensures
        bind(first, rest).step(e) == bind(first.step(e), rest).now(),
{
    lemma_bind_after(first, rest, e);
    if first.after(e).head() is Done {
        lemma_bind_finished(first.after(e), rest);
        lemma_bind_finished(first.step(e), rest);
    }
}

/// The stage that waits for one input finishes with the input it gets.
pub proof fn law_awaiting_step<I, O>(x: Option<I>)
    ensures
        Behavior::<I, O, Option<I>>::awaiting().head() is Wait,
        Behavior::<I, O, Option<I>>::awaiting().step(Event::Input(x)) == Behavior::<
            I,
            O,
            Option<I>,
        >::finished(x),
{
    let first = seq![Event::Input(x)] + Seq::empty();
    assert(first[0] == Event::Input(x));
}

/// The stage that has emitted a value finishes when control returns.
pub proof fn law_yielding_step<I, O>(o: O)
    ensures
        Behavior::<I, O, ()>::yielding(o).head() == Signal::<O, ()>::Emit(o),
        Behavior::<I, O, ()>::yielding(o).step(Event::Next) == Behavior::<I, O, ()>::finished(()),
{
    let first = seq![Event::<I>::Next] + Seq::empty();
    assert(first.len() == 1);
}

/// A stage that has finished is silent.
pub proof fn law_silent_finished<I, O, A>(a: A)
    ensures
        silent(Behavior::<I, O, A>::finished(a)),
{
}

/// The stage that waits for one input is silent.
pub proof fn law_silent_awaiting<I, O>()
    ensures
        silent(Behavior::<I, O, Option<I>>::awaiting()),
{
}

/// A silent stage followed by silent stages never yields after the events
/// `h`.
proof fn lemma_silent_bind_at<I, O, A, B>(
    first: Behavior<I, O, A>,
    rest: spec_fn(A) -> Behavior<I, O, B>,
    h: Seq<Event<I>>,
)
    requires
        silent(first),
        forall|a: A| silent(#[trigger] rest(a)),
    ensures
        !(bind_at(first, rest, h) is Emit),
    decreases h.len(),
{
    assert(first.answer(Seq::empty()) == first.head());
    match first.head() {
        Signal::Done(a) => {
            assert(silent(rest(a)));
            assert(rest(a).answer(h) == bind_at(first, rest, h));
        },
        _ => {
            if h.len() > 0 {
                assert forall|t: Seq<Event<I>>| !(#[trigger] first.after(h[0]).answer(t) is Emit) by {
                    assert(first.after(h[0]).answer(t) == first.answer(seq![h[0]] + t));
                }
                lemma_silent_bind_at(first.after(h[0]), rest, h.drop_first());
            }
        },
    }
}

/// A silent stage followed by silent stages is silent.
pub proof fn law_silent_bind<I, O, A, B>(
    first: Behavior<I, O, A>,
    rest: spec_fn(A) -> Behavior<I, O, B>,
)
    requires
        silent(first),
        forall|a: A| silent(#[trigger] rest(a)),
    ensures
        silent(bind(first, rest)),
{
    assert forall|h: Seq<Event<I>>| !(#[trigger] bind(first, rest).answer(h) is Emit) by {
        lemma_silent_bind_at(first, rest, h);
    }
}

/// A source that has finished is steady.
pub proof fn law_steady_finished<O>()
    ensures
        steady(Behavior::<(), O, ()>::finished(())),
{
    let done = Behavior::<(), O, ()>::finished(());
    lemma_ready_skipped(done);
    assert forall|n: nat| #[trigger] steady_for(done, n) by {}
}

/// The source that has emitted one value and has nothing more to do is
/// steady.
pub proof fn law_steady_yielding<O>(o: O)
    ensures
        steady(Behavior::<(), O, ()>::yielding(o)),
{
    let once = Behavior::<(), O, ()>::yielding(o);
    lemma_ready_skipped(once);
    law_yielding_step::<(), O>(o);
    law_steady_finished::<O>();
    assert forall|n: nat| #[trigger] steady_for(once, n) by {
        if n > 0 {
            assert(steady_for(Behavior::<(), O, ()>::finished(()), (n - 1) as nat));
        }
    }
}

/// Whether the stage finishes after at most `n` resumptions, whatever it is
/// resumed with.
pub open spec fn bounded<I, O, A>(stage: Behavior<I, O, A>, n: nat) -> bool
    decreases n,
{
    stage.head() is Done || (n > 0 && forall|e: Event<I>|
        bounded(#[trigger] stage.step(e), (n - 1) as nat))
}

/// A stage that finishes after at most `n` resumptions does so after at
/// most `m`, for every larger `m`.
proof fn lemma_bounded_more<I, O, A>(stage: Behavior<I, O, A>, n: nat, m: nat)
    requires
        bounded(stage, n),
        n <= m,
    ensures
        bounded(stage, m),
    decreases n,
{
    if !(stage.head() is Done) {
        assert forall|e: Event<I>| bounded(#[trigger] stage.step(e), (m - 1) as nat) by {
            lemma_bounded_more(stage.step(e), (n - 1) as nat, (m - 1) as nat);
        }
    }
}

/// A pair whose downstream stage finishes after at most `n` resumptions
/// comes to rest, and downstream is as near its end there.
proof fn lemma_bounded_settles<I, O, C, R>(
    up: Behavior<I, O, ()>,
    down: Behavior<O, C, R>,
    n: nat,
)
    requires
        bounded(down, n),
    ensures
        settles(up, down),
        bounded(settled(up, down).1, n),
    decreases n,
{
    if at_rest(up, down) {
        lemma_rest_settled(up, down);
    } else {
        let next = hand_off(up, down);
        lemma_bounded_settles(next.0, next.1, (n - 1) as nat);
        lemma_settle_step(up, down);
        lemma_bounded_more(settled(up, down).1, (n - 1) as nat, n);
    }
}

/// A pair whose downstream stage finishes after at most `n` resumptions
/// comes to rest now and after each of the events `h`.
proof fn lemma_bounded_fuses_along<I, O, C, R>(
    up: Behavior<I, O, ()>,
    down: Behavior<O, C, R>,
    n: nat,
    h: Seq<Event<I>>,
)
    requires
        bounded(down, n),
    ensures
        fuses_along(up, down, h),
    decreases h.len(),
{
    lemma_bounded_settles(up, down, n);
    let rest = settled(up, down);
    if !(rest.1.head() is Done) && h.len() > 0 {
        let next = advance(rest.0, rest.1, h[0]);
        if rest.1.head() is Emit {
            lemma_bounded_more(next.1, (n - 1) as nat, n);
        }
        lemma_bounded_fuses_along(next.0, next.1, n, h.drop_first());
    }
}

/// Any stage can be fused with a downstream stage that finishes after a
/// bounded number of resumptions.
pub proof fn law_bounded_fuses<I, O, C, R>(
    up: Behavior<I, O, ()>,
    down: Behavior<O, C, R>,
    n: nat,
)
    requires
        bounded(down, n),
    ensures
        fuses(up, down),
{
    assert forall|h: Seq<Event<I>>| #[trigger] fuses_along(up, down, h) by {
        lemma_bounded_fuses_along(up, down, n, h);
    }
}

} // verus!
