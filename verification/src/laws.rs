//! Laws that relate the operations to each other.
//!
//! Each law is stated over the behaviours that the contracts of the
//! operations speak of, so it holds of every stage that the operations
//! return.

use crate::behavior::{bind, lemma_behavior_ext, lemma_bind_finished, Behavior, Event, Signal};
use crate::connect::{connect_in, connect_result, connects, lemma_connect_fuel, lemma_connect_result, Void};
use crate::fuse::{
    advance, at_rest, fuse_at, fused, fuses, fuses_along, hand_off, lemma_fused_after,
    lemma_fused_settled, lemma_fuses_settled, lemma_rest_settled, lemma_settle_step, settled,
    settles,
};
use crate::generalize::{
    consumer, lemma_consumer_after, lemma_producer_after, lemma_producer_skipped,
    lemma_ready_skipped, lemma_silent_step, lemma_steady_resumed, producer, silent, steady,
};
use crate::relay::{lemma_relay_steps, relay, relayed};
use vstd::prelude::*;

verus! {

/// Left identity of composition: a stage that has finished with `a`,
/// followed by `rest`, is `rest` applied to `a`.
pub proof fn law_finished_then<I, O, A, B>(a: A, rest: spec_fn(A) -> Behavior<I, O, B>)
    ensures
        bind(Behavior::<I, O, A>::finished(a), rest) == rest(a),
{
    lemma_bind_finished(Behavior::<I, O, A>::finished(a), rest);
}

/// A finished stage is at its end: whatever it is resumed with, it stays
/// finished with the same result, and it answers every sequence of events
/// with that result.
pub proof fn law_finished_stays<I, O, A>(a: A, e: Event<I>, h: Seq<Event<I>>)
    ensures
        Behavior::<I, O, A>::finished(a).step(e) == Behavior::<I, O, A>::finished(a),
        Behavior::<I, O, A>::finished(a).answer(h) == Signal::<O, A>::Done(a),
{
    lemma_behavior_ext(
        Behavior::<I, O, A>::finished(a).step(e),
        Behavior::<I, O, A>::finished(a),
    );
}

/// A finished sink ends the run: its result is the result, whatever the
/// source is and however it would go on.
pub proof fn law_finished_sink<O, B>(
    source: Behavior<(), O, ()>,
    sink: Behavior<O, Void, B>,
    fuel: nat,
)
    requires
        sink.head() is Done,
    ensures
        connects(source, sink),
        connect_in(source, sink, fuel) == Some(sink.head()->Done_0),
        connect_result(source, sink) == sink.head()->Done_0,
{
    lemma_connect_result(source, sink, fuel);
}

/// A finished downstream stage ends the fusion: the fused stage has
/// finished with its result, whatever upstream is and however it would go
/// on.
pub proof fn law_finished_downstream<I, O, C, R>(up: Behavior<I, O, ()>, down: Behavior<O, C, R>)
    requires
        down.head() is Done,
    ensures
        fuses(up, down),
        fused(up, down) == Behavior::<I, C, R>::finished(down.head()->Done_0),
{
    lemma_rest_settled(up, down);
    assert forall|h: Seq<Event<I>>| #[trigger] fuses_along(up, down, h) by {}
    assert forall|h: Seq<Event<I>>| #[trigger]
        fused(up, down).answer(h) == Behavior::<I, C, R>::finished(down.head()->Done_0).answer(
            h,
        ) by {
        assert(fused(up, down).answer(h) == fuse_at(up, down, h));
    }
    lemma_behavior_ext(fused(up, down), Behavior::<I, C, R>::finished(down.head()->Done_0));
}

/// The result of a sink that is told `None` each time it waits, if it
/// finishes within `fuel` rounds.
pub open spec fn drain_in<O, B>(sink: Behavior<O, Void, B>, fuel: nat) -> Option<B>
    decreases fuel,
{
    match sink.head() {
        Signal::Done(b) => Some(b),
        Signal::Emit(_) => None,
        Signal::Wait => if fuel == 0 {
            None
        } else {
            drain_in(sink.step(Event::Input(None)), (fuel - 1) as nat)
        },
    }
}

/// Exhaustion lasts: once the source has finished, it is not resumed again,
/// and every input that the sink waits for from then on is `None`.
pub proof fn law_exhausted_source<O, B>(
    source: Behavior<(), O, ()>,
    sink: Behavior<O, Void, B>,
    fuel: nat,
)
    requires
        source.head() is Done,
    ensures
        connect_in(source, sink, fuel) == drain_in(sink, fuel),
    decreases fuel,
{
    if sink.head() is Wait && fuel > 0 {
        law_exhausted_source(source, sink.step(Event::Input(None)), (fuel - 1) as nat);
    }
}

/// The source that yields `items` in order and then finishes.
pub open spec fn listing<O>(items: Seq<O>) -> Behavior<(), O, ()> {
    Behavior {
        at: |h: Seq<Event<()>>|
            if h.len() < items.len() {
                Signal::Emit(items[h.len() as int])
            } else {
                Signal::Done(())
            },
    }
}

/// The sink as it stands once it has been given `items` in order, one for
/// each time it waits; what is left of `items` once it no longer waits is
/// not given.
pub open spec fn feed_all<O, B>(sink: Behavior<O, Void, B>, items: Seq<O>) -> Behavior<O, Void, B>
    decreases items.len(),
{
    if items.len() == 0 || !(sink.head() is Wait) {
        sink
    } else {
        feed_all(sink.step(Event::Input(Some(items[0]))), items.drop_first())
    }
}

/// What remains of a listing once its first item was taken is the listing
/// of the other items.
proof fn lemma_listing_step<O>(items: Seq<O>)
    requires
        items.len() > 0,
    ensures
        listing(items).head() == Signal::<O, ()>::Emit(items[0]),
        listing(items).step(Event::Next) == listing(items.drop_first()),
{
    let rest = items.drop_first();
    assert forall|h: Seq<Event<()>>| #[trigger]
        listing(items).step(Event::Next).answer(h) == listing(rest).answer(h) by {
        let eh = seq![Event::<()>::Next] + h;
        assert(eh.len() == h.len() + 1);
        assert(listing(items).after(Event::Next).answer(h) == listing(items).answer(eh));
        let first = seq![Event::<()>::Next] + Seq::empty();
        assert(first.len() == 1);
        assert(listing(items).after(Event::Next).head() == listing(items).answer(first));
    }
    lemma_behavior_ext(listing(items).step(Event::Next), listing(rest));
}

/// Order is kept, and nothing is dropped or given twice: connected to a
/// source that yields `items`, the sink receives exactly these, in this
/// order, as long as it waits, and `None` from then on.
pub proof fn law_listing_connect<O, B>(items: Seq<O>, sink: Behavior<O, Void, B>, fuel: nat)
    ensures
        connect_in(listing(items), sink, items.len() + fuel) == drain_in(
            feed_all(sink, items),
            fuel,
        ),
    decreases items.len(),
{
    if !(sink.head() is Wait) {
    } else if items.len() == 0 {
        law_exhausted_source(listing(items), sink, fuel);
    } else {
        lemma_listing_step(items);
        law_listing_connect(items.drop_first(), sink.step(Event::Input(Some(items[0]))), fuel);
    }
}

/// A run sees of a finished source only that it has finished.
proof fn lemma_connect_source_now<O, B>(
    source: Behavior<(), O, ()>,
    sink: Behavior<O, Void, B>,
    fuel: nat,
)
    ensures
        connect_in(source.now(), sink, fuel) == connect_in(source, sink, fuel),
{
    if source.head() is Done {
        law_exhausted_source(source, sink, fuel);
        law_exhausted_source(source.now(), sink, fuel);
    }
}

/// A run sees of a finished sink only its result.
proof fn lemma_connect_sink_now<O, B>(
    source: Behavior<(), O, ()>,
    sink: Behavior<O, Void, B>,
    fuel: nat,
)
    ensures
        connect_in(source, sink.now(), fuel) == connect_in(source, sink, fuel),
{
}

/// Where a stage fused with the pass-through stage comes to rest.
pub open spec fn relay_rest<I, O>(up: Behavior<I, O, ()>) -> (
    Behavior<I, O, ()>,
    Behavior<O, O, ()>,
) {
    match up.head() {
        Signal::Wait => (up, relay::<O>()),
        Signal::Done(_) => (up, relay::<O>().step(Event::Input(None))),
        Signal::Emit(o) => (up.step(Event::Next), relayed(o)),
    }
}

/// A stage fused with the pass-through stage comes to rest after one
/// hand-off at most.
proof fn lemma_relay_settles<I, O>(up: Behavior<I, O, ()>)
    ensures
        settles(up, relay::<O>()),
        settled(up, relay::<O>()) == relay_rest::<I, O>(up),
        at_rest(relay_rest::<I, O>(up).0, relay_rest::<I, O>(up).1),
{
    let rest = relay_rest::<I, O>(up);
    match up.head() {
        Signal::Wait => {
            lemma_relay_steps::<O>(arbitrary());
            lemma_rest_settled(up, relay::<O>());
        },
        Signal::Done(_) => {
            lemma_relay_steps::<O>(arbitrary());
            assert(hand_off(up, relay::<O>()) == rest);
            lemma_rest_settled(rest.0, rest.1);
            lemma_settle_step(up, relay::<O>());
        },
        Signal::Emit(o) => {
            lemma_relay_steps(o);
            assert(hand_off(up, relay::<O>()) == rest);
            lemma_rest_settled(rest.0, rest.1);
            lemma_settle_step(up, relay::<O>());
        },
    }
}

/// Any stage can be fused with the pass-through stage: the pair comes to
/// rest whatever it is resumed with.
proof fn lemma_relay_fuses_along<I, O>(up: Behavior<I, O, ()>, h: Seq<Event<I>>)
    ensures
        fuses_along(up, relay::<O>(), h),
    decreases h.len(),
{
    lemma_relay_settles(up);
    let rest = settled(up, relay::<O>());
    if h.len() > 0 && !(rest.1.head() is Done) {
        match up.head() {
            Signal::Wait => {
                lemma_relay_steps::<O>(arbitrary());
                assert(advance(rest.0, rest.1, h[0]) == (up.step(h[0]), relay::<O>()));
                lemma_relay_fuses_along(up.step(h[0]), h.drop_first());
            },
            Signal::Done(_) => {
                lemma_relay_steps::<O>(arbitrary());
            },
            Signal::Emit(o) => {
                lemma_relay_steps(o);
                assert(advance(rest.0, rest.1, h[0]) == (up.step(Event::Next), relay::<O>()));
                lemma_relay_fuses_along(up.step(Event::Next), h.drop_first());
            },
        }
    }
}

/// Any stage can be fused with the pass-through stage.
pub proof fn law_relay_fuses<I, O>(up: Behavior<I, O, ()>)
    ensures
        fuses(up, relay::<O>()),
{
    assert forall|h: Seq<Event<I>>| #[trigger] fuses_along(up, relay::<O>(), h) by {
        lemma_relay_fuses_along(up, h);
    }
}

/// A stage fused with the pass-through stage shows what the stage shows.
proof fn lemma_relay_head<I, O>(up: Behavior<I, O, ()>)
    ensures
        fused(up, relay::<O>()).head() == up.head(),
{
    lemma_relay_settles(up);
    let rest = relay_rest::<I, O>(up);
    assert(fused(up, relay::<O>()).head() == fuse_at(up, relay::<O>(), Seq::empty()));
    match up.head() {
        Signal::Wait => {
            lemma_relay_steps::<O>(arbitrary());
            assert(rest.1.head() is Wait);
        },
        Signal::Done(x) => {
            lemma_relay_steps::<O>(arbitrary());
            assert(rest.1.head() is Done);
            assert(rest.1.head()->Done_0 == x);
        },
        Signal::Emit(o) => {
            lemma_relay_steps(o);
            assert(rest.1.head() == Signal::<O, ()>::Emit(o));
        },
    }
}

/// A stage that has not finished, fused with the pass-through stage and
/// resumed, is what remains of the stage, fused with the pass-through
/// stage.
proof fn lemma_relay_step<I, O>(up: Behavior<I, O, ()>, e: Event<I>)
    requires
        up.accepts(e),
    ensures
        fused(up, relay::<O>()).step(e) == fused(up.step(e), relay::<O>()).now(),
{
    lemma_relay_settles(up);
    law_relay_fuses(up);
    lemma_fused_settled(up, relay::<O>());
    let rest = relay_rest::<I, O>(up);
    match up.head() {
        Signal::Wait => {
            lemma_relay_steps::<O>(arbitrary());
            lemma_fused_after(up, relay::<O>(), e);
            assert(advance(up, relay::<O>(), e) == (up.step(e), relay::<O>()));
        },
        Signal::Done(_) => {},
        Signal::Emit(o) => {
            lemma_relay_steps(o);
            lemma_fuses_settled(up, relay::<O>());
            lemma_fused_after(rest.0, rest.1, e);
            assert(advance(rest.0, rest.1, e) == (up.step(e), relay::<O>()));
        },
    }
}

/// Within any number of rounds that lets the source finish the sink, the
/// source fused with the pass-through stage gives the same result.
proof fn lemma_relay_connect_in<O, B>(
    source: Behavior<(), O, ()>,
    sink: Behavior<O, Void, B>,
    fuel: nat,
)
    requires
        connect_in(source, sink, fuel) is Some,
    ensures
        connect_in(fused(source, relay::<O>()), sink, fuel) == connect_in(source, sink, fuel),
    decreases fuel,
{
    let through = fused(source, relay::<O>());
    lemma_relay_head(source);
    if sink.head() is Wait {
        match source.head() {
            Signal::Wait => {
                let e = Event::Input(Some(()));
                lemma_relay_step(source, e);
                lemma_relay_connect_in(source.step(e), sink, (fuel - 1) as nat);
                lemma_connect_source_now(
                    fused(source.step(e), relay::<O>()),
                    sink,
                    (fuel - 1) as nat,
                );
            },
            Signal::Done(_) => {
                law_exhausted_source(source, sink, fuel);
                law_exhausted_source(through, sink, fuel);
            },
            Signal::Emit(o) => {
                let next = source.step(Event::Next);
                let fed = sink.step(Event::Input(Some(o)));
                lemma_relay_step(source, Event::Next);
                lemma_relay_connect_in(next, fed, (fuel - 1) as nat);
                lemma_connect_source_now(fused(next, relay::<O>()), fed, (fuel - 1) as nat);
            },
        }
    }
}

/// Fusing with the pass-through stage changes nothing: where connecting
/// `source` to `sink` finishes the sink, so does connecting the fused
/// source, with the same result.
pub proof fn law_relay_connect<O, B>(source: Behavior<(), O, ()>, sink: Behavior<O, Void, B>)
    requires
        connects(source, sink),
    ensures
        fuses(source, relay::<O>()),
        connects(fused(source, relay::<O>()), sink),
        connect_result(fused(source, relay::<O>()), sink) == connect_result(source, sink),
{
    law_relay_fuses(source);
    let fuel = choose|fuel: nat| (#[trigger] connect_in(source, sink, fuel)) is Some;
    lemma_connect_result(source, sink, fuel);
    lemma_relay_connect_in(source, sink, fuel);
    lemma_connect_result(fused(source, relay::<O>()), sink, fuel);
}

/// Within any number of rounds that lets the source finish the sink, the
/// source as a producer gives the same result.
proof fn lemma_producer_connect_in<O, B>(
    source: Behavior<(), O, ()>,
    sink: Behavior<O, Void, B>,
    fuel: nat,
)
    requires
        steady(source),
        connect_in(source, sink, fuel) is Some,
    ensures
        connect_in(producer::<(), O>(source), sink, fuel) == connect_in(source, sink, fuel),
    decreases fuel,
{
    lemma_producer_skipped::<(), O>(source);
    if sink.head() is Wait {
        match source.head() {
            Signal::Wait => {
                let next = source.step(Event::Input(Some(())));
                lemma_steady_resumed(source);
                lemma_producer_skipped::<(), O>(next);
                lemma_producer_connect_in(next, sink, (fuel - 1) as nat);
                lemma_connect_fuel(producer::<(), O>(next), sink, (fuel - 1) as nat, fuel);
            },
            Signal::Done(_) => {
                lemma_ready_skipped(source);
                law_exhausted_source(source, sink, fuel);
                law_exhausted_source(producer::<(), O>(source), sink, fuel);
            },
            Signal::Emit(o) => {
                lemma_ready_skipped(source);
                let next = source.step(Event::Next);
                let fed = sink.step(Event::Input(Some(o)));
                lemma_producer_after::<(), O>(source, Event::Next);
                lemma_producer_connect_in(next, fed, (fuel - 1) as nat);
                lemma_connect_source_now(producer::<(), O>(next), fed, (fuel - 1) as nat);
            },
        }
    }
}

/// The cast of a source keeps its behaviour: where connecting `source` to
/// `sink` finishes the sink, so does connecting the source as a producer,
/// with the same result.
pub proof fn law_producer_connect<O, B>(source: Behavior<(), O, ()>, sink: Behavior<O, Void, B>)
    requires
        steady(source),
        connects(source, sink),
    ensures
        connects(producer::<(), O>(source), sink),
        connect_result(producer::<(), O>(source), sink) == connect_result(source, sink),
{
    let fuel = choose|fuel: nat| (#[trigger] connect_in(source, sink, fuel)) is Some;
    lemma_connect_result(source, sink, fuel);
    lemma_producer_connect_in(source, sink, fuel);
    lemma_connect_result(producer::<(), O>(source), sink, fuel);
}

/// Within any number of rounds, the sink as a consumer gives what the sink
/// gives.
proof fn lemma_consumer_connect_in<O, B>(
    source: Behavior<(), O, ()>,
    sink: Behavior<O, Void, B>,
    fuel: nat,
)
    requires
        silent(sink),
    ensures
        connect_in(source, consumer::<O, Void, B>(sink), fuel) == connect_in(source, sink, fuel),
    decreases fuel,
{
    lemma_silent_step(sink, Event::Next);
    if sink.head() is Wait && fuel > 0 {
        match source.head() {
            Signal::Wait => {
                lemma_consumer_connect_in(
                    source.step(Event::Input(Some(()))),
                    sink,
                    (fuel - 1) as nat,
                );
            },
            Signal::Done(_) => {
                let e = Event::Input(None);
                lemma_silent_step(sink, e);
                lemma_consumer_after::<O, Void, B>(sink, e);
                lemma_consumer_connect_in(source, sink.step(e), (fuel - 1) as nat);
                lemma_connect_sink_now(
                    source,
                    consumer::<O, Void, B>(sink.step(e)),
                    (fuel - 1) as nat,
                );
            },
            Signal::Emit(o) => {
                let e = Event::Input(Some(o));
                lemma_silent_step(sink, e);
                lemma_consumer_after::<O, Void, B>(sink, e);
                lemma_consumer_connect_in(
                    source.step(Event::Next),
                    sink.step(e),
                    (fuel - 1) as nat,
                );
                lemma_connect_sink_now(
                    source.step(Event::Next),
                    consumer::<O, Void, B>(sink.step(e)),
                    (fuel - 1) as nat,
                );
            },
        }
    }
}

/// The cast of a sink keeps its behaviour: connecting `source` to the sink
/// as a consumer finishes the sink exactly when connecting it to the sink
/// does, with the same result.
pub proof fn law_consumer_connect<O, B>(source: Behavior<(), O, ()>, sink: Behavior<O, Void, B>)
    requires
        silent(sink),
        connects(source, sink),
    ensures
        connects(source, consumer::<O, Void, B>(sink)),
        connect_result(source, consumer::<O, Void, B>(sink)) == connect_result(source, sink),
{
    let fuel = choose|fuel: nat| (#[trigger] connect_in(source, sink, fuel)) is Some;
    lemma_connect_result(source, sink, fuel);
    lemma_consumer_connect_in(source, sink, fuel);
    lemma_connect_result(source, consumer::<O, Void, B>(sink), fuel);
}

} // verus!
