//! The two generalising casts: a source as a stage with any input type, a
//! sink as a stage with any output type.

use crate::behavior::{lemma_behavior_ext, Behavior, Event, Signal};
use crate::conduit::ConduitM;
use crate::connect::Void;
use crate::kleisli::Kleisli;
use crate::machine::{Chain, Machine, Unit};
use vstd::prelude::*;

verus! {

/// The source as it stands once it no longer waits, if that takes at most
/// `fuel` resumptions. A source that waits is resumed with `Some(())`.
pub open spec fn skip<O>(source: Behavior<(), O, ()>, fuel: nat) -> Option<Behavior<(), O, ()>>
    decreases fuel,
{
    if !(source.head() is Wait) {
        Some(source)
    } else if fuel == 0 {
        None
    } else {
        skip(source.step(Event::Input(Some(()))), (fuel - 1) as nat)
    }
}

/// Whether the source stops waiting.
pub open spec fn skips<O>(source: Behavior<(), O, ()>) -> bool {
    exists|fuel: nat| (#[trigger] skip(source, fuel)) is Some
}

/// The source as it stands once it no longer waits.
pub open spec fn skipped<O>(source: Behavior<(), O, ()>) -> Behavior<(), O, ()> {
    let fuel = choose|fuel: nat| (#[trigger] skip(source, fuel)) is Some;
    skip(source, fuel)->Some_0
}

/// Whether the source stops waiting now and after each of its next `n`
/// outputs.
pub open spec fn steady_for<O>(source: Behavior<(), O, ()>, n: nat) -> bool
    decreases n,
{
    &&& skips(source)
    &&& (skipped(source).head() is Done || n == 0 || steady_for(
        skipped(source).step(Event::Next),
        (n - 1) as nat,
    ))
}

/// Whether the source never waits for ever: between two outputs, and before
/// it finishes, it asks for input only finitely often.
pub open spec fn steady<O>(source: Behavior<(), O, ()>) -> bool {
    forall|n: nat| #[trigger] steady_for(source, n)
}

/// The signal of the source as a producer after the events `h`.
pub open spec fn produce_at<I, O>(source: Behavior<(), O, ()>, h: Seq<Event<I>>) -> Signal<O, ()>
    decreases h.len(),
{
    let ready = skipped(source);
    match ready.head() {
        Signal::Done(x) => Signal::Done(x),
        shown => if h.len() == 0 {
            shown
        } else {
            produce_at(ready.step(Event::Next), h.drop_first())
        },
    }
}

/// The source as a stage with inputs of type `I`: it never waits, yields
/// what the source yields, in the same order, and finishes when the source
/// does. Whatever it is resumed with, it goes on as the source does after
/// its output was taken.
pub open spec fn producer<I, O>(source: Behavior<(), O, ()>) -> Behavior<I, O, ()> {
    Behavior { at: |h: Seq<Event<I>>| produce_at(source, h) }
}

/// More resumptions than needed do not change where the source stops
/// waiting.
pub proof fn lemma_skip_fuel<O>(source: Behavior<(), O, ()>, n: nat, m: nat)
    requires
        skip(source, n) is Some,
        n <= m,
    ensures
        skip(source, m) == skip(source, n),
        !(skip(source, n)->Some_0.head() is Wait),
    decreases n,
{
    if source.head() is Wait {
        lemma_skip_fuel(source.step(Event::Input(Some(()))), (n - 1) as nat, (m - 1) as nat);
    }
}

/// Where the source stops waiting is what any sufficient number of
/// resumptions gives.
pub proof fn lemma_skipped<O>(source: Behavior<(), O, ()>, n: nat)
    requires
        skip(source, n) is Some,
    ensures
        skips(source),
        skip(source, n) == Some(skipped(source)),
        !(skipped(source).head() is Wait),
{
    let fuel = choose|fuel: nat| (#[trigger] skip(source, fuel)) is Some;
    if fuel <= n {
        lemma_skip_fuel(source, fuel, n);
    } else {
        lemma_skip_fuel(source, n, fuel);
    }
}

/// A source that does not wait stays where it is.
pub proof fn lemma_ready_skipped<O>(source: Behavior<(), O, ()>)
    requires
        !(source.head() is Wait),
    ensures
        skips(source),
        skipped(source) == source,
{
    assert(skip(source, 0) == Some(source));
    lemma_skipped(source, 0);
}

/// A steady source that waits is steady once it is resumed, and stops
/// waiting in the same place.
pub proof fn lemma_steady_resumed<O>(source: Behavior<(), O, ()>)
    requires
        source.head() is Wait,
        steady(source),
    ensures
        steady(source.step(Event::Input(Some(())))),
        skipped(source.step(Event::Input(Some(())))) == skipped(source),
{
    let next = source.step(Event::Input(Some(())));
    assert(steady_for(source, 0));
    let fuel = choose|fuel: nat| (#[trigger] skip(source, fuel)) is Some;
    lemma_skipped(source, fuel);
    assert(skip(source, fuel) == skip(next, (fuel - 1) as nat));
    lemma_skipped(next, (fuel - 1) as nat);
    assert forall|n: nat| #[trigger] steady_for(next, n) by {
        assert(steady_for(source, n));
    }
}

/// The producer behaves as the source does once it no longer waits, and a
/// steady source is steady from there.
pub proof fn lemma_producer_skipped<I, O>(source: Behavior<(), O, ()>)
    requires
        steady(source),
    ensures
        skips(source),
        steady(skipped(source)),
        producer::<I, O>(source) == producer::<I, O>(skipped(source)),
{
    assert(steady_for(source, 0));
    let ready = skipped(source);
    let fuel = choose|fuel: nat| (#[trigger] skip(source, fuel)) is Some;
    lemma_skipped(source, fuel);
    lemma_ready_skipped(ready);
    assert forall|n: nat| #[trigger] steady_for(ready, n) by {
        assert(steady_for(source, n));
    }
    assert forall|h: Seq<Event<I>>| #[trigger]
        producer::<I, O>(source).answer(h) == producer::<I, O>(ready).answer(h) by {
        assert(produce_at::<I, O>(source, h) == produce_at::<I, O>(ready, h));
    }
    lemma_behavior_ext(producer::<I, O>(source), producer::<I, O>(ready));
}

/// A producer that has yielded goes on as the producer of what remains of
/// the source, which is steady if the source is.
pub proof fn lemma_producer_after<I, O>(source: Behavior<(), O, ()>, e: Event<I>)
    requires
        source.head() is Emit,
        steady(source),
    ensures
        steady(source.step(Event::Next)),
        producer::<I, O>(source).after(e) == producer::<I, O>(source.step(Event::Next)),
{
    lemma_ready_skipped(source);
    let next = source.step(Event::Next);
    assert forall|n: nat| #[trigger] steady_for(next, n) by {
        assert(steady_for(source, n + 1));
    }
    assert forall|h: Seq<Event<I>>| #[trigger]
        producer::<I, O>(source).after(e).answer(h) == producer::<I, O>(next).answer(h) by {
        let eh = seq![e] + h;
        assert(eh.drop_first() =~= h);
        assert(produce_at::<I, O>(source, eh) == produce_at::<I, O>(next, h));
    }
    lemma_behavior_ext(producer::<I, O>(source).after(e), producer::<I, O>(next));
}

/// Runs a source on until it no longer waits.
pub(crate) fn seek<'a, O>(source: ConduitM<'a, (), O, ()>) -> (r: ConduitM<'a, (), O, ()>)
    requires
        source.wf(),
        skips(source@),
    ensures
        r.wf(),
        r@ == skipped(source@),
        !(r is Await),
        !(source is Await) ==> r == source,
{
    let mut s = source;
    let ghost mut fuel = choose|fuel: nat| (#[trigger] skip(source@, fuel)) is Some;
    let ghost goal = skipped(source@);
    let ghost mut untouched = true;
    proof {
        lemma_skipped(source@, fuel);
    }
    loop
        invariant
            s.wf(),
            skip(s@, fuel) == Some(goal),
            goal == skipped(source@),
            untouched ==> s == source,
            !untouched ==> source is Await,
        decreases fuel,
    {
        match s {
            ConduitM::Await(k) => {
                s = k.run(Some(()));
            },
            other => {
                return other;
            },
        }
        proof {
            fuel = (fuel - 1) as nat;
            untouched = false;
        }
    }
}

/// A source as a machine with any input type.
#[verifier::reject_recursive_types(O)]
pub(crate) struct Producer<'a, O> {
    pub inner: Option<Kleisli<'a, (), (), O, ()>>,
}

impl<'a, I, O> Machine<I, O, ()> for Producer<'a, O> {
    closed spec fn inv(&self) -> bool {
        &&& self.inner matches Some(k)
        &&& k.inv()
        &&& k.behavior().head() is Emit
        &&& steady(k.behavior())
    }

    closed spec fn behavior(&self) -> Behavior<I, O, ()> {
        producer(self.inner->Some_0.behavior())
    }

    fn resume(&mut self, e: Event<I>) -> (s: Signal<O, ()>) {
        let k = self.inner.take().unwrap();
        proof {
            lemma_producer_after::<I, O>(k.behavior(), e);
            lemma_producer_skipped::<I, O>(k.behavior().step(Event::Next));
        }
        match seek(k.run(())) {
            ConduitM::Pure(x) => Signal::Done(*x),
            ConduitM::Yield(o, rest) => {
                self.inner = Some(rest);
                Signal::Emit(*o)
            },
            ConduitM::Await(_) => unreached(),
        }
    }
}

impl<'a, O: 'a> ConduitM<'a, (), O, ()> {
    /// Generalizes a source to a stage with inputs of any type `I`. The
    /// stage never asks for one: where the source waits, it is resumed with
    /// `Some(())` on the spot.
    pub fn to_producer<I: 'a>(self) -> (r: ConduitM<'a, I, O, ()>)
        requires
            self.wf(),
            steady(self@),
        ensures
            r.wf(),
            r@ == producer::<I, O>(self@),
            !(r is Await),
            self matches ConduitM::Pure(x) ==> r matches ConduitM::Pure(y) && y == x,
            self matches ConduitM::Yield(o, _) ==> r matches ConduitM::Yield(p, _) && p == o,
    {
        proof {
            lemma_producer_skipped::<I, O>(self@);
        }
        match seek(self) {
            ConduitM::Pure(x) => {
                proof {
                    lemma_ready_skipped(Behavior::<(), O, ()>::finished(*x));
                    lemma_behavior_ext(producer::<I, O>(self@), Behavior::finished(*x));
                }
                ConduitM::Pure(x)
            },
            ConduitM::Yield(o, k) => {
                let head = Unit { inner: Box::new(Producer { inner: Some(k) }) };
                proof {
                    lemma_ready_skipped(k.behavior());
                }
                ConduitM::Yield(o, Kleisli::from_chain(Chain::new(head)))
            },
            ConduitM::Await(_) => unreached(),
        }
    }
}

/// Whether the stage never yields, whatever it is resumed with.
pub open spec fn silent<I, O, A>(stage: Behavior<I, O, A>) -> bool {
    forall|h: Seq<Event<I>>| !(#[trigger] stage.answer(h) is Emit)
}

/// The signal of the sink as a consumer after the events `h`.
pub open spec fn consume_at<I, O, A>(sink: Behavior<I, Void, A>, h: Seq<Event<I>>) -> Signal<O, A>
    decreases h.len(),
{
    match sink.head() {
        Signal::Done(a) => Signal::Done(a),
        _ => if h.len() == 0 {
            Signal::Wait
        } else {
            consume_at(sink.step(h[0]), h.drop_first())
        },
    }
}

/// The sink as a stage with outputs of type `O`: it never yields, waits
/// where the sink waits, and finishes with the result of the sink.
pub open spec fn consumer<I, O, A>(sink: Behavior<I, Void, A>) -> Behavior<I, O, A> {
    Behavior { at: |h: Seq<Event<I>>| consume_at(sink, h) }
}

/// A silent stage stays silent when it is resumed.
pub proof fn lemma_silent_step<I, O, A>(stage: Behavior<I, O, A>, e: Event<I>)
    requires
        silent(stage),
    ensures
        silent(stage.step(e)),
        !(stage.head() is Emit),
{
    assert(stage.answer(Seq::empty()) == stage.head());
    assert forall|h: Seq<Event<I>>| !(#[trigger] stage.step(e).answer(h) is Emit) by {
        assert(stage.after(e).answer(h) == stage.answer(seq![e] + h));
        assert(stage.after(e).head() == stage.answer(seq![e] + Seq::empty()));
    }
}

/// A consumer that waits goes on as the consumer of what remains of the
/// sink.
pub proof fn lemma_consumer_after<I, O, A>(sink: Behavior<I, Void, A>, e: Event<I>)
    requires
        !(sink.head() is Done),
    ensures
        consumer::<I, O, A>(sink).after(e) == consumer::<I, O, A>(sink.step(e)),
{
    let next = sink.step(e);
    assert forall|h: Seq<Event<I>>| #[trigger]
        consumer::<I, O, A>(sink).after(e).answer(h) == consumer::<I, O, A>(next).answer(h) by {
        let eh = seq![e] + h;
        assert(eh[0] == e);
        assert(eh.drop_first() =~= h);
        assert(consume_at::<I, O, A>(sink, eh) == consume_at::<I, O, A>(next, h));
    }
    lemma_behavior_ext(consumer::<I, O, A>(sink).after(e), consumer::<I, O, A>(next));
}

/// A sink as a machine with any output type.
#[verifier::reject_recursive_types(I)]
#[verifier::reject_recursive_types(A)]
pub(crate) struct Consumer<'a, I, A> {
    pub inner: Option<Kleisli<'a, Option<I>, I, Void, A>>,
}

impl<'a, I, O, A> Machine<I, O, A> for Consumer<'a, I, A> {
    closed spec fn inv(&self) -> bool {
        &&& self.inner matches Some(k)
        &&& k.inv()
        &&& silent(k.behavior())
    }

    closed spec fn behavior(&self) -> Behavior<I, O, A> {
        consumer(self.inner->Some_0.behavior())
    }

    fn resume(&mut self, e: Event<I>) -> (s: Signal<O, A>) {
        let k = self.inner.take().unwrap();
        proof {
            k.lemma_suspended();
            lemma_silent_step(k.behavior(), e);
            lemma_consumer_after::<I, O, A>(k.behavior(), e);
            lemma_silent_step(k.behavior().step(e), e);
        }
        let x = match e {
            Event::Input(x) => x,
            Event::Next => None,
        };
        match k.run(x) {
            ConduitM::Pure(a) => Signal::Done(*a),
            ConduitM::Await(rest) => {
                self.inner = Some(rest);
                Signal::Wait
            },
            ConduitM::Yield(_, _) => unreached(),
        }
    }
}

impl<'a, I: 'a, A: 'a> ConduitM<'a, I, Void, A> {
    /// Generalizes a sink to a stage with outputs of any type `O`, of which
    /// it yields none. The stage is built anew, variant by variant.
    pub fn to_consumer<O: 'a>(self) -> (r: ConduitM<'a, I, O, A>)
        requires
            self.wf(),
            silent(self@),
        ensures
            r.wf(),
            r@ == consumer::<I, O, A>(self@),
            self matches ConduitM::Pure(a) ==> r matches ConduitM::Pure(b) && b == a,
            self is Await ==> r is Await,
    {
        proof {
            lemma_silent_step(self@, Event::Next);
        }
        match self {
            ConduitM::Pure(a) => {
                proof {
                    lemma_behavior_ext(consumer::<I, O, A>(self@), Behavior::finished(*a));
                }
                ConduitM::Pure(a)
            },
            ConduitM::Await(k) => {
                let head = Unit { inner: Box::new(Consumer { inner: Some(k) }) };
                ConduitM::Await(Kleisli::from_chain(Chain::new(head)))
            },
            ConduitM::Yield(_, _) => unreached(),
        }
    }
}

} // verus!
