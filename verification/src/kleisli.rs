//! Continuations: what remains of a suspended stage.

use crate::behavior::{
    bind, lemma_bind_after, lemma_bind_finished, lemma_bind_head, Behavior, Event, Signal,
};
use crate::conduit::{arrow, models, total, ConduitM};
use crate::machine::{Chain, Machine, Start, Step, Unit};
use core::marker::PhantomData;
use vstd::prelude::*;

verus! {

/// The continuation of a suspended stage: given a value of type `X`, it
/// runs the stage on to its next stop.
///
/// It owns the running stage and, in a queue behind it, the steps that were
/// appended to it, each of which takes the result of the one before.
#[verifier::reject_recursive_types(X)]
#[verifier::reject_recursive_types(I)]
#[verifier::reject_recursive_types(O)]
#[verifier::reject_recursive_types(A)]
pub struct Kleisli<'a, X, I, O, A> {
    chain: Chain<'a, I, O, A>,
    mark: PhantomData<X>,
}

/// The machine that waits for one input and finishes with it.
pub(crate) struct Receive {}

impl<I, O> Machine<I, O, Option<I>> for Receive {
    closed spec fn inv(&self) -> bool {
        true
    }

    closed spec fn behavior(&self) -> Behavior<I, O, Option<I>> {
        Behavior::<I, O, Option<I>>::awaiting()
    }

    fn resume(&mut self, e: Event<I>) -> (s: Signal<O, Option<I>>) {
        assert((seq![e] + Seq::empty())[0] == e);
        match e {
            Event::Input(x) => Signal::Done(x),
            Event::Next => Signal::Done(None),
        }
    }
}


/// The machine that has emitted a value and finishes when control returns.
pub(crate) struct Emitted<O> {
    pub out: Ghost<O>,
}

impl<I, O> Machine<I, O, ()> for Emitted<O> {
    closed spec fn inv(&self) -> bool {
        true
    }

    closed spec fn behavior(&self) -> Behavior<I, O, ()> {
        Behavior::<I, O, ()>::yielding(self.out@)
    }

    fn resume(&mut self, e: Event<I>) -> (s: Signal<O, ()>) {
        Signal::Done(())
    }
}

/// A chain as one machine.
#[verifier::reject_recursive_types(I)]
#[verifier::reject_recursive_types(O)]
#[verifier::reject_recursive_types(A)]
pub(crate) struct Sub<'a, I, O, A> {
    pub chain: Chain<'a, I, O, A>,
}

impl<'a, I, O, A> Machine<I, O, A> for Sub<'a, I, O, A> {
    closed spec fn inv(&self) -> bool {
        self.chain.inv()
    }

    closed spec fn behavior(&self) -> Behavior<I, O, A> {
        self.chain.behavior()
    }

    fn resume(&mut self, e: Event<I>) -> (s: Signal<O, A>) {
        self.chain.resume(e)
    }
}

/// A queued step: a function that waits for the result of the stage before
/// it.
pub(crate) struct Call<F, G> {
    pub f: F,
    pub model: Ghost<G>,
}

impl<'a, I: 'a, O: 'a, A: 'a, F: FnOnce(A) -> ConduitM<'a, I, O, A>> Start<'a, I, O, A> for Call<
    F,
    spec_fn(A) -> Behavior<I, O, A>,
> {
    closed spec fn inv(&self) -> bool {
        total(self.f) && models(self.f, self.model@)
    }

    closed spec fn entry(&self, a: A) -> Behavior<I, O, A> {
        (self.model@)(a)
    }

    fn start(self: Box<Self>, a: A) -> (r: (Signal<O, A>, Option<Unit<'a, I, O, A>>)) {
        let this = *self;
        let (s, rest) = (this.f)(a).split();
        match rest {
            Some(chain) => (s, Some(Unit { inner: Box::new(Sub { chain }) })),
            None => (s, None),
        }
    }
}

/// A stage followed by a function of its result: first the stage runs,
/// then the stage that the function returned.
#[verifier::reject_recursive_types(I)]
#[verifier::reject_recursive_types(O)]
#[verifier::reject_recursive_types(A)]
#[verifier::reject_recursive_types(B)]
pub(crate) struct Bind<'a, I, O, A, B, F> {
    pub first: Option<Chain<'a, I, O, A>>,
    pub f: Option<F>,
    pub model: Ghost<spec_fn(A) -> Behavior<I, O, B>>,
    pub second: Option<Chain<'a, I, O, B>>,
}

impl<'a, I, O, A, B, F: FnOnce(A) -> ConduitM<'a, I, O, B>> Machine<I, O, B> for Bind<
    'a,
    I,
    O,
    A,
    B,
    F,
> {
    closed spec fn inv(&self) -> bool {
        match self.first {
            Some(c) => c.inv() && self.f is Some && total(self.f->Some_0) && models(
                self.f->Some_0,
                self.model@,
            ),
            None => self.second is Some && self.second->Some_0.inv(),
        }
    }

    closed spec fn behavior(&self) -> Behavior<I, O, B> {
        match self.first {
            Some(c) => bind(c.behavior(), self.model@),
            None => self.second->Some_0.behavior(),
        }
    }

    fn resume(&mut self, e: Event<I>) -> (s: Signal<O, B>) {
        match self.first.take() {
            Some(mut c) => {
                proof {
                    c.lemma_suspended();
                    lemma_bind_after(c.behavior(), self.model@, e);
                }
                let ghost next = c.behavior().after(e);
                match c.resume(e) {
                    Signal::Done(a) => {
                        proof {
                            lemma_bind_finished(next, self.model@);
                        }
                        let f = self.f.take().unwrap();
                        let (s, rest) = f(a).split();
                        self.second = rest;
                        s
                    },
                    Signal::Wait => {
                        self.first = Some(c);
                        Signal::Wait
                    },
                    Signal::Emit(o) => {
                        self.first = Some(c);
                        Signal::Emit(o)
                    },
                }
            },
            None => {
                let mut c = self.second.take().unwrap();
                let s = c.resume(e);
                self.second = Some(c);
                s
            },
        }
    }
}

impl<'a, X, I, O, A> Kleisli<'a, X, I, O, A> {
    /// What has to hold of the continuation for it to be run.
    pub closed spec fn inv(&self) -> bool {
        self.chain.inv()
    }

    /// The behaviour of the suspended stage: the signal it stopped with, and
    /// what it does when it is resumed.
    pub closed spec fn behavior(&self) -> Behavior<I, O, A> {
        self.chain.behavior()
    }

    /// The number of appended steps that wait in the queue.
    pub closed spec fn pending(&self) -> nat {
        self.chain.pending()
    }

    /// The number of appended steps that wait in the queue.
    pub fn len(&self) -> (n: usize)
        ensures
            n == self.pending(),
    {
        self.chain.len()
    }

    /// A continuation is suspended: it never shows `Done`.
    pub proof fn lemma_suspended(&self)
        requires
            self.inv(),
        ensures
            !(self.behavior().head() is Done),
    {
        self.chain.lemma_suspended();
    }

    /// The continuation that runs `chain`.
    pub(crate) fn from_chain(chain: Chain<'a, I, O, A>) -> (k: Self)
        ensures
            k.inv() == chain.inv(),
            k.behavior() == chain.behavior(),
            k.pending() == chain.pending(),
    {
        Kleisli { chain, mark: PhantomData }
    }

    /// The chain that the continuation runs.
    pub(crate) fn into_chain(self) -> (chain: Chain<'a, I, O, A>)
        ensures
            self.inv() == chain.inv(),
            self.behavior() == chain.behavior(),
            self.pending() == chain.pending(),
    {
        self.chain
    }
}

impl<'a, X, I: 'a, O: 'a, A: 'a> Kleisli<'a, X, I, O, A> {
    /// Appends `f` behind all that is queued: once every step before it has
    /// finished, `f` is applied to the result, and the stage it returns,
    /// whose behaviour `g` gives, runs next. The steps already queued are
    /// not touched.
    pub fn append_as<F: FnOnce(A) -> ConduitM<'a, I, O, A> + 'a>(
        self,
        f: F,
        Ghost(g): Ghost<spec_fn(A) -> Behavior<I, O, A>>,
    ) -> (k: Self)
        requires
            self.inv(),
            total(f),
            models(f, g),
        ensures
            k.inv(),
            k.behavior() == bind(self.behavior(), g),
            k.behavior().head() == self.behavior().head(),
            k.pending() == self.pending() + 1,
    {
        proof {
            self.chain.lemma_suspended();
            lemma_bind_head(self.chain.behavior(), g);
        }
        let mut chain = self.chain;
        let step = Step { inner: Box::new(Call { f, model: Ghost(g) }) };
        assert((|a: A| step.entry(a)) =~= g);
        chain.push(step);
        Kleisli { chain, mark: PhantomData }
    }

    /// Appends `f` behind all that is queued: once every step before it has
    /// finished, `f` is applied to the result, and the stage it returns runs
    /// next. The steps already queued are not touched.
    pub fn append<F: FnOnce(A) -> ConduitM<'a, I, O, A> + 'a>(self, f: F) -> (k: Self)
        requires
            self.inv(),
            total(f),
            models(f, arrow(f)),
        ensures
            k.inv(),
            k.behavior() == bind(self.behavior(), arrow(f)),
            k.behavior().head() == self.behavior().head(),
            k.pending() == self.pending() + 1,
    {
        self.append_as(f, Ghost(arrow(f)))
    }

    /// Composes the continuation with `f`, which may change the type of the
    /// result: once the stage has finished, `f` is applied to the result, and
    /// the stage it returns, whose behaviour `g` gives, runs next.
    pub fn compose_as<B: 'a, F: FnOnce(A) -> ConduitM<'a, I, O, B> + 'a>(
        self,
        f: F,
        Ghost(g): Ghost<spec_fn(A) -> Behavior<I, O, B>>,
    ) -> (k: Kleisli<'a, X, I, O, B>)
        requires
            self.inv(),
            total(f),
            models(f, g),
        ensures
            k.inv(),
            k.behavior() == bind(self.behavior(), g),
            k.behavior().head() == self.behavior().head().retag::<B>(),
            k.pending() == 0,
    {
        proof {
            self.chain.lemma_suspended();
            lemma_bind_head(self.chain.behavior(), g);
        }
        let head = Unit {
            inner: Box::new(
                Bind { first: Some(self.chain), f: Some(f), model: Ghost(g), second: None },
            ),
        };
        Kleisli { chain: Chain::new(head), mark: PhantomData }
    }

    /// Composes the continuation with `f`, which may change the type of the
    /// result: once the stage has finished, `f` is applied to the result, and
    /// the stage it returns runs next.
    pub fn compose<B: 'a, F: FnOnce(A) -> ConduitM<'a, I, O, B> + 'a>(self, f: F) -> (k: Kleisli<
        'a,
        X,
        I,
        O,
        B,
    >)
        requires
            self.inv(),
            total(f),
            models(f, arrow(f)),
        ensures
            k.inv(),
            k.behavior() == bind(self.behavior(), arrow(f)),
            k.behavior().head() == self.behavior().head().retag::<B>(),
            k.pending() == 0,
    {
        self.compose_as(f, Ghost(arrow(f)))
    }
}

impl<'a, I, O, A> Kleisli<'a, Option<I>, I, O, A> {
    /// Runs the stage on with the next input, or with `None` when upstream
    /// has no more, as far as its next stop.
    pub fn run(self, x: Option<I>) -> (r: ConduitM<'a, I, O, A>)
        requires
            self.inv(),
            self.behavior().head() is Wait,
        ensures
            r.wf(),
            r@ == self.behavior().step(Event::Input(x)),
            r.pending() <= self.pending(),
    {
        let mut chain = self.chain;
        let s = chain.resume(Event::Input(x));
        ConduitM::join(s, chain)
    }
}

impl<'a, I, O, A> Kleisli<'a, (), I, O, A> {
    /// Runs the stage on after its output was taken, as far as its next
    /// stop.
    pub fn run(self, x: ()) -> (r: ConduitM<'a, I, O, A>)
        requires
            self.inv(),
            self.behavior().head() is Emit,
        ensures
            r.wf(),
            r@ == self.behavior().step(Event::Next),
            r.pending() <= self.pending(),
    {
        let mut chain = self.chain;
        let s = chain.resume(Event::Next);
        ConduitM::join(s, chain)
    }
}

impl<'a, I: 'a, O: 'a> Kleisli<'a, Option<I>, I, O, Option<I>> {
    /// The continuation that finishes with the input it is run with.
    pub fn new() -> (k: Self)
        ensures
            k.inv(),
            k.behavior() == Behavior::<I, O, Option<I>>::awaiting(),
            k.pending() == 0,
    {
        let head = Unit { inner: Box::new(Receive {  }) };
        Kleisli { chain: Chain::new(head), mark: PhantomData }
    }
}

impl<'a, I: 'a, O: 'a> Kleisli<'a, (), I, O, ()> {
    /// The continuation of a stage that has emitted `o` and has nothing
    /// more to do.
    pub(crate) fn emitted(o: Ghost<O>) -> (k: Self)
        ensures
            k.inv(),
            k.behavior() == Behavior::<I, O, ()>::yielding(o@),
            k.pending() == 0,
    {
        let head = Unit { inner: Box::new(Emitted { out: o }) };
        Kleisli { chain: Chain::new(head), mark: PhantomData }
    }
}

} // verus!
