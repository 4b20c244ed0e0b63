//! The pipeline value and its construction.

use crate::behavior::{bind, lemma_bind_finished, Behavior, Signal};
use crate::kleisli::Kleisli;
use crate::machine::Chain;
use vstd::prelude::*;

verus! {

/// A pipeline stage: a sequence of await and yield actions that ends in a
/// result.
///
/// - `I` is the type of values the stage consumes from upstream.
/// - `O` is the type of values the stage passes downstream.
/// - `A` is the type of its result.
#[verifier::reject_recursive_types(I)]
#[verifier::reject_recursive_types(O)]
#[verifier::reject_recursive_types(A)]
pub enum ConduitM<'a, I, O, A> {
    /// The stage has finished with a result.
    Pure(Box<A>),
    /// The stage waits for a value from upstream; the continuation is what
    /// remains of it.
    Await(Kleisli<'a, Option<I>, I, O, A>),
    /// The stage passes a value downstream; the continuation is what
    /// remains of it.
    Yield(Box<O>, Kleisli<'a, (), I, O, A>),
}

impl<'a, I, O, A> View for ConduitM<'a, I, O, A> {
    type V = Behavior<I, O, A>;

    /// The behaviour of the stage from here on.
    open spec fn view(&self) -> Behavior<I, O, A> {
        match self {
            ConduitM::Pure(a) => Behavior::finished(**a),
            ConduitM::Await(k) => k.behavior(),
            ConduitM::Yield(_, k) => k.behavior(),
        }
    }
}

impl<'a, I, O, A> ConduitM<'a, I, O, A> {
    /// The variant agrees with what the continuation shows: an awaiting
    /// stage waits, and a yielding stage shows the value it holds.
    pub open spec fn wf(&self) -> bool {
        match self {
            ConduitM::Pure(_) => true,
            ConduitM::Await(k) => k.inv() && k.behavior().head() is Wait,
            ConduitM::Yield(o, k) => k.inv() && k.behavior().head() == Signal::<O, A>::Emit(**o),
        }
    }

    /// The number of appended steps that wait in the queue of the
    /// continuation; none for a finished stage.
    pub open spec fn pending(&self) -> nat {
        match self {
            ConduitM::Pure(_) => 0,
            ConduitM::Await(k) => k.pending(),
            ConduitM::Yield(_, k) => k.pending(),
        }
    }

    /// Takes the stage apart into the signal it shows and, unless it has
    /// finished, the chain that continues it.
    pub(crate) fn split(self) -> (r: (Signal<O, A>, Option<Chain<'a, I, O, A>>))
        requires
            self.wf(),
        ensures
            r.0 == self@.head(),
            r.0 is Done <==> r.1 is None,
            r.1 matches Some(c) ==> c.inv() && c.behavior() == self@,
    {
        match self {
            ConduitM::Pure(a) => (Signal::Done(*a), None),
            ConduitM::Await(k) => (Signal::Wait, Some(k.into_chain())),
            ConduitM::Yield(o, k) => (Signal::Emit(*o), Some(k.into_chain())),
        }
    }

    /// Puts a signal and the chain that showed it together again.
    pub(crate) fn join(s: Signal<O, A>, c: Chain<'a, I, O, A>) -> (r: Self)
        requires
            !(s is Done) ==> c.inv() && c.behavior().head() == s,
        ensures
            r.wf(),
            r@.head() == s,
            !(s is Done) ==> r@ == c.behavior(),
            s matches Signal::Done(a) ==> r == ConduitM::<I, O, A>::Pure(Box::new(a)),
            s matches Signal::Wait ==> r is Await,
            s matches Signal::Emit(o) ==> r matches ConduitM::Yield(p, _) && *p == o,
            r.pending() == (if s is Done { 0 } else { c.pending() }),
    {
        match s {
            Signal::Done(a) => ConduitM::Pure(Box::new(a)),
            Signal::Wait => ConduitM::Await(Kleisli::from_chain(c)),
            Signal::Emit(o) => ConduitM::Yield(Box::new(o), Kleisli::from_chain(c)),
        }
    }
}

/// Whether `f` may be called on every value.
pub open spec fn total<A, B, F: FnOnce(A) -> B>(f: F) -> bool {
    forall|a: A| call_requires(f, (a,))
}

/// Whether `g` tells what `f` returns: the value, for every argument.
pub open spec fn computes<A, B, F: FnOnce(A) -> B>(f: F, g: spec_fn(A) -> B) -> bool {
    forall|a: A, b: B| #[trigger] call_ensures(f, (a,), b) ==> b == g(a)
}

/// Whether `g` tells what `f` returns: a well-formed stage, and its
/// behaviour for every argument.
pub open spec fn models<'a, I, O, A, B, F: FnOnce(A) -> ConduitM<'a, I, O, B>>(
    f: F,
    g: spec_fn(A) -> Behavior<I, O, B>,
) -> bool {
    forall|a: A, r: ConduitM<'a, I, O, B>| #[trigger]
        call_ensures(f, (a,), r) ==> r.wf() && r@ == g(a)
}

/// What the contract of `f` says of the value that `f` returns for `a`.
pub open spec fn function<A, B, F: FnOnce(A) -> B>(f: F) -> spec_fn(A) -> B {
    |a: A| choose|b: B| call_ensures(f, (a,), b)
}

/// What the contract of `f` says of the behaviour of the stage that `f`
/// returns for `a`.
pub open spec fn arrow<'a, I, O, A, B, F: FnOnce(A) -> ConduitM<'a, I, O, B>>(f: F) -> spec_fn(
    A,
) -> Behavior<I, O, B> {
    |a: A| (choose|r: ConduitM<'a, I, O, B>| call_ensures(f, (a,), r))@
}

/// The function `g` as a continuation: the stage that has finished with
/// `g` of its argument.
pub open spec fn lift<I, O, A, B>(g: spec_fn(A) -> B) -> spec_fn(A) -> Behavior<I, O, B> {
    |a: A| Behavior::<I, O, B>::finished(g(a))
}

/// The continuation `g`, which takes its argument in a box, as one that
/// takes it bare.
pub open spec fn unboxed<I, O, A, B>(g: spec_fn(Box<A>) -> Behavior<I, O, B>) -> spec_fn(
    A,
) -> Behavior<I, O, B> {
    |a: A| g(Box::new(a))
}

impl<'a, I: 'a, O: 'a, A: 'a> ConduitM<'a, I, O, A> {
    /// Appends a continuation to the stage: the result of the stage is
    /// passed to `f`, and the stage that `f` returns runs next. The
    /// behaviour of that stage is given by `g`.
    ///
    /// A finished stage does not suspend: `f` is applied to its result at
    /// once, and what `f` returns is the answer. Otherwise the variant stays
    /// and `f` joins the continuation. The stage that `f` returns is kept
    /// inside the one it takes over from: a loop of many rounds is better
    /// built with `unfold`.
    pub fn and_then_as<B: 'a, F: FnOnce(A) -> ConduitM<'a, I, O, B> + 'a>(
        self,
        f: F,
        Ghost(g): Ghost<spec_fn(A) -> Behavior<I, O, B>>,
    ) -> (r: ConduitM<'a, I, O, B>)
        requires
            self.wf(),
            total(f),
            models(f, g),
        ensures
            r.wf(),
            r@ == bind(self@, g),
            self matches ConduitM::Pure(a) ==> call_ensures(f, (*a,), r),
            self is Await ==> r is Await,
            self matches ConduitM::Yield(o, _) ==> r matches ConduitM::Yield(p, _) && p == o,
    {
        match self {
            ConduitM::Pure(a) => {
                proof {
                    lemma_bind_finished(self@, g);
                }
                f(*a)
            },
            ConduitM::Await(k) => ConduitM::Await(k.compose_as(f, Ghost(g))),
            ConduitM::Yield(o, k) => ConduitM::Yield(o, k.compose_as(f, Ghost(g))),
        }
    }

    /// Appends a continuation to the stage: the result of the stage is
    /// passed to `f`, and the stage that `f` returns runs next.
    ///
    /// The contract of `f` has to fix the behaviour of what `f` returns.
    /// Where that behaviour is known as a function, `and_then_as` states the
    /// result over it.
    pub fn and_then<B: 'a, F: FnOnce(A) -> ConduitM<'a, I, O, B> + 'a>(self, f: F) -> (r: ConduitM<
        'a,
        I,
        O,
        B,
    >)
        requires
            self.wf(),
            total(f),
            models(f, arrow(f)),
        ensures
            r.wf(),
            r@ == bind(self@, arrow(f)),
            self matches ConduitM::Pure(a) ==> call_ensures(f, (*a,), r),
            self is Await ==> r is Await,
            self matches ConduitM::Yield(o, _) ==> r matches ConduitM::Yield(p, _) && p == o,
    {
        self.and_then_as(f, Ghost(arrow(f)))
    }

    /// As `and_then`, for a continuation that takes the result in its box.
    pub fn and_then_boxed<B: 'a, F: FnOnce(Box<A>) -> ConduitM<'a, I, O, B> + 'a>(
        self,
        f: F,
    ) -> (r: ConduitM<'a, I, O, B>)
        requires
            self.wf(),
            total(f),
            models(f, arrow(f)),
        ensures
            r.wf(),
            r@ == bind(self@, unboxed(arrow(f))),
            self matches ConduitM::Pure(a) ==> call_ensures(f, (a,), r),
    {
        match self {
            ConduitM::Pure(a) => {
                proof {
                    lemma_bind_finished(self@, unboxed(arrow(f)));
                }
                f(a)
            },
            other => {
                let g = move |a: A| -> (r: ConduitM<'a, I, O, B>)
                    ensures
                        call_ensures(f, (Box::new(a),), r),
                    { f(Box::new(a)) };
                other.and_then_as(g, Ghost(unboxed(arrow(f))))
            },
        }
    }

    /// Changes the result of the stage by `f`, which computes `g`.
    pub fn map_as<B: 'a, F: FnOnce(A) -> B + 'a>(
        self,
        f: F,
        Ghost(g): Ghost<spec_fn(A) -> B>,
    ) -> (r: ConduitM<'a, I, O, B>)
        requires
            self.wf(),
            total(f),
            computes(f, g),
        ensures
            r.wf(),
            r@ == bind(self@, lift(g)),
            self matches ConduitM::Pure(a) ==> r matches ConduitM::Pure(b) && call_ensures(
                f,
                (*a,),
                *b,
            ),
            self is Await ==> r is Await,
            self matches ConduitM::Yield(o, _) ==> r matches ConduitM::Yield(p, _) && p == o,
    {
        let lifted = move |a: A| -> (r: ConduitM<'a, I, O, B>)
            ensures
                r matches ConduitM::Pure(b) && call_ensures(f, (a,), *b),
            { ConduitM::Pure(Box::new(f(a))) };
        self.and_then_as(lifted, Ghost(lift(g)))
    }

    /// Changes the result of the stage by `f`.
    ///
    /// The contract of `f` has to fix what `f` returns. Where that is known
    /// as a function, `map_as` states the result over it.
    pub fn map<B: 'a, F: FnOnce(A) -> B + 'a>(self, f: F) -> (r: ConduitM<'a, I, O, B>)
        requires
            self.wf(),
            total(f),
            computes(f, function(f)),
        ensures
            r.wf(),
            r@ == bind(self@, lift(function(f))),
            self matches ConduitM::Pure(a) ==> r matches ConduitM::Pure(b) && call_ensures(
                f,
                (*a,),
                *b,
            ),
            self is Await ==> r is Await,
            self matches ConduitM::Yield(o, _) ==> r matches ConduitM::Yield(p, _) && p == o,
    {
        self.map_as(f, Ghost(function(f)))
    }
}

/// Waits for a single input value from upstream.
///
/// The result is the value, or `None` if upstream has no more.
pub fn consume<'a, I: 'a, O: 'a>() -> (r: ConduitM<'a, I, O, Option<I>>)
    ensures
        r.wf(),
        r is Await,
        r@ == Behavior::<I, O, Option<I>>::awaiting(),
{
    ConduitM::Await(Kleisli::new())
}

/// Sends a value downstream to the next stage.
pub fn produce<'a, I: 'a, O: 'a>(o: O) -> (r: ConduitM<'a, I, O, ()>)
    ensures
        r.wf(),
        r matches ConduitM::Yield(p, _) && *p == o,
        r@ == Behavior::<I, O, ()>::yielding(o),
{
    ConduitM::Yield(Box::new(o), Kleisli::emitted(Ghost(o)))
}

} // verus!
