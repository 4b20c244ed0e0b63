//! Suspended stages as objects, and the queue that chains them.

use crate::behavior::{bind, lemma_bind_after, lemma_bind_finished, Behavior, Event, Signal};
use std::collections::VecDeque;
use vstd::prelude::*;

verus! {

/// A running stage that can be stopped and resumed in place.
///
/// A machine waits for the event that its behaviour accepts. A machine that
/// has answered `Done` is spent.
pub(crate) trait Machine<I, O, A> {
    /// What has to hold of the machine for it to be resumed.
    spec fn inv(&self) -> bool;

    /// The behaviour of the machine.
    spec fn behavior(&self) -> Behavior<I, O, A>;

    /// Resumes the machine with `e` and runs it to its next stop.
    fn resume(&mut self, e: Event<I>) -> (s: Signal<O, A>)
        requires
            old(self).inv(),
            old(self).behavior().accepts(e),
        ensures
            s == old(self).behavior().after(e).head(),
            !(s is Done) ==> final(self).inv() && final(self).behavior() == old(
                self,
            ).behavior().after(e),
    ;
}

/// A machine of any kind behind one type.
#[verifier::reject_recursive_types(I)]
#[verifier::reject_recursive_types(O)]
#[verifier::reject_recursive_types(A)]
pub(crate) struct Unit<'a, I, O, A> {
    pub(crate) inner: Box<dyn Machine<I, O, A> + 'a>,
}

impl<'a, I, O, A> Unit<'a, I, O, A> {
    /// What has to hold of the machine inside.
    pub(crate) open spec fn inv(&self) -> bool {
        self.inner.inv()
    }

    /// The behaviour of the machine inside.
    pub(crate) open spec fn behavior(&self) -> Behavior<I, O, A> {
        self.inner.behavior()
    }

    /// Resumes the machine inside with `e`.
    pub(crate) fn resume(&mut self, e: Event<I>) -> (s: Signal<O, A>)
        requires
            old(self).inv(),
            old(self).behavior().accepts(e),
        ensures
            s == old(self).behavior().after(e).head(),
            !(s is Done) ==> final(self).inv() && final(self).behavior() == old(
                self,
            ).behavior().after(e),
    {
        self.inner.resume(e)
    }
}

/// A stage that has not begun: it waits for the result of the stage before
/// it, and begins with that.
pub(crate) trait Start<'a, I, O, A> {
    /// What has to hold for the stage to be started.
    spec fn inv(&self) -> bool;

    /// The behaviour of the stage once it is started with `a`.
    spec fn entry(&self, a: A) -> Behavior<I, O, A>;

    /// Starts the stage on `a` and runs it to its first stop. Unless it has
    /// finished there, the running stage comes back.
    fn start(self: Box<Self>, a: A) -> (r: (Signal<O, A>, Option<Unit<'a, I, O, A>>))
        requires
            self.inv(),
        ensures
            r.0 == self.entry(a).head(),
            r.0 is Done <==> r.1 is None,
            r.1 matches Some(u) ==> u.inv() && u.behavior() == self.entry(a),
    ;
}

/// A stage of any kind that has not begun, behind one type.
#[verifier::reject_recursive_types(I)]
#[verifier::reject_recursive_types(O)]
#[verifier::reject_recursive_types(A)]
pub(crate) struct Step<'a, I, O, A> {
    pub(crate) inner: Box<dyn Start<'a, I, O, A> + 'a>,
}

impl<'a, I, O, A> Step<'a, I, O, A> {
    /// What has to hold for the stage inside to be started.
    pub(crate) open spec fn inv(&self) -> bool {
        self.inner.inv()
    }

    /// The behaviour of the stage inside once it is started with `a`.
    pub(crate) open spec fn entry(&self, a: A) -> Behavior<I, O, A> {
        self.inner.entry(a)
    }

    /// Starts the stage inside on `a`.
    pub(crate) fn start(self, a: A) -> (r: (Signal<O, A>, Option<Unit<'a, I, O, A>>))
        requires
            self.inv(),
        ensures
            r.0 == self.entry(a).head(),
            r.0 is Done <==> r.1 is None,
            r.1 matches Some(u) ==> u.inv() && u.behavior() == self.entry(a),
    {
        self.inner.start(a)
    }
}

/// The steps that wait in a queue, as functions from the result handed to
/// them to the behaviour that follows.
pub(crate) open spec fn entries<I, O, A>(tail: Seq<Step<'_, I, O, A>>) -> Seq<
    spec_fn(A) -> Behavior<I, O, A>,
> {
    Seq::new(tail.len(), |i: int| |a: A| tail[i].entry(a))
}

/// `first` followed by each of `steps` in order.
pub open spec fn bind_all<I, O, A>(
    first: Behavior<I, O, A>,
    steps: Seq<spec_fn(A) -> Behavior<I, O, A>>,
) -> Behavior<I, O, A>
    decreases steps.len(),
{
    if steps.len() == 0 {
        first
    } else {
        bind_all(bind(first, steps[0]), steps.drop_first())
    }
}

/// A running stage stays at the head of its queue: the queue shows its
/// signal, and resuming the queue resumes the stage.
pub proof fn lemma_bind_all_running<I, O, A>(
    first: Behavior<I, O, A>,
    steps: Seq<spec_fn(A) -> Behavior<I, O, A>>,
    e: Event<I>,
)
    requires
        !(first.head() is Done),
    ensures
        bind_all(first, steps).head() == first.head(),
        bind_all(first, steps).after(e) == bind_all(first.after(e), steps),
    decreases steps.len(),
{
    if steps.len() > 0 {
        lemma_bind_after(first, steps[0], e);
        lemma_bind_all_running(bind(first, steps[0]), steps.drop_first(), e);
    }
}

/// A finished stage hands its result to the first step that waits.
pub proof fn lemma_bind_all_finished<I, O, A>(
    first: Behavior<I, O, A>,
    steps: Seq<spec_fn(A) -> Behavior<I, O, A>>,
)
    requires
        first.head() is Done,
        steps.len() > 0,
    ensures
        bind_all(first, steps) == bind_all(steps[0](first.head()->Done_0), steps.drop_first()),
{
    lemma_bind_finished(first, steps[0]);
}

/// A step added at the back runs after all that was queued before.
pub proof fn lemma_bind_all_push<I, O, A>(
    first: Behavior<I, O, A>,
    steps: Seq<spec_fn(A) -> Behavior<I, O, A>>,
    last: spec_fn(A) -> Behavior<I, O, A>,
)
    ensures
        bind_all(first, steps.push(last)) == bind(bind_all(first, steps), last),
    decreases steps.len(),
{
    if steps.len() == 0 {
        assert(steps.push(last).drop_first() =~= steps);
        assert(bind_all(bind(first, last), steps) == bind(first, last));
    } else {
        assert(steps.push(last).drop_first() =~= steps.drop_first().push(last));
        lemma_bind_all_push(bind(first, steps[0]), steps.drop_first(), last);
    }
}

/// A running stage with the queue of steps that follow it.
#[verifier::reject_recursive_types(I)]
#[verifier::reject_recursive_types(O)]
#[verifier::reject_recursive_types(A)]
pub(crate) struct Chain<'a, I, O, A> {
    head: Unit<'a, I, O, A>,
    tail: VecDeque<Step<'a, I, O, A>>,
}

impl<'a, I, O, A> Chain<'a, I, O, A> {
    /// The head is running and has not finished; every queued step can be
    /// started.
    pub(crate) closed spec fn inv(&self) -> bool {
        &&& self.head.inv()
        &&& !(self.head.behavior().head() is Done)
        &&& forall|i: int| 0 <= i < self.tail@.len() ==> (#[trigger] self.tail@[i]).inv()
    }

    /// The head's behaviour followed by the queued steps in order.
    pub(crate) closed spec fn behavior(&self) -> Behavior<I, O, A> {
        bind_all(self.head.behavior(), entries(self.tail@))
    }

    /// The number of steps that wait behind the head.
    pub(crate) closed spec fn pending(&self) -> nat {
        self.tail@.len()
    }

    /// The number of steps that wait behind the head.
    pub(crate) fn len(&self) -> (n: usize)
        ensures
            n == self.pending(),
    {
        self.tail.len()
    }

    /// A chain is suspended: it never shows `Done`.
    pub(crate) proof fn lemma_suspended(&self)
        requires
            self.inv(),
        ensures
            !(self.behavior().head() is Done),
    {
        lemma_bind_all_running(self.head.behavior(), entries(self.tail@), Event::Next);
    }

    /// The chain that holds `head` and no further step.
    pub(crate) fn new(head: Unit<'a, I, O, A>) -> (c: Self)
        requires
            head.inv(),
            !(head.behavior().head() is Done),
        ensures
            c.inv(),
            c.behavior() == head.behavior(),
            c.pending() == 0,
    {
        Chain { head, tail: VecDeque::new() }
    }

    /// Adds `step` behind all that is queued.
    pub(crate) fn push(&mut self, step: Step<'a, I, O, A>)
        requires
            old(self).inv(),
            step.inv(),
        ensures
            final(self).inv(),
            final(self).behavior() == bind(old(self).behavior(), |a: A| step.entry(a)),
            final(self).pending() == old(self).pending() + 1,
    {
        proof {
            lemma_bind_all_push(
                self.head.behavior(),
                entries(self.tail@),
                |a: A| step.entry(a),
            );
            assert(entries(self.tail@.push(step)) =~= entries(self.tail@).push(
                |a: A| step.entry(a),
            ));
        }
        self.tail.push_back(step);
    }

    /// Resumes the head with `e`. Each time the stage at the head finishes
    /// and a step waits, that step is taken from the front of the queue and
    /// started with the result.
    pub(crate) fn resume(&mut self, e: Event<I>) -> (s: Signal<O, A>)
        requires
            old(self).inv(),
            old(self).behavior().accepts(e),
        ensures
            s == old(self).behavior().after(e).head(),
            !(s is Done) ==> final(self).inv() && final(self).behavior() == old(
                self,
            ).behavior().after(e),
            final(self).pending() <= old(self).pending(),
    {
        proof {
            lemma_bind_all_running(self.head.behavior(), entries(self.tail@), e);
        }
        let ghost goal = self.behavior().after(e);
        let ghost mut cur = self.head.behavior().after(e);
        let mut s = self.head.resume(e);
        loop
            invariant
                s == cur.head(),
                goal == bind_all(cur, entries(self.tail@)),
                !(s is Done) ==> self.head.inv() && self.head.behavior() == cur,
                forall|i: int| 0 <= i < self.tail@.len() ==> (#[trigger] self.tail@[i]).inv(),
                self.tail@.len() <= old(self).tail@.len(),
            ensures
                s == goal.head(),
                !(s is Done) ==> self.inv() && self.behavior() == goal,
                self.tail@.len() <= old(self).tail@.len(),
            decreases self.tail@.len(),
        {
            if self.tail.len() == 0 {
                break ;
            }
            match s {
                Signal::Done(a) => {
                    proof {
                        lemma_bind_all_finished(cur, entries(self.tail@));
                        assert(entries(self.tail@).drop_first() =~= entries(
                            self.tail@.drop_first(),
                        ));
                        cur = self.tail@[0].entry(a);
                    }
                    let step = self.tail.pop_front().unwrap();
                    let (first, running) = step.start(a);
                    s = first;
                    match running {
                        Some(unit) => {
                            self.head = unit;
                        },
                        None => {},
                    }
                },
                other => {
                    proof {
                        lemma_bind_all_running(cur, entries(self.tail@), e);
                    }
                    s = other;
                    break ;
                },
            }
        }
        s
    }
}

} // verus!
