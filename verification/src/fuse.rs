//! Vertical fusion: the outputs of one stage become the inputs of the next.

use crate::behavior::{lemma_behavior_ext, Behavior, Event, Signal};
use crate::conduit::ConduitM;
use crate::kleisli::Kleisli;
use crate::machine::{Chain, Machine, Unit};
use vstd::prelude::*;

verus! {

/// Whether neither stage of the pair can go on without the outside:
/// downstream has finished or yields, or both stages wait.
pub open spec fn at_rest<I, O, C, R>(up: Behavior<I, O, ()>, down: Behavior<O, C, R>) -> bool {
    down.head() is Wait ==> up.head() is Wait
}

/// The pair as it comes to rest, if it does so within `fuel` hand-offs.
///
/// Downstream drives. While it waits, a finished upstream answers it with
/// `None` and stays finished, and an upstream that yields is resumed past
/// its output, which downstream receives at once.
pub open spec fn settle<I, O, C, R>(
    up: Behavior<I, O, ()>,
    down: Behavior<O, C, R>,
    fuel: nat,
) -> Option<(Behavior<I, O, ()>, Behavior<O, C, R>)>
    decreases fuel,
{
    if at_rest(up, down) {
        Some((up, down))
    } else if fuel == 0 {
        None
    } else {
        match up.head() {
            Signal::Emit(o) => settle(
                up.step(Event::Next),
                down.step(Event::Input(Some(o))),
                (fuel - 1) as nat,
            ),
            _ => settle(up, down.step(Event::Input(None)), (fuel - 1) as nat),
        }
    }
}

/// Whether the pair comes to rest.
pub open spec fn settles<I, O, C, R>(up: Behavior<I, O, ()>, down: Behavior<O, C, R>) -> bool {
    exists|fuel: nat| (#[trigger] settle(up, down, fuel)) is Some
}

/// The pair as it comes to rest.
pub open spec fn settled<I, O, C, R>(up: Behavior<I, O, ()>, down: Behavior<O, C, R>) -> (
    Behavior<I, O, ()>,
    Behavior<O, C, R>,
) {
    let fuel = choose|fuel: nat| (#[trigger] settle(up, down, fuel)) is Some;
    settle(up, down, fuel)->Some_0
}

/// A pair at rest, resumed from outside with `e`: a downstream that has
/// yielded goes on, and upstream is left alone; where both wait, the event
/// goes to upstream.
pub open spec fn advance<I, O, C, R>(
    up: Behavior<I, O, ()>,
    down: Behavior<O, C, R>,
    e: Event<I>,
) -> (Behavior<I, O, ()>, Behavior<O, C, R>) {
    if down.head() is Emit {
        (up, down.step(Event::Next))
    } else {
        (up.step(e), down)
    }
}

/// The signal of the fused pair after the events `h`.
pub open spec fn fuse_at<I, O, C, R>(
    up: Behavior<I, O, ()>,
    down: Behavior<O, C, R>,
    h: Seq<Event<I>>,
) -> Signal<C, R>
    decreases h.len(),
{
    let rest = settled(up, down);
    match rest.1.head() {
        Signal::Done(r) => Signal::Done(r),
        shown => if h.len() == 0 {
            shown
        } else {
            let next = advance(rest.0, rest.1, h[0]);
            fuse_at(next.0, next.1, h.drop_first())
        },
    }
}

/// The fusion of `up` and `down`: every output of `up` is an input of
/// `down`, and every input that `down` waits for comes from running `up`.
/// The fused stage finishes when `down` does.
pub open spec fn fused<I, O, C, R>(up: Behavior<I, O, ()>, down: Behavior<O, C, R>) -> Behavior<
    I,
    C,
    R,
> {
    Behavior { at: |h: Seq<Event<I>>| fuse_at(up, down, h) }
}

/// Whether the pair comes to rest now and after each of the events `h`.
pub open spec fn fuses_along<I, O, C, R>(
    up: Behavior<I, O, ()>,
    down: Behavior<O, C, R>,
    h: Seq<Event<I>>,
) -> bool
    decreases h.len(),
{
    &&& settles(up, down)
    &&& {
        let rest = settled(up, down);
        rest.1.head() is Done || h.len() == 0 || {
            let next = advance(rest.0, rest.1, h[0]);
            fuses_along(next.0, next.1, h.drop_first())
        }
    }
}

/// Whether the pair comes to rest whatever it is resumed with: no sequence
/// of events leads to a pair that hands values over for ever.
pub open spec fn fuses<I, O, C, R>(up: Behavior<I, O, ()>, down: Behavior<O, C, R>) -> bool {
    forall|h: Seq<Event<I>>| #[trigger] fuses_along(up, down, h)
}

/// More hand-offs than needed do not change where the pair comes to rest.
pub proof fn lemma_settle_fuel<I, O, C, R>(
    up: Behavior<I, O, ()>,
    down: Behavior<O, C, R>,
    n: nat,
    m: nat,
)
    requires
        settle(up, down, n) is Some,
        n <= m,
    ensures
        settle(up, down, m) == settle(up, down, n),
    decreases n,
{
    if !at_rest(up, down) {
        match up.head() {
            Signal::Emit(o) => lemma_settle_fuel(
                up.step(Event::Next),
                down.step(Event::Input(Some(o))),
                (n - 1) as nat,
                (m - 1) as nat,
            ),
            _ => lemma_settle_fuel(
                up,
                down.step(Event::Input(None)),
                (n - 1) as nat,
                (m - 1) as nat,
            ),
        }
    }
}

/// Where the pair comes to rest is what any sufficient number of hand-offs
/// gives, and it is at rest there.
pub proof fn lemma_settled<I, O, C, R>(up: Behavior<I, O, ()>, down: Behavior<O, C, R>, n: nat)
    requires
        settle(up, down, n) is Some,
    ensures
        settles(up, down),
        settle(up, down, n) == Some(settled(up, down)),
        at_rest(settled(up, down).0, settled(up, down).1),
    decreases n,
{
    let fuel = choose|fuel: nat| (#[trigger] settle(up, down, fuel)) is Some;
    if fuel <= n {
        lemma_settle_fuel(up, down, fuel, n);
    } else {
        lemma_settle_fuel(up, down, n, fuel);
    }
    lemma_settle_rests(up, down, n);
}

/// Where the pair comes to rest, it is at rest.
pub proof fn lemma_settle_rests<I, O, C, R>(
    up: Behavior<I, O, ()>,
    down: Behavior<O, C, R>,
    n: nat,
)
    requires
        settle(up, down, n) is Some,
    ensures
        at_rest(settle(up, down, n)->Some_0.0, settle(up, down, n)->Some_0.1),
    decreases n,
{
    if !at_rest(up, down) {
        match up.head() {
            Signal::Emit(o) => lemma_settle_rests(
                up.step(Event::Next),
                down.step(Event::Input(Some(o))),
                (n - 1) as nat,
            ),
            _ => lemma_settle_rests(up, down.step(Event::Input(None)), (n - 1) as nat),
        }
    }
}

/// A pair at rest stays where it is.
pub proof fn lemma_rest_settled<I, O, C, R>(up: Behavior<I, O, ()>, down: Behavior<O, C, R>)
    requires
        at_rest(up, down),
    ensures
        settles(up, down),
        settled(up, down) == (up, down),
{
    assert(settle(up, down, 0) == Some((up, down)));
    lemma_settled(up, down, 0);
}

/// The hand-off that a pair not at rest makes next.
pub open spec fn hand_off<I, O, C, R>(up: Behavior<I, O, ()>, down: Behavior<O, C, R>) -> (
    Behavior<I, O, ()>,
    Behavior<O, C, R>,
) {
    match up.head() {
        Signal::Emit(o) => (up.step(Event::Next), down.step(Event::Input(Some(o)))),
        _ => (up, down.step(Event::Input(None))),
    }
}

/// A pair that comes to rest after its next hand-off comes to rest, in the
/// same place.
pub proof fn lemma_settle_step<I, O, C, R>(up: Behavior<I, O, ()>, down: Behavior<O, C, R>)
    requires
        !at_rest(up, down),
        settles(hand_off(up, down).0, hand_off(up, down).1),
    ensures
        settles(up, down),
        settled(up, down) == settled(hand_off(up, down).0, hand_off(up, down).1),
{
    let next = hand_off(up, down);
    let fuel = choose|fuel: nat| (#[trigger] settle(next.0, next.1, fuel)) is Some;
    lemma_settled(next.0, next.1, fuel);
    assert(settle(up, down, fuel + 1) == settle(next.0, next.1, fuel));
    lemma_settled(up, down, fuel + 1);
}

/// The fused pair behaves as the pair that it comes to rest in.
pub proof fn lemma_fused_settled<I, O, C, R>(up: Behavior<I, O, ()>, down: Behavior<O, C, R>)
    requires
        settles(up, down),
    ensures
        fused(up, down) == fused(settled(up, down).0, settled(up, down).1),
{
    let fuel = choose|fuel: nat| (#[trigger] settle(up, down, fuel)) is Some;
    lemma_settled(up, down, fuel);
    let rest = settled(up, down);
    lemma_rest_settled(rest.0, rest.1);
    assert forall|h: Seq<Event<I>>| #[trigger]
        fused(up, down).answer(h) == fused(rest.0, rest.1).answer(h) by {
        assert(fuse_at(up, down, h) == fuse_at(rest.0, rest.1, h));
    }
    lemma_behavior_ext(fused(up, down), fused(rest.0, rest.1));
}

/// A pair that comes to rest whatever happens still does so from where it
/// first comes to rest.
pub proof fn lemma_fuses_settled<I, O, C, R>(up: Behavior<I, O, ()>, down: Behavior<O, C, R>)
    requires
        fuses(up, down),
    ensures
        settles(up, down),
        fuses(settled(up, down).0, settled(up, down).1),
{
    assert(fuses_along(up, down, Seq::empty()));
    let fuel = choose|fuel: nat| (#[trigger] settle(up, down, fuel)) is Some;
    lemma_settled(up, down, fuel);
    let rest = settled(up, down);
    lemma_rest_settled(rest.0, rest.1);
    assert forall|h: Seq<Event<I>>| #[trigger] fuses_along(rest.0, rest.1, h) by {
        assert(fuses_along(up, down, h));
    }
}

/// A pair at rest that comes to rest whatever happens still does so after
/// one event, and the fused pair goes on as the pair after that event.
pub proof fn lemma_fused_after<I, O, C, R>(
    up: Behavior<I, O, ()>,
    down: Behavior<O, C, R>,
    e: Event<I>,
)
    requires
        at_rest(up, down),
        !(down.head() is Done),
        fuses(up, down),
    ensures
        fuses(advance(up, down, e).0, advance(up, down, e).1),
        fused(up, down).after(e) == fused(advance(up, down, e).0, advance(up, down, e).1),
{
    lemma_rest_settled(up, down);
    let next = advance(up, down, e);
    assert forall|h: Seq<Event<I>>| #[trigger] fuses_along(next.0, next.1, h) by {
        let eh = seq![e] + h;
        assert(eh[0] == e);
        assert(eh.drop_first() =~= h);
        assert(fuses_along(up, down, eh));
    }
    assert forall|h: Seq<Event<I>>| #[trigger]
        fused(up, down).after(e).answer(h) == fused(next.0, next.1).answer(h) by {
        let eh = seq![e] + h;
        assert(eh[0] == e);
        assert(eh.drop_first() =~= h);
        assert(fuse_at(up, down, eh) == fuse_at(next.0, next.1, h));
    }
    lemma_behavior_ext(fused(up, down).after(e), fused(next.0, next.1));
}

/// A fused pair at rest: the two stages, each suspended.
#[verifier::reject_recursive_types(I)]
#[verifier::reject_recursive_types(O)]
#[verifier::reject_recursive_types(C)]
#[verifier::reject_recursive_types(R)]
pub(crate) enum Rest<'a, I, O, C, R> {
    /// Downstream has yielded; upstream was not touched.
    Emitted(ConduitM<'a, I, O, ()>, Kleisli<'a, (), O, C, R>),
    /// Both stages wait.
    Blocked(Kleisli<'a, Option<I>, I, O, ()>, Kleisli<'a, Option<O>, O, C, R>),
}

impl<'a, I, O, C, R> Rest<'a, I, O, C, R> {
    /// The behaviour of the upstream stage.
    pub(crate) open spec fn up(&self) -> Behavior<I, O, ()> {
        match self {
            Rest::Emitted(u, _) => u@,
            Rest::Blocked(ku, _) => ku.behavior(),
        }
    }

    /// The behaviour of the downstream stage.
    pub(crate) open spec fn down(&self) -> Behavior<O, C, R> {
        match self {
            Rest::Emitted(_, kd) => kd.behavior(),
            Rest::Blocked(_, kd) => kd.behavior(),
        }
    }

    /// Both stages are well formed and show what the variant says.
    pub(crate) open spec fn wf(&self) -> bool {
        match self {
            Rest::Emitted(u, kd) => u.wf() && kd.inv() && kd.behavior().head() is Emit,
            Rest::Blocked(ku, kd) => ku.inv() && ku.behavior().head() is Wait && kd.inv()
                && kd.behavior().head() is Wait,
        }
    }
}

/// What a pair shows where it has come to rest.
#[verifier::reject_recursive_types(I)]
#[verifier::reject_recursive_types(O)]
#[verifier::reject_recursive_types(C)]
#[verifier::reject_recursive_types(R)]
pub(crate) enum Settled<'a, I, O, C, R> {
    /// Downstream has finished with this result.
    Done(R),
    /// Downstream has yielded this output.
    Emit(C, Rest<'a, I, O, C, R>),
    /// Both stages wait.
    Wait(Rest<'a, I, O, C, R>),
}

/// Runs the pair until it comes to rest: hands each output of `up` to a
/// waiting `down`, and tells `down` that there is no more once `up` has
/// finished.
pub(crate) fn drive<'a, I, O, C, R>(up: ConduitM<'a, I, O, ()>, down: ConduitM<'a, O, C, R>) -> (r:
    Settled<'a, I, O, C, R>)
    requires
        up.wf(),
        down.wf(),
        settles(up@, down@),
    ensures
        match r {
            Settled::Done(x) => settled(up@, down@).1.head() == Signal::<C, R>::Done(x),
            Settled::Emit(c, rest) => rest is Emitted && settled(up@, down@).1.head()
                == Signal::<C, R>::Emit(c),
            Settled::Wait(rest) => rest is Blocked,
        },
        down matches ConduitM::Pure(b) ==> r matches Settled::Done(x) && x == *b,
        down matches ConduitM::Yield(b, _) ==> r matches Settled::Emit(c, _) && c == *b,
        down is Await && up is Await ==> r is Wait,
        r matches Settled::Emit(_, rest) ==> rest.wf() && (rest.up(), rest.down()) == settled(
            up@,
            down@,
        ),
        r matches Settled::Wait(rest) ==> rest.wf() && (rest.up(), rest.down()) == settled(
            up@,
            down@,
        ),
{
    let mut u = up;
    let mut d = down;
    let ghost mut fuel = choose|fuel: nat| (#[trigger] settle(up@, down@, fuel)) is Some;
    let ghost goal = settled(up@, down@);
    let ghost mut untouched = true;
    proof {
        lemma_settled(up@, down@, fuel);
    }
    loop
        invariant
            u.wf(),
            d.wf(),
            settle(u@, d@, fuel) == Some(goal),
            goal == settled(up@, down@),
            untouched ==> d == down && u == up,
            !untouched ==> down is Await && !(up is Await),
        decreases fuel,
    {
        match d {
            ConduitM::Pure(r) => {
                return Settled::Done(*r);
            },
            ConduitM::Yield(c, kd) => {
                return Settled::Emit(*c, Rest::Emitted(u, kd));
            },
            ConduitM::Await(kd) => {
                match u {
                    ConduitM::Await(ku) => {
                        return Settled::Wait(Rest::Blocked(ku, kd));
                    },
                    ConduitM::Pure(x) => {
                        d = kd.run(None);
                        u = ConduitM::Pure(x);
                    },
                    ConduitM::Yield(o, ku) => {
                        u = ku.run(());
                        d = kd.run(Some(*o));
                    },
                }
            },
        }
        proof {
            fuel = (fuel - 1) as nat;
            untouched = false;
        }
    }
}

/// Two fused stages as one machine.
#[verifier::reject_recursive_types(I)]
#[verifier::reject_recursive_types(O)]
#[verifier::reject_recursive_types(C)]
#[verifier::reject_recursive_types(R)]
pub(crate) struct Fused<'a, I, O, C, R> {
    pub state: Option<Rest<'a, I, O, C, R>>,
}

impl<'a, I, O, C, R> Machine<I, C, R> for Fused<'a, I, O, C, R> {
    closed spec fn inv(&self) -> bool {
        &&& self.state matches Some(rest)
        &&& rest.wf()
        &&& fuses(rest.up(), rest.down())
    }

    closed spec fn behavior(&self) -> Behavior<I, C, R> {
        fused(self.state->Some_0.up(), self.state->Some_0.down())
    }

    fn resume(&mut self, e: Event<I>) -> (s: Signal<C, R>) {
        let rest = self.state.take().unwrap();
        proof {
            lemma_rest_settled(rest.up(), rest.down());
            lemma_fused_after(rest.up(), rest.down(), e);
            let next = advance(rest.up(), rest.down(), e);
            lemma_fuses_settled(next.0, next.1);
            lemma_fused_settled(next.0, next.1);
        }
        let (up, down) = match rest {
            Rest::Emitted(u, kd) => (u, kd.run(())),
            Rest::Blocked(ku, kd) => {
                let x = match e {
                    Event::Input(x) => x,
                    Event::Next => None,
                };
                (ku.run(x), ConduitM::Await(kd))
            },
        };
        match drive(up, down) {
            Settled::Done(r) => Signal::Done(r),
            Settled::Emit(c, rest) => {
                self.state = Some(rest);
                Signal::Emit(c)
            },
            Settled::Wait(rest) => {
                self.state = Some(rest);
                Signal::Wait
            },
        }
    }
}

impl<'a, I: 'a, O: 'a> ConduitM<'a, I, O, ()> {
    /// Combines two stages into one: every output of `self` is an input of
    /// `other`, and every input that `other` waits for comes from running
    /// `self`.
    ///
    /// Downstream drives. When it has finished, so has the fused stage,
    /// whatever upstream does; when it yields, the output passes straight
    /// through and upstream is not touched. Only when it waits is upstream
    /// looked at.
    pub fn fuse<C: 'a, R: 'a>(self, other: ConduitM<'a, O, C, R>) -> (r: ConduitM<'a, I, C, R>)
        requires
            self.wf(),
            other.wf(),
            fuses(self@, other@),
        ensures
            r.wf(),
            r@ == fused(self@, other@),
            other matches ConduitM::Pure(b) ==> r matches ConduitM::Pure(c) && c == b,
            other matches ConduitM::Yield(b, _) ==> r matches ConduitM::Yield(c, _) && c == b,
            other is Await && self is Await ==> r is Await,
    {
        proof {
            lemma_fuses_settled(self@, other@);
            lemma_fused_settled(self@, other@);
        }
        match drive(self, other) {
            Settled::Done(x) => {
                proof {
                    lemma_behavior_ext(fused(self@, other@), Behavior::finished(x));
                }
                ConduitM::Pure(Box::new(x))
            },
            Settled::Emit(c, rest) => {
                let head = Unit { inner: Box::new(Fused { state: Some(rest) }) };
                ConduitM::Yield(Box::new(c), Kleisli::from_chain(Chain::new(head)))
            },
            Settled::Wait(rest) => {
                let head = Unit { inner: Box::new(Fused { state: Some(rest) }) };
                ConduitM::Await(Kleisli::from_chain(Chain::new(head)))
            },
        }
    }
}

} // verus!
