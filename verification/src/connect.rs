//! Driving a producer and a consumer to completion.

use crate::behavior::{Behavior, Event, Signal};
use crate::conduit::ConduitM;
use core::convert::Infallible;
use vstd::prelude::*;

verus! {

/// The type of the outputs of a stage that has none: it has no values.
pub struct Void {
    never: Infallible,
}

/// Provides a stream of output values, without consuming any input or
/// producing a final result.
pub type Source<'a, O> = ConduitM<'a, (), O, ()>;

/// Consumes a stream of input values and produces a stream of output
/// values, without producing a final result.
pub type Conduit<'a, I, O> = ConduitM<'a, I, O, ()>;

/// Consumes a stream of input values and produces a final result, without
/// producing any output.
pub type Sink<'a, I, A> = ConduitM<'a, I, Void, A>;

/// The result of connecting `source` to `sink`, if the sink finishes within
/// `fuel` rounds.
///
/// In each round the sink waits. A finished source answers it with `None`
/// and stays finished; a source that waits is resumed with `Some(())` and
/// the sink waits on; a source that yields is resumed past its output,
/// which the sink receives. A sink that yields ends the run without a
/// result.
pub open spec fn connect_in<O, B>(
    source: Behavior<(), O, ()>,
    sink: Behavior<O, Void, B>,
    fuel: nat,
) -> Option<B>
    decreases fuel,
{
    match sink.head() {
        Signal::Done(b) => Some(b),
        Signal::Emit(_) => None,
        Signal::Wait => if fuel == 0 {
            None
        } else {
            match source.head() {
                Signal::Done(_) => connect_in(
                    source,
                    sink.step(Event::Input(None)),
                    (fuel - 1) as nat,
                ),
                Signal::Wait => connect_in(
                    source.step(Event::Input(Some(()))),
                    sink,
                    (fuel - 1) as nat,
                ),
                Signal::Emit(o) => connect_in(
                    source.step(Event::Next),
                    sink.step(Event::Input(Some(o))),
                    (fuel - 1) as nat,
                ),
            }
        },
    }
}

/// Whether the sink finishes when `source` is connected to it.
pub open spec fn connects<O, B>(source: Behavior<(), O, ()>, sink: Behavior<O, Void, B>) -> bool {
    exists|fuel: nat| (#[trigger] connect_in(source, sink, fuel)) is Some
}

/// The result of connecting `source` to `sink`.
pub open spec fn connect_result<O, B>(
    source: Behavior<(), O, ()>,
    sink: Behavior<O, Void, B>,
) -> B {
    let fuel = choose|fuel: nat| (#[trigger] connect_in(source, sink, fuel)) is Some;
    connect_in(source, sink, fuel)->Some_0
}

/// More rounds than needed do not change the result.
pub proof fn lemma_connect_fuel<O, B>(
    source: Behavior<(), O, ()>,
    sink: Behavior<O, Void, B>,
    n: nat,
    m: nat,
)
    requires
        connect_in(source, sink, n) is Some,
        n <= m,
    ensures
        connect_in(source, sink, m) == connect_in(source, sink, n),
    decreases n,
{
    if sink.head() is Wait {
        match source.head() {
            Signal::Done(_) => lemma_connect_fuel(
                source,
                sink.step(Event::Input(None)),
                (n - 1) as nat,
                (m - 1) as nat,
            ),
            Signal::Wait => lemma_connect_fuel(
                source.step(Event::Input(Some(()))),
                sink,
                (n - 1) as nat,
                (m - 1) as nat,
            ),
            Signal::Emit(o) => lemma_connect_fuel(
                source.step(Event::Next),
                sink.step(Event::Input(Some(o))),
                (n - 1) as nat,
                (m - 1) as nat,
            ),
        }
    }
}

/// The result is the one that any sufficient number of rounds gives.
pub proof fn lemma_connect_result<O, B>(
    source: Behavior<(), O, ()>,
    sink: Behavior<O, Void, B>,
    n: nat,
)
    requires
        connect_in(source, sink, n) is Some,
    ensures
        connects(source, sink),
        connect_in(source, sink, n) == Some(connect_result(source, sink)),
{
    let fuel = choose|fuel: nat| (#[trigger] connect_in(source, sink, fuel)) is Some;
    if fuel <= n {
        lemma_connect_fuel(source, sink, fuel, n);
    } else {
        lemma_connect_fuel(source, sink, n, fuel);
    }
}

impl<'a, O> ConduitM<'a, (), O, ()> {
    /// Pulls data from the source and pushes it into the sink, until the
    /// sink has finished, and returns the result of the sink.
    pub fn connect<B>(self, sink: Sink<'a, O, B>) -> (r: B)
        requires
            self.wf(),
            sink.wf(),
            connects(self@, sink@),
        ensures
            r == connect_result(self@, sink@),
    {
        let mut up = self;
        let mut down = sink;
        let ghost mut fuel = choose|fuel: nat| (#[trigger] connect_in(self@, sink@, fuel)) is Some;
        let ghost goal = connect_result(self@, sink@);
        proof {
            lemma_connect_result(self@, sink@, fuel);
        }
        loop
            invariant
                up.wf(),
                down.wf(),
                connect_in(up@, down@, fuel) == Some(goal),
                goal == connect_result(self@, sink@),
            decreases fuel,
        {
            match down {
                ConduitM::Pure(b) => {
                    return *b;
                },
                ConduitM::Await(k_sink) => {
                    match up {
                        ConduitM::Pure(x) => {
                            down = k_sink.run(None);
                            up = ConduitM::Pure(x);
                        },
                        ConduitM::Await(k_source) => {
                            up = k_source.run(Some(()));
                            down = ConduitM::Await(k_sink);
                        },
                        ConduitM::Yield(o, k_source) => {
                            up = k_source.run(());
                            down = k_sink.run(Some(*o));
                        },
                    }
                },
                ConduitM::Yield(_, _) => {
                    return unreached();
                },
            }
            proof {
                fuel = (fuel - 1) as nat;
            }
        }
    }

    /// Pulls data from the source and pushes it into the sink for at most
    /// `rounds` rounds. The result is that of the sink, or `None` if the
    /// sink has not finished by then.
    pub fn connect_within<B>(self, sink: Sink<'a, O, B>, rounds: usize) -> (r: Option<B>)
        requires
            self.wf(),
            sink.wf(),
        ensures
            r == connect_in(self@, sink@, rounds as nat),
    {
        let mut up = self;
        let mut down = sink;
        let mut left = rounds;
        loop
            invariant
                up.wf(),
                down.wf(),
                connect_in(up@, down@, left as nat) == connect_in(self@, sink@, rounds as nat),
            decreases left,
        {
            match down {
                ConduitM::Pure(b) => {
                    return Some(*b);
                },
                ConduitM::Yield(_, _) => {
                    return None;
                },
                ConduitM::Await(k_sink) => {
                    if left == 0 {
                        return None;
                    }
                    match up {
                        ConduitM::Pure(x) => {
                            down = k_sink.run(None);
                            up = ConduitM::Pure(x);
                        },
                        ConduitM::Await(k_source) => {
                            up = k_source.run(Some(()));
                            down = ConduitM::Await(k_sink);
                        },
                        ConduitM::Yield(o, k_source) => {
                            up = k_source.run(());
                            down = k_sink.run(Some(*o));
                        },
                    }
                    left = left - 1;
                },
            }
        }
    }
}

} // verus!
