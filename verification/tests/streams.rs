use plumbum::{identity_conduit, Conduit, ConduitM, Event, Signal, Sink, Source};

fn upto<'a>(to: u64) -> Source<'a, u64> {
    let first = if to == 0 { Signal::Done(()) } else { Signal::Emit(0) };
    ConduitM::unfold(1, first, move |next: u64, _: Event<()>| {
        if next < to {
            (next + 1, Signal::Emit(next))
        } else {
            (next, Signal::Done(()))
        }
    })
}

fn sum<'a>() -> Sink<'a, u64, u64> {
    ConduitM::unfold(0, Signal::Wait, |acc: u64, e: Event<u64>| match e {
        Event::Input(Some(v)) => (acc + v, Signal::Wait),
        _ => (acc, Signal::Done(acc)),
    })
}

fn collect<'a>() -> Sink<'a, u64, Vec<u64>> {
    ConduitM::unfold(Vec::new(), Signal::Wait, |mut seen: Vec<u64>, e: Event<u64>| match e {
        Event::Input(Some(v)) => {
            seen.push(v);
            (seen, Signal::Wait)
        }
        _ => (Vec::new(), Signal::Done(seen)),
    })
}

fn squares<'a>() -> Conduit<'a, u64, u64> {
    ConduitM::unfold((), Signal::Wait, |_: (), e: Event<u64>| match e {
        Event::Input(Some(v)) => ((), Signal::Emit(v * v)),
        Event::Input(None) => ((), Signal::Done(())),
        Event::Next => ((), Signal::Wait),
    })
}

#[test]
fn unfold_shows_its_first_signal_in_its_variant() {
    let done: ConduitM<u8, u8, u8> = ConduitM::unfold((), Signal::Done(3), |s: (), _| (s, Signal::Wait));
    assert!(done == ConduitM::Pure(Box::new(3)));
    assert!(matches!(sum(), ConduitM::Await(_)));
    assert!(matches!(upto(5), ConduitM::Yield(o, _) if *o == 0));
    assert!(upto(0) == ConduitM::Pure(Box::new(())));
}

#[test]
fn unfold_moves_by_its_transition_function() {
    let k = match upto(2) {
        ConduitM::Yield(_, k) => k,
        _ => panic!("the source yields its first value"),
    };
    let k = match k.run(()) {
        ConduitM::Yield(o, k) => {
            assert_eq!(*o, 1);
            k
        }
        _ => panic!("the source yields its second value"),
    };
    assert!(k.run(()) == ConduitM::Pure(Box::new(())));
}

#[test]
fn unfolded_stages_connect_in_order() {
    assert_eq!(upto(5).connect(collect()), vec![0, 1, 2, 3, 4]);
    assert_eq!(upto(0).connect(collect()), Vec::<u64>::new());
    assert_eq!(upto(4).fuse(squares()).connect(collect()), vec![0, 1, 4, 9]);
}

#[test]
fn stream_of_a_million_values_runs_in_place() {
    assert_eq!(upto(1_000_000).connect(sum()), 499_999_500_000);
}

#[test]
fn fused_stream_of_a_hundred_thousand_values_runs_in_place() {
    let through = upto(100_000).fuse(identity_conduit()).fuse(squares());
    let plain: u64 = (0..100_000u64).map(|v| v * v).sum();
    assert_eq!(through.connect(sum()), plain);
}

#[test]
fn producer_of_a_long_stream_runs_in_place() {
    let wide: Conduit<String, u64> = upto(100_000).to_producer();
    let src: Source<String> = ConduitM::Pure(Box::new(()));
    assert_eq!(src.fuse(wide).connect(sum()), 4_999_950_000);
}

#[test]
fn consumer_of_a_long_stream_runs_in_place() {
    let wide: ConduitM<u64, String, u64> = sum().to_consumer();
    assert!(upto(100_000).fuse(wide) == ConduitM::Pure(Box::new(4_999_950_000)));
}
