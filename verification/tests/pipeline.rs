use plumbum::{consume, identity_conduit, produce, Conduit, ConduitM, Sink, Source, Void};

fn pure<'a, I, O, A>(a: A) -> ConduitM<'a, I, O, A> {
    ConduitM::Pure(Box::new(a))
}

fn from_list<'a, I: 'a>(items: Vec<i32>) -> ConduitM<'a, I, i32, ()> {
    let mut rest = items.into_iter();
    match rest.next() {
        None => pure(()),
        Some(first) => produce(first).and_then(move |_| from_list(rest.collect())),
    }
}

fn naturals<'a>(from: u64) -> Source<'a, u64> {
    produce(from).and_then(move |_| naturals(from + 1))
}

fn collect<'a, O: 'a>(mut seen: Vec<i32>) -> ConduitM<'a, i32, O, Vec<i32>> {
    consume().and_then(move |x: Option<i32>| match x {
        None => pure(seen),
        Some(v) => {
            seen.push(v);
            collect(seen)
        }
    })
}

fn identity<'a>() -> Conduit<'a, i32, i32> {
    consume().and_then(|x: Option<i32>| match x {
        None => pure(()),
        Some(v) => produce(v).and_then(|_| identity()),
    })
}

fn doubling<'a>() -> Conduit<'a, i32, i32> {
    consume().and_then(|x: Option<i32>| match x {
        None => pure(()),
        Some(v) => produce(2 * v).and_then(|_| doubling()),
    })
}

fn first<'a>() -> Sink<'a, u64, Option<u64>> {
    consume()
}

#[test]
fn connect_feeds_the_produced_value_to_the_sink() {
    let src: Source<i32> = produce(42);
    let sink: Sink<i32, i32> = consume().map(|x: Option<i32>| 1 + x.unwrap_or(0));
    assert_eq!(src.connect(sink), 43);
}

#[test]
fn fuse_pipes_the_source_through_the_conduit() {
    let src: Source<i32> = produce(42);
    let conduit: Conduit<i32, i32> =
        consume().and_then(|x: Option<i32>| produce(1 + x.unwrap_or(0)));
    let sink: Sink<i32, i32> = consume().map(|x: Option<i32>| 1 + x.unwrap_or(0));
    assert_eq!(src.fuse(conduit).connect(sink), 44);
}

#[test]
fn finished_stage_hands_its_result_to_the_continuation() {
    let p: ConduitM<i32, i32, i32> = pure(7);
    let q: ConduitM<i32, i32, i32> = p.and_then(|a| pure(a * 2));
    assert!(q == pure(14));
}

#[test]
fn finished_stage_followed_by_a_yield_yields_at_once() {
    let p: ConduitM<i32, i32, i32> = pure(7);
    match p.and_then(|a| produce(a + 1)) {
        ConduitM::Yield(o, _) => assert_eq!(*o, 8),
        _ => panic!("the continuation yields"),
    }
}

#[test]
fn and_then_keeps_the_variant_of_a_suspended_stage() {
    let waiting: ConduitM<i32, i32, Option<i32>> = consume();
    assert!(matches!(waiting.and_then(|x| pure::<i32, i32, _>(x.is_some())), ConduitM::Await(_)));
    let yielding: ConduitM<i32, i32, ()> = produce(5);
    match yielding.and_then(|_| pure::<i32, i32, _>(1u8)) {
        ConduitM::Yield(o, _) => assert_eq!(*o, 5),
        _ => panic!("a yielding stage keeps its output"),
    }
}

#[test]
fn and_then_boxed_hands_over_the_box() {
    let p: ConduitM<i32, i32, i32> = pure(20);
    assert!(p.and_then_boxed(|a: Box<i32>| pure::<i32, i32, _>(*a + 1)) == pure(21));
    let src: Source<i32> = produce(3);
    let sink: Sink<i32, i32> =
        consume().and_then_boxed(|x: Box<Option<i32>>| pure((*x).unwrap_or(0) * 10));
    assert_eq!(src.connect(sink), 30);
}

#[test]
fn map_changes_the_result_only() {
    let p: ConduitM<i32, i32, i32> = pure(4);
    assert!(p.map(|a| a.to_string()) == pure(String::from("4")));
    let src: Source<i32> = pure(());
    let sink: Sink<i32, i32> = consume().map(|x: Option<i32>| 1 + x.unwrap_or(0));
    assert_eq!(src.connect(sink), 1);
}

#[test]
fn consume_awaits_and_produce_yields() {
    let c: ConduitM<u8, u8, Option<u8>> = consume();
    match c {
        ConduitM::Await(k) => {
            assert!(k.run(Some(9)) == pure(Some(9)));
        }
        _ => panic!("consume awaits"),
    }
    let c: ConduitM<u8, u8, Option<u8>> = consume();
    match c {
        ConduitM::Await(k) => {
            assert!(k.run(None) == pure(None));
        }
        _ => panic!("consume awaits"),
    }
    let p: ConduitM<u8, u8, ()> = produce(3);
    match p {
        ConduitM::Yield(o, k) => {
            assert_eq!(*o, 3);
            assert!(k.run(()) == pure(()));
        }
        _ => panic!("produce yields"),
    }
}

#[test]
fn connect_preserves_order() {
    let src: Source<i32> = from_list(vec![1, 2, 3]);
    assert_eq!(src.connect(collect(Vec::new())), vec![1, 2, 3]);
}

#[test]
fn connect_of_an_empty_source_feeds_none() {
    let src: Source<i32> = from_list(Vec::new());
    assert_eq!(src.connect(collect(Vec::new())), Vec::<i32>::new());
}

#[test]
fn connect_returns_at_once_when_the_sink_has_finished() {
    let src: Source<u64> = naturals(0);
    let sink: Sink<u64, &str> = pure("done");
    assert_eq!(src.connect(sink), "done");
}

#[test]
fn connect_resumes_a_source_that_awaits() {
    let src: Source<i32> =
        consume().and_then(|x: Option<()>| produce(if x.is_some() { 1 } else { 0 }));
    let sink: Sink<i32, Option<i32>> = consume();
    assert_eq!(src.connect(sink), Some(1));
}

#[test]
fn connect_stops_an_infinite_source_when_the_sink_has_finished() {
    assert_eq!(naturals(0).connect(first()), Some(0));
}

#[test]
fn fuse_stops_an_infinite_source_when_downstream_has_finished() {
    let take_one: ConduitM<u64, u64, ()> =
        consume().and_then(|x: Option<u64>| produce(x.unwrap_or(99)));
    let fused: Source<u64> = naturals(0).fuse(take_one);
    assert_eq!(fused.connect(first()), Some(0));
    let second: Sink<u64, Option<u64>> =
        consume().and_then(|_| consume::<u64, Void>());
    let take_one: ConduitM<u64, u64, ()> =
        consume().and_then(|x: Option<u64>| produce(x.unwrap_or(99)));
    assert_eq!(naturals(7).fuse(take_one).connect(second), None);
}

#[test]
fn fuse_with_the_identity_conduit_changes_nothing() {
    let plain = from_list::<()>(vec![1, 2, 3]).connect(collect(Vec::new()));
    let fused = from_list::<()>(vec![1, 2, 3]).fuse(identity()).connect(collect(Vec::new()));
    assert_eq!(fused, plain);
    assert_eq!(fused, vec![1, 2, 3]);
    let sum = |xs: Vec<i32>| xs.into_iter().sum::<i32>();
    let src: Source<i32> = produce(42);
    let fused = src.fuse(identity()).connect(collect(Vec::new()).map(sum));
    let src: Source<i32> = produce(42);
    assert_eq!(fused, src.connect(collect(Vec::new()).map(sum)));
}

#[test]
fn fuse_hands_every_output_downstream_in_order() {
    let src: Source<i32> = from_list(vec![1, 2, 3]);
    assert_eq!(src.fuse(doubling()).connect(collect(Vec::new())), vec![2, 4, 6]);
    let src: Source<i32> = from_list(vec![5, 6]);
    let twice = src.fuse(doubling()).fuse(doubling());
    assert_eq!(twice.connect(collect(Vec::new())), vec![20, 24]);
}

#[test]
fn fuse_with_a_finished_downstream_is_finished() {
    let up: Conduit<i32, i32> = identity();
    let down: ConduitM<i32, u8, &str> = pure("r");
    assert!(up.fuse(down) == pure("r"));
}

#[test]
fn fuse_passes_a_downstream_output_through_before_it_looks_upstream() {
    let up: Conduit<i32, i32> = identity();
    let down: ConduitM<i32, u8, ()> = produce(7u8);
    match up.fuse(down) {
        ConduitM::Yield(c, k) => {
            assert_eq!(*c, 7);
            assert!(k.run(()) == pure(()));
        }
        _ => panic!("the output of downstream passes through"),
    }
}

#[test]
fn fuse_awaits_when_both_stages_await() {
    let up: Conduit<i32, i32> = identity();
    let down: ConduitM<i32, i32, Vec<i32>> = collect(Vec::new());
    match up.fuse(down) {
        ConduitM::Await(k) => match k.run(Some(4)) {
            ConduitM::Await(k) => {
                assert!(k.run(None) == pure(vec![4]));
            }
            _ => panic!("the fused stage awaits the next input"),
        },
        _ => panic!("neither stage can go on"),
    }
}

#[test]
fn fuse_feeds_none_once_upstream_has_finished() {
    let up: Conduit<i32, i32> = pure(());
    let down: ConduitM<i32, u8, Vec<i32>> = collect(Vec::new());
    assert!(up.fuse(down) == pure(Vec::new()));
}

#[test]
fn to_producer_connects_as_the_source_does() {
    let plain = from_list::<()>(vec![1, 2, 3]).connect(collect(Vec::new()));
    let cast = from_list::<()>(vec![1, 2, 3]).to_producer::<()>().connect(collect(Vec::new()));
    assert_eq!(cast, plain);
    let generalized: Conduit<String, i32> = from_list::<()>(vec![4, 5]).to_producer();
    let src: Source<String> = produce(String::from("unused"));
    assert_eq!(src.fuse(generalized).connect(collect(Vec::new())), vec![4, 5]);
}

#[test]
fn to_producer_answers_the_awaits_of_the_source() {
    let src: Source<i32> =
        consume().and_then(|x: Option<()>| produce(if x.is_some() { 1 } else { 0 }));
    match src.to_producer::<u8>() {
        ConduitM::Yield(o, k) => {
            assert_eq!(*o, 1);
            assert!(k.run(()) == pure(()));
        }
        _ => panic!("a producer does not await"),
    }
    let done: Source<i32> = pure(());
    assert!(done.to_producer::<u8>() == pure(()));
}

#[test]
fn to_consumer_connects_as_the_sink_does() {
    let plain = from_list::<()>(vec![1, 2, 3]).connect(collect(Vec::new()));
    let sink: Sink<i32, Vec<i32>> = collect(Vec::new());
    let cast = from_list::<()>(vec![1, 2, 3]).connect(sink.to_consumer());
    assert_eq!(cast, plain);
    let sink: Sink<i32, Vec<i32>> = collect(Vec::new());
    let generalized: ConduitM<i32, String, Vec<i32>> = sink.to_consumer();
    let src: Conduit<(), i32> = from_list(vec![7, 8]);
    assert!(matches!(src.fuse(generalized), ConduitM::Pure(r) if *r == vec![7, 8]));
    let done: Sink<i32, u8> = pure(3);
    assert!(done.to_consumer::<String>() == pure(3));
}

#[test]
fn equality_holds_between_finished_stages_only() {
    let a: ConduitM<i32, i32, i32> = pure(1);
    let b: ConduitM<i32, i32, i32> = pure(1);
    let c: ConduitM<i32, i32, i32> = pure(2);
    assert!(a == b);
    assert!(a != c);
    let w: ConduitM<i32, i32, Option<i32>> = consume();
    let v: ConduitM<i32, i32, Option<i32>> = consume();
    assert!(w != v);
    assert!(w != pure(None));
    let y: ConduitM<i32, i32, ()> = produce(1);
    let z: ConduitM<i32, i32, ()> = produce(1);
    assert!(y != z);
}

#[test]
fn from_wraps_the_result() {
    let p: ConduitM<i32, i32, u8> = ConduitM::from(5);
    assert!(p == pure(5));
    let q: ConduitM<i32, i32, &str> = "x".into();
    assert!(matches!(q, ConduitM::Pure(b) if *b == "x"));
}

#[test]
fn describe_shows_the_result_of_a_finished_stage_only() {
    let p: ConduitM<i32, i32, i32> = pure(12);
    assert_eq!(p.describe(), "Pure(12)");
    let s: ConduitM<i32, i32, &str> = pure("a");
    assert_eq!(s.describe(), "Pure(\"a\")");
    let w: ConduitM<i32, i32, Option<i32>> = consume();
    assert_eq!(w.describe(), "Await(..)");
    let y: ConduitM<i32, i32, ()> = produce(1);
    assert_eq!(y.describe(), "Yield(..)");
}

#[test]
fn identity_conduit_passes_each_input_on_and_ends_with_upstream() {
    let id: Conduit<i32, i32> = identity_conduit();
    let k = match id {
        ConduitM::Await(k) => k,
        _ => panic!("the pass-through stage awaits"),
    };
    let k = match k.run(Some(5)) {
        ConduitM::Yield(o, k) => {
            assert_eq!(*o, 5);
            k
        }
        _ => panic!("the pass-through stage yields what it got"),
    };
    let k = match k.run(()) {
        ConduitM::Await(k) => k,
        _ => panic!("the pass-through stage awaits again"),
    };
    assert!(k.run(None) == pure(()));
}

#[test]
fn fuse_with_identity_conduit_changes_nothing() {
    let plain = from_list::<()>(vec![3, 1, 2]).connect(collect(Vec::new()));
    let fused = from_list::<()>(vec![3, 1, 2])
        .fuse(identity_conduit())
        .connect(collect(Vec::new()));
    assert_eq!(fused, plain);
    assert_eq!(fused, vec![3, 1, 2]);
    let empty: Source<i32> = pure(());
    assert_eq!(empty.fuse(identity_conduit()).connect(collect(Vec::new())), Vec::<i32>::new());
    assert_eq!(naturals(4).fuse(identity_conduit()).connect(first()), Some(4));
}

#[test]
fn connect_within_gives_the_result_when_the_rounds_suffice() {
    let src: Source<i32> = from_list(vec![1, 2, 3]);
    assert_eq!(src.connect_within(collect(Vec::new()), 4), Some(vec![1, 2, 3]));
    let src: Source<i32> = produce(42);
    let sink: Sink<i32, i32> = consume().map(|x: Option<i32>| 1 + x.unwrap_or(0));
    assert_eq!(src.connect_within(sink, 1), Some(43));
}

#[test]
fn connect_within_gives_up_when_the_rounds_run_out() {
    let src: Source<i32> = from_list(vec![1, 2, 3]);
    assert_eq!(src.connect_within(collect(Vec::new()), 3), None);
    let src: Source<i32> = produce(42);
    let sink: Sink<i32, i32> = consume().map(|x: Option<i32>| 1 + x.unwrap_or(0));
    assert_eq!(src.connect_within(sink, 0), None);
    let never: Sink<u64, u64> = drain();
    assert_eq!(naturals(0).connect_within(never, 1000), None);
}

#[test]
fn connect_within_needs_no_round_for_a_finished_sink() {
    let sink: Sink<u64, u8> = pure(9);
    assert_eq!(naturals(0).connect_within(sink, 0), Some(9));
}

fn drain<'a>() -> Sink<'a, u64, u64> {
    consume().and_then(|_| drain())
}

#[test]
fn exhausted_source_feeds_none_again_and_again() {
    let sink: Sink<i32, (Option<i32>, Option<i32>, Option<i32>)> = consume().and_then(|a| {
        consume().and_then(move |b| consume().map(move |c| (a, b, c)))
    });
    let src: Source<i32> = produce(1);
    assert_eq!(src.connect(sink), (Some(1), None, None));
}
