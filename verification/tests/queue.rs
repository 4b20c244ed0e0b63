use plumbum::{consume, produce, ConduitM, Kleisli, Sink, Source, Void};

fn pure<'a, I, O, A>(a: A) -> ConduitM<'a, I, O, A> {
    ConduitM::Pure(Box::new(a))
}

fn counter<'a>(steps: u64) -> Kleisli<'a, Option<u64>, u64, Void, Option<u64>> {
    let mut k = Kleisli::new();
    for _ in 0..steps {
        k = k.append(|x: Option<u64>| pure(x.map(|v| v + 1)));
    }
    k
}

fn count_to(steps: u64) {
    assert!(counter(steps).run(Some(0)) == pure(Some(steps)));
}

#[test]
fn queue_of_ten_steps_runs_each_once() {
    count_to(10);
}

#[test]
fn queue_of_a_thousand_steps_runs_each_once() {
    count_to(1000);
}

#[test]
fn queue_of_a_hundred_thousand_steps_runs_each_once() {
    count_to(100000);
}

#[test]
fn queue_runs_its_steps_in_the_order_they_were_appended() {
    let k: Kleisli<Option<String>, String, Void, Option<String>> = Kleisli::new();
    let k = k.append(|x: Option<String>| pure(x.map(|s| s + "a")));
    let k = k.append(|x: Option<String>| pure(x.map(|s| s + "b")));
    let k = k.append(|x: Option<String>| pure(x.map(|s| s + "c")));
    assert!(k.run(Some(String::from(">"))) == pure(Some(String::from(">abc"))));
}

#[test]
fn queue_keeps_the_steps_behind_one_that_suspends() {
    let k: Kleisli<Option<u64>, u64, Void, Option<u64>> = Kleisli::new();
    let k = k.append(|x: Option<u64>| consume().map(move |y: Option<u64>| Some(x.unwrap_or(0) + y.unwrap_or(0))));
    let k = k.append(|x: Option<u64>| pure(x.map(|v| v * 10)));
    match k.run(Some(1)) {
        ConduitM::Await(rest) => {
            assert!(rest.run(Some(2)) == pure(Some(30)));
        }
        _ => panic!("the first step awaits a second input"),
    }
}

#[test]
fn queue_without_steps_returns_its_input() {
    assert!(counter(0).run(Some(5)) == pure(Some(5)));
    assert!(counter(0).run(None) == pure(None));
}

#[test]
fn compose_changes_the_type_of_the_result() {
    let k: Kleisli<Option<u64>, u64, Void, Option<u64>> = Kleisli::new();
    let k = k.compose(|x: Option<u64>| pure(x.is_some()));
    assert!(k.run(Some(1)) == pure(true));
    let k: Kleisli<Option<u64>, u64, Void, Option<u64>> = Kleisli::new();
    let k = k.append(|x: Option<u64>| pure(x.map(|v| v + 1)));
    let k = k.compose(|x: Option<u64>| pure(x.unwrap_or(0).to_string()));
    let k = k.append(|s: String| pure(s + "!"));
    assert!(k.run(Some(41)) == pure(String::from("42!")));
}

#[test]
fn long_chain_of_sinks_connects() {
    let mut sink: Sink<u64, u64> = consume().map(|x: Option<u64>| x.unwrap_or(0));
    for _ in 0..1000 {
        sink = sink.and_then(|v| pure(v + 1));
    }
    let src: Source<u64> = produce(5);
    assert_eq!(src.connect(sink), 1005);
}

#[test]
fn append_adds_one_step_and_run_takes_each_step_off_once() {
    let k: Kleisli<Option<u64>, u64, Void, Option<u64>> = Kleisli::new();
    assert_eq!(k.len(), 0);
    assert_eq!(counter(1).len(), 1);
    assert_eq!(counter(1000).len(), 1000);
    let mut k = counter(3);
    k = k.append(|x: Option<u64>| consume().map(move |y: Option<u64>| Some(x.unwrap_or(0) + y.unwrap_or(0))));
    for _ in 0..5 {
        k = k.append(|x: Option<u64>| pure(x.map(|v| v * 2)));
    }
    assert_eq!(k.len(), 9);
    match k.run(Some(0)) {
        ConduitM::Await(rest) => {
            assert_eq!(rest.len(), 5);
            assert!(rest.run(Some(1)) == pure(Some(128)));
        }
        _ => panic!("the fourth step awaits a second input"),
    }
}

#[test]
fn compose_starts_a_new_queue() {
    let k = counter(4).compose(|x: Option<u64>| pure(x.unwrap_or(0)));
    assert_eq!(k.len(), 0);
    let k = k.append(|v: u64| pure(v + 1));
    assert_eq!(k.len(), 1);
    assert!(k.run(Some(0)) == pure(5));
}
