use ax::combinator::{
    enumerate, enumerate_action, if_then_else, map_action, map_err, map_result, repeat,
    repeat_until_terminal, Either, Render,
};
use ax::numberguesser::State as Guessing;
use ax::{Action, BufferSink, Condition, Sink, SinkError, State, Status, Transform};

/// A position counting how many plies were played; it is terminal once the
/// count reaches its limit.
#[derive(Debug, Clone, Copy, PartialEq)]
struct Counter {
    v: i64,
    limit: i64,
}

impl State<()> for Counter {
    fn wf(&self) -> bool {
        panic!("ghost member, never called at runtime")
    }

    fn spec_status(&self) -> Result<Status, ()> {
        panic!("ghost member, never called at runtime")
    }

    fn status(&self) -> Result<Status, ()> {
        if self.v >= self.limit {
            Ok(Status::Terminal)
        } else {
            Ok(Status::Valid)
        }
    }
}

/// Advances the counter by one.
struct Inc;

impl Action<(), (), Counter, Counter> for Inc {
    fn enabled(&self, _input: &Counter) -> bool {
        panic!("ghost member, never called at runtime")
    }

    fn transition(_pre: Self, _input: Counter, _post: Self, _r: Result<Counter, ()>) -> bool {
        panic!("ghost member, never called at runtime")
    }

    fn apply(&mut self, state: Counter) -> Result<Counter, ()> {
        Ok(Counter { v: state.v + 1, limit: state.limit })
    }
}

/// Always fails with the unit error.
struct Fail;

impl Action<(), (), Counter, Counter> for Fail {
    fn enabled(&self, _input: &Counter) -> bool {
        panic!("ghost member, never called at runtime")
    }

    fn transition(_pre: Self, _input: Counter, _post: Self, _r: Result<Counter, ()>) -> bool {
        panic!("ghost member, never called at runtime")
    }

    fn apply(&mut self, _state: Counter) -> Result<Counter, ()> {
        Err(())
    }
}

fn counter(v: i64) -> Counter {
    Counter { v, limit: 3 }
}

#[test]
fn repeat_zero_returns_input_unchanged() {
    let mut action = repeat(Inc, 0);
    assert_eq!(Ok(counter(7)), action.apply(counter(7)));
}

#[test]
fn repeat_applies_exactly_n_times() {
    let mut action = repeat(Inc, 5);
    assert_eq!(Ok(Counter { v: 5, limit: 3 }), action.apply(counter(0)));
}

#[test]
fn repeat_short_circuits_on_failure() {
    let mut action = repeat(Fail, 2);
    assert_eq!(Err(()), action.apply(counter(0)));
}

#[test]
fn repeat_until_terminal_stops_at_terminal() {
    let mut action = repeat_until_terminal(Inc);
    assert_eq!(Ok(Counter { v: 3, limit: 3 }), action.apply(counter(0)));
}

#[test]
fn map_with_identity_behaves_as_action_alone() {
    struct Id;

    impl Transform<Counter, Counter> for Id {
        fn accepts(&self, _x: &Counter) -> bool {
            panic!("ghost member, never called at runtime")
        }

        fn image(&self, _x: Counter) -> Counter {
            panic!("ghost member, never called at runtime")
        }

        fn call(&self, x: Counter) -> Counter {
            x
        }
    }

    let mut mapped = Inc.map(Id);
    let mut plain = Inc;
    assert_eq!(plain.apply(counter(1)), mapped.apply(counter(1)));
}

#[test]
fn map_transforms_success_only() {
    struct Double;

    impl Transform<Counter, Counter> for Double {
        fn accepts(&self, _x: &Counter) -> bool {
            panic!("ghost member, never called at runtime")
        }

        fn image(&self, _x: Counter) -> Counter {
            panic!("ghost member, never called at runtime")
        }

        fn call(&self, x: Counter) -> Counter {
            Counter { v: 2 * x.v, limit: x.limit }
        }
    }

    let mut mapped = ax::combinator::map(Inc, Double);
    assert_eq!(Ok(Counter { v: 4, limit: 3 }), mapped.apply(counter(1)));

    let mut failing = ax::combinator::map(Fail, Double);
    assert_eq!(Err(()), failing.apply(counter(1)));
}

#[test]
fn map_err_transforms_error_only() {
    struct ToCode;

    impl Transform<(), i64> for ToCode {
        fn accepts(&self, _x: &()) -> bool {
            panic!("ghost member, never called at runtime")
        }

        fn image(&self, _x: ()) -> i64 {
            panic!("ghost member, never called at runtime")
        }

        fn call(&self, _x: ()) -> i64 {
            42
        }
    }

    let mut ok = map_err(Inc, ToCode);
    assert_eq!(Ok(counter(1)), ok.apply(counter(0)));

    let mut failing = map_err(Fail, ToCode);
    assert_eq!(Err(42), failing.apply(counter(0)));
}

#[test]
fn map_action_feeds_first_into_second() {
    let mut composed = map_action(Inc, Inc);
    assert_eq!(Ok(Counter { v: 2, limit: 3 }), composed.apply(counter(0)));

    let mut aborted = map_action(Fail, Inc);
    assert_eq!(Err(()), aborted.apply(counter(0)));
}

#[test]
fn map_result_may_recover_an_error() {
    struct Recover;

    impl Transform<Result<Counter, ()>, Result<Counter, i64>> for Recover {
        fn accepts(&self, _x: &Result<Counter, ()>) -> bool {
            panic!("ghost member, never called at runtime")
        }

        fn image(&self, _x: Result<Counter, ()>) -> Result<Counter, i64> {
            panic!("ghost member, never called at runtime")
        }

        fn call(&self, x: Result<Counter, ()>) -> Result<Counter, i64> {
            match x {
                Ok(s) => Ok(s),
                Err(()) => Ok(Counter { v: 0, limit: 3 }),
            }
        }
    }

    let mut recovered = map_result(Fail, Recover);
    assert_eq!(Ok(counter(0)), recovered.apply(counter(9)));
}

#[test]
fn enumerate_attaches_increasing_indices() {
    let mut e = enumerate();
    let r0: Result<(usize, Counter), ()> = e.apply(counter(5));
    let r1: Result<(usize, Counter), ()> = e.apply(counter(6));
    assert_eq!(Ok((0, counter(5))), r0);
    assert_eq!(Ok((1, counter(6))), r1);
}

#[test]
fn enumerate_action_observes_index_k_on_kth_call() {
    /// Records every index it is handed, failing on odd indices.
    struct Spy {
        seen: Vec<usize>,
    }

    impl Action<(), (), (usize, Counter), Counter> for Spy {
        fn enabled(&self, _input: &(usize, Counter)) -> bool {
            panic!("ghost member, never called at runtime")
        }

        fn transition(_pre: Self, _input: (usize, Counter), _post: Self, _r: Result<Counter, ()>) -> bool {
            panic!("ghost member, never called at runtime")
        }

        fn apply(&mut self, state: (usize, Counter)) -> Result<Counter, ()> {
            self.seen.push(state.0);
            if state.0 % 2 == 1 {
                Err(())
            } else {
                Ok(state.1)
            }
        }
    }

    let mut ea = enumerate_action(Spy { seen: Vec::new() });
    assert_eq!(Ok(counter(0)), ea.apply(counter(0)));
    assert_eq!(Err(()), ea.apply(counter(0)));
    assert_eq!(Ok(counter(0)), ea.apply(counter(0)));
    assert_eq!(Err(()), ea.apply(counter(0)));
    assert_eq!(vec![0, 1, 2, 3], ea.action.seen);
}

/// A constant predicate.
struct Always(bool);

impl Condition<Counter> for Always {
    fn holds(&self, _x: &Counter) -> bool {
        panic!("ghost member, never called at runtime")
    }

    fn test(&self, _x: &Counter) -> bool {
        self.0
    }
}

#[test]
fn if_then_else_true_tags_left_with_first_branch() {
    let mut branch = if_then_else(Always(true), Inc, Fail);
    match branch.apply(counter(0)) {
        Ok(Either::Left(s)) => assert_eq!(counter(1), s),
        _ => panic!("expected the first branch, tagged Left"),
    }
}

#[test]
fn if_then_else_false_tags_right_with_second_branch() {
    let mut branch = if_then_else(Always(false), Inc, Fail);
    match branch.apply(counter(0)) {
        Err(Either::Right(())) => {}
        _ => panic!("expected the second branch's error, tagged Right"),
    }
}

#[test]
fn either_delegates_status_to_active_variant() {
    let l: Either<Counter, Counter> = Either::Left(counter(3));
    let r: Either<Counter, Counter> = Either::Right(counter(0));
    assert_eq!(Ok(Status::Terminal), l.status());
    assert_eq!(Ok(Status::Valid), r.status());
}

#[test]
fn buffer_sink_records_writes() {
    let mut sink = BufferSink::new();
    assert_eq!(Ok(()), sink.write_all(&vec![1, 2, 3]));
    assert_eq!(Ok(()), sink.write_all(&vec![4]));
    assert_eq!(vec![1, 2, 3, 4], sink.data);
}

#[test]
fn render_writes_position_bytes_and_passes_it_through() {
    let position = Guessing::with_number(0, 100, 10).guess(10);
    let mut action = Render { out: BufferSink::new() };
    let r: Result<Guessing, SinkError> = action.apply(position);
    assert_eq!(Ok(position), r);
    assert_eq!(b"Correct!\n".to_vec(), action.out.data);
}
