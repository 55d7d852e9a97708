use isola::js_script::{
    after_discarded_job, after_job, after_ready, call_plan, Boundary, Drive, InputValue,
    JobDecision, JsError, Load, PollDecision, PromiseState, Rejection, RejectionReason, Scope,
    ScriptEvent, ScriptRun, Source, ValueKind,
};
use isola::python_script::{check_script, Flush, ObjectKind, PyFailure};

fn follow(events: Vec<ScriptEvent>) -> ScriptRun {
    let mut run = Scope::new().run();
    for event in events {
        run = run.advance(event);
    }
    run
}

#[test]
fn values_are_read_without_a_call() {
    let run = follow(vec![
        ScriptEvent::Looked(Ok(Some(false))),
        ScriptEvent::Checked(Ok(())),
        ScriptEvent::Answered(false),
        ScriptEvent::Answered(false),
        ScriptEvent::Answered(true),
    ]);
    assert!(matches!(run, ScriptRun::End { empty: false }));
    assert!(matches!(run.advance(ScriptEvent::Emitted(Ok(()))), ScriptRun::Finished(Ok(()))));
}

#[test]
fn names_that_nothing_defines_cannot_be_called() {
    let run = follow(vec![ScriptEvent::Looked(Ok(None))]);
    assert!(matches!(
        run,
        ScriptRun::Finished(Err(JsError::Unexpected("name is not defined")))
    ));
    let run = follow(vec![ScriptEvent::Looked(Ok(None)), ScriptEvent::Emitted(Ok(()))]);
    assert!(matches!(run, ScriptRun::Finished(Err(_))));
}

#[test]
fn promises_are_driven_before_their_value_is_used() {
    let run = follow(vec![
        ScriptEvent::Looked(Ok(Some(true))),
        ScriptEvent::Built(Ok(())),
        ScriptEvent::Called(Ok(true)),
        ScriptEvent::Checked(Ok(())),
    ]);
    assert!(matches!(run, ScriptRun::Drive));
    let run = run.advance(ScriptEvent::Driven(Ok(())));
    assert!(matches!(run, ScriptRun::Ready));
    let failed = run.advance(ScriptEvent::Checked(Err(JsError::Unexpected("stop"))));
    assert!(matches!(failed, ScriptRun::Finished(Err(JsError::Unexpected("stop")))));
}

fn generator(source: Source) -> ScriptRun {
    let mut events = vec![ScriptEvent::Looked(Ok(Some(false))), ScriptEvent::Checked(Ok(()))];
    let noes = match source {
        Source::Async => 0,
        Source::Generator => 1,
        Source::Iterator => 3,
    };
    for _ in 0..noes {
        events.push(ScriptEvent::Answered(false));
    }
    events.push(ScriptEvent::Answered(true));
    follow(events)
}

fn step(run: ScriptRun, done: bool, undefined: bool) -> ScriptRun {
    let run = run.advance(ScriptEvent::Called(Ok(false)));
    let run = run.advance(ScriptEvent::Checked(Ok(())));
    run.advance(ScriptEvent::Stepped(Some((done, undefined))))
}

#[test]
fn generators_hand_over_value_by_value() {
    for source in [Source::Async, Source::Generator, Source::Iterator] {
        let mut run = generator(source);
        for _ in 0..3 {
            run = step(run, false, false);
            assert!(matches!(run, ScriptRun::Partial(_)));
            run = run.advance(ScriptEvent::Emitted(Ok(())));
        }
        let last = step(run, true, false);
        assert!(matches!(last, ScriptRun::End { empty } if empty == (source == Source::Iterator)));
        assert!(matches!(
            last.advance(ScriptEvent::Emitted(Ok(()))),
            ScriptRun::Finished(Ok(()))
        ));
    }
    assert!(matches!(
        step(generator(Source::Generator), true, true),
        ScriptRun::End { empty: true }
    ));
}

#[test]
fn asynchronous_iterators_are_closed_on_failure() {
    let run = step(generator(Source::Async), false, false);
    let run = run.advance(ScriptEvent::Emitted(Err("cycle".to_string())));
    assert!(matches!(&run, ScriptRun::Close(cause) if cause == "cycle"));
    let run = run.advance(ScriptEvent::Closed);
    assert!(matches!(
        run,
        ScriptRun::Finished(Err(JsError::Js { cause, stack: None })) if cause == "cycle"
    ));
    let run = step(generator(Source::Generator), false, false);
    let run = run.advance(ScriptEvent::Emitted(Err("cycle".to_string())));
    assert!(matches!(run, ScriptRun::Finished(Err(JsError::Js { .. }))));
}

#[test]
fn steps_of_asynchronous_iterators_are_awaited() {
    let run = generator(Source::Async).advance(ScriptEvent::Called(Ok(true)));
    let run = run.advance(ScriptEvent::Checked(Ok(())));
    assert!(matches!(run, ScriptRun::NextDrive));
    let run = run.advance(ScriptEvent::Driven(Ok(())));
    let run = run.advance(ScriptEvent::Stepped(None));
    assert!(matches!(
        run,
        ScriptRun::Finished(Err(JsError::Unexpected("expected object from next()")))
    ));
}

#[test]
fn other_results_are_refused() {
    let run = follow(vec![
        ScriptEvent::Looked(Ok(Some(false))),
        ScriptEvent::Checked(Ok(())),
        ScriptEvent::Answered(false),
        ScriptEvent::Answered(false),
        ScriptEvent::Answered(false),
        ScriptEvent::Answered(false),
    ]);
    assert!(matches!(
        run,
        ScriptRun::Finished(Err(JsError::Unexpected(
            "Return type is not serializable or iterable"
        )))
    ));
}

#[test]
fn finished_runs_stay_finished() {
    let run = ScriptRun::Finished(Ok(())).advance(ScriptEvent::Answered(true));
    assert!(matches!(run, ScriptRun::Finished(Ok(()))));
    let run = ScriptRun::Lookup.advance(ScriptEvent::Closed);
    assert!(matches!(run, ScriptRun::Lookup));
}

#[test]
fn unhandled_rejections_are_reported_once() {
    let mut scope = Scope::new();
    let reason = || RejectionReason::Exception {
        message: Some("boom".to_string()),
        stack: Some("at x".to_string()),
    };
    scope.rejections.track(1, reason(), false, false);
    scope.rejections.track(2, reason(), false, true);
    match scope.rejections.report() {
        Err(JsError::Js { cause, stack }) => {
            assert_eq!(cause, "boom");
            assert_eq!(stack.as_deref(), Some("at x"));
        }
        other => panic!("expected a rejection, got {other:?}"),
    }
    assert!(scope.rejections.report().is_ok());
    scope.rejections.track(3, reason(), false, false);
    scope.rejections.track(3, reason(), true, false);
    assert!(scope.rejections.report().is_ok());
    scope.rejections.track(4, reason(), false, false);
    let _ = scope.load_script();
    assert!(scope.rejections.report().is_ok());
    scope.rejections.track(5, reason(), false, false);
    assert_eq!(scope.finish_boundary(7), 7);
    assert!(scope.rejections.report().is_ok());
}

#[test]
fn rejection_causes() {
    let cause = |reason| Rejection::from_value(reason).cause;
    assert_eq!(
        cause(RejectionReason::Exception { message: None, stack: None }),
        "Unhandled promise rejection"
    );
    assert_eq!(cause(RejectionReason::Text(Some("text".to_string()))), "text");
    assert_eq!(cause(RejectionReason::Text(None)), "JavaScript error");
    assert_eq!(cause(RejectionReason::Other("Int(3)".to_string())), "Int(3)");
}

#[test]
fn jobs_run_until_none_is_left() {
    assert_eq!(after_job(true, false), JobDecision::Again);
    assert_eq!(after_job(false, false), JobDecision::Report);
    assert_eq!(after_job(true, true), JobDecision::Fail);
    assert_eq!(after_job(false, true), JobDecision::Fail);
    assert_eq!(after_discarded_job(true, true), (true, true));
    assert_eq!(after_discarded_job(false, false), (false, false));
}

#[test]
fn boundaries_end_after_eight_rounds() {
    let mut boundary = Boundary::begin();
    let mut rounds = 0;
    while boundary != Boundary::Drop {
        boundary = boundary.cancelled(Some(1)).discarded(true);
        rounds += 1;
    }
    assert_eq!(rounds, 8);
    assert_eq!(Boundary::begin().cancelled(None).discarded(false), Boundary::Drop);
    assert_eq!(Boundary::begin().cancelled(Some(0)).discarded(true), Boundary::Cancel(1));
    assert_eq!(Boundary::begin().cancelled(Some(2)).discarded(false), Boundary::Cancel(1));
}

#[test]
fn promises_that_nothing_can_settle_fail() {
    let look = || Drive::Settle.checked(Ok(()));
    assert!(matches!(
        look().looked(PromiseState::Resolved, false),
        Drive::Finished(Ok(()))
    ));
    assert!(matches!(
        look().looked(PromiseState::Pending, false),
        Drive::Finished(Err(JsError::Unexpected("promise never resolved")))
    ));
    let rejected = look().looked(PromiseState::Rejected, true);
    assert!(matches!(rejected, Drive::Catch));
    assert!(matches!(
        rejected.caught(JsError::Unexpected("thrown")),
        Drive::Finished(Err(JsError::Unexpected("thrown")))
    ));
    let poll = || look().looked(PromiseState::Pending, true);
    assert!(matches!(poll().polled(None, true, PromiseState::Pending), Drive::Settle));
    assert!(matches!(poll().polled(None, false, PromiseState::Resolved), Drive::Settle));
    assert!(matches!(
        poll().polled(None, false, PromiseState::Pending),
        Drive::Finished(Err(JsError::Unexpected("promise never resolved")))
    ));
    assert!(matches!(
        poll().polled(Some(JsError::Unexpected("x")), true, PromiseState::Resolved),
        Drive::Finished(Err(JsError::Unexpected("x")))
    ));
}

#[test]
fn polling_decisions() {
    let decide = |state, suspend| after_ready(Ok(()), Ok(()), state, suspend).0;
    assert_eq!(decide(PromiseState::Pending, true), PollDecision::Wait);
    assert_eq!(decide(PromiseState::Resolved, true), PollDecision::Suspend);
    assert_eq!(decide(PromiseState::Rejected, false), PollDecision::Stop);
    let (decision, error) = after_ready(
        Err(JsError::Unexpected("first")),
        Err(JsError::Unexpected("second")),
        PromiseState::Pending,
        false,
    );
    assert_eq!(decision, PollDecision::Stop);
    assert!(matches!(error, Some(JsError::Unexpected("first"))));
}

#[test]
fn scripts_are_loaded_step_by_step() {
    let mut scope = Scope::new();
    let load = scope.load_file();
    assert!(matches!(
        load.read(false),
        Load::Finished {
            outcome: Err(JsError::Unexpected("failed to read script")),
            evaluated: false
        }
    ));
    let load = scope.load_file().read(true).transpiled(Err("type".to_string()));
    assert!(matches!(
        load,
        Load::Finished { outcome: Err(JsError::Transpile(_)), evaluated: false }
    ));
    let load = scope.load_script().transpiled(Ok(())).evaluated(Ok(())).checked(Ok(()));
    assert!(matches!(load, Load::Finished { outcome: Ok(()), evaluated: true }));
    let load = scope.load_script().transpiled(Ok(())).evaluated(Err(JsError::Unexpected("e")));
    assert!(matches!(load, Load::Finished { outcome: Err(_), evaluated: true }));
}

#[test]
fn arguments_of_a_call() {
    let plan = call_plan(vec![InputValue::Cbor(vec![1])], vec![]);
    assert_eq!(plan.positional.len(), 1);
    assert!(plan.options.is_none());
    let plan = call_plan(vec![], vec![("k".to_string(), InputValue::Iter(vec![vec![1], vec![2]]))]);
    let options = plan.options.unwrap();
    assert_eq!(options[0].0, "k");
    let input = InputValue::Iter(vec![vec![1], vec![2]]).plan();
    assert!(input.is_array);
    assert_eq!(input.values, [[1], [2]]);
    let input = InputValue::Cbor(vec![3]).plan();
    assert!(!input.is_array);
    assert_eq!(input.values, [[3]]);
}

#[test]
fn values_that_are_handed_over_whole() {
    let nothing = ValueKind {
        is_null: false,
        is_undefined: false,
        is_bool: false,
        is_int: false,
        is_number: false,
        is_string: false,
        is_array: false,
        is_object: false,
    };
    assert!(!isola::js_script::is_serializable(nothing));
    assert!(isola::js_script::is_serializable(ValueKind { is_string: true, ..nothing }));
    assert!(isola::js_script::is_serializable(ValueKind { is_undefined: true, ..nothing }));
}

type PyRun = isola::python_script::ScriptRun<&'static str>;
type PyEvent = isola::python_script::ScriptEvent<&'static str>;

fn follow_python(events: Vec<PyEvent>) -> PyRun {
    let mut run = PyRun::begin();
    for event in events {
        run = run.advance("main", event);
    }
    run
}

#[test]
fn names_must_be_defined() {
    let run = follow_python(vec![PyEvent::Looked(Ok(None))]);
    assert!(matches!(
        run,
        PyRun::Finished(Err(PyFailure::NameError(message)))
            if message == "name 'main' is not defined"
    ));
}

#[test]
fn generators_end_with_an_empty_value() {
    let mut run = follow_python(vec![
        PyEvent::Looked(Ok(Some(true))),
        PyEvent::Built(Ok(())),
        PyEvent::Called(Ok(())),
        PyEvent::Answered(true),
        PyEvent::Ran(Ok(())),
        PyEvent::Answered(false),
        PyEvent::Answered(true),
    ]);
    let mut partial = 0;
    for more in [true, true, true, false] {
        run = run.advance("main", PyEvent::Stepped(Ok(more)));
        if more {
            assert!(matches!(run, PyRun::Partial));
            partial += 1;
            run = run.advance("main", PyEvent::Emitted(Ok(())));
        }
    }
    assert_eq!(partial, 3);
    assert!(matches!(run, PyRun::End { empty: true }));
    assert!(matches!(
        run.advance("main", PyEvent::Emitted(Ok(()))),
        PyRun::Finished(Ok(()))
    ));
}

#[test]
fn python_values_and_failures() {
    let run = follow_python(vec![
        PyEvent::Looked(Ok(Some(false))),
        PyEvent::Answered(false),
        PyEvent::Answered(true),
    ]);
    assert!(matches!(run, PyRun::End { empty: false }));
    let run = follow_python(vec![
        PyEvent::Looked(Ok(Some(false))),
        PyEvent::Answered(false),
        PyEvent::Answered(false),
        PyEvent::Answered(false),
    ]);
    assert!(matches!(
        run,
        PyRun::Finished(Err(PyFailure::UnexpectedError(
            "Return type is not serializable or iterable"
        )))
    ));
    let run = follow_python(vec![PyEvent::Looked(Err(PyFailure::Raised("boom")))]);
    assert!(matches!(run, PyRun::Finished(Err(PyFailure::Raised("boom")))));
}

#[test]
fn numpy_arrays_are_serializable_results() {
    let kind = |module: Option<&str>, has_dtype| ObjectKind {
        is_none: false,
        is_dict: false,
        is_list: false,
        is_tuple: false,
        is_str: false,
        is_bool: false,
        is_int: false,
        is_float: false,
        is_bytes: false,
        is_bytearray: false,
        is_memoryview: false,
        module: module.map(str::to_string),
        has_dtype,
    };
    assert!(isola::python_script::is_serializable(&kind(Some("numpy"), true)));
    assert!(!isola::python_script::is_serializable(&kind(Some("numpy"), false)));
    assert!(!isola::python_script::is_serializable(&kind(Some("pandas"), true)));
    assert!(!isola::python_script::is_serializable(&kind(None, true)));
    let mut none = kind(None, false);
    none.is_none = true;
    assert!(isola::python_script::is_serializable(&none));
    for i in 0..10 {
        let mut built_in = kind(Some("builtins"), false);
        assert!(!isola::python_script::is_serializable(&built_in));
        *[
            &mut built_in.is_dict,
            &mut built_in.is_list,
            &mut built_in.is_tuple,
            &mut built_in.is_str,
            &mut built_in.is_bool,
            &mut built_in.is_int,
            &mut built_in.is_float,
            &mut built_in.is_bytes,
            &mut built_in.is_bytearray,
            &mut built_in.is_memoryview,
        ][i] = true;
        assert!(isola::python_script::is_serializable(&built_in));
    }
}

#[test]
fn scripts_with_nul_bytes_are_refused() {
    assert!(check_script::<()>("x = 1").is_ok());
    let code = format!("{}\u{0}\u{0}", "y".repeat(1203));
    match check_script::<()>(&code) {
        Err(PyFailure::ValueError(message)) => assert_eq!(
            message,
            "script contains NUL byte: nul byte found in provided data at position: 1203"
        ),
        other => panic!("expected an error, got {other:?}"),
    }
}

#[test]
fn python_scripts_are_loaded_step_by_step() {
    type PyLoad = isola::python_script::Load<&'static str>;
    assert!(matches!(PyLoad::begin(false), PyLoad::Execute));
    let load = PyLoad::begin(true).initialized(Err(PyFailure::Raised("pip")));
    assert!(matches!(load, PyLoad::Finished(Err(PyFailure::Raised("pip")))));
    let load = PyLoad::begin(true).initialized(Ok(())).executed(Ok(()));
    assert!(matches!(load, PyLoad::Finished(Ok(()))));
}

#[test]
fn streams_are_flushed_together() {
    let scope = isola::python_script::Scope::new(Some("out"), Some("err"));
    let first = scope.flush();
    assert_eq!(scope.to_flush(first), Some(&"out"));
    assert_eq!(first.advance(false), Flush::Finished(false));
    let second = first.advance(true);
    assert_eq!(scope.to_flush(second), Some(&"err"));
    assert_eq!(second.advance(false), Flush::Finished(false));
    assert_eq!(second.advance(true), Flush::Finished(true));
    assert_eq!(scope.to_flush(Flush::Finished(true)), None);
    assert_eq!(Flush::Finished(false).advance(true), Flush::Finished(false));
    let lonely = isola::python_script::Scope::new(Some("out"), None);
    assert!(lonely.stdio.is_none());
    assert_eq!(lonely.flush(), Flush::Finished(true));
    assert_eq!(lonely.to_flush(Flush::Stdout), None);
}
