use bytes::Bytes;
use isola::host::{Delivery, LogContext, LogLevel, OutputEvent, OutputTarget};
use isola::sandbox::{
    Arg, DirectoryMapping, Error, ErrorCode, FsPerms, GuestError, WasmValue,
};
use isola::state::{
    classify_log, mapping_failure, EmitError, EmitValue, Emitted, GuestCall, GuestLevel,
    InstanceState, MemoryLimiter, OutputBuffer, Sandbox, StandardStream, MAX_BUFFERED_OUTPUT_BYTES,
};
use isola::value::Value;

type State = InstanceState<(), (), &'static str, ()>;

#[test]
fn output_buffer_take_resets() {
    let mut buf = OutputBuffer::new();
    buf.append(b"hello").expect("append within limit");
    assert_eq!(&buf.take()[..], b"hello");
    assert!(buf.take().is_empty());
}

#[test]
fn output_buffer_finish_reuses_single_chunk() {
    let mut buf = OutputBuffer::new();
    let chunk = Bytes::from(vec![1_u8, 2, 3]);
    let chunk_ptr = chunk.as_ptr();
    let output = buf.finish(chunk).expect("finish within limit");
    assert_eq!(output.as_ptr(), chunk_ptr);
    assert_eq!(&output[..], &[1, 2, 3]);
}

#[test]
fn output_buffer_finish_combines_continuations() {
    let mut buf = OutputBuffer::new();
    buf.append(b"hello ").expect("append within limit");
    let output = buf.finish(Bytes::from_static(b"world")).expect("finish within limit");
    assert_eq!(&output[..], b"hello world");
}

#[test]
fn output_buffer_hard_cap_resets_buffer() {
    let mut buf = OutputBuffer::new();
    let at_limit = vec![0_u8; MAX_BUFFERED_OUTPUT_BYTES];
    buf.append(&at_limit).expect("append at hard limit");
    assert!(buf.append(b"x").is_err());
    assert!(buf.take().is_empty());
}

#[test]
fn oversized_single_chunk_is_refused() {
    let mut buf = OutputBuffer::new();
    let chunk = Bytes::from(vec![0_u8; MAX_BUFFERED_OUTPUT_BYTES + 1]);
    assert_eq!(buf.finish(chunk).unwrap_err(), EmitError::LimitExceeded);
    assert_eq!(
        EmitError::LimitExceeded.message(),
        "output buffer exceeded hard limit (16777216 bytes)"
    );
}

fn bytes(text: &'static str) -> Bytes {
    Bytes::from_static(text.as_bytes())
}

#[test]
fn instances_start_closed() {
    let mappings = vec![DirectoryMapping::new("/h", "/g").with_permissions(FsPerms::ReadWrite)];
    let env = vec![("A".to_string(), "1".to_string())];
    let (state, plan): (State, _) = InstanceState::new(&mappings, &env, 99);
    assert!(state.output_target.is_none());
    assert!(!plan.allow_tcp && !plan.allow_udp);
    assert_eq!(state.limiter.current(), 0);
    assert_eq!(plan.preopened.len(), 1);
    assert_eq!(plan.preopened[0].guest, "/g");
    assert_eq!(plan.env, env);
    assert_eq!(plan.stdout, StandardStream::Stdout);
    assert_eq!(plan.stderr.level(), LogLevel::Stderr);
    assert_eq!(
        mapping_failure(&mappings[0], "denied"),
        "Failed to add directory mapping '/h' -> '/g': denied"
    );
}

#[test]
fn memory_grows_up_to_the_limit() {
    let (state, _): (State, _) = InstanceState::new(&vec![], &vec![], 100);
    let mut sandbox = Sandbox { state };
    assert_eq!(sandbox.memory_usage(), 0);
    assert!(sandbox.state.limiter.memory_growing(0, 40));
    assert!(sandbox.state.limiter.memory_growing(0, 10));
    assert_eq!(sandbox.memory_usage(), 50);
    assert!(!sandbox.state.limiter.memory_growing(40, 91));
    assert_eq!(sandbox.memory_usage(), 50);
    assert!(sandbox.state.limiter.memory_growing(40, 90));
    assert_eq!(sandbox.memory_usage(), 100);
    sandbox.finish(Ok(Ok(())), Ok(())).unwrap();
    assert_eq!(sandbox.memory_usage(), 100);
    assert!(!sandbox.state.limiter.memory_growing(10, usize::MAX));
    assert_eq!(sandbox.memory_usage(), 100);
    let mut none = MemoryLimiter::new(0);
    assert!(!none.memory_growing(0, 1));
    assert!(none.memory_growing(0, 0));
    let mut unlimited = MemoryLimiter::new(usize::MAX);
    assert!(unlimited.memory_growing(0, usize::MAX));
}

#[test]
fn emissions_without_a_target_are_refused() {
    let (mut state, _): (State, _) = InstanceState::new(&vec![], &vec![], 0);
    assert_eq!(state.emit(EmitValue::Abort).unwrap_err(), EmitError::TargetMissing);
    assert_eq!(EmitError::TargetMissing.message(), "output target missing");
}

#[test]
fn chunks_become_one_event() {
    let (mut state, _): (State, _) = InstanceState::new(&vec![], &vec![], 0);
    state.set_output_target(Some(OutputTarget::synchronous("callback")));
    assert!(matches!(
        state.emit(EmitValue::Continuation(bytes("ab"))),
        Ok(Emitted::Nothing)
    ));
    let emitted = state.emit(EmitValue::PartialResult(bytes("c"))).unwrap();
    match state.deliver(emitted) {
        Some(Delivery::Sync(to, OutputEvent::Item(value))) => {
            assert_eq!(*to, "callback");
            assert_eq!(value.as_cbor(), b"abc");
        }
        _ => panic!("expected an item"),
    }
    let emitted = state.emit(EmitValue::End(bytes(""))).unwrap();
    assert!(matches!(
        state.deliver(emitted),
        Some(Delivery::Sync(_, OutputEvent::Complete(None)))
    ));
}

#[test]
fn aborted_values_leave_no_trace() {
    let (mut state, _): (State, _) = InstanceState::new(&vec![], &vec![], 0);
    state.set_output_target(Some(OutputTarget::synchronous("callback")));
    state.emit(EmitValue::Continuation(bytes("lost"))).unwrap();
    state.emit(EmitValue::Abort).unwrap();
    match state.emit(EmitValue::End(bytes("kept"))).unwrap() {
        Emitted::Complete(Some(value)) => assert_eq!(value.as_cbor(), b"kept"),
        _ => panic!("expected the final value"),
    }
    state.emit(EmitValue::Continuation(bytes("lost"))).unwrap();
    state.set_output_target(Some(OutputTarget::synchronous("next")));
    match state.emit(EmitValue::End(bytes("kept"))).unwrap() {
        Emitted::Complete(Some(value)) => assert_eq!(value.as_cbor(), b"kept"),
        _ => panic!("expected the final value"),
    }
}

fn register(stream: u8) -> Result<u16, String> {
    if stream == 0 {
        Err("table full".to_string())
    } else {
        Ok(u16::from(stream) + 100)
    }
}

fn begin_call(sandbox: &mut Sandbox<(), (), &'static str, ()>) {
    let args: Vec<Arg<u8>> = vec![];
    let call = sandbox.call("main", args, register).unwrap();
    assert!(matches!(call, GuestCall::CallFunc(name, raw) if name == "main" && raw.is_empty()));
}

#[test]
fn calls_collect_items_in_order() {
    let (state, _): (State, _) = InstanceState::new(&vec![], &vec![], 0);
    let mut sandbox = Sandbox { state };
    begin_call(&mut sandbox);
    sandbox.state.emit(EmitValue::PartialResult(bytes("1"))).unwrap();
    sandbox.state.emit(EmitValue::Continuation(bytes("2"))).unwrap();
    sandbox.state.emit(EmitValue::PartialResult(bytes("2"))).unwrap();
    assert!(matches!(
        sandbox.state.emit(EmitValue::End(bytes("end"))),
        Ok(Emitted::Nothing)
    ));
    let output = sandbox.finish_call(Ok(Ok(())), Ok(())).unwrap();
    let items: Vec<&[u8]> = output.items.iter().map(|v| v.as_cbor()).collect();
    assert_eq!(items, [b"1".as_slice(), b"22".as_slice()]);
    assert_eq!(output.result.unwrap().as_cbor(), b"end");
    assert!(sandbox.state.output_target.is_none());

    begin_call(&mut sandbox);
    let error = sandbox
        .finish_call(
            Ok(Err(GuestError { code: ErrorCode::Aborted, message: "boom".to_string() })),
            Ok(()),
        )
        .unwrap_err();
    assert!(matches!(error, Error::UserCode { message } if message == "boom"));
}

#[test]
fn operations_release_their_target() {
    let (state, _): (State, _) = InstanceState::new(&vec![], &vec![], 0);
    let mut sandbox = Sandbox { state };
    let call: GuestCall<u16> =
        sandbox.eval_script("x = 1", OutputTarget::synchronous("callback"));
    assert!(matches!(call, GuestCall::EvalScript(code) if code == "x = 1"));
    assert!(sandbox.state.output_target.is_some());
    sandbox.state.emit(EmitValue::Continuation(bytes("part"))).unwrap();
    sandbox.finish(Ok(Ok(())), Ok(())).unwrap();
    assert!(sandbox.state.output_target.is_none());
    assert_eq!(sandbox.state.emit(EmitValue::Abort).unwrap_err(), EmitError::TargetMissing);

    let call: GuestCall<u16> =
        sandbox.eval_file("/work/main.py", OutputTarget::synchronous("callback"));
    assert!(matches!(call, GuestCall::EvalFile(path) if path == "/work/main.py"));
    match sandbox.state.emit(EmitValue::PartialResult(bytes("new"))).unwrap() {
        Emitted::Item(value) => assert_eq!(value.as_cbor(), b"new"),
        other => panic!("expected an item, got {other:?}"),
    }
    assert!(sandbox.state.flush_logs().is_ok());
    let trapped = sandbox.finish(Err("trap".to_string()), Ok(())).unwrap_err();
    assert_eq!(trapped.message(), "wasm error: trap");
}

#[test]
fn calls_hand_their_arguments_over() {
    let (state, _): (State, _) = InstanceState::new(&vec![], &vec![], 0);
    let mut sandbox = Sandbox { state };
    let value = Value::from_cbor(bytes("7"));
    let args = vec![Arg::Named("n".to_string(), value), Arg::PositionalStream(3)];
    let target = OutputTarget::synchronous("callback");
    match sandbox.call_with_sink("main", args, target, register).unwrap() {
        GuestCall::CallFunc(name, raw) => {
            assert_eq!(name, "main");
            assert_eq!(raw[0].name.as_deref(), Some("n"));
            assert!(matches!(&raw[0].value, WasmValue::Cbor(cbor) if &cbor[..] == b"7"));
            assert!(raw[1].name.is_none());
            assert!(matches!(raw[1].value, WasmValue::CborIterator(103)));
        }
        other => panic!("expected a function call, got {other:?}"),
    }
    assert!(sandbox.state.output_target.is_some());

    let args = vec![Arg::PositionalStream(1), Arg::NamedStream("s".to_string(), 0)];
    let error = sandbox.call("main", args, register).unwrap_err();
    assert_eq!(error.message(), "runtime error: table full");
    assert!(sandbox.state.output_target.is_none());
}

#[test]
fn standard_streams_have_their_own_levels() {
    let (level, context) = classify_log(GuestLevel::Info, "stdout");
    assert_eq!(level, LogLevel::Stdout);
    assert!(matches!(context, LogContext::Stdout));
    let (level, context) = classify_log(GuestLevel::Critical, "stderr");
    assert_eq!(level, LogLevel::Stderr);
    assert!(matches!(context, LogContext::Stderr));
    let (level, context) = classify_log(GuestLevel::Critical, "module");
    assert_eq!(level, LogLevel::Critical);
    assert!(matches!(context, LogContext::Other("module")));
}

#[test]
fn logs_reach_the_running_target() {
    let (mut state, _): (State, _) = InstanceState::new(&vec![], &vec![], 0);
    assert!(state.emit_log(GuestLevel::Warn, "m", "text").is_none());
    state.set_output_target(Some(OutputTarget::synchronous("callback")));
    match state.emit_log(GuestLevel::Warn, "m", "text") {
        Some(Delivery::Sync(_, OutputEvent::Log { level, message, .. })) => {
            assert_eq!(level, LogLevel::Warn);
            assert_eq!(message, "text");
        }
        _ => panic!("expected a log"),
    }
}
