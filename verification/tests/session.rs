use std::cell::RefCell;

use bytes::Bytes;
use isola::arguments::{
    check_run_args, check_stream_args, parse_run_args, parse_stream_run_args, run_args,
    stream_args, take_stream_receivers, ParsedArgument, ReadArgument, ReadPayload, WireArgument,
};
use isola::context::{SandboxConfigPatch, SdkError};
use isola::host::{output_log_event, BoxError, ErrorKind, LogContext, LogLevel, OutputEvent};
use isola::sandbox::{Arg, Error};
use isola::session::{
    finish_load, finish_run, written, Announcement, CallbackEvent, Handling, OutputCollector,
    SandboxCore, SandboxInner, StreamRunError,
};
use isola::value::Value;

fn encode(value: &serde_json::Value) -> Result<Value, String> {
    if value.is_null() {
        return Err("null".to_string());
    }
    Ok(Value::from_cbor(Bytes::from(value.to_string().into_bytes())))
}

fn argument(kind: &str, name: Option<&str>, payload: serde_json::Value) -> WireArgument {
    (kind.to_string(), name.map(str::to_string), payload)
}

fn stream(index: u64) -> WireArgument {
    argument("stream", None, serde_json::Value::from(index))
}

fn refusal(args: Vec<WireArgument>, count: usize) -> String {
    parse_stream_run_args(args, count, &encode).unwrap_err().message().to_string()
}

#[test]
fn stream_argument_indexes_must_be_unique_and_complete() {
    let duplicate = vec![
        ("stream".to_string(), None, serde_json::Value::from(0)),
        ("stream".to_string(), None, serde_json::Value::from(0)),
    ];
    assert!(parse_stream_run_args(duplicate, 1, &encode).is_err());

    let incomplete = vec![("stream".to_string(), None, serde_json::Value::from(0))];
    assert!(parse_stream_run_args(incomplete, 2, &encode).is_err());
}

#[test]
fn failed_stream_acquisition_restores_prior_receivers() {
    let (_first_sender, first) = tokio::sync::mpsc::channel::<u8>(1);
    let (_second_sender, second) = tokio::sync::mpsc::channel::<u8>(1);
    let mut pool = vec![Some(first), Some(second)];
    let held = pool[1].take().expect("take second receiver");

    assert!(take_stream_receivers(&vec![0, 1], &mut pool).is_err());
    assert!(pool[0].take().is_some());
    drop(held);
}

#[test]
fn receivers_are_taken_all_or_none() {
    let mut pool = vec![Some('a'), Some('b'), Some('c')];
    assert_eq!(take_stream_receivers(&vec![2, 0, 2], &mut pool), Err(2));
    assert_eq!(pool, [Some('a'), Some('b'), Some('c')]);
    assert_eq!(take_stream_receivers(&vec![2, 0], &mut pool), Ok(vec![Some('c'), Some('a')]));
    assert_eq!(pool, [None, Some('b'), None]);
    assert_eq!(take_stream_receivers(&vec![1, 0], &mut pool), Err(1));
    assert_eq!(pool, [None, Some('b'), None]);
}

#[test]
fn refused_stream_arguments() {
    assert_eq!(refusal(vec![stream(0), stream(0)], 1), "stream argument is used more than once");
    assert_eq!(refusal(vec![stream(1)], 1), "stream argument index is out of bounds");
    assert_eq!(
        refusal(vec![argument("stream", None, serde_json::Value::from(-1))], 1),
        "stream argument index must be an integer"
    );
    assert_eq!(
        refusal(vec![argument("stream", None, serde_json::Value::from("0"))], 1),
        "stream argument index must be an integer"
    );
    assert_eq!(refusal(vec![stream(0)], 2), "unreferenced stream argument handle");
    assert_eq!(
        refusal(vec![argument("json", None, serde_json::Value::Null)], 0),
        "invalid argument value: null"
    );
    assert_eq!(
        refusal(vec![argument("xml", None, serde_json::Value::Null)], 0),
        "unsupported argument kind: xml"
    );
}

#[test]
fn stream_arguments_are_handed_over_once() {
    let parsed = parse_stream_run_args(
        vec![
            argument("stream", Some("s"), serde_json::Value::from(1)),
            argument("json", Some("j"), serde_json::Value::from(7)),
            stream(0),
        ],
        2,
        &encode,
    )
    .unwrap();
    let args = stream_args(parsed, vec![Some('a'), Some('b')]).unwrap();
    assert!(matches!(&args[0], Arg::NamedStream(name, 'b') if name == "s"));
    assert!(matches!(&args[1], Arg::Named(name, value) if name == "j" && value.as_cbor() == b"7"));
    assert!(matches!(&args[2], Arg::PositionalStream('a')));

    let twice = vec![ParsedArgument::JsonStream(None, 0), ParsedArgument::JsonStream(None, 0)];
    assert_eq!(
        stream_args(twice, vec![Some('a')]).unwrap_err().message(),
        "stream argument receiver was already consumed"
    );
}

#[test]
fn read_arguments_are_checked() {
    let read = |payload| ReadArgument { name: None, payload };
    let checked = check_stream_args(
        vec![read(ReadPayload::Stream(Some(0))), read(ReadPayload::Stream(Some(u64::MAX)))],
        1,
    );
    assert!(checked.is_err());
    assert!(check_stream_args(vec![read(ReadPayload::Stream(None))], 1).is_err());
    assert!(check_run_args(vec![read(ReadPayload::Other("x".to_string()))]).is_err());
}

#[test]
fn plain_arguments() {
    let parsed = parse_run_args(
        vec![
            argument("json", None, serde_json::Value::from(true)),
            argument("json", Some("n"), serde_json::Value::from("t")),
        ],
        &encode,
    )
    .unwrap();
    let args: Vec<Arg<()>> = run_args(parsed);
    assert!(matches!(&args[0], Arg::Positional(value) if value.as_cbor() == b"true"));
    assert!(matches!(&args[1], Arg::Named(name, _) if name == "n"));
    assert_eq!(
        parse_run_args(vec![stream(0)], &encode).unwrap_err().message(),
        "stream arguments must use runWithStream method"
    );
    assert_eq!(
        parse_run_args(vec![argument("xml", None, serde_json::Value::Null)], &encode)
            .unwrap_err()
            .message(),
        "unsupported argument kind: xml"
    );
    assert_eq!(
        parse_run_args(vec![argument("json", None, serde_json::Value::Null)], &encode)
            .unwrap_err()
            .message(),
        "invalid argument value: null"
    );
}

fn to_json(value: &Value) -> Result<String, String> {
    String::from_utf8(value.as_cbor().to_vec()).map_err(|_| "not JSON".to_string())
}

fn item(bytes: &'static [u8]) -> OutputEvent {
    OutputEvent::Item(Value::from_cbor(Bytes::from_static(bytes)))
}

fn log(level: LogLevel, message: &str) -> OutputEvent {
    output_log_event(level, LogContext::Other("runtime"), message)
}

type Calls = RefCell<Vec<(String, Option<String>)>>;

fn tell(seen: &Calls, call: Option<Announcement>) -> Option<bool> {
    let call = call?;
    let name = call.event.as_str();
    seen.borrow_mut().push((name.to_string(), call.payload));
    Some(name != "stdout")
}

fn collect<C>(
    collector: &mut OutputCollector<C>,
    seen: &Calls,
    event: OutputEvent,
) -> Result<(), BoxError> {
    let output = match collector.handle_event(event) {
        Handling::Write { value, is_last } => written(to_json(&value), is_last)?,
        Handling::Announce(output) => output,
    };
    let answer = tell(seen, collector.announce(&output));
    collector.record(output, answer);
    Ok(())
}

#[test]
fn output_is_told_of_and_collected() {
    let seen = Calls::default();
    let mut collector = OutputCollector::new(Some("callback"));
    collect(&mut collector, &seen, item(b"1")).unwrap();
    collect(&mut collector, &seen, log(LogLevel::Stdout, "out")).unwrap();
    collect(&mut collector, &seen, log(LogLevel::Stderr, "err")).unwrap();
    collect(&mut collector, &seen, log(LogLevel::Warn, "warn")).unwrap();
    let error = collect(&mut collector, &seen, item(b"\xff")).unwrap_err();
    assert_eq!(error.kind, ErrorKind::InvalidData);
    assert_eq!(error.message, "not JSON");
    let last = OutputEvent::Complete(Some(Value::from_cbor(Bytes::from_static(b"2"))));
    collect(&mut collector, &seen, last).unwrap();
    collect(&mut collector, &seen, OutputEvent::Complete(None)).unwrap();
    let result = finish_run(&mut collector, Ok(())).unwrap();
    assert_eq!(result.result_json, ["1"]);
    assert_eq!(result.final_json.as_deref(), Some("2"));
    assert_eq!(result.stdout, ["out"]);
    assert_eq!(result.stderr, ["err"]);
    assert_eq!(result.logs, ["warn"]);
    assert_eq!(result.errors, ["output callback rejected a log event"]);
    assert!(collector.data.result_json.is_empty() && collector.data.errors.is_empty());
    let told: Vec<(&str, Option<&str>)> = vec![
        ("result", Some("1")),
        ("stdout", Some("out")),
        ("stderr", Some("err")),
        ("log", Some("warn")),
        ("end", Some("2")),
        ("end", None),
    ];
    let seen = seen.into_inner();
    let seen: Vec<(&str, Option<&str>)> =
        seen.iter().map(|(name, text)| (name.as_str(), text.as_deref())).collect();
    assert_eq!(seen, told);
}

#[test]
fn output_is_collected_without_a_callback() {
    let seen = Calls::default();
    let mut collector: OutputCollector<&str> = OutputCollector::new(None);
    collect(&mut collector, &seen, log(LogLevel::Stdout, "out")).unwrap();
    assert!(collector.emit(CallbackEvent::Error, None).is_none());
    let result = collector.into_result();
    assert_eq!(result.stdout, ["out"]);
    assert!(result.errors.is_empty());
    assert!(seen.into_inner().is_empty());
}

#[test]
fn failures_are_recorded() {
    let mut collector = OutputCollector::new(Some("callback"));
    assert!(finish_load(&mut collector, Ok(())).is_ok());
    let failed = finish_load(
        &mut collector,
        Err(Error::UserCode { message: "SyntaxError".to_string() }),
    )
    .unwrap_err();
    assert!(matches!(&failed.error, SdkError::Internal(_)));
    assert_eq!(failed.error.message(), "Script loading failed: SyntaxError");
    assert_eq!(collector.data.errors, ["Script loading failed: SyntaxError"]);
    let call = failed.call.unwrap();
    assert_eq!(call.event, CallbackEvent::Error);
    assert_eq!(call.payload.as_deref(), Some("Script loading failed: SyntaxError"));
    let failed = finish_run(&mut collector, Err(Error::Wasm("trap".to_string()))).unwrap_err();
    assert_eq!(failed.error.message(), "Sandbox execution failed: wasm error: trap");
    assert_eq!(
        failed.call.unwrap().payload.as_deref(),
        Some("Sandbox execution failed: wasm error: trap")
    );
    assert_eq!(collector.data.errors.len(), 2);
    let mut silent: OutputCollector<&str> = OutputCollector::new(None);
    let failed = finish_run(&mut silent, Err(Error::Other("gone".to_string()))).unwrap_err();
    assert!(failed.call.is_none());
    assert_eq!(CallbackEvent::Log.as_str(), "log");
}

type Core = SandboxCore<&'static str, u8, u16, char>;

fn patch(max_memory: u64) -> SandboxConfigPatch {
    SandboxConfigPatch { max_memory: Some(Some(max_memory)), mounts: None, env: None }
}

#[test]
fn sandboxes_start_once() {
    let mut core: Core = SandboxCore::new();
    core.configure(patch(9)).unwrap();
    core.set_callback(Some("callback")).unwrap();
    core.set_http_handler(Some(1)).unwrap();
    core.set_hostcall_handler(Some(2)).unwrap();
    assert_eq!(core.callback(), Some(&"callback"));
    assert_eq!(core.load_script().unwrap_err().message(), "sandbox is not running");

    let plan = core.start().unwrap();
    assert_eq!(plan.options().max_memory, Some(9));
    assert_eq!((plan.http_handler, plan.hostcall_handler), (Some(1), Some(2)));
    assert_eq!(core.configure(patch(1)).unwrap_err().message(), "sandbox is not initialized");
    assert_eq!(core.set_callback(None).unwrap_err().message(), "sandbox is not initialized");
    assert_eq!(core.start().unwrap_err().message(), "sandbox is not in pending state");
    let error = core.finish_start(plan, Err("full".to_string())).unwrap_err();
    assert_eq!(error.message(), "Failed to create instance: full");
    assert!(matches!(core.inner, SandboxInner::Pending { callback: Some("callback"), .. }));

    let plan = core.start().unwrap();
    core.finish_start(plan, Ok('s')).unwrap();
    assert_eq!(core.configure(patch(1)).unwrap_err().message(), "sandbox is already running");
    assert_eq!(
        core.set_http_handler(None).unwrap_err().message(),
        "sandbox is already running"
    );
    assert_eq!(
        core.set_hostcall_handler(None).unwrap_err().message(),
        "sandbox is already running"
    );
    core.set_callback(None).unwrap();
    assert_eq!(core.callback(), None);
}

fn running() -> Core {
    let mut core: Core = SandboxCore::new();
    let plan = core.start().unwrap();
    core.finish_start(plan, Ok('s')).unwrap();
    core
}

#[test]
fn runs_lease_the_instance() {
    let mut core = running();
    let plan = core
        .run::<(), _>(vec![argument("json", None, serde_json::Value::from(1))], &encode)
        .unwrap();
    assert_eq!(plan.sandbox, 's');
    assert_eq!(plan.args.len(), 1);
    assert_eq!(core.take_running_lease().unwrap_err().message(), "sandbox is busy");
    core.return_lease(plan.sandbox);
    assert_eq!(
        core.run::<(), _>(vec![stream(0)], &encode).unwrap_err().message(),
        "stream arguments must use runWithStream method"
    );
    let lease = core.load_script().unwrap();
    core.close();
    core.return_lease(lease);
    assert!(matches!(core.inner, SandboxInner::Uninitialized));
    assert_eq!(core.take_running_lease().unwrap_err().message(), "sandbox is not running");
}

#[test]
fn stream_runs_take_their_receivers() {
    let mut core = running();
    let mut pool = vec![Some("r0"), Some("r1")];
    let plan = core
        .run_with_streams(vec![stream(1), stream(0)], &vec![0, 1], &mut pool, &encode)
        .unwrap();
    assert!(matches!(plan.args[0], Arg::PositionalStream("r1")));
    assert!(matches!(plan.args[1], Arg::PositionalStream("r0")));
    assert_eq!(pool, [None, None]);
    assert!(matches!(
        core.run_with_streams(vec![], &vec![], &mut pool, &encode),
        Err(StreamRunError::Sdk(e)) if e.message() == "sandbox is busy"
    ));
    core.return_lease(plan.sandbox);
    let mut pool = vec![Some("r0"), None];
    assert!(matches!(
        core.run_with_streams(vec![stream(0), stream(1)], &vec![0, 1], &mut pool, &encode),
        Err(StreamRunError::Receiver(1))
    ));
    assert_eq!(pool, [Some("r0"), None]);
    assert!(matches!(
        core.run_with_streams(vec![], &vec![0], &mut pool, &encode),
        Err(StreamRunError::Sdk(e)) if e.message() == "unreferenced stream argument handle"
    ));
    assert!(core.take_running_lease().is_ok());
}
