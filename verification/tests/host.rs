use std::sync::atomic::{AtomicUsize, Ordering};
use std::sync::Arc;

use bytes::Bytes;
use isola::host::{
    channel_outcome, output_channel_closed, output_log_event, BoxError, Delivery, ErrorKind, Host,
    LogContext, LogLevel, OutputEvent, OutputSink, OutputTarget, OutputTargetKind,
    OwnedLogContext,
};
use isola::outgoing::HttpRequest;
use isola::value::Value;

type Callback = Box<dyn Fn(OutputEvent) -> Result<(), BoxError>>;
type Target<A> = OutputTarget<
    tokio::sync::mpsc::Sender<OutputEvent>,
    tokio::sync::mpsc::UnboundedSender<OutputEvent>,
    Callback,
    A,
>;

fn value() -> Value {
    Value::from_cbor(Bytes::from_static(&[0x01]))
}

fn deliver<A: OutputSink>(
    delivery: Delivery<
        '_,
        tokio::sync::mpsc::Sender<OutputEvent>,
        tokio::sync::mpsc::UnboundedSender<OutputEvent>,
        Callback,
        A,
    >,
) -> Result<(), BoxError> {
    match delivery {
        Delivery::Done => Ok(()),
        Delivery::Bounded(sender, event) => channel_outcome(sender.try_send(event).is_ok()),
        Delivery::Unbounded(sender, event) => channel_outcome(sender.send(event).is_ok()),
        Delivery::Sync(callback, event) => callback(event),
        Delivery::Item(sink, value) => sink.on_item(value),
        Delivery::Complete(sink, value) => sink.on_complete(value),
        Delivery::Log(sink, level, context, message) => sink.on_log(level, context, message),
    }
}

struct CountingSink(AtomicUsize);

impl OutputSink for CountingSink {
    fn on_item(&self, _value: Value) -> Result<(), BoxError> {
        self.0.fetch_add(1, Ordering::Relaxed);
        Ok(())
    }

    fn on_complete(&self, _value: Option<Value>) -> Result<(), BoxError> {
        self.0.fetch_add(1, Ordering::Relaxed);
        Ok(())
    }
}

#[test]
fn bounded_target_delivers_all_event_kinds() {
    let (sender, mut receiver) = tokio::sync::mpsc::channel(3);
    let target: Target<CountingSink> = OutputTarget::bounded(sender);

    deliver(target.on_item(value())).unwrap();
    deliver(target.on_complete(None)).unwrap();
    deliver(target.on_log(LogLevel::Info, LogContext::Other("runtime"), "message")).unwrap();

    assert!(matches!(receiver.try_recv(), Ok(OutputEvent::Item(_))));
    assert!(matches!(receiver.try_recv(), Ok(OutputEvent::Complete(None))));
    assert!(matches!(
        receiver.try_recv(),
        Ok(OutputEvent::Log {
            level: LogLevel::Info,
            context: OwnedLogContext::Other(context),
            message,
        }) if context == "runtime" && message == "message"
    ));
}

#[test]
fn unbounded_target_reports_closed_receiver() {
    let (sender, receiver) = tokio::sync::mpsc::unbounded_channel();
    drop(receiver);

    let target: Target<CountingSink> = OutputTarget::unbounded(sender);
    let error = deliver(target.on_item(value())).unwrap_err();
    assert_eq!(error.message, "output channel receiver dropped");
    assert_eq!(error.kind, ErrorKind::BrokenPipe);
    assert_eq!(output_channel_closed().message, "output channel receiver dropped");
}

#[test]
fn synchronous_and_capture_targets_avoid_async_fallback() {
    let event_count = Arc::new(AtomicUsize::new(0));
    let callback_count = Arc::clone(&event_count);
    let callback: Callback = Box::new(move |_event| {
        callback_count.fetch_add(1, Ordering::Relaxed);
        Ok(())
    });
    let target: Target<CountingSink> = OutputTarget::synchronous(callback);
    deliver(target.on_item(value())).unwrap();
    deliver(target.on_complete(None)).unwrap();
    assert_eq!(event_count.load(Ordering::Relaxed), 2);

    let capture: Target<CountingSink> = OutputTarget::capture();
    assert!(capture.is_capture());
    assert!(matches!(capture.on_item(value()), Delivery::Done));
    let discard: Target<CountingSink> = OutputTarget::discard();
    assert!(!discard.is_capture());
    assert!(matches!(discard.on_complete(Some(value())), Delivery::Done));
}

#[test]
fn asynchronous_target_uses_private_adapter() {
    let target: Target<CountingSink> =
        OutputTarget::asynchronous(CountingSink(AtomicUsize::new(0)));
    deliver(target.on_item(value())).unwrap();
    deliver(target.on_complete(None)).unwrap();
    deliver(target.on_log(LogLevel::Warn, LogContext::Stdout, "ignored")).unwrap();

    match target.on_item(value()) {
        Delivery::Item(sink, _) => assert_eq!(sink.0.load(Ordering::Relaxed), 2),
        _ => panic!("expected the sink"),
    }
}

#[test]
fn level_names() {
    let names = [
        (LogLevel::Trace, "trace"),
        (LogLevel::Debug, "debug"),
        (LogLevel::Info, "info"),
        (LogLevel::Warn, "warn"),
        (LogLevel::Error, "error"),
        (LogLevel::Critical, "critical"),
        (LogLevel::Stdout, "stdout"),
        (LogLevel::Stderr, "stderr"),
    ];
    for (level, name) in names {
        assert_eq!(level.as_str(), name);
        assert_eq!(LogLevel::from(name), level);
    }
    assert_eq!(LogLevel::from("WARN"), LogLevel::Info);
    assert_eq!(LogLevel::from(""), LogLevel::Info);
}

#[test]
fn log_events_own_their_context() {
    match output_log_event(LogLevel::Stderr, LogContext::Stderr, "text") {
        OutputEvent::Log { level, context, message } => {
            assert_eq!(level, LogLevel::Stderr);
            assert!(matches!(context, OwnedLogContext::Stderr));
            assert_eq!(message, "text");
        }
        _ => panic!("expected a log"),
    }
}

struct EmptyHost;

impl Host for EmptyHost {}

#[test]
fn hosts_reject_by_default() {
    let host = Arc::new(EmptyHost);
    let error = host.hostcall("query", value()).unwrap_err();
    assert_eq!(error.message, "unsupported hostcall: query");
    assert_eq!(error.kind, ErrorKind::Unsupported);
    let request = HttpRequest {
        method: "GET".to_string(),
        uri: "http://a.example/".to_string(),
        headers: http::HeaderMap::new(),
        body: None,
    };
    assert_eq!(host.http_request(request).unwrap_err().message, "unsupported http_request");
}

#[test]
fn contexts_are_compared_and_events_copied() {
    assert_eq!(LogContext::Other("a"), LogContext::Other("a"));
    assert_ne!(LogContext::Other("a"), LogContext::Stdout);
    assert_eq!(OwnedLogContext::from(LogContext::Stderr), OwnedLogContext::Stderr);
    assert_ne!(OwnedLogContext::from(LogContext::Other("a")), OwnedLogContext::Stderr);
    let item = OutputEvent::Item(Value::from_cbor(Bytes::from_static(b"\x01")));
    assert!(matches!(item.clone(), OutputEvent::Item(value) if value.as_cbor() == b"\x01"));
    let last = OutputEvent::Complete(Some(Value::from_cbor(Bytes::from_static(b"\x02"))));
    assert!(matches!(
        last.clone(),
        OutputEvent::Complete(Some(value)) if value.as_cbor() == b"\x02"
    ));
    assert!(matches!(OutputEvent::Complete(None).clone(), OutputEvent::Complete(None)));
    match output_log_event(LogLevel::Warn, LogContext::Other("c"), "m").clone() {
        OutputEvent::Log { level, context, message } => {
            assert_eq!(level, LogLevel::Warn);
            assert_eq!(context, OwnedLogContext::Other("c".to_string()));
            assert_eq!(message, "m");
        }
        _ => panic!("expected a log record"),
    }
    let target: OutputTarget<u8, u8, u8, u8> = OutputTarget::synchronous(7);
    assert!(matches!(target.clone().kind, OutputTargetKind::Sync(7)));
}
