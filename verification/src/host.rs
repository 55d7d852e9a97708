//! What a guest sends to its host: values, completions, log records and requests.

use std::sync::Arc;

use vstd::prelude::*;
use vstd::std_specs::convert::FromSpecImpl;

use crate::outgoing::{HttpRequest, HttpResponse};
use crate::text::{concat2, text_eq};
use crate::value::Value;

verus! {

/// What went wrong in a host callback or an output sink, as an operating-system style category.
#[derive(Debug, Clone, Copy, PartialEq, Eq, Structural)]
pub enum ErrorKind {
    /// The receiving side of a channel is gone.
    BrokenPipe,
    /// The host does not offer the operation.
    Unsupported,
    /// Data could not be decoded.
    InvalidData,
    /// Anything else.
    Other,
}

/// Error returned by host callbacks and output sinks.
#[derive(Debug)]
pub struct BoxError {
    /// The category of the failure.
    pub kind: ErrorKind,
    /// The text that describes it.
    pub message: String,
}

/// Severity or output channel associated with a guest log message.
///
/// Converting from a string recognizes the lowercase names returned by [`LogLevel::as_str`]; an
/// unrecognized name becomes [`LogLevel::Info`].
#[derive(Debug, Clone, Copy, PartialEq, Eq, Structural)]
pub enum LogLevel {
    /// Trace-level diagnostic message.
    Trace,
    /// Debug-level diagnostic message.
    Debug,
    /// Informational message.
    Info,
    /// Warning message.
    Warn,
    /// Error message.
    Error,
    /// Critical or fatal diagnostic message.
    Critical,
    /// Text written to the guest's standard output stream.
    Stdout,
    /// Text written to the guest's standard error stream.
    Stderr,
}

/// The name of each level.
pub open spec fn level_name(level: LogLevel) -> Seq<char> {
    match level {
        LogLevel::Trace => "trace"@,
        LogLevel::Debug => "debug"@,
        LogLevel::Info => "info"@,
        LogLevel::Warn => "warn"@,
        LogLevel::Error => "error"@,
        LogLevel::Critical => "critical"@,
        LogLevel::Stdout => "stdout"@,
        LogLevel::Stderr => "stderr"@,
    }
}

/// The level that a name stands for: the one of that name, or `Info` where there is none.
pub open spec fn level_named(name: Seq<char>) -> LogLevel {
    if exists|level: LogLevel| #[trigger] level_name(level) == name {
        choose|level: LogLevel| #[trigger] level_name(level) == name
    } else {
        LogLevel::Info
    }
}

impl LogLevel {
    /// Return the stable lowercase name of this level.
    #[must_use]
    pub fn as_str(self) -> (r: &'static str)
        ensures
            r@ == level_name(self),
    {
        match self {
            LogLevel::Trace => "trace",
            LogLevel::Debug => "debug",
            LogLevel::Info => "info",
            LogLevel::Warn => "warn",
            LogLevel::Error => "error",
            LogLevel::Critical => "critical",
            LogLevel::Stdout => "stdout",
            LogLevel::Stderr => "stderr",
        }
    }
}

/// No two levels have the same name.
pub proof fn level_names_differ(a: LogLevel, b: LogLevel)
    requires
        level_name(a) == level_name(b),
    ensures
        a == b,
{
    reveal_strlit("trace");
    reveal_strlit("debug");
    reveal_strlit("info");
    reveal_strlit("warn");
    reveal_strlit("error");
    reveal_strlit("critical");
    reveal_strlit("stdout");
    reveal_strlit("stderr");
    if a != b {
        assert("trace"@[0] == 't' && "debug"@[0] == 'd' && "info"@[0] == 'i' && "warn"@[0] == 'w'
            && "error"@[0] == 'e' && "critical"@[0] == 'c' && "stdout"@[3] == 'o' && "stderr"@[3]
            == 'e');
        assert("stdout"@[0] == 's' && "stderr"@[0] == 's');
        assert(level_name(a)[0] == level_name(b)[0]);
        assert(level_name(a)[3] == level_name(b)[3]);
    }
}

/// Reading a level's own name gives the level back.
pub proof fn level_round_trip(level: LogLevel)
    ensures
        level_named(level_name(level)) == level,
{
    let found = choose|l: LogLevel| #[trigger] level_name(l) == level_name(level);
    level_names_differ(found, level);
}

impl<'a> From<&'a str> for LogLevel {
    fn from(context: &'a str) -> (r: LogLevel) {
        proof {
            level_round_trip(LogLevel::Trace);
            level_round_trip(LogLevel::Debug);
            level_round_trip(LogLevel::Info);
            level_round_trip(LogLevel::Warn);
            level_round_trip(LogLevel::Error);
            level_round_trip(LogLevel::Critical);
            level_round_trip(LogLevel::Stdout);
            level_round_trip(LogLevel::Stderr);
        }
        if text_eq(context, "trace") {
            LogLevel::Trace
        } else if text_eq(context, "debug") {
            LogLevel::Debug
        } else if text_eq(context, "warn") {
            LogLevel::Warn
        } else if text_eq(context, "error") {
            LogLevel::Error
        } else if text_eq(context, "critical") {
            LogLevel::Critical
        } else if text_eq(context, "stdout") {
            LogLevel::Stdout
        } else if text_eq(context, "stderr") {
            LogLevel::Stderr
        } else {
            LogLevel::Info
        }
    }
}

impl<'a> FromSpecImpl<&'a str> for LogLevel {
    open spec fn obeys_from_spec() -> bool {
        true
    }

    open spec fn from_spec(v: &'a str) -> LogLevel {
        level_named(v@)
    }
}

/// Source context supplied with a guest log message.
///
/// Standard output and standard error have dedicated variants so consumers do not need to compare
/// context strings.
#[derive(Debug, Clone, Copy, PartialEq, Eq)]
pub enum LogContext<'a> {
    /// The guest's standard output stream.
    Stdout,
    /// The guest's standard error stream.
    Stderr,
    /// A language-runtime-defined logging context.
    Other(&'a str),
}

/// Owned source context carried by an [`OutputEvent::Log`] event.
#[derive(Debug, PartialEq, Eq)]
pub enum OwnedLogContext {
    /// The guest's standard output stream.
    Stdout,
    /// The guest's standard error stream.
    Stderr,
    /// A language-runtime-defined logging context.
    Other(String),
}

/// A log context by its text.
pub enum ContextView {
    /// The guest's standard output stream.
    Stdout,
    /// The guest's standard error stream.
    Stderr,
    /// A language-runtime-defined logging context.
    Other(Seq<char>),
}

impl<'a> View for LogContext<'a> {
    type V = ContextView;

    open spec fn view(&self) -> ContextView {
        match self {
            LogContext::Stdout => ContextView::Stdout,
            LogContext::Stderr => ContextView::Stderr,
            LogContext::Other(text) => ContextView::Other(text@),
        }
    }
}

impl View for OwnedLogContext {
    type V = ContextView;

    open spec fn view(&self) -> ContextView {
        match self {
            OwnedLogContext::Stdout => ContextView::Stdout,
            OwnedLogContext::Stderr => ContextView::Stderr,
            OwnedLogContext::Other(text) => ContextView::Other(text@),
        }
    }
}

impl Clone for OwnedLogContext {
    fn clone(&self) -> (r: OwnedLogContext)
        ensures
            r == *self,
    {
        match self {
            OwnedLogContext::Stdout => OwnedLogContext::Stdout,
            OwnedLogContext::Stderr => OwnedLogContext::Stderr,
            OwnedLogContext::Other(text) => OwnedLogContext::Other(text.clone()),
        }
    }
}

impl<'a> From<LogContext<'a>> for OwnedLogContext {
    fn from(context: LogContext<'a>) -> (r: OwnedLogContext)
        ensures
            r@ == context@,
    {
        match context {
            LogContext::Stdout => OwnedLogContext::Stdout,
            LogContext::Stderr => OwnedLogContext::Stderr,
            LogContext::Other(context) => OwnedLogContext::Other(context.to_owned()),
        }
    }
}

/// What the conversion gives is stated by its view, in `from` itself.
impl<'a> FromSpecImpl<LogContext<'a>> for OwnedLogContext {
    open spec fn obeys_from_spec() -> bool {
        false
    }

    open spec fn from_spec(v: LogContext<'a>) -> OwnedLogContext {
        OwnedLogContext::Stdout
    }
}

/// One owned value, completion, or log record sent to an output channel or synchronous output
/// callback.
#[derive(Debug)]
#[non_exhaustive]
pub enum OutputEvent {
    /// A value yielded or explicitly emitted by guest code.
    Item(Value),
    /// The final return value after guest execution completes.
    Complete(Option<Value>),
    /// One guest log record.
    Log {
        /// Severity or output channel.
        level: LogLevel,
        /// Source context supplied by the guest runtime.
        context: OwnedLogContext,
        /// Log message text.
        message: String,
    },
}

/// An output event by its contents.
pub enum EventView {
    /// The bytes of a yielded value.
    Item(Seq<u8>),
    /// The bytes of the final value, if any.
    Complete(Option<Seq<u8>>),
    /// A log record.
    Log { level: LogLevel, context: ContextView, message: Seq<char> },
}

impl View for OutputEvent {
    type V = EventView;

    open spec fn view(&self) -> EventView {
        match self {
            OutputEvent::Item(value) => EventView::Item(value@),
            OutputEvent::Complete(None) => EventView::Complete(None),
            OutputEvent::Complete(Some(value)) => EventView::Complete(Some(value@)),
            OutputEvent::Log { level, context, message } => EventView::Log {
                level: *level,
                context: context@,
                message: message@,
            },
        }
    }
}

impl Clone for OutputEvent {
    fn clone(&self) -> (r: OutputEvent)
        ensures
            r@ == self@,
    {
        match self {
            OutputEvent::Item(value) => OutputEvent::Item(value.clone()),
            OutputEvent::Complete(None) => OutputEvent::Complete(None),
            OutputEvent::Complete(Some(value)) => OutputEvent::Complete(Some(value.clone())),
            OutputEvent::Log { level, context, message } => OutputEvent::Log {
                level: *level,
                context: context.clone(),
                message: message.clone(),
            },
        }
    }
}

/// Builds the owned event of one log record.
pub fn output_log_event(level: LogLevel, context: LogContext<'_>, message: &str) -> (r: OutputEvent)
    ensures
        r@ == (EventView::Log { level, context: context@, message: message@ }),
{
    OutputEvent::Log {
        level,
        context: OwnedLogContext::from(context),
        message: message.to_owned(),
    }
}

/// The error for an event that no receiver is left to take.
pub fn output_channel_closed() -> (r: BoxError)
    ensures
        r.kind == ErrorKind::BrokenPipe,
        r.message@ == "output channel receiver dropped"@,
{
    BoxError {
        kind: ErrorKind::BrokenPipe,
        message: "output channel receiver dropped".to_owned(),
    }
}

/// Receives values and logs produced by one guest operation.
///
/// Returning an error aborts the current operation and surfaces the error from it.
pub trait OutputSink {
    /// Receive one value yielded or explicitly emitted by guest code.
    fn on_item(&self, value: Value) -> Result<(), BoxError>;

    /// Receive the final return value after guest execution completes.
    ///
    /// `None` means the guest completed without an encoded return value. This callback is distinct
    /// from [`OutputSink::on_item`], which may be invoked zero or more times first.
    fn on_complete(&self, value: Option<Value>) -> Result<(), BoxError>;

    /// Receive one guest log record. The default implementation ignores the record.
    fn on_log(&self, level: LogLevel, log_context: LogContext<'_>, message: &str) -> (r: Result<
        (),
        BoxError,
    >)
        default_ensures
            r is Ok,
    {
        Ok(())
    }
}

/// Where an [`OutputTarget`] sends its events.
#[derive(Debug, Clone)]
pub enum OutputTargetKind<B, U, S, A> {
    /// Nowhere.
    Discard,
    /// Into the output collected for the current call.
    Capture,
    /// Into a channel that may have to wait for capacity.
    Bounded(B),
    /// Into a channel that never waits.
    Unbounded(U),
    /// To a callback that runs inline.
    Sync(S),
    /// To a sink whose callbacks are awaited.
    Async(A),
}

/// Run-scoped destination for guest values, completion, and log records.
///
/// The four parameters are the handles of a bounded channel, an unbounded channel, a synchronous
/// callback and an asynchronous sink.
#[derive(Debug, Clone)]
pub struct OutputTarget<B, U, S, A> {
    /// The kind of destination with its handle.
    pub kind: OutputTargetKind<B, U, S, A>,
}

/// What has to be done to hand one piece of output to its target.
pub enum Delivery<'a, B, U, S, A> {
    /// Nothing: the target takes no events.
    Done,
    /// Send the event and wait for capacity.
    Bounded(&'a B, OutputEvent),
    /// Send the event without waiting.
    Unbounded(&'a U, OutputEvent),
    /// Call the callback with the event.
    Sync(&'a S, OutputEvent),
    /// Await `on_item` of the sink.
    Item(&'a A, Value),
    /// Await `on_complete` of the sink.
    Complete(&'a A, Option<Value>),
    /// Await `on_log` of the sink.
    Log(&'a A, LogLevel, LogContext<'a>, &'a str),
}

/// The event that a delivery hands over, if any.
pub open spec fn delivered<'a, B, U, S, A>(d: Delivery<'a, B, U, S, A>) -> Option<EventView> {
    match d {
        Delivery::Done => None,
        Delivery::Bounded(_, event) => Some(event@),
        Delivery::Unbounded(_, event) => Some(event@),
        Delivery::Sync(_, event) => Some(event@),
        Delivery::Item(_, value) => Some(EventView::Item(value@)),
        Delivery::Complete(_, value) => Some(OutputEvent::Complete(value)@),
        Delivery::Log(_, level, context, message) => Some(
            EventView::Log { level, context: context@, message: message@ },
        ),
    }
}

/// The destination that a delivery goes to: the target's own handle, and for an asynchronous sink
/// the callback of the event.
pub open spec fn goes_to<'a, B, U, S, A>(
    kind: OutputTargetKind<B, U, S, A>,
    d: Delivery<'a, B, U, S, A>,
) -> bool {
    match kind {
        OutputTargetKind::Discard | OutputTargetKind::Capture => d is Done,
        OutputTargetKind::Bounded(sender) => d matches Delivery::Bounded(to, _) && *to == sender,
        OutputTargetKind::Unbounded(sender) => d matches Delivery::Unbounded(to, _) && *to
            == sender,
        OutputTargetKind::Sync(callback) => d matches Delivery::Sync(to, _) && *to == callback,
        OutputTargetKind::Async(sink) => match d {
            Delivery::Item(to, _) => *to == sink,
            Delivery::Complete(to, _) => *to == sink,
            Delivery::Log(to, _, _, _) => *to == sink,
            _ => false,
        },
    }
}

/// A delivery that hands exactly this event to the target, or none where the target takes none.
pub open spec fn hands_over<'a, B, U, S, A>(
    kind: OutputTargetKind<B, U, S, A>,
    event: EventView,
    d: Delivery<'a, B, U, S, A>,
) -> bool {
    &&& goes_to(kind, d)
    &&& !(kind is Discard || kind is Capture) ==> delivered(d) == Some(event)
}

impl<B, U, S, A> OutputTarget<B, U, S, A> {
    /// Construct a target that discards all output.
    #[must_use]
    pub fn discard() -> (r: Self)
        ensures
            r.kind is Discard,
    {
        OutputTarget { kind: OutputTargetKind::Discard }
    }

    /// Construct a target backed by a bounded channel.
    ///
    /// Delivery waits for channel capacity, so the receiver must be driven concurrently when a run
    /// can produce more events than the channel holds.
    #[must_use]
    pub fn bounded(sender: B) -> (r: Self)
        ensures
            r.kind == OutputTargetKind::<B, U, S, A>::Bounded(sender),
    {
        OutputTarget { kind: OutputTargetKind::Bounded(sender) }
    }

    /// Construct a target backed by an unbounded channel.
    ///
    /// Delivery never waits for capacity; consumers must bound retained output according to their
    /// workload.
    #[must_use]
    pub fn unbounded(sender: U) -> (r: Self)
        ensures
            r.kind == OutputTargetKind::<B, U, S, A>::Unbounded(sender),
    {
        OutputTarget { kind: OutputTargetKind::Unbounded(sender) }
    }

    /// Construct a target that invokes a synchronous callback for each event.
    ///
    /// The callback runs inline and must not block the sandbox executor.
    #[must_use]
    pub fn synchronous(callback: S) -> (r: Self)
        ensures
            r.kind == OutputTargetKind::<B, U, S, A>::Sync(callback),
    {
        OutputTarget { kind: OutputTargetKind::Sync(callback) }
    }

    /// Construct a target backed by an asynchronous sink.
    #[must_use]
    pub fn asynchronous(sink: A) -> (r: Self)
        ensures
            r.kind == OutputTargetKind::<B, U, S, A>::Async(sink),
    {
        OutputTarget { kind: OutputTargetKind::Async(sink) }
    }

    /// Construct a target for output that the call itself collects.
    pub fn capture() -> (r: Self)
        ensures
            r.kind is Capture,
    {
        OutputTarget { kind: OutputTargetKind::Capture }
    }

    /// Whether the call itself collects the output.
    pub fn is_capture(&self) -> (r: bool)
        ensures
            r == (self.kind is Capture),
    {
        matches!(self.kind, OutputTargetKind::Capture)
    }

    /// How one value reaches this target.
    pub fn on_item<'a>(&'a self, value: Value) -> (r: Delivery<'a, B, U, S, A>)
        ensures
            hands_over(self.kind, EventView::Item(value@), r),
    {
        match &self.kind {
            OutputTargetKind::Discard => Delivery::Done,
            OutputTargetKind::Capture => Delivery::Done,
            OutputTargetKind::Bounded(sender) => Delivery::Bounded(
                sender,
                OutputEvent::Item(value),
            ),
            OutputTargetKind::Unbounded(sender) => Delivery::Unbounded(
                sender,
                OutputEvent::Item(value),
            ),
            OutputTargetKind::Sync(callback) => Delivery::Sync(callback, OutputEvent::Item(value)),
            OutputTargetKind::Async(sink) => Delivery::Item(sink, value),
        }
    }

    /// How the final value reaches this target.
    pub fn on_complete<'a>(&'a self, value: Option<Value>) -> (r: Delivery<'a, B, U, S, A>)
        ensures
            hands_over(self.kind, OutputEvent::Complete(value)@, r),
    {
        match &self.kind {
            OutputTargetKind::Discard => Delivery::Done,
            OutputTargetKind::Capture => Delivery::Done,
            OutputTargetKind::Bounded(sender) => Delivery::Bounded(
                sender,
                OutputEvent::Complete(value),
            ),
            OutputTargetKind::Unbounded(sender) => Delivery::Unbounded(
                sender,
                OutputEvent::Complete(value),
            ),
            OutputTargetKind::Sync(callback) => Delivery::Sync(
                callback,
                OutputEvent::Complete(value),
            ),
            OutputTargetKind::Async(sink) => Delivery::Complete(sink, value),
        }
    }

    /// How one log record reaches this target.
    pub fn on_log<'a>(
        &'a self,
        level: LogLevel,
        context: LogContext<'a>,
        message: &'a str,
    ) -> (r: Delivery<'a, B, U, S, A>)
        ensures
            hands_over(
                self.kind,
                EventView::Log { level, context: context@, message: message@ },
                r,
            ),
    {
        match &self.kind {
            OutputTargetKind::Discard => Delivery::Done,
            OutputTargetKind::Capture => Delivery::Done,
            OutputTargetKind::Bounded(sender) => Delivery::Bounded(
                sender,
                output_log_event(level, context, message),
            ),
            OutputTargetKind::Unbounded(sender) => Delivery::Unbounded(
                sender,
                output_log_event(level, context, message),
            ),
            OutputTargetKind::Sync(callback) => Delivery::Sync(
                callback,
                output_log_event(level, context, message),
            ),
            OutputTargetKind::Async(sink) => Delivery::Log(sink, level, context, message),
        }
    }
}

/// The outcome of a delivery through a channel: an error where no receiver was left.
pub fn channel_outcome(sent: bool) -> (r: Result<(), BoxError>)
    ensures
        r is Ok <==> sent,
        r matches Err(e) ==> e.kind == ErrorKind::BrokenPipe && e.message@
            == "output channel receiver dropped"@,
{
    if sent {
        Ok(())
    } else {
        Err(output_channel_closed())
    }
}

/// The error of a host that offers no hostcall of this name.
pub fn unsupported_hostcall(call_type: &str) -> (r: BoxError)
    ensures
        r.kind == ErrorKind::Unsupported,
        r.message@ == "unsupported hostcall: "@ + call_type@,
{
    BoxError {
        kind: ErrorKind::Unsupported,
        message: concat2("unsupported hostcall: ", call_type),
    }
}

/// The error of a host that performs no HTTP requests.
pub fn unsupported_http_request() -> (r: BoxError)
    ensures
        r.kind == ErrorKind::Unsupported,
        r.message@ == "unsupported http_request"@,
{
    BoxError { kind: ErrorKind::Unsupported, message: "unsupported http_request".to_owned() }
}

/// Capabilities that guest code can request from its host application.
///
/// Both methods reject requests by default, so an empty implementation grants neither hostcalls nor
/// outbound HTTP.
pub trait Host {
    /// Handle a named request from guest code.
    ///
    /// `payload` contains the CBOR-encoded guest value. An error is reported to the guest as a
    /// failed hostcall. The default implementation returns an unsupported-operation error.
    fn hostcall(&self, call_type: &str, payload: Value) -> (r: Result<Value, BoxError>)
        default_ensures
            r matches Err(e) && e.kind == ErrorKind::Unsupported && e.message@
                == "unsupported hostcall: "@ + call_type@,
    {
        Err(unsupported_hostcall(call_type))
    }

    /// Perform an HTTP request.
    ///
    /// Implementations own redirect behavior and header hygiene. In particular, remove any
    /// caller-supplied `Host` header before dispatching. The default implementation returns an
    /// unsupported-operation error.
    fn http_request(&self, req: HttpRequest) -> (r: Result<HttpResponse, BoxError>)
        default_ensures
            r matches Err(e) && e.kind == ErrorKind::Unsupported && e.message@
                == "unsupported http_request"@,
    {
        Err(unsupported_http_request())
    }
}

impl<T: Host> Host for Arc<T> {
    fn hostcall(&self, call_type: &str, payload: Value) -> (r: Result<Value, BoxError>)
        ensures
            call_ensures(T::hostcall, (&**self, call_type, payload), r),
    {
        (**self).hostcall(call_type, payload)
    }

    fn http_request(&self, req: HttpRequest) -> (r: Result<HttpResponse, BoxError>)
        ensures
            call_ensures(T::http_request, (&**self, req), r),
    {
        (**self).http_request(req)
    }
}

} // verus!
