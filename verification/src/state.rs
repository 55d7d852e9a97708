//! The state of one sandbox instance: where its output goes and what of it is still incomplete.

use bytes::{Bytes, BytesMut};
use vstd::prelude::*;

use crate::host::{
    hands_over, ContextView, Delivery, EventView, LogContext, LogLevel, OutputTarget,
};
use crate::octets::{buffered, octet_slice, octets};
use crate::sandbox::{
    args_lowered, clone_env, clone_mounts, finish_call, is_outcome, lower_args, Arg, CallOutput,
    CallOutputView, DirectoryMapping, Error, GuestError, RawArgument,
};
use crate::text::{concat3, text_eq};
use crate::value::Value;

verus! {

/// The most bytes of one output value that are held back until it is complete.
pub const MAX_BUFFERED_OUTPUT_BYTES: usize = 16_777_216;

/// Why an emission is refused.
#[derive(Debug, Clone, Copy, PartialEq, Eq, Structural)]
pub enum EmitError {
    /// No operation is running, so nothing takes the output.
    TargetMissing,
    /// The value is larger than [`MAX_BUFFERED_OUTPUT_BYTES`].
    LimitExceeded,
}

impl EmitError {
    /// The text that describes this error.
    pub fn message(self) -> (r: &'static str)
        ensures
            r@ == match self {
                EmitError::TargetMissing => "output target missing"@,
                EmitError::LimitExceeded => "output buffer exceeded hard limit (16777216 bytes)"@,
            },
    {
        match self {
            EmitError::TargetMissing => "output target missing",
            EmitError::LimitExceeded => "output buffer exceeded hard limit (16777216 bytes)",
        }
    }
}

/// Collects the chunks of one output value.
#[derive(Debug)]
pub struct OutputBuffer {
    bytes: BytesMut,
}

impl View for OutputBuffer {
    type V = Seq<u8>;

    /// The bytes held back.
    closed spec fn view(&self) -> Seq<u8> {
        buffered(self.bytes)
    }
}

impl OutputBuffer {
    /// An empty buffer.
    pub fn new() -> (r: OutputBuffer)
        ensures
            r@ == Seq::<u8>::empty(),
    {
        OutputBuffer { bytes: BytesMut::new() }
    }

    /// Drops everything held back, with its allocation.
    pub fn reset(&mut self)
        ensures
            final(self)@ == Seq::<u8>::empty(),
    {
        self.bytes = BytesMut::new();
    }

    /// Adds one chunk. Where the value would pass the limit, everything is dropped.
    pub fn append(&mut self, data: &[u8]) -> (r: Result<(), EmitError>)
        ensures
            old(self)@.len() + data@.len() <= MAX_BUFFERED_OUTPUT_BYTES ==> r is Ok && final(self)@
                == old(self)@ + data@,
            old(self)@.len() + data@.len() > MAX_BUFFERED_OUTPUT_BYTES ==> r == Err::<
                (),
                EmitError,
            >(EmitError::LimitExceeded) && final(self)@ == Seq::<u8>::empty(),
    {
        let new_len: usize = self.bytes.len().saturating_add(data.len());
        if new_len > MAX_BUFFERED_OUTPUT_BYTES {
            self.reset();
            return Err(EmitError::LimitExceeded);
        }
        self.bytes.extend_from_slice(data);
        Ok(())
    }

    /// Completes the value with its last chunk. A value of one chunk is handed on as it came.
    pub fn finish(&mut self, data: Bytes) -> (r: Result<Bytes, EmitError>)
        ensures
            final(self)@ == Seq::<u8>::empty(),
            match r {
                Ok(value) => {
                    &&& old(self)@.len() + octets(data).len() <= MAX_BUFFERED_OUTPUT_BYTES
                    &&& octets(value) == old(self)@ + octets(data)
                    &&& old(self)@.len() == 0 ==> value == data
                },
                Err(e) => {
                    &&& old(self)@.len() + octets(data).len() > MAX_BUFFERED_OUTPUT_BYTES
                    &&& e == EmitError::LimitExceeded
                },
            },
    {
        if self.bytes.is_empty() {
            proof {
                assert(self@ =~= Seq::<u8>::empty());
                assert(Seq::<u8>::empty() + octets(data) =~= octets(data));
            }
            if data.len() > MAX_BUFFERED_OUTPUT_BYTES {
                return Err(EmitError::LimitExceeded);
            }
            return Ok(data);
        }
        match self.append(octet_slice(&data)) {
            Ok(()) => Ok(self.take()),
            Err(e) => Err(e),
        }
    }

    /// Hands over everything held back.
    pub fn take(&mut self) -> (r: Bytes)
        ensures
            octets(r) == old(self)@,
            final(self)@ == Seq::<u8>::empty(),
    {
        let mut taken = BytesMut::new();
        std::mem::swap(&mut taken, &mut self.bytes);
        taken.freeze()
    }
}

/// One emission of the guest.
#[derive(Debug)]
pub enum EmitValue {
    /// A chunk of a value that goes on.
    Continuation(Bytes),
    /// The last chunk of the final value.
    End(Bytes),
    /// The last chunk of an intermediate value.
    PartialResult(Bytes),
    /// Encoding failed: the chunks so far belong to no value.
    Abort,
}

/// An emission by its bytes.
pub enum EmitView {
    Continuation(Seq<u8>),
    End(Seq<u8>),
    PartialResult(Seq<u8>),
    Abort,
}

impl View for EmitValue {
    type V = EmitView;

    open spec fn view(&self) -> EmitView {
        match self {
            EmitValue::Continuation(b) => EmitView::Continuation(octets(*b)),
            EmitValue::End(b) => EmitView::End(octets(*b)),
            EmitValue::PartialResult(b) => EmitView::PartialResult(octets(*b)),
            EmitValue::Abort => EmitView::Abort,
        }
    }
}

/// A completed value on its way to the target.
#[derive(Debug)]
pub enum Emitted {
    /// Nothing is complete, or the call has collected it.
    Nothing,
    /// An intermediate value.
    Item(Value),
    /// The final value, `None` where it is empty.
    Complete(Option<Value>),
}

/// What one emission completes.
pub enum Output {
    Nothing,
    Item(Seq<u8>),
    Complete(Option<Seq<u8>>),
}

/// The effect of one emission on the bytes held back: what is held back after it, and what it
/// completes, or `None` where the value passes the limit.
pub open spec fn emission(held: Seq<u8>, data: EmitView) -> (Seq<u8>, Option<Output>) {
    match data {
        EmitView::Continuation(chunk) => if fits(held + chunk) {
            (held + chunk, Some(Output::Nothing))
        } else {
            (Seq::empty(), None)
        },
        EmitView::End(chunk) => if fits(held + chunk) {
            (Seq::empty(), Some(Output::Complete(non_empty(held + chunk))))
        } else {
            (Seq::empty(), None)
        },
        EmitView::PartialResult(chunk) => if fits(held + chunk) {
            (Seq::empty(), Some(Output::Item(held + chunk)))
        } else {
            (Seq::empty(), None)
        },
        EmitView::Abort => (Seq::empty(), Some(Output::Nothing)),
    }
}

/// A value within the limit.
pub open spec fn fits(value: Seq<u8>) -> bool {
    value.len() <= MAX_BUFFERED_OUTPUT_BYTES
}

/// The final value; one without bytes is no value.
pub open spec fn non_empty(value: Seq<u8>) -> Option<Seq<u8>> {
    if value.len() == 0 {
        None
    } else {
        Some(value)
    }
}

/// The output collected for a call after one more completed value.
pub open spec fn collected(before: CallOutputView, output: Output) -> CallOutputView {
    match output {
        Output::Nothing => before,
        Output::Item(value) => CallOutputView { items: before.items.push(value), ..before },
        Output::Complete(value) => CallOutputView { result: value, ..before },
    }
}

/// The event that hands a completed value to a target.
pub open spec fn event_of(output: Output) -> Option<EventView> {
    match output {
        Output::Nothing => None,
        Output::Item(value) => Some(EventView::Item(value)),
        Output::Complete(value) => Some(EventView::Complete(value)),
    }
}

impl Emitted {
    /// The completed value by its bytes.
    pub open spec fn output(self) -> Output {
        match self {
            Emitted::Nothing => Output::Nothing,
            Emitted::Item(value) => Output::Item(value@),
            Emitted::Complete(None) => Output::Complete(None),
            Emitted::Complete(Some(value)) => Output::Complete(Some(value@)),
        }
    }
}

/// Severity of a structured guest log record.
#[derive(Debug, Clone, Copy, PartialEq, Eq, Structural)]
pub enum GuestLevel {
    Trace,
    Debug,
    Info,
    Warn,
    Error,
    Critical,
}

/// The host level of a guest severity.
pub open spec fn base_level(level: GuestLevel) -> LogLevel {
    match level {
        GuestLevel::Trace => LogLevel::Trace,
        GuestLevel::Debug => LogLevel::Debug,
        GuestLevel::Info => LogLevel::Info,
        GuestLevel::Warn => LogLevel::Warn,
        GuestLevel::Error => LogLevel::Error,
        GuestLevel::Critical => LogLevel::Critical,
    }
}

/// The context that a context string names.
pub open spec fn context_named(context: Seq<char>) -> ContextView {
    if context == "stdout"@ {
        ContextView::Stdout
    } else if context == "stderr"@ {
        ContextView::Stderr
    } else {
        ContextView::Other(context)
    }
}

/// The level of a record: the two standard streams have their own.
pub open spec fn record_level(level: GuestLevel, context: ContextView) -> LogLevel {
    match context {
        ContextView::Stdout => LogLevel::Stdout,
        ContextView::Stderr => LogLevel::Stderr,
        ContextView::Other(_) => base_level(level),
    }
}

/// Sorts one guest log record: its level and context on the host.
pub fn classify_log<'a>(log_level: GuestLevel, context: &'a str) -> (r: (LogLevel, LogContext<'a>))
    ensures
        r.1@ == context_named(context@),
        r.0 == record_level(log_level, r.1@),
        r.1 matches LogContext::Other(text) ==> text == context,
{
    let base: LogLevel = match log_level {
        GuestLevel::Trace => LogLevel::Trace,
        GuestLevel::Debug => LogLevel::Debug,
        GuestLevel::Info => LogLevel::Info,
        GuestLevel::Warn => LogLevel::Warn,
        GuestLevel::Error => LogLevel::Error,
        GuestLevel::Critical => LogLevel::Critical,
    };
    if text_eq(context, "stdout") {
        (LogLevel::Stdout, LogContext::Stdout)
    } else if text_eq(context, "stderr") {
        (LogLevel::Stderr, LogContext::Stderr)
    } else {
        (base, LogContext::Other(context))
    }
}

/// Bounds the linear memory of one guest.
#[derive(Debug)]
pub struct MemoryLimiter {
    /// How many bytes there may be in all.
    limit: usize,
    /// How many bytes there are in all.
    allocated: usize,
}

/// How many bytes of linear memory there are and may be.
pub struct MemoryView {
    pub limit: nat,
    pub allocated: nat,
}

impl MemoryLimiter {
    /// There are never more bytes than there may be.
    #[verifier::type_invariant]
    spec fn within_limit(&self) -> bool {
        self.allocated <= self.limit
    }
}

impl View for MemoryLimiter {
    type V = MemoryView;

    closed spec fn view(&self) -> MemoryView {
        MemoryView { limit: self.limit as nat, allocated: self.allocated as nat }
    }
}

/// How many bytes there are in all once one memory has grown.
pub open spec fn allocated_after(allocated: nat, current: nat, desired: nat) -> nat {
    if current <= allocated {
        (allocated - current + desired) as nat
    } else {
        desired
    }
}

/// The memory of a guest after one of its memories asked to grow: it does if all of them stay
/// within the limit, and stays as it is otherwise.
pub open spec fn grown(memory: MemoryView, current: nat, desired: nat) -> MemoryView {
    let allocated = allocated_after(memory.allocated, current, desired);
    if allocated <= memory.limit {
        MemoryView { allocated, ..memory }
    } else {
        memory
    }
}

impl MemoryLimiter {
    /// A limiter of a guest that has no memory yet.
    pub fn new(limit: usize) -> (r: MemoryLimiter)
        ensures
            r@ == (MemoryView { limit: limit as nat, allocated: 0 }),
    {
        MemoryLimiter { limit, allocated: 0 }
    }

    /// Decides whether a memory may grow from its current size to the desired one.
    pub fn memory_growing(&mut self, current: usize, desired: usize) -> (r: bool)
        ensures
            r == (allocated_after(old(self)@.allocated, current as nat, desired as nat) <= old(
                self,
            )@.limit),
            final(self)@ == grown(old(self)@, current as nat, desired as nat),
            final(self)@.allocated <= final(self)@.limit,
    {
        proof {
            use_type_invariant(&*self);
        }
        let others: usize = if current <= self.allocated {
            self.allocated - current
        } else {
            0
        };
        match others.checked_add(desired) {
            Some(allocated) => {
                if allocated > self.limit {
                    return false;
                }
                self.allocated = allocated;
                true
            },
            None => false,
        }
    }

    /// How many bytes there are in all.
    pub fn current(&self) -> (r: usize)
        ensures
            r == self@.allocated,
            r <= self@.limit,
    {
        proof {
            use_type_invariant(self);
        }
        self.allocated
    }
}

/// The memory of a guest never passes its limit, which stays the same, and never becomes less as
/// its memories grow.
pub proof fn memory_only_grows(memory: MemoryView, current: nat, desired: nat)
    requires
        memory.allocated <= memory.limit,
        current <= desired,
    ensures
        memory.allocated <= grown(memory, current, desired).allocated <= memory.limit,
        grown(memory, current, desired).limit == memory.limit,
{
}

/// The memory of a guest after its memories asked to grow, each from its current size to the
/// desired one, whether they could or not.
pub open spec fn all_grown(memory: MemoryView, requests: Seq<(nat, nat)>) -> MemoryView
    decreases requests.len(),
{
    if requests.len() == 0 {
        memory
    } else {
        grown(
            all_grown(memory, requests.drop_last()),
            requests.last().0,
            requests.last().1,
        )
    }
}

/// In every state of a guest, also after memory was refused, it has no more memory than its limit
/// allows, and no less than in any earlier state.
pub proof fn memory_over_time(limit: nat, requests: Seq<(nat, nat)>, earlier: int)
    requires
        0 <= earlier <= requests.len(),
        forall|i: int|
            0 <= i < requests.len() ==> (#[trigger] requests[i]).0 <= requests[i].1,
    ensures
        ({
            let start = MemoryView { limit, allocated: 0 };
            let before = all_grown(start, requests.take(earlier));
            let now = all_grown(start, requests);
            &&& before.allocated <= now.allocated <= limit
            &&& now.limit == limit
        }),
    decreases requests.len(),
{
    let start = MemoryView { limit, allocated: 0 };
    if earlier == requests.len() {
        assert(requests.take(earlier) =~= requests);
    }
    if requests.len() > 0 {
        let front = requests.drop_last();
        let n = requests.len() - 1;
        assert(requests[n].0 <= requests[n].1);
        assert forall|i: int| 0 <= i < front.len() implies (#[trigger] front[i]).0
            <= front[i].1 by {
            assert(front[i] == requests[i]);
        }
        if earlier < requests.len() {
            assert(front.take(earlier) =~= requests.take(earlier));
            memory_over_time(limit, front, earlier);
        } else {
            memory_over_time(limit, front, 0);
        }
        memory_only_grows(all_grown(start, front), requests.last().0, requests.last().1);
    }
}

/// The state of one sandbox instance.
#[derive(Debug)]
pub struct InstanceState<B, U, S, A> {
    /// Bounds the memory of the guest.
    pub limiter: MemoryLimiter,
    /// Where the output of the running operation goes.
    pub output_target: Option<OutputTarget<B, U, S, A>>,
    /// The output collected for a call that returns it.
    pub capture_output: Option<CallOutput>,
    /// The chunks of an incomplete value.
    pub output_buffer: OutputBuffer,
}

/// Whether the running operation collects its own output.
pub open spec fn capturing<B, U, S, A>(target: Option<OutputTarget<B, U, S, A>>) -> bool {
    target matches Some(t) && t.kind is Capture
}

/// A standard stream of the guest, delivered as log records.
#[derive(Debug, Clone, Copy, PartialEq, Eq, Structural)]
pub enum StandardStream {
    Stdout,
    Stderr,
}

impl StandardStream {
    /// The level of the records.
    pub fn level(self) -> (r: LogLevel)
        ensures
            r == match self {
                StandardStream::Stdout => LogLevel::Stdout,
                StandardStream::Stderr => LogLevel::Stderr,
            },
    {
        match self {
            StandardStream::Stdout => LogLevel::Stdout,
            StandardStream::Stderr => LogLevel::Stderr,
        }
    }

    /// The context of the records.
    pub fn context(self) -> (r: LogContext<'static>)
        ensures
            r@ == match self {
                StandardStream::Stdout => ContextView::Stdout,
                StandardStream::Stderr => ContextView::Stderr,
            },
    {
        match self {
            StandardStream::Stdout => LogContext::Stdout,
            StandardStream::Stderr => LogContext::Stderr,
        }
    }
}

/// The system interface of one instance.
#[derive(Debug)]
pub struct WasiPlan {
    /// Directories to open for the guest, in order.
    pub preopened: Vec<DirectoryMapping>,
    /// Environment variables to set, in order.
    pub env: Vec<(String, String)>,
    /// Whether the guest may open TCP sockets.
    pub allow_tcp: bool,
    /// Whether the guest may use UDP sockets.
    pub allow_udp: bool,
    /// Where standard output goes.
    pub stdout: StandardStream,
    /// Where standard error goes.
    pub stderr: StandardStream,
}

/// The message for a mapping that cannot be opened.
pub fn mapping_failure(mapping: &DirectoryMapping, cause: &str) -> (r: String)
    ensures
        r@ == "Failed to add directory mapping '"@ + mapping.host@ + "' -> '"@ + mapping.guest@
            + "': "@ + cause@,
{
    let mut text: String = concat3(
        "Failed to add directory mapping '",
        mapping.host.as_str(),
        "' -> '",
    );
    text.append(mapping.guest.as_str());
    text.append("': ");
    text.append(cause);
    text
}

impl<B, U, S, A> InstanceState<B, U, S, A> {
    /// A new instance: nothing is running, nothing is held back, and its system interface offers
    /// the configured directories and variables, no sockets, and the two standard streams as logs.
    pub fn new(
        directory_mappings: &Vec<DirectoryMapping>,
        env: &Vec<(String, String)>,
        max_memory: usize,
    ) -> (r: (InstanceState<B, U, S, A>, WasiPlan))
        ensures
            r.0.limiter@ == (MemoryView { limit: max_memory as nat, allocated: 0 }),
            r.0.output_target is None,
            r.0.capture_output is None,
            r.0.output_buffer@ == Seq::<u8>::empty(),
            r.1.preopened@ == directory_mappings@,
            r.1.env@ == env@,
            !r.1.allow_tcp,
            !r.1.allow_udp,
            r.1.stdout == StandardStream::Stdout,
            r.1.stderr == StandardStream::Stderr,
    {
        let state = InstanceState {
            limiter: MemoryLimiter::new(max_memory),
            output_target: None,
            capture_output: None,
            output_buffer: OutputBuffer::new(),
        };
        let plan = WasiPlan {
            preopened: clone_mounts(directory_mappings),
            env: clone_env(env),
            allow_tcp: false,
            allow_udp: false,
            stdout: StandardStream::Stdout,
            stderr: StandardStream::Stderr,
        };
        (state, plan)
    }

    /// Directs the output of the next operation. Chunks of an earlier operation that trapped or was
    /// interrupted are dropped, so that no output leaks from one call into another.
    pub fn set_output_target(&mut self, target: Option<OutputTarget<B, U, S, A>>)
        ensures
            final(self).limiter == old(self).limiter,
            final(self).output_target == target,
            final(self).output_buffer@ == Seq::<u8>::empty(),
            final(self).capture_output == old(self).capture_output,
    {
        self.output_buffer.reset();
        self.output_target = target;
    }

    /// Waits until the log records of the running operation are delivered. Each is delivered as it
    /// comes, so none is left.
    pub fn flush_logs(&mut self) -> (r: Result<(), String>)
        ensures
            r is Ok,
            *final(self) == *old(self),
    {
        Ok(())
    }

    /// Takes one emission of the guest. A completed value is collected where the running operation
    /// collects its output, and otherwise returned for delivery.
    pub fn emit(&mut self, data: EmitValue) -> (r: Result<Emitted, EmitError>)
        ensures
            final(self).limiter == old(self).limiter,
            final(self).output_target == old(self).output_target,
            old(self).output_target is None ==> r == Err::<Emitted, EmitError>(
                EmitError::TargetMissing,
            ) && *final(self) == *old(self),
            old(self).output_target is Some ==> ({
                let (held, output) = emission(old(self).output_buffer@, data@);
                &&& final(self).output_buffer@ == held
                &&& match output {
                    None => {
                        &&& r == Err::<Emitted, EmitError>(EmitError::LimitExceeded)
                        &&& final(self).capture_output == old(self).capture_output
                    },
                    Some(output) => if capturing(old(self).output_target) {
                        &&& r matches Ok(Emitted::Nothing)
                        &&& match old(self).capture_output {
                            Some(capture) => final(self).capture_output matches Some(now)
                                && now@ == collected(capture@, output),
                            None => final(self).capture_output is None,
                        }
                    } else {
                        &&& r matches Ok(emitted) && emitted.output() == output
                        &&& final(self).capture_output == old(self).capture_output
                    },
                }
            }),
    {
        let capture: bool = match &self.output_target {
            None => {
                return Err(EmitError::TargetMissing);
            },
            Some(target) => target.is_capture(),
        };
        match data {
            EmitValue::Continuation(chunk) => match self.output_buffer.append(octet_slice(&chunk)) {
                Ok(()) => Ok(Emitted::Nothing),
                Err(e) => Err(e),
            },
            EmitValue::End(chunk) => {
                let output: Bytes = match self.output_buffer.finish(chunk) {
                    Ok(output) => output,
                    Err(e) => {
                        return Err(e);
                    },
                };
                let value: Option<Value> = if output.is_empty() {
                    None
                } else {
                    Some(Value::from_cbor(output))
                };
                if capture {
                    self.collect_result(value);
                    Ok(Emitted::Nothing)
                } else {
                    Ok(Emitted::Complete(value))
                }
            },
            EmitValue::PartialResult(chunk) => {
                let output: Bytes = match self.output_buffer.finish(chunk) {
                    Ok(output) => output,
                    Err(e) => {
                        return Err(e);
                    },
                };
                let value: Value = Value::from_cbor(output);
                if capture {
                    self.collect_item(value);
                    Ok(Emitted::Nothing)
                } else {
                    Ok(Emitted::Item(value))
                }
            },
            EmitValue::Abort => {
                self.output_buffer.reset();
                Ok(Emitted::Nothing)
            },
        }
    }

    fn collect_result(&mut self, value: Option<Value>)
        ensures
            final(self).limiter == old(self).limiter,
            final(self).output_target == old(self).output_target,
            final(self).output_buffer == old(self).output_buffer,
            match old(self).capture_output {
                Some(capture) => final(self).capture_output matches Some(now) && now@ == (
                CallOutputView {
                    result: match value {
                        Some(v) => Some(v@),
                        None => None,
                    },
                    ..capture@
                }),
                None => final(self).capture_output is None,
            },
    {
        let mut taken: Option<CallOutput> = None;
        std::mem::swap(&mut taken, &mut self.capture_output);
        if let Some(capture) = taken {
            self.capture_output = Some(CallOutput { items: capture.items, result: value });
        }
    }

    fn collect_item(&mut self, value: Value)
        ensures
            final(self).limiter == old(self).limiter,
            final(self).output_target == old(self).output_target,
            final(self).output_buffer == old(self).output_buffer,
            match old(self).capture_output {
                Some(capture) => final(self).capture_output matches Some(now) && now@ == (
                CallOutputView { items: capture@.items.push(value@), ..capture@ }),
                None => final(self).capture_output is None,
            },
    {
        let mut taken: Option<CallOutput> = None;
        std::mem::swap(&mut taken, &mut self.capture_output);
        if let Some(capture) = taken {
            let mut items: Vec<Value> = capture.items;
            items.push(value);
            proof {
                assert(items@.map_values(|v: Value| v@) =~= capture@.items.push(value@));
            }
            self.capture_output = Some(CallOutput { items, result: capture.result });
        }
    }

    /// How a completed value reaches the target of the running operation.
    pub fn deliver<'a>(&'a self, emitted: Emitted) -> (r: Option<Delivery<'a, B, U, S, A>>)
        ensures
            match (self.output_target, event_of(emitted.output())) {
                (Some(target), Some(event)) => r matches Some(d) && hands_over(
                    target.kind,
                    event,
                    d,
                ),
                _ => r is None,
            },
    {
        match &self.output_target {
            None => None,
            Some(target) => match emitted {
                Emitted::Nothing => None,
                Emitted::Item(value) => Some(target.on_item(value)),
                Emitted::Complete(value) => Some(target.on_complete(value)),
            },
        }
    }

    /// How one guest log record reaches the target of the running operation, if one is running.
    pub fn emit_log<'a>(
        &'a self,
        log_level: GuestLevel,
        context: &'a str,
        message: &'a str,
    ) -> (r: Option<Delivery<'a, B, U, S, A>>)
        ensures
            match self.output_target {
                None => r is None,
                Some(target) => r matches Some(d) && hands_over(
                    target.kind,
                    EventView::Log {
                        level: record_level(log_level, context_named(context@)),
                        context: context_named(context@),
                        message: message@,
                    },
                    d,
                ),
            },
    {
        let (level, named) = classify_log(log_level, context);
        match &self.output_target {
            None => None,
            Some(target) => Some(target.on_log(level, named, message)),
        }
    }
}

/// A call into the guest.
#[derive(Debug)]
pub enum GuestCall<I> {
    /// Evaluate source code in the persistent scope of the guest.
    EvalScript(String),
    /// Evaluate the file at a guest-visible path.
    EvalFile(String),
    /// Call a function with arguments.
    CallFunc(String, Vec<RawArgument<I>>),
}

/// A call of this function with these arguments, or the error of an argument that has no form for
/// the guest.
pub open spec fn calls_function<R, I, F: Fn(R) -> Result<I, String>>(
    function: Seq<char>,
    args: Seq<Arg<R>>,
    push: F,
    r: Result<GuestCall<I>, Error>,
) -> bool {
    match r {
        Ok(GuestCall::CallFunc(name, raw)) => name@ == function && args_lowered(
            args,
            push,
            Ok::<Vec<RawArgument<I>>, Error>(raw),
        ),
        Ok(_) => false,
        Err(e) => args_lowered(args, push, Err::<Vec<RawArgument<I>>, Error>(e)),
    }
}

/// A live guest instance and its running operation.
///
/// An operation begins with [`Sandbox::eval_script`], [`Sandbox::eval_file`],
/// [`Sandbox::call_with_sink`] or [`Sandbox::call`], each of which gives the call into the guest
/// that is to be made. What comes of that call goes to [`Sandbox::finish`], or to
/// [`Sandbox::finish_call`] after [`Sandbox::call`].
#[derive(Debug)]
pub struct Sandbox<B, U, S, A> {
    /// The state of the instance.
    pub state: InstanceState<B, U, S, A>,
}

impl<B, U, S, A> Sandbox<B, U, S, A> {
    /// Begins to evaluate source code. Logs and explicitly emitted values go to `target`.
    pub fn eval_script<I>(&mut self, code: &str, target: OutputTarget<B, U, S, A>) -> (r: GuestCall<
        I,
    >)
        ensures
            r matches GuestCall::EvalScript(text) && text@ == code@,
            final(self).state.output_target == Some(target),
            final(self).state.output_buffer@ == Seq::<u8>::empty(),
            final(self).state.limiter == old(self).state.limiter,
            final(self).state.capture_output == old(self).state.capture_output,
    {
        self.state.set_output_target(Some(target));
        GuestCall::EvalScript(code.to_owned())
    }

    /// Begins to evaluate a file by its exact guest-visible path. Logs and explicitly emitted
    /// values go to `target`.
    pub fn eval_file<I>(
        &mut self,
        guest_path: &str,
        target: OutputTarget<B, U, S, A>,
    ) -> (r: GuestCall<I>)
        ensures
            r matches GuestCall::EvalFile(path) && path@ == guest_path@,
            final(self).state.output_target == Some(target),
            final(self).state.output_buffer@ == Seq::<u8>::empty(),
            final(self).state.limiter == old(self).state.limiter,
            final(self).state.capture_output == old(self).state.capture_output,
    {
        self.state.set_output_target(Some(target));
        GuestCall::EvalFile(guest_path.to_owned())
    }

    /// Begins to call a function whose output goes to `target` as it comes. `push` registers a
    /// stream with the instance. Where an argument has no form for the guest, nothing is called.
    pub fn call_with_sink<R, I, F: Fn(R) -> Result<I, String>>(
        &mut self,
        function: &str,
        args: Vec<Arg<R>>,
        target: OutputTarget<B, U, S, A>,
        push: F,
    ) -> (r: Result<GuestCall<I>, Error>)
        requires
            forall|stream: R| call_requires(push, (stream,)),
        ensures
            calls_function(function@, args@, push, r),
            final(self).state.output_target == if r is Ok {
                Some(target)
            } else {
                None
            },
            final(self).state.output_buffer@ == Seq::<u8>::empty(),
            final(self).state.limiter == old(self).state.limiter,
            final(self).state.capture_output == old(self).state.capture_output,
    {
        match lower_args(args, push) {
            Ok(raw) => {
                self.state.set_output_target(Some(target));
                Ok(GuestCall::CallFunc(function.to_owned(), raw))
            },
            Err(e) => {
                self.state.set_output_target(None);
                Err(e)
            },
        }
    }

    /// Begins to call a function whose output the call itself collects.
    pub fn call<R, I, F: Fn(R) -> Result<I, String>>(
        &mut self,
        function: &str,
        args: Vec<Arg<R>>,
        push: F,
    ) -> (r: Result<GuestCall<I>, Error>)
        requires
            forall|stream: R| call_requires(push, (stream,)),
        ensures
            calls_function(function@, args@, push, r),
            r is Ok ==> capturing(final(self).state.output_target),
            r is Err ==> final(self).state.output_target is None,
            final(self).state.output_buffer@ == Seq::<u8>::empty(),
            final(self).state.limiter == old(self).state.limiter,
            final(self).state.capture_output matches Some(capture) && capture@ == (
            CallOutputView { items: Seq::empty(), result: None }),
    {
        self.state.capture_output = Some(CallOutput::default());
        self.call_with_sink(function, args, OutputTarget::capture(), push)
    }

    /// Ends the operation. Its target is released and incomplete output is dropped.
    pub fn finish(
        &mut self,
        result: Result<Result<(), GuestError>, String>,
        flushed: Result<(), String>,
    ) -> (r: Result<(), Error>)
        ensures
            final(self).state.output_target is None,
            final(self).state.output_buffer@ == Seq::<u8>::empty(),
            final(self).state.limiter == old(self).state.limiter,
            final(self).state.capture_output == old(self).state.capture_output,
            is_outcome(result, flushed, r),
    {
        self.state.set_output_target(None);
        finish_call(result, flushed)
    }

    /// Ends a call that collects its own output, and gives what was collected where it succeeded.
    pub fn finish_call(
        &mut self,
        result: Result<Result<(), GuestError>, String>,
        flushed: Result<(), String>,
    ) -> (r: Result<CallOutput, Error>)
        ensures
            final(self).state.output_target is None,
            final(self).state.output_buffer@ == Seq::<u8>::empty(),
            final(self).state.limiter == old(self).state.limiter,
            match r {
                Ok(output) => {
                    &&& is_outcome(result, flushed, Ok(()))
                    &&& final(self).state.capture_output is None
                    &&& match old(self).state.capture_output {
                        Some(capture) => output == capture,
                        None => output@ == (CallOutputView { items: Seq::empty(), result: None }),
                    }
                },
                Err(e) => {
                    &&& is_outcome(result, flushed, Err(e))
                    &&& final(self).state.capture_output == old(self).state.capture_output
                },
            },
    {
        match self.finish(result, flushed) {
            Err(e) => Err(e),
            Ok(()) => {
                let mut taken: Option<CallOutput> = None;
                std::mem::swap(&mut taken, &mut self.state.capture_output);
                match taken {
                    Some(output) => Ok(output),
                    None => Ok(CallOutput::default()),
                }
            },
        }
    }

    /// How many bytes of linear memory the guest has. What the host holds for it, such as streamed
    /// values, does not count.
    #[must_use]
    pub fn memory_usage(&self) -> (r: usize)
        ensures
            r == self.state.limiter@.allocated,
            r <= self.state.limiter@.limit,
    {
        self.state.limiter.current()
    }
}

/// The bytes held back never pass the limit.
pub proof fn held_within_limit(held: Seq<u8>, data: EmitView)
    requires
        fits(held),
    ensures
        fits(emission(held, data).0),
{
}

/// Whatever was emitted before an abort or a refused emission, the output after it is the same.
pub proof fn failed_emission_leaves_no_trace(held: Seq<u8>, data: EmitView, next: EmitView)
    requires
        data is Abort || emission(held, data).1 is None,
    ensures
        emission(emission(held, data).0, next) == emission(Seq::empty(), next),
{
}

/// What is held back after a sequence of continuations.
pub open spec fn held_after(held: Seq<u8>, chunks: Seq<Seq<u8>>) -> Seq<u8>
    decreases chunks.len(),
{
    if chunks.len() == 0 {
        held
    } else {
        emission(held_after(held, chunks.drop_last()), EmitView::Continuation(chunks.last())).0
    }
}

/// The chunks of a value put together.
pub open spec fn joined_chunks(chunks: Seq<Seq<u8>>) -> Seq<u8>
    decreases chunks.len(),
{
    if chunks.len() == 0 {
        Seq::empty()
    } else {
        joined_chunks(chunks.drop_last()) + chunks.last()
    }
}

/// A value within the limit arrives whole, however it was cut into chunks.
pub proof fn chunks_make_one_value(chunks: Seq<Seq<u8>>, last: Seq<u8>)
    requires
        fits(joined_chunks(chunks) + last),
    ensures
        held_after(Seq::empty(), chunks) == joined_chunks(chunks),
        emission(held_after(Seq::empty(), chunks), EmitView::PartialResult(last)) == (
            Seq::<u8>::empty(),
            Some(Output::Item(joined_chunks(chunks) + last)),
        ),
        emission(held_after(Seq::empty(), chunks), EmitView::End(last)) == (
            Seq::<u8>::empty(),
            Some(Output::Complete(non_empty(joined_chunks(chunks) + last))),
        ),
    decreases chunks.len(),
{
    if chunks.len() > 0 {
        let front = chunks.drop_last();
        chunks_make_one_value(front, chunks.last());
    }
}

/// A value past the limit does not arrive: one of its chunks is refused.
pub proof fn oversized_value_is_refused(chunks: Seq<Seq<u8>>, last: Seq<u8>)
    requires
        !fits(joined_chunks(chunks) + last),
    ensures
        emission(held_after(Seq::empty(), chunks), EmitView::End(last)).1 is None || exists|i: int|
            0 <= i < chunks.len() && emission(
                held_after(Seq::empty(), #[trigger] chunks.take(i)),
                EmitView::Continuation(chunks[i]),
            ).1 is None,
    decreases chunks.len(),
{
    if chunks.len() > 0 {
        let front = chunks.drop_last();
        let n = chunks.len() - 1;
        assert(chunks.take(n) =~= front);
        if fits(joined_chunks(front) + chunks.last()) {
            chunks_make_one_value(chunks, Seq::empty());
        } else {
            oversized_value_is_refused(front, chunks.last());
            let held = held_after(Seq::empty(), front);
            if emission(held, EmitView::End(chunks.last())).1 is None {
                assert(emission(held, EmitView::Continuation(chunks[n])).1 is None);
            } else {
                let i = choose|i: int|
                    0 <= i < front.len() && emission(
                        held_after(Seq::empty(), #[trigger] front.take(i)),
                        EmitView::Continuation(front[i]),
                    ).1 is None;
                assert(front.take(i) =~= chunks.take(i));
            }
        }
    }
}

/// The bytes held back after a sequence of emissions, and the values that it completes, in order.
pub open spec fn emissions(held: Seq<u8>, all: Seq<EmitView>) -> (Seq<u8>, Seq<Output>)
    decreases all.len(),
{
    if all.len() == 0 {
        (held, Seq::empty())
    } else {
        let (held, done) = emissions(held, all.drop_last());
        let (held, output) = emission(held, all.last());
        (
            held,
            match output {
                Some(output) => done.push(output),
                None => done,
            },
        )
    }
}

/// What a call has collected after a sequence of emissions, taken one by one.
pub open spec fn captured(held: Seq<u8>, before: CallOutputView, all: Seq<EmitView>) -> CallOutputView
    decreases all.len(),
{
    if all.len() == 0 {
        before
    } else {
        let capture = captured(held, before, all.drop_last());
        match emission(emissions(held, all.drop_last()).0, all.last()).1 {
            Some(output) => collected(capture, output),
            None => capture,
        }
    }
}

/// The intermediate values among completed values, in order.
pub open spec fn items_of(done: Seq<Output>) -> Seq<Seq<u8>>
    decreases done.len(),
{
    if done.len() == 0 {
        Seq::empty()
    } else {
        match done.last() {
            Output::Item(value) => items_of(done.drop_last()).push(value),
            _ => items_of(done.drop_last()),
        }
    }
}

/// The final value among completed values: the last one.
pub open spec fn result_of(done: Seq<Output>) -> Option<Seq<u8>>
    decreases done.len(),
{
    if done.len() == 0 {
        None
    } else {
        match done.last() {
            Output::Complete(value) => value,
            _ => result_of(done.drop_last()),
        }
    }
}

/// A call collects exactly the emitted items, in emission order, and the final value.
pub proof fn call_collects_in_order(all: Seq<EmitView>)
    ensures
        captured(Seq::empty(), CallOutputView { items: Seq::empty(), result: None }, all) == ({
            let done = emissions(Seq::empty(), all).1;
            CallOutputView { items: items_of(done), result: result_of(done) }
        }),
    decreases all.len(),
{
    if all.len() > 0 {
        call_collects_in_order(all.drop_last());
        let before = emissions(Seq::empty(), all.drop_last()).1;
        match emission(emissions(Seq::empty(), all.drop_last()).0, all.last()).1 {
            Some(output) => {
                assert(before.push(output).drop_last() =~= before);
            },
            None => {},
        }
    }
}

} // verus!
