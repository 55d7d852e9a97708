//! A sandbox in the hands of an embedding program: its life from configuration to runs, and what
//! a run hands back.

use serde_json::Value as JsonValue;
use vstd::prelude::*;

use crate::arguments::{
    are_read, first_unavailable, is_stream_arg, parse_run_args,
    parse_stream_run_args, run_args, run_parsed, stream_args, streams_parsed,
    take_stream_receivers, without_receivers, JsonArgument, ParsedArgument, ReadArgument,
    ReadPayload, WireArgument,
};
use crate::context::{
    configured_entries, instantiated, invalid_argument, is_internal, is_invalid, sandbox_patched,
    PendingSandboxConfig, SandboxConfigPatch, SdkError,
};
use crate::host::{BoxError, ErrorKind, LogLevel, OutputEvent};
use crate::keyed::{latest, text_entries};
use crate::sandbox::{Arg, Error, OptionsView, SandboxOptions};
use crate::text::{concat2, concat3};
use crate::value::Value;

verus! {

/// What a run hands back.
#[derive(Debug)]
pub struct RunResult {
    pub result_json: Vec<String>,
    pub final_json: Option<String>,
    pub stdout: Vec<String>,
    pub stderr: Vec<String>,
    pub logs: Vec<String>,
    pub errors: Vec<String>,
}

/// What a run hands back, by its texts.
#[verifier::ext_equal]
pub struct RunView {
    pub results: Seq<Seq<char>>,
    pub last: Option<Seq<char>>,
    pub stdout: Seq<Seq<char>>,
    pub stderr: Seq<Seq<char>>,
    pub logs: Seq<Seq<char>>,
    pub errors: Seq<Seq<char>>,
}

/// The texts of a list.
pub open spec fn text_list(list: Seq<String>) -> Seq<Seq<char>> {
    list.map_values(|text: String| text@)
}

impl View for RunResult {
    type V = RunView;

    open spec fn view(&self) -> RunView {
        RunView {
            results: text_list(self.result_json@),
            last: match self.final_json {
                Some(text) => Some(text@),
                None => None,
            },
            stdout: text_list(self.stdout@),
            stderr: text_list(self.stderr@),
            logs: text_list(self.logs@),
            errors: text_list(self.errors@),
        }
    }
}

/// The run that has handed nothing back.
pub open spec fn empty_run() -> RunView {
    RunView {
        results: Seq::empty(),
        last: None,
        stdout: Seq::empty(),
        stderr: Seq::empty(),
        logs: Seq::empty(),
        errors: Seq::empty(),
    }
}

impl Default for RunResult {
    fn default() -> (r: RunResult)
        ensures
            r@ == empty_run(),
    {
        let r = RunResult {
            result_json: Vec::new(),
            final_json: None,
            stdout: Vec::new(),
            stderr: Vec::new(),
            logs: Vec::new(),
            errors: Vec::new(),
        };
        proof {
            assert(r@ =~= empty_run());
        }
        r
    }
}

/// The events that a callback is told of.
#[derive(Debug, Clone, Copy, PartialEq, Eq, Structural)]
pub enum CallbackEvent {
    Result,
    End,
    Stdout,
    Stderr,
    Error,
    Log,
}

/// The name of an event.
pub open spec fn event_name(event: CallbackEvent) -> Seq<char> {
    match event {
        CallbackEvent::Result => "result"@,
        CallbackEvent::End => "end"@,
        CallbackEvent::Stdout => "stdout"@,
        CallbackEvent::Stderr => "stderr"@,
        CallbackEvent::Error => "error"@,
        CallbackEvent::Log => "log"@,
    }
}

impl CallbackEvent {
    /// The name of the event.
    pub fn as_str(self) -> (r: &'static str)
        ensures
            r@ == event_name(self),
    {
        match self {
            CallbackEvent::Result => "result",
            CallbackEvent::End => "end",
            CallbackEvent::Stdout => "stdout",
            CallbackEvent::Stderr => "stderr",
            CallbackEvent::Error => "error",
            CallbackEvent::Log => "log",
        }
    }
}

/// One call of a callback that is to be made: of which event it is told, and with what.
#[derive(Debug)]
pub struct Announcement {
    pub event: CallbackEvent,
    pub payload: Option<String>,
}

/// The text of an optional payload.
pub open spec fn payload_text(payload: Option<&str>) -> Option<Seq<char>> {
    match payload {
        Some(text) => Some(text@),
        None => None,
    }
}

/// Whether a callback is to be told of an event with a payload.
pub open spec fn announces(
    call: Announcement,
    event: CallbackEvent,
    payload: Option<Seq<char>>,
) -> bool {
    &&& call.event == event
    &&& match call.payload {
        Some(text) => payload == Some(text@),
        None => payload is None,
    }
}

/// What is to be told of an event: it is told once where there is a callback, and not at all where
/// there is none.
pub open spec fn is_emitted<C>(
    callback: Option<C>,
    event: CallbackEvent,
    payload: Option<Seq<char>>,
    call: Option<Announcement>,
) -> bool {
    match callback {
        Some(_) => call matches Some(made) && announces(made, event, payload),
        None => call is None,
    }
}

/// The list of errors after a callback answered. Only an answer that refuses the event adds one.
pub open spec fn errors_after(
    errors: Seq<Seq<char>>,
    kind: Seq<char>,
    answer: Option<bool>,
) -> Seq<Seq<char>> {
    if answer == Some(false) {
        errors.push("output callback rejected a "@ + kind + " event"@)
    } else {
        errors
    }
}

/// Collects what a run hands back, for a callback that is told of it as it comes. The callback
/// itself is called outside.
#[derive(Debug)]
pub struct OutputCollector<C> {
    pub callback: Option<C>,
    pub data: RunResult,
}

/// Adds a text to a list.
fn push_text(list: &mut Vec<String>, text: String)
    ensures
        text_list(final(list)@) == text_list(old(list)@).push(text@),
{
    list.push(text);
    proof {
        assert(text_list(list@) =~= text_list(old(list)@).push(text@));
    }
}

/// An event of a run whose value, if it has one, was written as JSON.
#[derive(Debug)]
pub enum Output {
    /// A value that was yielded.
    Result(String),
    /// The end, with the final value if there is one.
    End(Option<String>),
    /// A log record.
    Log(LogLevel, String),
}

/// What is to be done with an event of a run.
#[derive(Debug)]
pub enum Handling {
    /// Its value is to be written as JSON. `is_last` tells the final value from one that was
    /// yielded.
    Write {
        /// The value.
        value: Value,
        /// Whether the run ends with it.
        is_last: bool,
    },
    /// The callback is to be told of it.
    Announce(Output),
}

/// What is to be done with an event of a run.
pub open spec fn handling_of(event: OutputEvent) -> Handling {
    match event {
        OutputEvent::Item(value) => Handling::Write { value, is_last: false },
        OutputEvent::Complete(Some(value)) => Handling::Write { value, is_last: true },
        OutputEvent::Complete(None) => Handling::Announce(Output::End(None)),
        OutputEvent::Log { level, context, message } => Handling::Announce(
            Output::Log(level, message),
        ),
    }
}

/// The event that a callback is told of.
pub open spec fn output_event(output: Output) -> CallbackEvent {
    match output {
        Output::Result(_) => CallbackEvent::Result,
        Output::End(_) => CallbackEvent::End,
        Output::Log(LogLevel::Stdout, _) => CallbackEvent::Stdout,
        Output::Log(LogLevel::Stderr, _) => CallbackEvent::Stderr,
        Output::Log(_, _) => CallbackEvent::Log,
    }
}

/// What a callback is told with the event.
pub open spec fn output_payload(output: Output) -> Option<Seq<char>> {
    match output {
        Output::Result(text) => Some(text@),
        Output::End(Some(text)) => Some(text@),
        Output::End(None) => None,
        Output::Log(_, message) => Some(message@),
    }
}

/// What an event is called where it was refused.
pub open spec fn output_kind(output: Output) -> Seq<char> {
    match output {
        Output::Result(_) => "result"@,
        Output::End(_) => "end"@,
        Output::Log(_, _) => "log"@,
    }
}

/// The run with one more event. A refused event is recorded all the same, and the refusal with it.
pub open spec fn recorded(run: RunView, output: Output, answer: Option<bool>) -> RunView {
    let told = RunView {
        errors: errors_after(run.errors, output_kind(output), answer),
        ..run
    };
    match output {
        Output::Result(text) => RunView { results: run.results.push(text@), ..told },
        Output::End(Some(text)) => RunView { last: Some(text@), ..told },
        Output::End(None) => told,
        Output::Log(LogLevel::Stdout, message) => RunView {
            stdout: run.stdout.push(message@),
            ..told
        },
        Output::Log(LogLevel::Stderr, message) => RunView {
            stderr: run.stderr.push(message@),
            ..told
        },
        Output::Log(_, message) => RunView { logs: run.logs.push(message@), ..told },
    }
}

/// The run with several more events, each with the answer of the callback to it.
pub open spec fn all_recorded(
    run: RunView,
    outputs: Seq<Output>,
    answers: Seq<Option<bool>>,
) -> RunView
    decreases outputs.len(),
{
    if outputs.len() == 0 {
        run
    } else {
        recorded(
            all_recorded(run, outputs.drop_last(), answers),
            outputs.last(),
            answers[outputs.len() - 1],
        )
    }
}

/// The event of a value that was written as JSON. A value that could not be is refused.
pub fn written(json: Result<String, String>, is_last: bool) -> (r: Result<Output, BoxError>)
    ensures
        r == match json {
            Err(message) => Err::<Output, BoxError>(
                BoxError { kind: ErrorKind::InvalidData, message },
            ),
            Ok(text) => Ok(
                if is_last {
                    Output::End(Some(text))
                } else {
                    Output::Result(text)
                },
            ),
        },
{
    match json {
        Err(message) => Err(BoxError { kind: ErrorKind::InvalidData, message }),
        Ok(text) => if is_last {
            Ok(Output::End(Some(text)))
        } else {
            Ok(Output::Result(text))
        },
    }
}

impl<C> OutputCollector<C> {
    /// A collector that has collected nothing.
    pub fn new(callback: Option<C>) -> (r: OutputCollector<C>)
        ensures
            r.callback == callback,
            r.data@ == empty_run(),
    {
        OutputCollector { callback, data: RunResult::default() }
    }

    /// The one call that tells the callback of an event, where there is a callback.
    pub fn emit(&self, event: CallbackEvent, payload: Option<&str>) -> (r: Option<Announcement>)
        ensures
            is_emitted(self.callback, event, payload_text(payload), r),
    {
        match &self.callback {
            Some(_) => {
                let text: Option<String> = match payload {
                    Some(text) => Some(text.to_owned()),
                    None => None,
                };
                Some(Announcement { event, payload: text })
            },
            None => None,
        }
    }

    /// Records an error, and gives the one call that tells the callback of it. Its answer does not
    /// matter.
    pub fn emit_error_message(&mut self, message: &str) -> (r: Option<Announcement>)
        ensures
            final(self).callback == old(self).callback,
            final(self).data@ == (RunView {
                errors: old(self).data@.errors.push(message@),
                ..old(self).data@
            }),
            is_emitted(old(self).callback, CallbackEvent::Error, Some(message@), r),
    {
        push_text(&mut self.data.errors, message.to_owned());
        self.emit(CallbackEvent::Error, Some(message))
    }

    /// Records an error if the callback refused an event.
    fn record_answer(&mut self, answer: Option<bool>, kind: &str)
        ensures
            final(self).callback == old(self).callback,
            final(self).data@ == (RunView {
                errors: errors_after(old(self).data@.errors, kind@, answer),
                ..old(self).data@
            }),
    {
        if let Some(false) = answer {
            push_text(
                &mut self.data.errors,
                concat3("output callback rejected a ", kind, " event"),
            );
        }
    }

    /// Hands out what was collected, and leaves nothing behind.
    pub fn into_result(&mut self) -> (r: RunResult)
        ensures
            r == old(self).data,
            final(self).callback == old(self).callback,
            final(self).data@ == empty_run(),
    {
        let mut data = RunResult::default();
        std::mem::swap(&mut data, &mut self.data);
        data
    }

    /// What is to be done with an event of the run: a value is written as JSON first, see
    /// [`written`]. Then the callback is told, see [`OutputCollector::announce`], and the event is
    /// recorded with its answer, see [`OutputCollector::record`].
    pub fn handle_event(&self, event: OutputEvent) -> (r: Handling)
        ensures
            r == handling_of(event),
    {
        match event {
            OutputEvent::Item(value) => Handling::Write { value, is_last: false },
            OutputEvent::Complete(Some(value)) => Handling::Write { value, is_last: true },
            OutputEvent::Complete(None) => Handling::Announce(Output::End(None)),
            OutputEvent::Log { level, context, message } => Handling::Announce(
                Output::Log(level, message),
            ),
        }
    }

    /// The one call that tells the callback of an event of the run.
    pub fn announce(&self, output: &Output) -> (r: Option<Announcement>)
        ensures
            is_emitted(self.callback, output_event(*output), output_payload(*output), r),
    {
        match output {
            Output::Result(text) => self.emit(CallbackEvent::Result, Some(text.as_str())),
            Output::End(Some(text)) => self.emit(CallbackEvent::End, Some(text.as_str())),
            Output::End(None) => self.emit(CallbackEvent::End, None),
            Output::Log(LogLevel::Stdout, message) => self.emit(
                CallbackEvent::Stdout,
                Some(message.as_str()),
            ),
            Output::Log(LogLevel::Stderr, message) => self.emit(
                CallbackEvent::Stderr,
                Some(message.as_str()),
            ),
            Output::Log(_, message) => self.emit(CallbackEvent::Log, Some(message.as_str())),
        }
    }

    /// Records an event of the run, with the answer of the callback where there is one.
    pub fn record(&mut self, output: Output, answer: Option<bool>)
        ensures
            final(self).callback == old(self).callback,
            final(self).data@ == recorded(old(self).data@, output, answer),
    {
        match output {
            Output::Result(text) => {
                self.record_answer(answer, "result");
                push_text(&mut self.data.result_json, text);
            },
            Output::End(Some(text)) => {
                self.record_answer(answer, "end");
                self.data.final_json = Some(text);
            },
            Output::End(None) => self.record_answer(answer, "end"),
            Output::Log(LogLevel::Stdout, message) => {
                self.record_answer(answer, "log");
                push_text(&mut self.data.stdout, message);
            },
            Output::Log(LogLevel::Stderr, message) => {
                self.record_answer(answer, "log");
                push_text(&mut self.data.stderr, message);
            },
            Output::Log(_, message) => {
                self.record_answer(answer, "log");
                push_text(&mut self.data.logs, message);
            },
        }
    }
}

/// The values that were yielded, in order.
pub open spec fn yielded_texts(outputs: Seq<Output>) -> Seq<Seq<char>>
    decreases outputs.len(),
{
    if outputs.len() == 0 {
        Seq::empty()
    } else {
        let before = yielded_texts(outputs.drop_last());
        match outputs.last() {
            Output::Result(text) => before.push(text@),
            _ => before,
        }
    }
}

/// The final value: the last one that came.
pub open spec fn final_text(outputs: Seq<Output>) -> Option<Seq<char>>
    decreases outputs.len(),
{
    if outputs.len() == 0 {
        None
    } else {
        match outputs.last() {
            Output::End(Some(text)) => Some(text@),
            _ => final_text(outputs.drop_last()),
        }
    }
}

/// The log records that the callback is told of as this event, in order.
pub open spec fn logged_texts(outputs: Seq<Output>, event: CallbackEvent) -> Seq<Seq<char>>
    decreases outputs.len(),
{
    if outputs.len() == 0 {
        Seq::empty()
    } else {
        let before = logged_texts(outputs.drop_last(), event);
        match outputs.last() {
            Output::Log(_, message) => if output_event(outputs.last()) == event {
                before.push(message@)
            } else {
                before
            },
            _ => before,
        }
    }
}

/// A run hands back the yielded values, the final value and each kind of log record, in the order
/// in which they came, whatever the callback answers.
pub proof fn run_hands_back_what_came(outputs: Seq<Output>, answers: Seq<Option<bool>>)
    ensures
        all_recorded(empty_run(), outputs, answers) == (RunView {
            results: yielded_texts(outputs),
            last: final_text(outputs),
            stdout: logged_texts(outputs, CallbackEvent::Stdout),
            stderr: logged_texts(outputs, CallbackEvent::Stderr),
            logs: logged_texts(outputs, CallbackEvent::Log),
            errors: all_recorded(empty_run(), outputs, answers).errors,
        }),
    decreases outputs.len(),
{
    if outputs.len() > 0 {
        run_hands_back_what_came(outputs.drop_last(), answers);
    }
}

/// What the callback answers changes nothing of what is collected but the errors.
pub proof fn answers_only_add_errors(
    run: RunView,
    outputs: Seq<Output>,
    answers: Seq<Option<bool>>,
    others: Seq<Option<bool>>,
)
    ensures
        all_recorded(run, outputs, answers) == (RunView {
            errors: all_recorded(run, outputs, answers).errors,
            ..all_recorded(run, outputs, others)
        }),
    decreases outputs.len(),
{
    if outputs.len() > 0 {
        answers_only_add_errors(run, outputs.drop_last(), answers, others);
    }
}

/// Where no event is refused, no error is added.
pub proof fn accepted_events_add_no_errors(
    run: RunView,
    outputs: Seq<Output>,
    answers: Seq<Option<bool>>,
)
    requires
        forall|i: int| 0 <= i < outputs.len() ==> #[trigger] answers[i] != Some(false),
    ensures
        all_recorded(run, outputs, answers).errors == run.errors,
    decreases outputs.len(),
{
    if outputs.len() > 0 {
        accepted_events_add_no_errors(run, outputs.drop_last(), answers);
        assert(answers[outputs.len() - 1] != Some(false));
    }
}

/// The life of a sandbox, with callback `C`, HTTP handler `H`, hostcall handler `K` and instance
/// `S`.
#[derive(Debug)]
pub enum SandboxInner<C, H, K, S> {
    /// Being started, or closed.
    Uninitialized,
    /// Not started.
    Pending {
        config: PendingSandboxConfig,
        callback: Option<C>,
        http_handler: Option<H>,
        hostcall_handler: Option<K>,
    },
    /// Started; the instance is absent while a run has it.
    Running { sandbox: Option<S>, callback: Option<C> },
}

/// What a sandbox is started with.
#[derive(Debug)]
pub struct StartPlan<C, H, K> {
    pub config: PendingSandboxConfig,
    pub callback: Option<C>,
    pub http_handler: Option<H>,
    pub hostcall_handler: Option<K>,
}

impl<C, H, K> StartPlan<C, H, K> {
    /// The options of the instance.
    pub fn options(&self) -> (r: SandboxOptions)
        ensures
            r@ == (OptionsView {
                max_memory: self.config.max_memory,
                mounts: configured_entries(self.config.mounts@),
                env: latest(text_entries(self.config.env@)),
            }),
    {
        self.config.to_options()
    }
}

/// A run that is about to begin: the instance that executes it and the arguments.
#[derive(Debug)]
pub struct RunPlan<S, R> {
    pub sandbox: S,
    pub args: Vec<Arg<R>>,
}

/// Why a run with streams cannot begin.
#[derive(Debug)]
pub enum StreamRunError {
    /// It is not possible now, or its arguments are not.
    Sdk(SdkError),
    /// The receiver of this handle is gone.
    Receiver(usize),
}

/// A sandbox in the hands of an embedding program.
#[derive(Debug)]
pub struct SandboxCore<C, H, K, S> {
    pub inner: SandboxInner<C, H, K, S>,
}

/// A sandbox that was configured so.
pub open spec fn pending<C, H, K, S>(plan: StartPlan<C, H, K>) -> SandboxInner<C, H, K, S> {
    SandboxInner::Pending {
        config: plan.config,
        callback: plan.callback,
        http_handler: plan.http_handler,
        hostcall_handler: plan.hostcall_handler,
    }
}

/// How a sandbox begins to start.
pub open spec fn starts<C, H, K, S>(
    before: SandboxInner<C, H, K, S>,
    after: SandboxInner<C, H, K, S>,
    r: Result<StartPlan<C, H, K>, SdkError>,
) -> bool {
    match before {
        SandboxInner::Pending { .. } => r matches Ok(plan) && pending::<C, H, K, S>(plan) == before
            && after is Uninitialized,
        _ => is_invalid(r, "sandbox is not in pending state"@) && after == before,
    }
}

/// How the start of a sandbox ends.
pub open spec fn start_finishes<C, H, K, S>(
    plan: StartPlan<C, H, K>,
    created: Result<S, String>,
    after: SandboxInner<C, H, K, S>,
    r: Result<(), SdkError>,
) -> bool {
    match created {
        Ok(instance) => r is Ok && after == (SandboxInner::<C, H, K, S>::Running {
            sandbox: Some(instance),
            callback: plan.callback,
        }),
        Err(message) => is_internal(r, "Failed to create instance: "@ + message@) && after
            == pending::<C, H, K, S>(plan),
    }
}

/// Why a sandbox can no longer be configured.
pub open spec fn not_pending<C, H, K, S, T>(
    inner: SandboxInner<C, H, K, S>,
    r: Result<T, SdkError>,
) -> bool {
    match inner {
        SandboxInner::Running { .. } => is_invalid(r, "sandbox is already running"@),
        SandboxInner::Uninitialized => is_invalid(r, "sandbox is not initialized"@),
        SandboxInner::Pending { .. } => false,
    }
}

/// The sandbox while a run has its instance.
pub open spec fn while_leased<C, H, K, S>(inner: SandboxInner<C, H, K, S>) -> SandboxInner<
    C,
    H,
    K,
    S,
> {
    match inner {
        SandboxInner::Running { sandbox, callback } => SandboxInner::Running {
            sandbox: None,
            callback,
        },
        other => other,
    }
}

/// The sandbox after a run gave its instance back. It goes into an empty place of a running
/// sandbox, and nowhere else.
pub open spec fn after_lease<C, H, K, S>(
    inner: SandboxInner<C, H, K, S>,
    instance: S,
) -> SandboxInner<C, H, K, S> {
    match inner {
        SandboxInner::Running { sandbox: None, callback } => SandboxInner::Running {
            sandbox: Some(instance),
            callback,
        },
        other => other,
    }
}

/// How the instance of a sandbox is taken for a run.
pub open spec fn leased<C, H, K, S>(
    before: SandboxInner<C, H, K, S>,
    after: SandboxInner<C, H, K, S>,
    r: Result<S, SdkError>,
) -> bool {
    match before {
        SandboxInner::Running { sandbox: Some(instance), callback } => r == Ok::<S, SdkError>(
            instance,
        ) && after == while_leased(before),
        SandboxInner::Running { sandbox: None, callback } => is_invalid(r, "sandbox is busy"@)
            && after == before,
        _ => is_invalid(r, "sandbox is not running"@) && after == before,
    }
}

/// Whether the instance of a sandbox can be taken for a run.
pub open spec fn is_idle<C, H, K, S>(inner: SandboxInner<C, H, K, S>) -> bool {
    inner matches SandboxInner::Running { sandbox: Some(_), .. }
}

/// The instance of a sandbox.
pub open spec fn instance_of<C, H, K, S>(inner: SandboxInner<C, H, K, S>) -> S {
    inner->sandbox->0
}

/// Why a sandbox that is not idle refuses a run.
pub open spec fn refuses_run<C, H, K, S, T>(
    inner: SandboxInner<C, H, K, S>,
    r: Result<T, SdkError>,
) -> bool {
    match inner {
        SandboxInner::Running { .. } => is_invalid(r, "sandbox is busy"@),
        _ => is_invalid(r, "sandbox is not running"@),
    }
}

impl<C, H, K, S> SandboxCore<C, H, K, S> {
    /// A sandbox that is not started.
    pub fn new() -> (r: SandboxCore<C, H, K, S>)
        ensures
            r.inner matches SandboxInner::Pending {
                config,
                callback,
                http_handler,
                hostcall_handler,
            } && config.max_memory is None && config.mounts@.len() == 0 && config.env@.len() == 0
                && callback is None && http_handler is None && hostcall_handler is None,
    {
        SandboxCore {
            inner: SandboxInner::Pending {
                config: PendingSandboxConfig::default(),
                callback: None,
                http_handler: None,
                hostcall_handler: None,
            },
        }
    }

    /// Changes the configuration, as long as the sandbox is not started.
    pub fn configure(&mut self, patch: SandboxConfigPatch) -> (r: Result<(), SdkError>)
        ensures
            match old(self).inner {
                SandboxInner::Pending { config, callback, http_handler, hostcall_handler } => final(
                    self).inner matches SandboxInner::Pending {
                    config: changed,
                    callback: c,
                    http_handler: h,
                    hostcall_handler: k,
                } && c == callback && h == http_handler && k == hostcall_handler
                    && sandbox_patched(config, patch, changed, r),
                _ => not_pending(old(self).inner, r) && final(self).inner == old(self).inner,
            },
    {
        match &mut self.inner {
            SandboxInner::Pending { config, .. } => config.apply_patch(patch),
            SandboxInner::Running { .. } => Err(invalid_argument("sandbox is already running")),
            SandboxInner::Uninitialized => Err(invalid_argument("sandbox is not initialized")),
        }
    }

    /// Sets the callback that is told of output.
    pub fn set_callback(&mut self, new: Option<C>) -> (r: Result<(), SdkError>)
        ensures
            match old(self).inner {
                SandboxInner::Pending { config, callback, http_handler, hostcall_handler } => r
                    is Ok && final(self).inner == (SandboxInner::<C, H, K, S>::Pending {
                    config,
                    callback: new,
                    http_handler,
                    hostcall_handler,
                }),
                SandboxInner::Running { sandbox, callback } => r is Ok && final(self).inner == (
                SandboxInner::<C, H, K, S>::Running { sandbox, callback: new }),
                SandboxInner::Uninitialized => is_invalid(r, "sandbox is not initialized"@)
                    && final(self).inner == old(self).inner,
            },
    {
        match &mut self.inner {
            SandboxInner::Pending { callback, .. } => {
                *callback = new;
                Ok(())
            },
            SandboxInner::Running { callback, .. } => {
                *callback = new;
                Ok(())
            },
            SandboxInner::Uninitialized => Err(invalid_argument("sandbox is not initialized")),
        }
    }

    /// Sets the handler of hostcalls, as long as the sandbox is not started.
    pub fn set_hostcall_handler(&mut self, handler: Option<K>) -> (r: Result<(), SdkError>)
        ensures
            match old(self).inner {
                SandboxInner::Pending { config, callback, http_handler, hostcall_handler } => r
                    is Ok && final(self).inner == (SandboxInner::<C, H, K, S>::Pending {
                    config,
                    callback,
                    http_handler,
                    hostcall_handler: handler,
                }),
                _ => not_pending(old(self).inner, r) && final(self).inner == old(self).inner,
            },
    {
        match &mut self.inner {
            SandboxInner::Pending { hostcall_handler, .. } => {
                *hostcall_handler = handler;
                Ok(())
            },
            SandboxInner::Running { .. } => Err(invalid_argument("sandbox is already running")),
            SandboxInner::Uninitialized => Err(invalid_argument("sandbox is not initialized")),
        }
    }

    /// Sets the handler of HTTP requests, as long as the sandbox is not started.
    pub fn set_http_handler(&mut self, handler: Option<H>) -> (r: Result<(), SdkError>)
        ensures
            match old(self).inner {
                SandboxInner::Pending { config, callback, http_handler, hostcall_handler } => r
                    is Ok && final(self).inner == (SandboxInner::<C, H, K, S>::Pending {
                    config,
                    callback,
                    http_handler: handler,
                    hostcall_handler,
                }),
                _ => not_pending(old(self).inner, r) && final(self).inner == old(self).inner,
            },
    {
        match &mut self.inner {
            SandboxInner::Pending { http_handler, .. } => {
                *http_handler = handler;
                Ok(())
            },
            SandboxInner::Running { .. } => Err(invalid_argument("sandbox is already running")),
            SandboxInner::Uninitialized => Err(invalid_argument("sandbox is not initialized")),
        }
    }

    /// Begins to start the sandbox. What comes of creating an instance goes to
    /// [`SandboxCore::finish_start`].
    pub fn start(&mut self) -> (r: Result<StartPlan<C, H, K>, SdkError>)
        ensures
            starts(old(self).inner, final(self).inner, r),
    {
        let mut current: SandboxInner<C, H, K, S> = SandboxInner::Uninitialized;
        std::mem::swap(&mut current, &mut self.inner);
        match current {
            SandboxInner::Pending { config, callback, http_handler, hostcall_handler } => Ok(
                StartPlan { config, callback, http_handler, hostcall_handler },
            ),
            other => {
                self.inner = other;
                Err(invalid_argument("sandbox is not in pending state"))
            },
        }
    }

    /// Takes the instance that was created, or goes back to what was configured.
    pub fn finish_start(
        &mut self,
        plan: StartPlan<C, H, K>,
        created: Result<S, String>,
    ) -> (r: Result<(), SdkError>)
        ensures
            start_finishes(plan, created, final(self).inner, r),
    {
        match instantiated(created) {
            Ok(instance) => {
                self.inner =
                SandboxInner::Running { sandbox: Some(instance), callback: plan.callback };
                Ok(())
            },
            Err(e) => {
                self.inner =
                SandboxInner::Pending {
                    config: plan.config,
                    callback: plan.callback,
                    http_handler: plan.http_handler,
                    hostcall_handler: plan.hostcall_handler,
                };
                Err(e)
            },
        }
    }

    /// Takes the instance for a run.
    pub fn take_running_lease(&mut self) -> (r: Result<S, SdkError>)
        ensures
            leased(old(self).inner, final(self).inner, r),
    {
        match &mut self.inner {
            SandboxInner::Running { sandbox, .. } => {
                let mut taken: Option<S> = None;
                std::mem::swap(&mut taken, sandbox);
                match taken {
                    Some(instance) => Ok(instance),
                    None => Err(invalid_argument("sandbox is busy")),
                }
            },
            _ => Err(invalid_argument("sandbox is not running")),
        }
    }

    /// Gives the instance back after a run. A sandbox that was closed meanwhile does not take it.
    pub fn return_lease(&mut self, instance: S)
        ensures
            final(self).inner == after_lease(old(self).inner, instance),
    {
        match &mut self.inner {
            SandboxInner::Running { sandbox, .. } => {
                if sandbox.is_none() {
                    *sandbox = Some(instance);
                }
            },
            _ => {},
        }
    }

    /// The callback that is told of output.
    pub fn callback(&self) -> (r: Option<&C>)
        ensures
            match self.inner {
                SandboxInner::Pending { callback, .. } => r == option_ref(&callback),
                SandboxInner::Running { callback, .. } => r == option_ref(&callback),
                SandboxInner::Uninitialized => r is None,
            },
    {
        match &self.inner {
            SandboxInner::Pending { callback, .. } => callback.as_ref(),
            SandboxInner::Running { callback, .. } => callback.as_ref(),
            SandboxInner::Uninitialized => None,
        }
    }

    /// Begins to load a script: takes the instance that executes it.
    pub fn load_script(&mut self) -> (r: Result<S, SdkError>)
        ensures
            leased(old(self).inner, final(self).inner, r),
    {
        self.take_running_lease()
    }

    /// Begins a run without streams. Where the arguments are refused, the instance stays.
    pub fn run<R, F: Fn(&JsonValue) -> Result<Value, String>>(
        &mut self,
        args: Vec<WireArgument>,
        encode: &F,
    ) -> (r: Result<RunPlan<S, R>, SdkError>)
        requires
            forall|value: &JsonValue| call_requires(*encode, (value,)),
        ensures
            if is_idle(old(self).inner) {
                exists|read: Seq<ReadArgument>| #[trigger]
                    are_read(args@, *encode, read) && run_begins(
                        old(self).inner,
                        read,
                        final(self).inner,
                        r,
                    )
            } else {
                refuses_run(old(self).inner, r) && final(self).inner == old(self).inner
            },
    {
        let sandbox = match self.take_running_lease() {
            Ok(sandbox) => sandbox,
            Err(e) => {
                return Err(e);
            },
        };
        let parsed = parse_run_args(args, encode);
        match parsed {
            Ok(parsed) => {
                let args = run_args(parsed);
                Ok(RunPlan { sandbox, args })
            },
            Err(e) => {
                self.return_lease(sandbox);
                Err(e)
            },
        }
    }

    /// Begins a run with streams, whose receivers the handles name in the pool. Where it cannot
    /// begin, the instance stays, and so do the receivers.
    pub fn run_with_streams<R, F: Fn(&JsonValue) -> Result<Value, String>>(
        &mut self,
        args: Vec<WireArgument>,
        handles: &Vec<usize>,
        pool: &mut Vec<Option<R>>,
        encode: &F,
    ) -> (r: Result<RunPlan<S, R>, StreamRunError>)
        requires
            forall|value: &JsonValue| call_requires(*encode, (value,)),
            forall|i: int| 0 <= i < handles@.len() ==> #[trigger] handles@[i] < old(pool)@.len(),
        ensures
            if is_idle(old(self).inner) {
                exists|read: Seq<ReadArgument>| #[trigger]
                    are_read(args@, *encode, read) && stream_run_begins(
                        old(self).inner,
                        read,
                        handles@,
                        old(pool)@,
                        final(pool)@,
                        final(self).inner,
                        r,
                    )
            } else {
                &&& r matches Err(StreamRunError::Sdk(e))
                &&& refuses_run(old(self).inner, Err::<RunPlan<S, R>, SdkError>(e))
                &&& final(self).inner == old(self).inner
                &&& final(pool)@ == old(pool)@
            },
    {
        let sandbox = match self.take_running_lease() {
            Ok(sandbox) => sandbox,
            Err(e) => {
                return Err(StreamRunError::Sdk(e));
            },
        };
        let parsed = parse_stream_run_args(args, handles.len(), encode);
        let ghost outcome = parsed;
        let ghost read = choose|read: Seq<ReadArgument>| #[trigger]
            are_read(args@, *encode, read) && streams_parsed(read, handles@.len(), outcome);
        let parsed = match parsed {
            Ok(parsed) => parsed,
            Err(e) => {
                self.return_lease(sandbox);
                return Err(StreamRunError::Sdk(e));
            },
        };
        let receivers = match take_stream_receivers(handles, pool) {
            Ok(receivers) => receivers,
            Err(i) => {
                self.return_lease(sandbox);
                return Err(StreamRunError::Receiver(i));
            },
        };
        proof {
            assert forall|p: int| 0 <= p < handles@.len() implies (#[trigger] receivers@[p])
                is Some by {
                assert(crate::arguments::is_available(old(pool)@, handles@, p));
            }
            crate::arguments::every_stream_is_handed_over_once(
                read,
                handles@.len(),
                parsed,
                receivers@,
            );
            assert forall|i: int| 0 <= i < parsed@.len() implies (
            #[trigger] crate::arguments::parsed_index(parsed@[i]) matches Some(index) ==> 0
                <= index < receivers@.len()) by {
                assert(crate::arguments::is_parsed_argument(read[i], parsed@[i]));
                assert(crate::arguments::stream_refusal(read, i, handles@.len()) is None);
            }
        }
        let ghost accepted = parsed;
        let ghost taken = receivers@;
        match stream_args(parsed, receivers) {
            Ok(args) => {
                proof {
                    assert forall|i: int| 0 <= i < read.len() implies is_stream_run_arg(
                        read[i],
                        handles@,
                        old(pool)@,
                        #[trigger] args@[i],
                    ) by {
                        assert(crate::arguments::is_parsed_argument(read[i], accepted@[i]));
                        assert(is_stream_arg(accepted@[i], taken, args@[i]));
                        assert(crate::arguments::stream_refusal(read, i, handles@.len()) is None);
                        if let Some(index) = crate::arguments::stream_index(read[i]) {
                            assert(taken[index] == old(pool)@[handles@[index] as int]);
                        }
                    }
                }
                Ok(RunPlan { sandbox, args })
            },
            Err(e) => {
                proof {
                    assert(false);
                }
                self.return_lease(sandbox);
                Err(StreamRunError::Sdk(e))
            },
        }
    }

    /// Closes the sandbox.
    pub fn close(&mut self)
        ensures
            final(self).inner is Uninitialized,
    {
        self.inner = SandboxInner::Uninitialized;
    }
}

/// What is behind a reference to an option.
pub open spec fn option_ref<C>(value: &Option<C>) -> Option<&C> {
    match value {
        Some(inner) => Some(inner),
        None => None,
    }
}

/// An argument as a guest function is called with it in a run without streams.
pub open spec fn is_run_arg<R>(read: ReadArgument, arg: Arg<R>) -> bool {
    match (read.name, read.payload) {
        (Some(name), ReadPayload::Json(Ok(value))) => arg == Arg::<R>::Named(name, value),
        (None, ReadPayload::Json(Ok(value))) => arg == Arg::<R>::Positional(value),
        _ => false,
    }
}

/// How a run without streams begins, or is refused, on a sandbox that is idle.
pub open spec fn run_begins<C, H, K, S, R>(
    before: SandboxInner<C, H, K, S>,
    read: Seq<ReadArgument>,
    after: SandboxInner<C, H, K, S>,
    r: Result<RunPlan<S, R>, SdkError>,
) -> bool {
    match r {
        Ok(plan) => {
            &&& plan.sandbox == instance_of(before)
            &&& after == while_leased(before)
            &&& plan.args@.len() == read.len()
            &&& forall|i: int| 0 <= i < read.len() ==> is_run_arg(read[i], #[trigger] plan.args@[i])
        },
        Err(e) => {
            &&& after == before
            &&& run_parsed(read, Err::<Vec<JsonArgument>, SdkError>(e))
        },
    }
}

/// An argument as a guest function is called with it in a run with streams: a stream is the
/// receiver of its handle.
pub open spec fn is_stream_run_arg<R>(
    read: ReadArgument,
    handles: Seq<usize>,
    pool: Seq<Option<R>>,
    arg: Arg<R>,
) -> bool {
    match crate::arguments::stream_index(read) {
        None => is_run_arg(read, arg),
        Some(index) => match read.name {
            Some(name) => arg matches Arg::NamedStream(n, stream) && n == name
                && pool[handles[index] as int] == Some(stream),
            None => arg matches Arg::PositionalStream(stream) && pool[handles[index] as int]
                == Some(stream),
        },
    }
}

/// The arguments of a run with streams.
pub open spec fn stream_plan<R>(
    read: Seq<ReadArgument>,
    handles: Seq<usize>,
    pool: Seq<Option<R>>,
    args: Seq<Arg<R>>,
) -> bool {
    &&& args.len() == read.len()
    &&& forall|i: int|
        0 <= i < read.len() ==> is_stream_run_arg(read[i], handles, pool, #[trigger] args[i])
}

/// How a run with streams begins, or is refused, on a sandbox that is idle.
pub open spec fn stream_run_begins<C, H, K, S, R>(
    before: SandboxInner<C, H, K, S>,
    read: Seq<ReadArgument>,
    handles: Seq<usize>,
    pool: Seq<Option<R>>,
    left: Seq<Option<R>>,
    after: SandboxInner<C, H, K, S>,
    r: Result<RunPlan<S, R>, StreamRunError>,
) -> bool {
    match r {
        Ok(plan) => {
            &&& plan.sandbox == instance_of(before)
            &&& after == while_leased(before)
            &&& without_receivers(pool, handles, handles.len() as int, left)
            &&& stream_plan(read, handles, pool, plan.args@)
        },
        Err(StreamRunError::Sdk(e)) => {
            &&& after == before
            &&& left == pool
            &&& streams_parsed(read, handles.len(), Err::<Vec<ParsedArgument>, SdkError>(e))
        },
        Err(StreamRunError::Receiver(i)) => {
            &&& after == before
            &&& left == pool
            &&& exists|parsed: Vec<ParsedArgument>| #[trigger]
                streams_parsed(read, handles.len(), Ok::<Vec<ParsedArgument>, SdkError>(parsed))
            &&& first_unavailable(pool, handles, i as int)
        },
    }
}

/// What is said of a script that could not be loaded, or a run that failed.
pub open spec fn failure_text(prefix: Seq<char>, error: Error) -> Seq<char> {
    prefix + match error {
        Error::UserCode { message } => message@,
        Error::Wasm(cause) => "wasm error: "@ + cause@,
        Error::Io(cause) => "io error: "@ + cause@,
        Error::Other(cause) => "runtime error: "@ + cause@,
    }
}

/// Why a script could not be loaded, or a run failed, and the one call that tells the callback of
/// it.
#[derive(Debug)]
pub struct Failure {
    pub error: SdkError,
    pub call: Option<Announcement>,
}

/// How a failure is told of and recorded.
pub open spec fn fails<C, T>(
    before: OutputCollector<C>,
    text: Seq<char>,
    after: OutputCollector<C>,
    r: Result<T, Failure>,
) -> bool {
    &&& r matches Err(failure) && is_internal(Err::<T, SdkError>(failure.error), text)
        && is_emitted(before.callback, CallbackEvent::Error, Some(text), failure.call)
    &&& after.callback == before.callback
    &&& after.data@ == (RunView { errors: before.data@.errors.push(text), ..before.data@ })
}

/// What comes of loading a script. A failure is recorded, and the callback is to be told of it.
pub fn finish_load<C>(collector: &mut OutputCollector<C>, outcome: Result<(), Error>) -> (r: Result<
    (),
    Failure,
>)
    ensures
        match outcome {
            Ok(_) => r is Ok && *final(collector) == *old(collector),
            Err(error) => fails(
                *old(collector),
                failure_text("Script loading failed: "@, error),
                *final(collector),
                r,
            ),
        },
{
    match outcome {
        Ok(_) => Ok(()),
        Err(error) => {
            let message = concat2("Script loading failed: ", error.message().as_str());
            let call = collector.emit_error_message(message.as_str());
            Err(Failure { error: SdkError::Internal(message), call })
        },
    }
}

/// What comes of a run: what was collected, which is handed out and leaves nothing behind, or the
/// failure, which is recorded, and which the callback is to be told of.
pub fn finish_run<C>(collector: &mut OutputCollector<C>, outcome: Result<(), Error>) -> (r: Result<
    RunResult,
    Failure,
>)
    ensures
        match outcome {
            Ok(_) => {
                &&& r == Ok::<RunResult, Failure>(old(collector).data)
                &&& final(collector).callback == old(collector).callback
                &&& final(collector).data@ == empty_run()
            },
            Err(error) => fails(
                *old(collector),
                failure_text("Sandbox execution failed: "@, error),
                *final(collector),
                r,
            ),
        },
{
    match outcome {
        Ok(_) => Ok(collector.into_result()),
        Err(error) => {
            let message = concat2("Sandbox execution failed: ", error.message().as_str());
            let call = collector.emit_error_message(message.as_str());
            Err(Failure { error: SdkError::Internal(message), call })
        },
    }
}

/// A start that fails leaves the sandbox as it was configured.
pub proof fn failed_start_changes_nothing<C, H, K, S>(
    before: SandboxInner<C, H, K, S>,
    between: SandboxInner<C, H, K, S>,
    plan: StartPlan<C, H, K>,
    message: String,
    after: SandboxInner<C, H, K, S>,
    r: Result<(), SdkError>,
)
    requires
        starts(before, between, Ok::<StartPlan<C, H, K>, SdkError>(plan)),
        start_finishes(plan, Err::<S, String>(message), after, r),
    ensures
        after == before,
{
}

/// A run leaves the sandbox as it was: taking the instance and giving it back changes nothing.
pub proof fn lease_round_trip<C, H, K, S>(inner: SandboxInner<C, H, K, S>)
    requires
        is_idle(inner),
    ensures
        after_lease(while_leased(inner), instance_of(inner)) == inner,
{
}

/// While a run has the instance, every other run is refused as busy.
pub proof fn leased_sandbox_is_busy<C, H, K, S>(
    inner: SandboxInner<C, H, K, S>,
    after: SandboxInner<C, H, K, S>,
    r: Result<S, SdkError>,
)
    requires
        is_idle(inner),
        leased(while_leased(inner), after, r),
    ensures
        is_invalid(r, "sandbox is busy"@),
        after == while_leased(inner),
{
}

/// An instance that comes back to a sandbox which was closed meanwhile is dropped.
pub proof fn closed_sandbox_takes_no_instance<C, H, K, S>(
    inner: SandboxInner<C, H, K, S>,
    instance: S,
)
    requires
        inner is Uninitialized,
    ensures
        after_lease(inner, instance) is Uninitialized,
{
}

} // verus!
