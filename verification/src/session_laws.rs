//! What holds of a sandbox in the hands of an embedding program over several of its operations.

use serde_json::Value as JsonValue;
use vstd::prelude::*;

use crate::arguments::{
    first_run_refusal, first_stream_refusal, is_available, is_read, names_receiver, refers_before,
    run_parsed, run_refusal, stream_index, stream_refusal, streams_parsed, without_receivers,
    JsonArgument, ParsedArgument, ReadArgument, ReadPayload, WireArgument,
};
use crate::context::{is_invalid, SdkError};
use crate::host::{LogLevel, OutputEvent};
use crate::sandbox::{Arg, Error};
use crate::session::{
    after_lease, all_recorded, empty_run, event_name, failure_text, fails, final_text, handling_of,
    is_idle, is_run_arg, is_stream_run_arg, leased, logged_texts, not_pending, output_event,
    output_payload, refuses_run, run_begins, run_hands_back_what_came, start_finishes, starts,
    stream_run_begins, yielded_texts, CallbackEvent, Failure, Handling, Output, OutputCollector,
    RunPlan, RunView, SandboxInner, StartPlan, StreamRunError,
};
use crate::value::Value;

verus! {

/// The messages of the log records whose level is wanted, in order.
pub open spec fn messages_at(outputs: Seq<Output>, wanted: spec_fn(LogLevel) -> bool) -> Seq<
    Seq<char>,
>
    decreases outputs.len(),
{
    if outputs.len() == 0 {
        Seq::empty()
    } else {
        let rest = messages_at(outputs.skip(1), wanted);
        match outputs[0] {
            Output::Log(level, message) => if wanted(level) {
                seq![message@] + rest
            } else {
                rest
            },
            _ => rest,
        }
    }
}

/// Whether a record was written to the guest's standard output stream.
pub open spec fn is_stdout(level: LogLevel) -> bool {
    level == LogLevel::Stdout
}

/// Whether a record was written to the guest's standard error stream.
pub open spec fn is_stderr(level: LogLevel) -> bool {
    level == LogLevel::Stderr
}

/// Whether a record is a diagnostic one, and was written to neither stream.
pub open spec fn is_diagnostic(level: LogLevel) -> bool {
    !is_stdout(level) && !is_stderr(level)
}

/// The callback is told of each log record by its level alone: as output, as error output, or as
/// a log record, with its message.
pub proof fn records_are_told_by_level(level: LogLevel, message: String)
    ensures
        (output_event(Output::Log(level, message)) == CallbackEvent::Stdout) == is_stdout(level),
        (output_event(Output::Log(level, message)) == CallbackEvent::Stderr) == is_stderr(level),
        (output_event(Output::Log(level, message)) == CallbackEvent::Log) == is_diagnostic(level),
        output_payload(Output::Log(level, message)) == Some(message@),
{
}

/// One more record comes behind those before it.
proof fn messages_at_last(outputs: Seq<Output>, wanted: spec_fn(LogLevel) -> bool)
    requires
        outputs.len() > 0,
    ensures
        messages_at(outputs, wanted) == messages_at(outputs.drop_last(), wanted) + messages_at(
            seq![outputs.last()],
            wanted,
        ),
    decreases outputs.len(),
{
    assert(seq![outputs.last()].skip(1) =~= Seq::<Output>::empty());
    if outputs.len() == 1 {
        assert(outputs =~= seq![outputs.last()]);
        assert(outputs.drop_last() =~= Seq::<Output>::empty());
    } else {
        messages_at_last(outputs.skip(1), wanted);
        assert(outputs.skip(1).drop_last() =~= outputs.drop_last().skip(1));
        assert(outputs.skip(1).last() == outputs.last());
    }
}

/// The records that the callback is told of as an event are those of the levels that make it.
proof fn told_are_wanted(
    outputs: Seq<Output>,
    event: CallbackEvent,
    wanted: spec_fn(LogLevel) -> bool,
)
    requires
        forall|level: LogLevel, message: String| #[trigger]
            wanted(level) == (#[trigger] output_event(Output::Log(level, message)) == event),
    ensures
        logged_texts(outputs, event) == messages_at(outputs, wanted),
    decreases outputs.len(),
{
    if outputs.len() > 0 {
        told_are_wanted(outputs.drop_last(), event, wanted);
        messages_at_last(outputs, wanted);
        let last = seq![outputs.last()];
        assert(last.skip(1) =~= Seq::<Output>::empty());
        assert(messages_at(last.skip(1), wanted) =~= Seq::<Seq<char>>::empty());
        if let Output::Log(level, message) = outputs.last() {
            assert(wanted(level) == (output_event(Output::Log(level, message)) == event));
        }
        assert(logged_texts(outputs, event) =~= messages_at(outputs, wanted));
    }
}

/// What the guest wrote to its standard output comes back as output, what it wrote to standard
/// error as error output, and records of every other level as logs: each in the order in which
/// it came, whatever the callback answers.
pub proof fn records_come_back_by_level(outputs: Seq<Output>, answers: Seq<Option<bool>>)
    ensures
        all_recorded(empty_run(), outputs, answers).stdout == messages_at(
            outputs,
            |level: LogLevel| is_stdout(level),
        ),
        all_recorded(empty_run(), outputs, answers).stderr == messages_at(
            outputs,
            |level: LogLevel| is_stderr(level),
        ),
        all_recorded(empty_run(), outputs, answers).logs == messages_at(
            outputs,
            |level: LogLevel| is_diagnostic(level),
        ),
        all_recorded(empty_run(), outputs, answers).results == yielded_texts(outputs),
        all_recorded(empty_run(), outputs, answers).last == final_text(outputs),
{
    run_hands_back_what_came(outputs, answers);
    told_are_wanted(outputs, CallbackEvent::Stdout, |level: LogLevel| is_stdout(level));
    told_are_wanted(outputs, CallbackEvent::Stderr, |level: LogLevel| is_stderr(level));
    told_are_wanted(outputs, CallbackEvent::Log, |level: LogLevel| is_diagnostic(level));
}

/// What is recorded of an event that the callback refuses.
pub open spec fn refusal_text(output: Output) -> Seq<char> {
    if output is Result {
        "output callback rejected a "@ + "result"@ + " event"@
    } else if output is End {
        "output callback rejected a "@ + "end"@ + " event"@
    } else {
        "output callback rejected a "@ + "log"@ + " event"@
    }
}

/// The errors of the events that the callback refuses, in order.
pub open spec fn refusals(outputs: Seq<Output>, answers: Seq<Option<bool>>) -> Seq<Seq<char>>
    decreases outputs.len(),
{
    if outputs.len() == 0 {
        Seq::empty()
    } else if answers[outputs.len() - 1] == Some(false) {
        refusals(outputs.drop_last(), answers).push(refusal_text(outputs.last()))
    } else {
        refusals(outputs.drop_last(), answers)
    }
}

/// Each event that the callback refuses adds one error, which says what was refused, in the order
/// of the events. Nothing else adds one.
pub proof fn refused_events_are_recorded(
    run: RunView,
    outputs: Seq<Output>,
    answers: Seq<Option<bool>>,
)
    ensures
        all_recorded(run, outputs, answers).errors == run.errors + refusals(outputs, answers),
    decreases outputs.len(),
{
    if outputs.len() > 0 {
        refused_events_are_recorded(run, outputs.drop_last(), answers);
    }
    assert(all_recorded(run, outputs, answers).errors =~= run.errors + refusals(outputs, answers));
}

/// A value of the run is written before the callback is told of it, as one that was yielded or as
/// the final one. The end without a value and log records are told at once, and a record keeps
/// its level and message.
pub proof fn events_are_written_or_told(event: OutputEvent)
    ensures
        match handling_of(event) {
            Handling::Write { value, is_last: false } => event == OutputEvent::Item(value),
            Handling::Write { value, is_last: true } => event == OutputEvent::Complete(Some(value)),
            Handling::Announce(output) => {
                ||| output == Output::End(None) && event == OutputEvent::Complete(None)
                ||| output matches Output::Log(level, message) && event matches OutputEvent::Log {
                    level: l,
                    message: m,
                    ..
                } && l == level && m == message
            },
        },
{
}

/// The callback is told of a value as a result or as the end, with the text of the value, and of
/// an end without a value with nothing.
pub proof fn values_are_told_as_they_come(text: String)
    ensures
        output_event(Output::Result(text)) == CallbackEvent::Result,
        output_payload(Output::Result(text)) == Some(text@),
        output_event(Output::End(Some(text))) == CallbackEvent::End,
        output_payload(Output::End(Some(text))) == Some(text@),
        output_event(Output::End(None)) == CallbackEvent::End,
        output_payload(Output::End(None)) is None,
{
}

/// Events are told apart by their names.
pub proof fn event_names_differ(a: CallbackEvent, b: CallbackEvent)
    ensures
        event_name(a) == event_name(b) ==> a == b,
{
    reveal_strlit("result");
    reveal_strlit("end");
    reveal_strlit("stdout");
    reveal_strlit("stderr");
    reveal_strlit("error");
    reveal_strlit("log");
    assert("result"@.len() == 6 && "end"@.len() == 3 && "stdout"@.len() == 6);
    assert("stderr"@.len() == 6 && "error"@.len() == 5 && "log"@.len() == 3);
    assert("result"@[0] == 'r' && "stdout"@[0] == 's' && "stderr"@[0] == 's');
    assert("stdout"@[3] == 'o' && "stderr"@[3] == 'e');
    assert("end"@[0] == 'e' && "log"@[0] == 'l');
}

/// The instance that a sandbox holds, if it holds one.
pub open spec fn held<C, H, K, S>(inner: SandboxInner<C, H, K, S>) -> Option<S> {
    match inner {
        SandboxInner::Running { sandbox, .. } => sandbox,
        _ => None,
    }
}

/// The callback of a sandbox, if it has one.
pub open spec fn told<C, H, K, S>(inner: SandboxInner<C, H, K, S>) -> Option<C> {
    match inner {
        SandboxInner::Running { callback, .. } => callback,
        SandboxInner::Pending { callback, .. } => callback,
        SandboxInner::Uninitialized => None,
    }
}

/// A sandbox that was not started starts with what it was configured with, and holds the instance
/// that was created for it from there on. Its callback stays.
pub proof fn start_leads_to_running<C, H, K, S>(
    before: SandboxInner<C, H, K, S>,
    between: SandboxInner<C, H, K, S>,
    begun: Result<StartPlan<C, H, K>, SdkError>,
    created: Result<S, String>,
    after: SandboxInner<C, H, K, S>,
    r: Result<(), SdkError>,
)
    requires
        starts(before, between, begun),
        begun is Ok ==> start_finishes(begun->Ok_0, created, after, r),
    ensures
        begun is Ok == before is Pending,
        begun is Err ==> between == before,
        begun is Ok ==> between is Uninitialized && held(between) is None,
        before matches SandboxInner::Pending { config, callback, http_handler, hostcall_handler }
            ==> {
            &&& begun->Ok_0.config == config
            &&& begun->Ok_0.callback == callback
            &&& begun->Ok_0.http_handler == http_handler
            &&& begun->Ok_0.hostcall_handler == hostcall_handler
            &&& r is Ok == created is Ok
            &&& created is Ok ==> after is Running && held(after) == Some(created->Ok_0)
            &&& created is Err ==> after == before
            &&& told(after) == callback
        },
{
}

/// One run has the instance at a time: it is handed out only by a sandbox that holds it, which
/// then holds none, so that the next run is refused. A sandbox that hands out nothing is left as
/// it was.
pub proof fn instance_is_handed_out_once<C, H, K, S>(
    before: SandboxInner<C, H, K, S>,
    after: SandboxInner<C, H, K, S>,
    r: Result<S, SdkError>,
)
    requires
        leased(before, after, r),
    ensures
        r is Ok == held(before) is Some,
        r is Ok ==> held(before) == Some(r->Ok_0) && held(after) is None && after is Running,
        r is Err ==> after == before,
        r is Err && before is Running ==> is_invalid(r, "sandbox is busy"@),
        !(before is Running) ==> is_invalid(r, "sandbox is not running"@),
        told(after) == told(before),
        is_idle(before) == held(before) is Some,
{
}

/// An instance that is given back goes into the empty place of a running sandbox. It replaces no
/// other, and a sandbox that is not running does not change.
pub proof fn instance_replaces_no_other<C, H, K, S>(inner: SandboxInner<C, H, K, S>, instance: S)
    ensures
        inner is Running && held(inner) is None ==> held(after_lease(inner, instance)) == Some(
            instance,
        ) && after_lease(inner, instance) is Running,
        held(inner) is Some || !(inner is Running) ==> after_lease(inner, instance) == inner,
        told(after_lease(inner, instance)) == told(inner),
{
}

/// The value that an argument carries, if it carries one.
pub open spec fn carried<R>(arg: Arg<R>) -> Option<Value> {
    match arg {
        Arg::Named(_, value) => Some(value),
        Arg::Positional(value) => Some(value),
        _ => None,
    }
}

/// The stream that an argument hands over, if it does.
pub open spec fn stream_of<R>(arg: Arg<R>) -> Option<R> {
    match arg {
        Arg::NamedStream(_, stream) => Some(stream),
        Arg::PositionalStream(stream) => Some(stream),
        _ => None,
    }
}

/// The name of an argument, if it has one.
pub open spec fn name_of<R>(arg: Arg<R>) -> Option<String> {
    match arg {
        Arg::Named(name, _) => Some(name),
        Arg::NamedStream(name, _) => Some(name),
        _ => None,
    }
}

/// Whether an argument was read as a value.
pub open spec fn is_value(read: ReadArgument) -> bool {
    read.payload matches ReadPayload::Json(Ok(_))
}

/// Whether an argument was read as the number of one of so many streams.
pub open spec fn is_number_below(read: ReadArgument, count: nat) -> bool {
    read.payload matches ReadPayload::Stream(Some(number)) && number <= usize::MAX && number < count
}

/// Whether two arguments refer to the same stream.
pub open spec fn same_stream(a: ReadArgument, b: ReadArgument) -> bool {
    a.payload matches ReadPayload::Stream(Some(m)) && b.payload == ReadPayload::Stream(Some(m))
}

/// A run without streams takes values and nothing else: it is refused exactly where an argument
/// is no value, and otherwise keeps the arguments, with their names, in order.
pub proof fn run_takes_values(read: Seq<ReadArgument>, r: Result<Vec<JsonArgument>, SdkError>)
    requires
        run_parsed(read, r),
    ensures
        r is Ok == (forall|i: int| 0 <= i < read.len() ==> #[trigger] is_value(read[i])),
        r matches Ok(parsed) ==> {
            &&& parsed@.len() == read.len()
            &&& forall|i: int|
                0 <= i < read.len() ==> (#[trigger] parsed@[i]).name == read[i].name
                    && read[i].payload == ReadPayload::Json(Ok(parsed@[i].value))
        },
{
    match r {
        Ok(parsed) => {
            assert forall|i: int| 0 <= i < read.len() implies #[trigger] is_value(read[i]) by {
                assert(crate::arguments::is_json_argument(read[i], parsed@[i]));
            }
        },
        Err(_) => {
            let i = choose|i: int| #[trigger]
                first_run_refusal(read, i) && is_invalid(r, run_refusal(read[i])->0);
            assert(!is_value(read[i]));
        },
    }
}

/// A run without streams hands each value over under its name.
pub proof fn run_keeps_values_and_names<C, H, K, S, R>(
    before: SandboxInner<C, H, K, S>,
    read: Seq<ReadArgument>,
    after: SandboxInner<C, H, K, S>,
    r: Result<RunPlan<S, R>, SdkError>,
)
    requires
        is_idle(before),
        run_begins(before, read, after, r),
    ensures
        r is Ok == (forall|i: int| 0 <= i < read.len() ==> #[trigger] is_value(read[i])),
        r matches Ok(plan) ==> {
            &&& held(before) == Some(plan.sandbox)
            &&& held(after) is None
            &&& plan.args@.len() == read.len()
            &&& forall|i: int|
                0 <= i < read.len() ==> name_of(#[trigger] plan.args@[i]) == read[i].name
                    && read[i].payload == ReadPayload::Json(
                    Ok(carried(plan.args@[i])->0),
                ) && carried(plan.args@[i]) is Some
        },
        r is Err ==> after == before,
        told(after) == told(before),
{
    match r {
        Ok(plan) => {
            assert forall|i: int| 0 <= i < read.len() implies #[trigger] is_value(read[i]) by {
                assert(is_run_arg(read[i], plan.args@[i]));
            }
            assert forall|i: int| 0 <= i < read.len() implies name_of(#[trigger] plan.args@[i])
                == read[i].name && read[i].payload == ReadPayload::Json(
                Ok(carried(plan.args@[i])->0),
            ) && carried(plan.args@[i]) is Some by {
                assert(is_run_arg(read[i], plan.args@[i]));
            }
        },
        Err(e) => {
            run_takes_values(read, Err::<Vec<JsonArgument>, SdkError>(e));
        },
    }
}

/// A run with streams takes values and streams: it is refused exactly where an argument is
/// neither a value nor the number of a stream, where two arguments refer to the same stream, or
/// where no argument refers to some stream.
pub proof fn run_takes_every_stream_once(
    read: Seq<ReadArgument>,
    count: nat,
    r: Result<Vec<ParsedArgument>, SdkError>,
)
    requires
        count <= usize::MAX,
        streams_parsed(read, count, r),
    ensures
        r is Ok == {
            &&& forall|i: int|
                0 <= i < read.len() ==> is_value(read[i]) || #[trigger] is_number_below(
                    read[i],
                    count,
                )
            &&& forall|i: int, k: int|
                0 <= k < i < read.len() ==> !#[trigger] same_stream(read[k], read[i])
            &&& forall|index: int|
                0 <= index < count ==> #[trigger] refers_before(read, read.len() as int, index)
        },
{
    assert forall|i: int| 0 <= i < read.len() && stream_refusal(read, i, count) is None implies (
    is_value(read[i]) || #[trigger] is_number_below(read[i], count)) && (forall|k: int|
        0 <= k < i ==> !#[trigger] same_stream(read[k], read[i])) by {
        assert forall|k: int| 0 <= k < i implies !#[trigger] same_stream(read[k], read[i]) by {
            if same_stream(read[k], read[i]) {
                assert(stream_index(read[k]) == stream_index(read[i]));
                assert(refers_before(read, i, stream_index(read[i])->0));
            }
        }
    }
    match r {
        Ok(_) => {
            assert forall|i: int| 0 <= i < read.len() implies is_value(read[i])
                || #[trigger] is_number_below(read[i], count) by {
                assert(stream_refusal(read, i, count) is None);
            }
            assert forall|i: int, k: int| 0 <= k < i < read.len() implies !#[trigger] same_stream(
                read[k],
                read[i],
            ) by {
                assert(stream_refusal(read, i, count) is None);
                assert(is_value(read[i]) || is_number_below(read[i], count));
            }
        },
        Err(_) => {
            if exists|i: int| #[trigger] first_stream_refusal(read, count, i) {
                let i = choose|i: int| #[trigger] first_stream_refusal(read, count, i);
                assert(stream_refusal(read, i, count) is Some);
                if is_value(read[i]) || is_number_below(read[i], count) {
                    let index = stream_index(read[i])->0;
                    let k = choose|k: int|
                        0 <= k < i && #[trigger] stream_index(read[k]) == Some(index);
                    assert(same_stream(read[k], read[i]));
                }
            }
        },
    }
}

/// A run with streams hands each value, and the receiver of each stream, over under the name of
/// the argument.
pub proof fn stream_run_keeps_names<R>(
    read: ReadArgument,
    handles: Seq<usize>,
    pool: Seq<Option<R>>,
    arg: Arg<R>,
)
    requires
        is_stream_run_arg(read, handles, pool, arg),
    ensures
        name_of(arg) == read.name,
        match carried(arg) {
            Some(value) => read.payload == ReadPayload::Json(Ok(value)),
            None => read.payload matches ReadPayload::Stream(Some(number)) && stream_of(arg)
                == pool[handles[number as int] as int] && stream_of(arg) is Some,
        },
{
}

/// A sandbox that cannot take a run says whether it is busy or not running at all.
pub proof fn refused_runs_say_why<C, H, K, S, T>(
    inner: SandboxInner<C, H, K, S>,
    r: Result<T, SdkError>,
)
    requires
        refuses_run(inner, r),
    ensures
        r is Err,
        is_invalid(r, "sandbox is busy"@) || is_invalid(r, "sandbox is not running"@),
        inner is Running ==> is_invalid(r, "sandbox is busy"@),
        !(inner is Running) ==> is_invalid(r, "sandbox is not running"@),
{
}

/// A sandbox that is being started cannot be started again, and takes no run.
pub proof fn starting_sandbox_takes_nothing_else<C, H, K, S>(
    before: SandboxInner<C, H, K, S>,
    between: SandboxInner<C, H, K, S>,
    plan: StartPlan<C, H, K>,
    again: SandboxInner<C, H, K, S>,
    second: Result<StartPlan<C, H, K>, SdkError>,
    other: SandboxInner<C, H, K, S>,
    run: Result<S, SdkError>,
)
    requires
        starts(before, between, Ok::<StartPlan<C, H, K>, SdkError>(plan)),
        starts(between, again, second),
        leased(between, other, run),
    ensures
        is_invalid(second, "sandbox is not in pending state"@),
        is_invalid(run, "sandbox is not running"@),
        again == between && other == between,
{
}

/// A sandbox that can no longer be configured says whether it is running or was closed.
pub proof fn refused_changes_say_why<C, H, K, S, T>(
    inner: SandboxInner<C, H, K, S>,
    r: Result<T, SdkError>,
)
    requires
        not_pending(inner, r),
    ensures
        !(inner is Pending),
        r is Err,
        inner is Running ==> is_invalid(r, "sandbox is already running"@),
        inner is Uninitialized ==> is_invalid(r, "sandbox is not initialized"@),
{
}

/// A failure is told with what came before it, and with the text of the error: what the guest's own
/// code raised is told as it is.
pub proof fn failures_are_told_in_full(prefix: Seq<char>, error: Error, message: String)
    requires
        call_ensures(Error::message, (&error,), message),
    ensures
        failure_text(prefix, error) == prefix + message@,
        error matches Error::UserCode { message: raised } ==> message@ == raised@,
        error matches Error::Wasm(cause) ==> message@ == "wasm error: "@ + cause@,
        error matches Error::Io(cause) ==> message@ == "io error: "@ + cause@,
        error matches Error::Other(cause) ==> message@ == "runtime error: "@ + cause@,
{
}

/// A failure of a script or a run is recorded once and told once, with the same text.
pub proof fn failures_are_recorded_and_told<C, T>(
    before: OutputCollector<C>,
    text: Seq<char>,
    after: OutputCollector<C>,
    r: Result<T, Failure>,
)
    requires
        fails(before, text, after, r),
    ensures
        r is Err,
        after.data@.errors == before.data@.errors.push(text),
        after.data@.results == before.data@.results && after.data@.last == before.data@.last,
        after.data@.stdout == before.data@.stdout && after.data@.stderr == before.data@.stderr,
        after.data@.logs == before.data@.logs,
        r->Err_0.error matches SdkError::Internal(message) && message@ == text,
        r->Err_0.call is Some <==> before.callback is Some,
        r->Err_0.call matches Some(call) ==> call.event == CallbackEvent::Error
            && call.payload is Some && call.payload->0@ == text,
{
}

/// Each argument is read as its kind says, and keeps its name.
pub proof fn arguments_are_read_by_kind<F: Fn(&JsonValue) -> Result<Value, String>>(
    arg: WireArgument,
    encode: F,
    read: ReadArgument,
)
    requires
        is_read(arg, encode, read),
    ensures
        read.name == arg.1,
        read.payload is Json <==> arg.0@ == "json"@,
        read.payload is Stream <==> arg.0@ == "stream"@,
        read.payload is Other <==> arg.0@ != "json"@ && arg.0@ != "stream"@,
        read.payload matches ReadPayload::Json(encoded) ==> call_ensures(
            encode,
            (&arg.2,),
            encoded,
        ),
        read.payload matches ReadPayload::Other(kind) ==> kind == arg.0,
{
    reveal_strlit("json");
    reveal_strlit("stream");
    assert("json"@.len() == 4 && "stream"@.len() == 6);
}

/// A receiver can be taken exactly where it is still in the pool once those of the handles before
/// it were taken.
pub proof fn receivers_are_taken_in_turn<R>(
    pool: Seq<Option<R>>,
    handles: Seq<usize>,
    i: int,
    between: Seq<Option<R>>,
)
    requires
        0 <= i < handles.len(),
        handles[i] < pool.len(),
        without_receivers(pool, handles, i, between),
    ensures
        is_available(pool, handles, i) <==> between[handles[i] as int] is Some,
        is_available(pool, handles, i) ==> between[handles[i] as int] == pool[handles[i] as int],
        between.len() == pool.len(),
        forall|p: int|
            0 <= p < pool.len() && (forall|k: int| 0 <= k < i ==> #[trigger] handles[k] != p)
                ==> #[trigger] between[p] == pool[p],
        forall|k: int|
            0 <= k < i && handles[k] < pool.len() ==> between[#[trigger] handles[k] as int] is None,
{
    let p = handles[i] as int;
    assert(between[p] == if names_receiver(handles, i, p) {
        None
    } else {
        pool[p]
    });
    if !names_receiver(handles, i, p) {
        assert forall|k: int| 0 <= k < i implies #[trigger] handles[k] != handles[i] by {
            assert(handles[k] != p);
        }
    }
    assert forall|k: int| 0 <= k < i && handles[k] < pool.len() implies between[
        #[trigger] handles[k] as int
    ] is None by {
        assert(names_receiver(handles, i, handles[k] as int));
        assert(between[handles[k] as int] is None);
    }
}

/// A run with streams begins only where every argument is accepted and every receiver is there. It
/// takes the instance and the receivers of its handles; where it does not begin, all of them stay.
pub proof fn stream_run_takes_all_or_nothing<C, H, K, S, R>(
    before: SandboxInner<C, H, K, S>,
    read: Seq<ReadArgument>,
    handles: Seq<usize>,
    pool: Seq<Option<R>>,
    left: Seq<Option<R>>,
    after: SandboxInner<C, H, K, S>,
    r: Result<RunPlan<S, R>, StreamRunError>,
)
    requires
        is_idle(before),
        handles.len() <= usize::MAX,
        forall|i: int| 0 <= i < handles.len() ==> #[trigger] handles[i] < pool.len(),
        stream_run_begins(before, read, handles, pool, left, after, r),
    ensures
        r matches Ok(plan) ==> {
            &&& held(before) == Some(plan.sandbox)
            &&& held(after) is None
            &&& plan.args@.len() == read.len()
            &&& forall|i: int|
                0 <= i < read.len() ==> name_of(#[trigger] plan.args@[i]) == read[i].name && (
                carried(plan.args@[i]) is Some || stream_of(plan.args@[i]) is Some)
            &&& forall|i: int|
                0 <= i < handles.len() ==> left[#[trigger] handles[i] as int] is None
        },
        r is Err ==> after == before && left == pool,
        r matches Err(StreamRunError::Receiver(i)) ==> 0 <= i < handles.len() && !is_available(
            pool,
            handles,
            i as int,
        ),
        told(after) == told(before),
{
    if let Ok(plan) = r {
        assert forall|i: int| 0 <= i < read.len() implies name_of(#[trigger] plan.args@[i])
            == read[i].name && (carried(plan.args@[i]) is Some || stream_of(plan.args@[i])
            is Some) by {
            assert(is_stream_run_arg(read[i], handles, pool, plan.args@[i]));
        }
        assert forall|i: int| 0 <= i < handles.len() implies left[
            #[trigger] handles[i] as int
        ] is None by {
            assert(names_receiver(handles, handles.len() as int, handles[i] as int));
            assert(left[handles[i] as int] is None);
        }
    }
}

/// What is wrong with an argument that is no value, in any run: it cannot be encoded, or its kind is
/// unknown.
pub open spec fn fault(read: ReadArgument) -> Option<Seq<char>> {
    match read.payload {
        ReadPayload::Json(Err(message)) => Some("invalid argument value: "@ + message@),
        ReadPayload::Other(kind) => Some("unsupported argument kind: "@ + kind@),
        _ => None,
    }
}

/// A run without streams is refused for the first argument that is no value, and says what is wrong
/// with it; a stream belongs into another run.
pub proof fn refused_arguments_say_why(
    read: Seq<ReadArgument>,
    r: Result<Vec<JsonArgument>, SdkError>,
)
    requires
        run_parsed(read, r),
        r is Err,
    ensures
        exists|i: int|
            0 <= i < read.len() && !(#[trigger] is_value(read[i])) && (forall|k: int|
                0 <= k < i ==> #[trigger] is_value(read[k])) && (if read[i].payload is Stream {
                is_invalid(r, "stream arguments must use runWithStream method"@)
            } else {
                fault(read[i]) is Some && is_invalid(r, fault(read[i])->0)
            }),
{
    let i = choose|i: int| #[trigger]
        first_run_refusal(read, i) && is_invalid(r, run_refusal(read[i])->0);
    assert(!is_value(read[i]));
    assert forall|k: int| 0 <= k < i implies #[trigger] is_value(read[k]) by {
        assert(run_refusal(read[k]) is None);
    }
}

/// A run with streams is refused for the first argument that is no value and no stream of its own,
/// and says what is wrong with it. Only where there is none is it refused for a stream to which
/// nothing refers.
pub proof fn refused_streams_say_why(
    read: Seq<ReadArgument>,
    count: nat,
    r: Result<Vec<ParsedArgument>, SdkError>,
)
    requires
        count <= usize::MAX,
        streams_parsed(read, count, r),
        r is Err,
    ensures
        (exists|i: int|
            0 <= i < read.len() && #[trigger] refused_in_turn(read, i, count) && match read[i].payload {
                ReadPayload::Stream(None) => is_invalid(
                    r,
                    "stream argument index must be an integer"@,
                ),
                ReadPayload::Stream(Some(number)) => if number > usize::MAX {
                    is_invalid(r, "stream argument index must be an integer"@)
                } else if number >= count {
                    is_invalid(r, "stream argument index is out of bounds"@)
                } else {
                    is_invalid(r, "stream argument is used more than once"@)
                },
                _ => fault(read[i]) is Some && is_invalid(r, fault(read[i])->0),
            }) || (is_invalid(r, "unreferenced stream argument handle"@) && exists|index: int|
            0 <= index < count && !#[trigger] refers_before(read, read.len() as int, index)),
{
    if exists|i: int| #[trigger]
        first_stream_refusal(read, count, i) && is_invalid(r, stream_refusal(read, i, count)->0) {
        let i = choose|i: int| #[trigger]
            first_stream_refusal(read, count, i) && is_invalid(
                r,
                stream_refusal(read, i, count)->0,
            );
        assert forall|k: int| 0 <= k < i implies (#[trigger] stream_refusal(read, k, count))
            is None by {}
        assert(refused_in_turn(read, i, count));
    }
}

/// Whether an argument is the first that is refused in a run with so many streams.
pub open spec fn refused_in_turn(read: Seq<ReadArgument>, i: int, count: nat) -> bool {
    &&& stream_refusal(read, i, count) is Some
    &&& forall|k: int| 0 <= k < i ==> (#[trigger] stream_refusal(read, k, count)) is None
}

} // verus!
