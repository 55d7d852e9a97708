//! What holds of the engines over several steps: loading a script, driving a promise to its end,
//! and cleaning up behind a call.

use vstd::prelude::*;
use vstd::utf8::encode_utf8;

use crate::js_script::{
    after_discarded_job, after_job, after_ready, call_plan, is_serializable as is_plain,
    rejection_cause, rejection_stack, Boundary, CallPlan, Drive, InputPlan, InputValue, JobDecision,
    JsError, Load, PollDecision, PromiseState, RejectionReason, ValueKind, MAX_BOUNDARY_ROUNDS,
};
use crate::python_script::{
    after_flush, check_script, decimal, is_first_nul, is_serializable, Flush, Load as PyLoad,
    ObjectKind, PyFailure, Scope,
};

verus! {

/// What comes of loading a script for the JavaScript engine, by what came of its steps: the first
/// failure, or success.
pub open spec fn load_outcome(
    was_read: bool,
    stripped: Result<(), String>,
    evaluated: Result<(), JsError>,
    checked: Result<(), JsError>,
) -> Result<(), JsError> {
    if !was_read {
        Err(JsError::Unexpected("failed to read script"))
    } else if stripped is Err {
        Err(JsError::Transpile(stripped->Err_0))
    } else if evaluated is Err {
        evaluated
    } else {
        checked
    }
}

/// A script is read if it comes from a file, stripped of its types, evaluated, and settled by a
/// checkpoint, in this order. It is loaded only if every step succeeds, and the first failure is
/// the one that is reported. What it left behind is cancelled exactly where it was evaluated.
pub proof fn script_is_loaded_step_by_step(
    from_file: bool,
    was_read: bool,
    stripped: Result<(), String>,
    evaluated: Result<(), JsError>,
    checked: Result<(), JsError>,
    loads: Seq<Load>,
)
    requires
        loads.len() == 5,
        call_ensures(Load::begin, (from_file,), loads[0]),
        call_ensures(Load::read, (loads[0], was_read), loads[1]),
        call_ensures(Load::transpiled, (loads[1], stripped), loads[2]),
        call_ensures(Load::evaluated, (loads[2], evaluated), loads[3]),
        call_ensures(Load::checked, (loads[3], checked), loads[4]),
    ensures
        loads[4] == (Load::Finished {
            outcome: load_outcome(was_read || !from_file, stripped, evaluated, checked),
            evaluated: (was_read || !from_file) && stripped is Ok,
        }),
        from_file == loads[0] is Read,
        from_file && was_read || !from_file ==> loads[1] is Transpile,
        loads[2] is Evaluate ==> stripped is Ok,
        loads[3] is Settle ==> evaluated is Ok,
{
}

/// No step of loading a script is skipped: what comes of a step counts only where it is awaited.
pub proof fn load_steps_are_not_skipped(
    load: Load,
    was_read: bool,
    stripped: Result<(), String>,
    outcome: Result<(), JsError>,
    next: Load,
)
    ensures
        call_ensures(Load::read, (load, was_read), next) && !(load is Read) ==> next == load,
        call_ensures(Load::transpiled, (load, stripped), next) && !(load is Transpile) ==> next
            == load,
        call_ensures(Load::evaluated, (load, outcome), next) && !(load is Evaluate) ==> next == load,
        call_ensures(Load::checked, (load, outcome), next) && !(load is Settle) ==> next == load,
{
}

/// A script for the Python interpreter is executed after what its metadata asks for was installed,
/// if it has metadata. It is loaded only if both succeed, and the first failure is the one that is
/// reported.
pub proof fn python_script_is_loaded_step_by_step<E>(
    has_metadata: bool,
    installed: Result<(), PyFailure<E>>,
    executed: Result<(), PyFailure<E>>,
    loads: Seq<PyLoad<E>>,
)
    requires
        loads.len() == 3,
        call_ensures(PyLoad::<E>::begin, (has_metadata,), loads[0]),
        call_ensures(PyLoad::<E>::initialized, (loads[0], installed), loads[1]),
        call_ensures(PyLoad::<E>::executed, (loads[1], executed), loads[2]),
    ensures
        loads[2] == PyLoad::Finished(
            if has_metadata && installed is Err {
                installed
            } else {
                executed
            },
        ),
        has_metadata == loads[0] is Initialize,
{
}

/// No step of loading a script is skipped: what comes of a step counts only where it is awaited.
pub proof fn python_load_steps_are_not_skipped<E>(
    load: PyLoad<E>,
    outcome: Result<(), PyFailure<E>>,
    next: PyLoad<E>,
)
    ensures
        call_ensures(PyLoad::<E>::initialized, (load, outcome), next) && !(load is Initialize)
            ==> next == load,
        call_ensures(PyLoad::<E>::executed, (load, outcome), next) && !(load is Execute) ==> next
            == load,
{
}

/// A promise that is looked at after a checkpoint ends the drive as it was settled: with success
/// if it is resolved, and with what it was rejected with. A failed checkpoint ends it with its
/// error. It is waited for exactly where it is pending and so are operations; without them it
/// never resolves.
pub proof fn promise_is_driven_to_its_end(
    checked: Result<(), JsError>,
    state: PromiseState,
    has_pending: bool,
    reason: JsError,
    looked: Drive,
    seen: Drive,
    caught: Drive,
)
    requires
        call_ensures(Drive::checked, (Drive::Settle, checked), looked),
        call_ensures(Drive::looked, (looked, state, has_pending), seen),
        call_ensures(Drive::caught, (seen, reason), caught),
    ensures
        checked is Err ==> caught == Drive::Finished(checked),
        checked is Ok && state == PromiseState::Resolved ==> caught == Drive::Finished(Ok(())),
        checked is Ok && state == PromiseState::Rejected ==> caught == Drive::Finished(Err(reason)),
        checked is Ok && state == PromiseState::Pending && !has_pending ==> caught
            == Drive::Finished(Err(JsError::Unexpected("promise never resolved"))),
        caught is Poll == (checked is Ok && state == PromiseState::Pending && has_pending),
        caught == Drive::Finished(Ok(())) ==> state == PromiseState::Resolved,
{
}

/// Waiting ends the drive where it fails, with the error, and where nothing happened to a promise
/// that is still pending. Otherwise another checkpoint is run.
pub proof fn waiting_goes_on_while_there_is_progress(
    error: Option<JsError>,
    made_progress: bool,
    state: PromiseState,
    next: Drive,
)
    requires
        call_ensures(Drive::polled, (Drive::Poll, error, made_progress, state), next),
    ensures
        error is Some ==> next == Drive::Finished(Err(error->0)),
        error is None && (made_progress || state != PromiseState::Pending) ==> next is Settle,
        error is None && !made_progress && state == PromiseState::Pending ==> next
            == Drive::Finished(Err(JsError::Unexpected("promise never resolved"))),
        next != Drive::Finished(Ok(())),
{
}

/// What comes of a step counts only where it is awaited, and a drive that ended stays so.
pub proof fn drive_steps_are_not_skipped(
    drive: Drive,
    outcome: Result<(), JsError>,
    error: Option<JsError>,
    reason: JsError,
    flag: bool,
    state: PromiseState,
    next: Drive,
)
    ensures
        call_ensures(Drive::checked, (drive, outcome), next) && !(drive is Settle) ==> next
            == drive,
        call_ensures(Drive::looked, (drive, state, flag), next) && !(drive is Look) ==> next
            == drive,
        call_ensures(Drive::caught, (drive, reason), next) && !(drive is Catch) ==> next == drive,
        call_ensures(Drive::polled, (drive, error, flag, state), next) && !(drive is Poll) ==> next
            == drive,
{
}

/// After operations became ready, the first error stops the waiting and is reported. Without one,
/// it goes on exactly as long as the promise is pending, and operations are kept for later only
/// where that was asked for.
pub proof fn ready_operations_settle_the_promise(
    resolved: Result<(), JsError>,
    checked: Result<(), JsError>,
    state: PromiseState,
    suspend: bool,
    r: (PollDecision, Option<JsError>),
)
    requires
        call_ensures(after_ready, (resolved, checked, state, suspend), r),
    ensures
        resolved is Err ==> r.1 == Some(resolved->Err_0),
        resolved is Ok && checked is Err ==> r.1 == Some(checked->Err_0),
        r.1 is None == (resolved is Ok && checked is Ok),
        r.1 is Some ==> r.0 == PollDecision::Stop,
        r.0 == PollDecision::Wait <==> r.1 is None && state == PromiseState::Pending,
        r.0 == PollDecision::Suspend <==> r.1 is None && state != PromiseState::Pending && suspend,
{
}

/// A checkpoint runs every job that is there: it stops early only for an exception, and looks at
/// rejections only when no job is left.
pub proof fn checkpoint_runs_every_job(ran: bool, has_exception: bool, r: JobDecision)
    requires
        call_ensures(after_job, (ran, has_exception), r),
    ensures
        r == JobDecision::Fail <==> has_exception,
        r == JobDecision::Report <==> !ran && !has_exception,
        r == JobDecision::Again <==> ran && !has_exception,
{
}

/// One round of the end of a call: how many operations were cancelled, if that can be told, and
/// whether some are pending after it.
pub struct Round {
    pub cancelled: Option<usize>,
    pub has_pending: bool,
}

/// Whether a round found nothing to cancel and left nothing pending.
pub open spec fn is_quiet(round: Round) -> bool {
    (round.cancelled is None || round.cancelled == Some(0usize)) && !round.has_pending
}

/// The end of a call that goes through these states, one before each of these rounds and one
/// behind the last.
pub open spec fn is_boundary(states: Seq<Boundary>, rounds: Seq<Round>) -> bool {
    &&& states.len() == rounds.len() + 1
    &&& call_ensures(Boundary::begin, (), states[0])
    &&& forall|i: int|
        0 <= i < rounds.len() ==> is_round(states[i], #[trigger] rounds[i], states[i + 1])
}

/// A round of the end of a call.
pub open spec fn is_round(before: Boundary, round: Round, after: Boundary) -> bool {
    exists|between: Boundary| #[trigger]
        call_ensures(Boundary::cancelled, (before, round.cancelled), between) && call_ensures(
            Boundary::discarded,
            (between, round.has_pending),
            after,
        )
}

/// What a call left behind is cancelled round by round until a round is quiet, and in at most
/// eight rounds: as long as none was quiet another is made, and then the rest is dropped.
pub proof fn boundary_ends_with_a_quiet_round(states: Seq<Boundary>, rounds: Seq<Round>, n: int)
    requires
        is_boundary(states, rounds),
        0 <= n <= rounds.len(),
    ensures
        MAX_BOUNDARY_ROUNDS == 8,
        n < 8 && (forall|k: int| 0 <= k < n ==> !is_quiet(#[trigger] rounds[k])) ==> states[n]
            == Boundary::Cancel(n as u8),
        n >= 8 || (exists|k: int| 0 <= k < n && is_quiet(#[trigger] rounds[k])) ==> states[n]
            is Drop,
    decreases n,
{
    if n > 0 {
        boundary_ends_with_a_quiet_round(states, rounds, n - 1);
        assert(is_round(states[n - 1], rounds[n - 1], states[n - 1 + 1]));
        let between = choose|between: Boundary| #[trigger]
            call_ensures(
                Boundary::cancelled,
                (states[n - 1], rounds[n - 1].cancelled),
                between,
            ) && call_ensures(
                Boundary::discarded,
                (between, rounds[n - 1].has_pending),
                states[n],
            );
        if n < 8 && forall|k: int| 0 <= k < n ==> !is_quiet(#[trigger] rounds[k]) {
            assert(!is_quiet(rounds[n - 1]));
        }
        if exists|k: int| 0 <= k < n && is_quiet(#[trigger] rounds[k]) {
            let k = choose|k: int| 0 <= k < n && is_quiet(#[trigger] rounds[k]);
            if k < n - 1 {
                assert(exists|j: int| 0 <= j < n - 1 && is_quiet(#[trigger] rounds[j]));
            }
        }
    }
}

/// A rejection is reported with what it was rejected with: the message of an exception, a text, or
/// the value as it is shown. Only an exception brings a stack, and it is kept.
pub proof fn rejections_keep_their_reason(
    message: Option<String>,
    stack: Option<String>,
    text: String,
)
    ensures
        message is Some ==> rejection_cause(RejectionReason::Exception { message, stack })
            == message->0@,
        rejection_stack(RejectionReason::Exception { message, stack }) == stack,
        rejection_cause(RejectionReason::Text(Some(text))) == text@,
        rejection_cause(RejectionReason::Other(text)) == text@,
        rejection_stack(RejectionReason::Text(message)) is None,
        rejection_stack(RejectionReason::Other(text)) is None,
{
}

/// The streams are flushed one after the other, and both were exactly where both could be. Where
/// the first could not be, the second is left alone.
pub proof fn both_streams_are_flushed(first: bool, second: bool)
    ensures
        after_flush(after_flush(Flush::Stdout, first), second) == Flush::Finished(first && second),
        after_flush(Flush::Stdout, first) == Flush::Stderr <==> first,
        forall|all: bool, flushed: bool| #[trigger]
            after_flush(Flush::Finished(all), flushed) == Flush::Finished(all),
{
}

/// The number that decimal digits stand for.
pub open spec fn decimal_value(digits: Seq<char>) -> int
    decreases digits.len(),
{
    if digits.len() == 0 {
        0
    } else {
        10 * decimal_value(digits.drop_last()) + (digits.last() as u32 - '0' as u32)
    }
}

/// The decimal digits of a number stand for it, and do not begin with a needless zero.
pub proof fn decimal_stands_for_its_number(n: nat)
    ensures
        decimal_value(decimal(n)) == n,
        decimal(n).len() > 0,
        forall|i: int| 0 <= i < decimal(n).len() ==> '0' <= #[trigger] decimal(n)[i] <= '9',
        n > 0 ==> decimal(n)[0] != '0',
    decreases n,
{
    let digit = (48 + n % 10) as char;
    assert(digit as u32 == 48 + n % 10);
    if n < 10 {
        assert(decimal(n).drop_last() =~= Seq::<char>::empty());
        assert(decimal_value(Seq::<char>::empty()) == 0);
        assert(decimal(n) == seq![digit]);
    } else {
        decimal_stands_for_its_number(n / 10);
        assert(decimal(n).drop_last() =~= decimal(n / 10));
        assert(decimal(n).last() == digit);
        assert(decimal(n)[0] == decimal(n / 10)[0]);
    }
}

/// The position that is reported of a NUL byte.
pub open spec fn reported_position(message: Seq<char>) -> int {
    decimal_value(
        message.skip(
            "script contains NUL byte: nul byte found in provided data at position: "@.len() as int,
        ),
    )
}

/// A script can be handed to the interpreter exactly where it has no NUL byte, and the first one is
/// what is reported.
pub proof fn scripts_hold_no_nul<E>(code: &str, r: Result<(), PyFailure<E>>)
    requires
        call_ensures(check_script::<E>, (code,), r),
    ensures
        r is Ok <==> !encode_utf8(code@).contains(0),
        r is Err ==> r->Err_0 is ValueError && exists|at: int|
            0 <= at < encode_utf8(code@).len() && #[trigger] encode_utf8(code@)[at] == 0
                && !encode_utf8(code@).take(at).contains(0) && reported_position(
                r->Err_0->ValueError_0@,
            ) == at,
{
    let bytes = encode_utf8(code@);
    match r {
        Err(PyFailure::ValueError(message)) => {
            let prefix = "script contains NUL byte: nul byte found in provided data at position: "@;
            let at = choose|at: int| #[trigger]
                is_first_nul(bytes, at) && message@ == prefix + decimal(at as nat);
            assert(bytes[at] == 0);
            let before = bytes.take(at);
            if before.contains(0) {
                let k = choose|k: int| 0 <= k < before.len() && before[k] == 0;
                assert(bytes[k] == 0);
            }
            assert(message@.skip(prefix.len() as int) =~= decimal(at as nat));
            decimal_stands_for_its_number(at as nat);
        },
        _ => {},
    }
}

/// Whether an object is of a type that is handed over whole.
pub open spec fn is_whole(kind: ObjectKind) -> bool {
    ||| kind.is_none
    ||| kind.is_dict
    ||| kind.is_list
    ||| kind.is_tuple
    ||| kind.is_str
    ||| kind.is_bool
    ||| kind.is_int
    ||| kind.is_float
    ||| kind.is_bytes
    ||| kind.is_bytearray
    ||| kind.is_memoryview
}

/// An object of a built-in type, and nothing, is handed over whole. Any other is exactly where it is
/// an array of `numpy`: of its module, and with a type of elements.
pub proof fn objects_are_handed_over_whole(kind: &ObjectKind, r: bool)
    requires
        call_ensures(is_serializable, (kind,), r),
    ensures
        is_whole(*kind) ==> r,
        !is_whole(*kind) ==> (r <==> kind.has_dtype && kind.module is Some && kind.module->0@
            == "numpy"@),
{
}

/// A call has its positional arguments as they came, and one more for the named ones exactly where
/// there are any.
pub proof fn named_arguments_come_last(
    positional: Vec<InputValue>,
    named: Vec<(String, InputValue)>,
    plan: CallPlan,
)
    requires
        call_ensures(call_plan, (positional, named), plan),
    ensures
        plan.positional == positional,
        plan.options is Some <==> named@.len() > 0,
        plan.options matches Some(options) ==> options == named,
{
}

/// A value is converted by itself, and the values of an array each by itself, in order.
pub proof fn values_are_converted_one_by_one(input: InputValue, plan: InputPlan)
    requires
        call_ensures(InputValue::plan, (input,), plan),
    ensures
        plan.is_array <==> input is Iter,
        input matches InputValue::Iter(items) ==> plan.values == items,
        input matches InputValue::Cbor(bytes) ==> plan.values@.len() == 1 && plan.values@[0] == bytes,
{
}

/// A value of any kind that can be written is handed over whole.
pub proof fn values_are_handed_over_whole(kind: ValueKind, r: bool)
    requires
        call_ensures(is_plain, (kind,), r),
    ensures
        r <==> kind.is_null || kind.is_undefined || kind.is_bool || kind.is_int || kind.is_number
            || kind.is_string || kind.is_array || kind.is_object,
{
}

/// Where the outcome of a job does not matter, its exception is dropped and the next is asked for.
pub proof fn discarded_jobs_run_to_the_end(ran: bool, has_exception: bool, r: (bool, bool))
    requires
        call_ensures(after_discarded_job, (ran, has_exception), r),
    ensures
        r.0 <==> has_exception,
        r.1 <==> ran,
{
}

/// The streams of the interpreter are used only where both are there, and are flushed in turn.
pub proof fn streams_are_used_together<S>(
    stdout: Option<S>,
    stderr: Option<S>,
    scope: Scope<S>,
    flush: Flush,
)
    requires
        call_ensures(Scope::<S>::new, (stdout, stderr), scope),
        call_ensures(Scope::<S>::flush, (&scope,), flush),
    ensures
        scope.stdio is Some <==> stdout is Some && stderr is Some,
        scope.stdio matches Some((out, err)) ==> stdout == Some(out) && stderr == Some(err),
        flush == Flush::Stdout <==> stdout is Some && stderr is Some,
        flush != Flush::Stdout ==> flush == Flush::Finished(true),
{
}

} // verus!
