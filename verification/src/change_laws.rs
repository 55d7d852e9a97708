//! What holds of the values that change in place, over several of their operations.

use vstd::prelude::*;

use crate::arguments::take_stream_receivers;
use crate::body_buffer::{BodyBuffer, Buffer};
use crate::context::{
    config_patched, is_internal, is_invalid, sandbox_patched, ContextConfigPatch, ContextCore,
    SandboxConfigPatch, SdkError,
};
use crate::fetch::{read_length, read_refused, PyResponse, ResponseError};
use crate::host::{BoxError, Delivery, ErrorKind, EventView, OutputTarget};
use crate::js_script::{rejection_cause, JsError, RejectionReason, Rejections, Scope};
use crate::output_laws::{bytes_of, chunk_of, total};
use crate::sandbox::{is_outcome, CallOutput, Error, GuestError};
use crate::session::{
    empty_run, finish_load, finish_run, pending, written, Failure, Output, OutputCollector,
    RunResult, SandboxCore, SandboxInner, StartPlan,
};
use crate::session_laws::{held, told};
use crate::state::{
    capturing, EmitError, EmitValue, EmitView, Emitted, GuestLevel, InstanceState, MemoryLimiter,
    Sandbox,
};

verus! {

/// A rejection that nothing handles is reported, with what it was rejected with, once: after the
/// report there is nothing more to report.
pub proof fn unhandled_rejections_are_reported(
    tracked_in: &mut Rejections,
    reported_in: &mut Rejections,
    again: &mut Rejections,
    key: u64,
    reason: RejectionReason,
    r: Result<(), JsError>,
    second: Result<(), JsError>,
)
    requires
        call_ensures(Rejections::track, (tracked_in, key, reason, false, false), ()),
        *old(reported_in) == *final(tracked_in),
        call_ensures(Rejections::report, (reported_in,), r),
        *old(again) == *final(reported_in),
        call_ensures(Rejections::report, (again,), second),
    ensures
        r is Err,
        second is Ok,
        old(tracked_in)@.dom() =~= Set::<u64>::empty() ==> (r matches Err(
            JsError::Js { cause, stack },
        ) && cause@ == rejection_cause(reason)),
{
    assert(final(tracked_in)@.contains_key(key));
    if old(tracked_in)@.dom() =~= Set::<u64>::empty() {
        assert forall|k: u64| #[trigger] final(tracked_in)@.contains_key(k) implies k == key by {}
    }
}

/// A rejection that is handled before the report, and one that comes of the cancellation at the end
/// of a call, is not reported.
pub proof fn handled_rejections_are_not_reported(
    first: &mut Rejections,
    later: &mut Rejections,
    reported_in: &mut Rejections,
    key: u64,
    reason: RejectionReason,
    other: RejectionReason,
    is_handled: bool,
    is_cancelled: bool,
    r: Result<(), JsError>,
)
    requires
        old(first)@.dom() =~= Set::<u64>::empty(),
        call_ensures(Rejections::track, (first, key, reason, false, false), ()),
        *old(later) == *final(first),
        is_handled || is_cancelled,
        call_ensures(Rejections::track, (later, key, other, is_handled, is_cancelled), ()),
        *old(reported_in) == *final(later),
        call_ensures(Rejections::report, (reported_in,), r),
    ensures
        r is Ok,
{
    assert(final(later)@.dom() =~= Set::<u64>::empty());
}

/// What happens to one promise changes nothing for the others.
pub proof fn rejections_are_tracked_apart(
    rejections: &mut Rejections,
    key: u64,
    reason: RejectionReason,
    is_handled: bool,
    is_cancelled: bool,
    other: u64,
)
    requires
        call_ensures(Rejections::track, (rejections, key, reason, is_handled, is_cancelled), ()),
        other != key,
    ensures
        final(rejections)@.contains_key(other) <==> old(rejections)@.contains_key(other),
        old(rejections)@.contains_key(other) ==> final(rejections)@[other]
            == old(rejections)@[other],
{
}

/// A call leaves nothing unhandled behind, and what came of it stands.
pub proof fn calls_leave_nothing_unhandled<T>(scope: &mut Scope, result: T, r: T)
    requires
        call_ensures(Scope::finish_boundary::<T>, (scope, result), r),
    ensures
        r == result,
        final(scope).rejections@.dom() =~= Set::<u64>::empty(),
{
}

/// One limit bounds all memories of a guest: as long as what is counted is what they have in all, a
/// memory grows exactly where they all stay within the limit, and what is counted is then again
/// what they have in all.
pub proof fn memory_grows_within_the_limit(
    limiter: &mut MemoryLimiter,
    sizes: Seq<nat>,
    i: int,
    current: usize,
    desired: usize,
    r: bool,
)
    requires
        old(limiter)@.allocated == total(sizes),
        0 <= i < sizes.len(),
        sizes[i] == current,
        call_ensures(MemoryLimiter::memory_growing, (limiter, current, desired), r),
    ensures
        r <==> total(sizes.update(i, desired as nat)) <= old(limiter)@.limit,
        final(limiter)@.limit == old(limiter)@.limit,
        r ==> final(limiter)@.allocated == total(sizes.update(i, desired as nat)),
        !r ==> final(limiter)@.allocated == total(sizes),
{
    crate::output_laws::memories_share_one_limit(old(limiter)@, sizes, i, desired as nat);
}

/// Whether an emission ends a value: an intermediate one, or the final one.
pub open spec fn ends_value(data: EmitView) -> bool {
    data is PartialResult || data is End
}

/// Without a target nothing is taken. With one, a value that is complete is either collected or
/// handed back for delivery, whole and never both: it is collected exactly where the call collects
/// its own output.
pub proof fn values_are_collected_or_delivered<B, U, S, A>(
    state: &mut InstanceState<B, U, S, A>,
    data: EmitValue,
    r: Result<Emitted, EmitError>,
)
    requires
        call_ensures(InstanceState::<B, U, S, A>::emit, (state, data), r),
    ensures
        final(state).output_target == old(state).output_target,
        old(state).output_target is None ==> r == Err::<Emitted, EmitError>(
            EmitError::TargetMissing,
        ) && *final(state) == *old(state),
        r matches Ok(emitted) ==> !(emitted is Nothing) ==> {
            &&& !capturing(old(state).output_target)
            &&& final(state).capture_output == old(state).capture_output
            &&& ends_value(data@)
            &&& bytes_of(emitted.output()) == old(state).output_buffer@ + chunk_of(data@)
            &&& emitted is Item <==> data@ is PartialResult
        },
        r is Ok && ends_value(data@) && !capturing(old(state).output_target) ==> !(r->Ok_0
            is Nothing),
        r is Ok && data@ is PartialResult && capturing(old(state).output_target)
            && old(state).capture_output is Some ==> final(state).capture_output is Some
            && final(state).capture_output->0@.items == old(state).capture_output->0@.items.push(
            old(state).output_buffer@ + chunk_of(data@),
        ) && final(state).capture_output->0@.result == old(state).capture_output->0@.result,
        r is Err ==> final(state).capture_output == old(state).capture_output,
        r is Ok && !(data@ is Continuation) ==> final(state).output_buffer@.len() == 0,
        r is Ok && data@ is Continuation ==> final(state).output_buffer@
            == old(state).output_buffer@ + chunk_of(data@),
{
    if old(state).output_target is Some {
        crate::output_laws::emission_completes_its_kind(old(state).output_buffer@, data@);
        if !(data@ is Abort) && r is Ok {
            crate::output_laws::emission_keeps_every_byte(old(state).output_buffer@, data@);
            let held = final(state).output_buffer@;
            if data@ is Continuation {
                assert(Seq::<u8>::empty() + held =~= held);
            }
            if held.len() == 0 {
                let output = crate::state::emission(old(state).output_buffer@, data@).1->0;
                assert(bytes_of(output) + held =~= bytes_of(output));
            }
        }
    }
}

/// No output leaks from one operation into another: what an operation left held back is dropped
/// when the next begins, and when it ends.
pub proof fn operations_start_with_nothing_held_back<B, U, S, A>(
    begun: &mut InstanceState<B, U, S, A>,
    target: Option<OutputTarget<B, U, S, A>>,
    ended: &mut Sandbox<B, U, S, A>,
    result: Result<Result<(), GuestError>, String>,
    flushed: Result<(), String>,
    r: Result<(), Error>,
)
    requires
        call_ensures(InstanceState::<B, U, S, A>::set_output_target, (begun, target), ()),
        call_ensures(Sandbox::<B, U, S, A>::finish, (ended, result, flushed), r),
    ensures
        final(begun).output_buffer@.len() == 0,
        final(begun).output_target == target,
        final(ended).state.output_buffer@.len() == 0,
        final(ended).state.output_target is None,
        final(ended).state.limiter == old(ended).state.limiter,
        is_outcome(result, flushed, r),
{
}

/// A call that succeeds hands back what it collected, and nothing of it stays behind.
pub proof fn calls_hand_back_what_they_collected<B, U, S, A>(
    sandbox: &mut Sandbox<B, U, S, A>,
    result: Result<Result<(), GuestError>, String>,
    flushed: Result<(), String>,
    r: Result<CallOutput, Error>,
)
    requires
        call_ensures(Sandbox::<B, U, S, A>::finish_call, (sandbox, result, flushed), r),
    ensures
        r is Ok <==> result is Ok && result->Ok_0 is Ok && flushed is Ok,
        r matches Ok(output) ==> (old(sandbox).state.capture_output matches Some(collected)
            ==> output == collected),
        r is Ok ==> final(sandbox).state.capture_output is None,
        final(sandbox).state.output_target is None,
{
}

/// A sandbox is changed part by part: setting the callback changes nothing else, and is possible as
/// long as the sandbox is not closed.
pub proof fn callbacks_are_set_alone<C, H, K, S>(
    sandbox: &mut SandboxCore<C, H, K, S>,
    callback: Option<C>,
    r: Result<(), SdkError>,
)
    requires
        call_ensures(SandboxCore::<C, H, K, S>::set_callback, (sandbox, callback), r),
    ensures
        r is Ok <==> !(old(sandbox).inner is Uninitialized),
        r is Ok ==> told(final(sandbox).inner) == callback,
        held(final(sandbox).inner) == held(old(sandbox).inner),
        r is Err ==> final(sandbox).inner == old(sandbox).inner,
        old(sandbox).inner is Pending <==> final(sandbox).inner is Pending,
        old(sandbox).inner matches SandboxInner::Pending {
            config,
            http_handler,
            hostcall_handler,
            ..
        } ==> final(sandbox).inner == (SandboxInner::<C, H, K, S>::Pending {
            config,
            callback,
            http_handler,
            hostcall_handler,
        }),
{
}

/// Handlers and the configuration can be set only before the start, and each is set alone.
pub proof fn handlers_are_set_before_the_start<C, H, K, S>(
    for_http: &mut SandboxCore<C, H, K, S>,
    http: Option<H>,
    http_set: Result<(), SdkError>,
    for_hostcalls: &mut SandboxCore<C, H, K, S>,
    hostcalls: Option<K>,
    hostcalls_set: Result<(), SdkError>,
    configured: &mut SandboxCore<C, H, K, S>,
    patch: SandboxConfigPatch,
    r: Result<(), SdkError>,
)
    requires
        call_ensures(SandboxCore::<C, H, K, S>::set_http_handler, (for_http, http), http_set),
        call_ensures(
            SandboxCore::<C, H, K, S>::set_hostcall_handler,
            (for_hostcalls, hostcalls),
            hostcalls_set,
        ),
        call_ensures(SandboxCore::<C, H, K, S>::configure, (configured, patch), r),
    ensures
        http_set is Ok <==> old(for_http).inner is Pending,
        hostcalls_set is Ok <==> old(for_hostcalls).inner is Pending,
        old(for_http).inner matches SandboxInner::Pending {
            config,
            callback,
            hostcall_handler,
            ..
        } ==> final(for_http).inner == pending::<C, H, K, S>(
            StartPlan { config, callback, http_handler: http, hostcall_handler },
        ),
        old(for_hostcalls).inner matches SandboxInner::Pending {
            config,
            callback,
            http_handler,
            ..
        } ==> final(for_hostcalls).inner == pending::<C, H, K, S>(
            StartPlan { config, callback, http_handler, hostcall_handler: hostcalls },
        ),
        !(old(for_http).inner is Pending) ==> final(for_http).inner == old(for_http).inner,
        !(old(for_hostcalls).inner is Pending) ==> final(for_hostcalls).inner
            == old(for_hostcalls).inner,
        !(old(configured).inner is Pending) ==> r is Err && final(configured).inner
            == old(configured).inner,
        old(configured).inner matches SandboxInner::Pending {
            config,
            callback,
            http_handler,
            hostcall_handler,
        } ==> final(configured).inner is Pending && sandbox_patched(
            config,
            patch,
            final(configured).inner->config,
            r,
        ) && told(final(configured).inner) == callback && final(configured).inner->http_handler
            == http_handler && final(configured).inner->hostcall_handler == hostcall_handler,
{
}

/// A sandbox that was closed takes nothing any more: it cannot be started or configured, and gives
/// no instance.
pub proof fn closed_sandboxes_take_nothing<C, H, K, S>(
    closed: &mut SandboxCore<C, H, K, S>,
    started: &mut SandboxCore<C, H, K, S>,
    leased: &mut SandboxCore<C, H, K, S>,
    start: Result<StartPlan<C, H, K>, SdkError>,
    lease: Result<S, SdkError>,
)
    requires
        call_ensures(SandboxCore::<C, H, K, S>::close, (closed,), ()),
        *old(started) == *final(closed),
        call_ensures(SandboxCore::<C, H, K, S>::start, (started,), start),
        *old(leased) == *final(closed),
        call_ensures(SandboxCore::<C, H, K, S>::take_running_lease, (leased,), lease),
    ensures
        start is Err,
        is_invalid(lease, "sandbox is not running"@),
        held(final(closed).inner) is None,
        final(started).inner == final(closed).inner,
        final(leased).inner == final(closed).inner,
{
}

/// The configuration of a context can be changed as long as it is open and has no template, and
/// the first template that is built for it stays.
pub proof fn contexts_keep_their_template<T>(
    configured: &mut ContextCore<T>,
    patch: ContextConfigPatch,
    r: Result<(), SdkError>,
    finished: &mut ContextCore<T>,
    built: Result<T, String>,
    taken: Result<(), SdkError>,
)
    requires
        call_ensures(ContextCore::<T>::configure, (configured, patch), r),
        call_ensures(ContextCore::<T>::finish_template, (finished, built), taken),
    ensures
        final(configured).closed == old(configured).closed,
        final(configured).inner.template == old(configured).inner.template,
        old(configured).closed || old(configured).inner.template is Some ==> r is Err
            && final(configured).inner == old(configured).inner,
        !old(configured).closed && old(configured).inner.template is None ==> config_patched(
            old(configured).inner.config,
            patch,
            final(configured).inner.config,
            r,
        ),
        taken is Ok <==> built is Ok && old(finished).inner.template is None,
        taken is Ok ==> final(finished).inner.template == Some(built->Ok_0),
        taken is Err ==> final(finished).inner.template == old(finished).inner.template,
        final(finished).inner.config == old(finished).inner.config,
        built matches Err(message) ==> is_internal(
            taken,
            "Failed to load runtime template: "@ + message@,
        ),
{
}

/// A response that was closed cannot be read, whatever was left of it.
pub proof fn closed_responses_cannot_be_read(response: &mut PyResponse, size: i64)
    requires
        call_ensures(PyResponse::close, (response,), ()),
    ensures
        read_refused(final(response).progress(), size) is Some,
        final(response).progress().rest == old(response).progress().rest,
{
}

/// Receivers are taken out of a pool all together: each comes from the place that its handle names,
/// which is empty then, and the others stay. Where one cannot be taken, all stay.
pub proof fn receivers_are_taken_together<R>(
    handles: &Vec<usize>,
    pool: &mut Vec<Option<R>>,
    r: Result<Vec<Option<R>>, usize>,
    i: int,
)
    requires
        0 <= i < handles@.len(),
        forall|k: int| 0 <= k < handles@.len() ==> #[trigger] handles@[k] < old(pool)@.len(),
        call_ensures(take_stream_receivers::<R>, (handles, pool), r),
    ensures
        r is Err ==> final(pool)@ == old(pool)@,
        r matches Ok(receivers) ==> receivers@.len() == handles@.len() && receivers@[i]
            == old(pool)@[handles@[i] as int] && receivers@[i] is Some,
        r is Ok ==> final(pool)@[handles@[i] as int] is None,
{
    if let Ok(receivers) = r {
        assert(crate::arguments::is_available(old(pool)@, handles@, i));
        assert(crate::arguments::names_receiver(
            handles@,
            handles@.len() as int,
            handles@[i] as int,
        ));
    }
}

/// What a run collected is handed back where it succeeds, and nothing of it stays. Where it fails,
/// what was collected stays, with the failure among the errors.
pub proof fn runs_hand_back_what_they_collected<C>(
    collector: &mut OutputCollector<C>,
    outcome: Result<(), Error>,
    r: Result<RunResult, Failure>,
)
    requires
        call_ensures(finish_run::<C>, (collector, outcome), r),
    ensures
        r is Ok <==> outcome is Ok,
        r matches Ok(handed) ==> handed == old(collector).data && final(collector).data@
            == empty_run(),
        r is Err ==> final(collector).data@.errors.len() == old(collector).data@.errors.len() + 1,
        r is Err ==> final(collector).data@.results == old(collector).data@.results,
        final(collector).callback == old(collector).callback,
{
}

/// A script that was loaded leaves what was collected as it is; one that was not adds one error.
pub proof fn loads_collect_nothing<C>(
    collector: &mut OutputCollector<C>,
    outcome: Result<(), Error>,
    r: Result<(), Failure>,
)
    requires
        call_ensures(finish_load::<C>, (collector, outcome), r),
    ensures
        r is Ok <==> outcome is Ok,
        r is Ok ==> *final(collector) == *old(collector),
        r is Err ==> final(collector).data@.errors.len() == old(collector).data@.errors.len() + 1,
        final(collector).callback == old(collector).callback,
{
}

/// A value that was written is told as what it is, with its text: as the end where it is the final
/// one, and as a result where it was yielded. One that could not be written is refused.
pub proof fn written_values_keep_their_kind(
    json: Result<String, String>,
    is_last: bool,
    r: Result<Output, BoxError>,
)
    requires
        call_ensures(written, (json, is_last), r),
    ensures
        r is Ok <==> json is Ok,
        json matches Ok(text) ==> (if is_last {
            r == Ok::<Output, BoxError>(Output::End(Some(text)))
        } else {
            r == Ok::<Output, BoxError>(Output::Result(text))
        }),
        json matches Err(message) ==> r->Err_0.kind == ErrorKind::InvalidData && r->Err_0.message
            == message,
{
}

/// A completed value and a log record reach the target of the running operation, and nothing is
/// handed over where none is running.
pub proof fn output_reaches_the_running_operation<'a, B, U, S, A>(
    state: &'a InstanceState<B, U, S, A>,
    emitted: Emitted,
    delivery: Option<Delivery<'a, B, U, S, A>>,
    level: GuestLevel,
    context: &'a str,
    message: &'a str,
    record: Option<Delivery<'a, B, U, S, A>>,
)
    requires
        call_ensures(InstanceState::<B, U, S, A>::deliver, (state, emitted), delivery),
        call_ensures(
            InstanceState::<B, U, S, A>::emit_log,
            (state, level, context, message),
            record,
        ),
    ensures
        state.output_target is None ==> delivery is None && record is None,
        emitted is Nothing ==> delivery is None,
        state.output_target is Some ==> record is Some,
        state.output_target is Some && !(emitted is Nothing) ==> delivery is Some,
        state.output_target is Some && state.output_target->0.kind is Unbounded ==> {
            &&& record->0 is Unbounded
            &&& record->0->Unbounded_1@ matches EventView::Log {
                level: l,
                context: c,
                message: m,
            } && m == message@
            &&& emitted matches Emitted::Item(value) ==> delivery->0 is Unbounded
                && delivery->0->Unbounded_1@ == EventView::Item(value@)
        },
{
}

/// A read moves bytes from the response into the buffer, in order: none is lost or made up. It tells
/// whether some were moved and more are left, and a buffer that reads to the end learns of it.
pub proof fn reads_move_bytes(
    response: &mut PyResponse,
    buf: &mut Buffer,
    size: i64,
    r: Result<bool, ResponseError>,
)
    requires
        call_ensures(PyResponse::read_into, (response, buf, size), r),
    ensures
        final(buf).pending() + final(response).progress().rest == old(buf).pending() + old(
            response,
        ).progress().rest,
        r is Err ==> *final(buf) == *old(buf) && final(response).progress() == old(
            response,
        ).progress(),
        r is Err <==> read_refused(old(response).progress(), size) is Some,
        r == Ok::<bool, ResponseError>(true) ==> final(response).progress().rest.len() > 0
            && final(buf).pending().len() > old(buf).pending().len(),
        r is Ok && final(response).progress().rest.len() == 0 ==> final(buf).ended() || *final(buf)
            is Bytes,
        final(response).received_status() == old(response).received_status(),
{
    let rest = old(response).progress().rest;
    if r is Ok {
        let length = read_length(rest, size) as int;
        assert(rest.take(length) + rest.skip(length) =~= rest);
        assert((old(buf).pending() + rest.take(length)) + rest.skip(length) =~= old(buf).pending()
            + (rest.take(length) + rest.skip(length)));
    }
}

} // verus!
