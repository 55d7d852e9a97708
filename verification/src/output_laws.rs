//! What holds of a guest's memory, and of its output on its way to the host.

use vstd::prelude::*;

use crate::host::{
    hands_over, level_name, level_named, ContextView, Delivery, EventView, LogLevel, OutputEvent,
    OutputTarget, OutputTargetKind,
};
use crate::sandbox::CallOutputView;
use crate::state::{
    allocated_after, captured, capturing, context_named, emission, emissions, event_of, grown,
    record_level, EmitView, GuestLevel, MemoryView, Output, MAX_BUFFERED_OUTPUT_BYTES,
};

verus! {

/// The bytes that an emission brings.
pub open spec fn chunk_of(data: EmitView) -> Seq<u8> {
    match data {
        EmitView::Continuation(chunk) => chunk,
        EmitView::End(chunk) => chunk,
        EmitView::PartialResult(chunk) => chunk,
        EmitView::Abort => Seq::empty(),
    }
}

/// The bytes of a completed value. A final value that is none has no bytes.
pub open spec fn bytes_of(output: Output) -> Seq<u8> {
    match output {
        Output::Nothing => Seq::empty(),
        Output::Item(value) => value,
        Output::Complete(Some(value)) => value,
        Output::Complete(None) => Seq::empty(),
    }
}

/// No byte is lost or made up: what an accepted emission completes, followed by what is held back
/// after it, is what was held back before it, followed by what it brings. Only an abort drops
/// bytes, and it drops all of them.
pub proof fn emission_keeps_every_byte(held: Seq<u8>, data: EmitView)
    requires
        !(data is Abort),
        emission(held, data).1 is Some,
    ensures
        bytes_of(emission(held, data).1->0) + emission(held, data).0 == held + chunk_of(data),
{
    assert(Seq::<u8>::empty() + (held + chunk_of(data)) =~= held + chunk_of(data));
    assert((held + chunk_of(data)) + Seq::<u8>::empty() =~= held + chunk_of(data));
    if (held + chunk_of(data)).len() == 0 {
        assert(held + chunk_of(data) =~= Seq::<u8>::empty());
    }
}

/// Every emission completes what its kind says: the last chunk of an intermediate value an item,
/// the last chunk of the final value the end, which is without a value exactly where it has no
/// bytes, and a chunk that goes on nothing. Only a chunk that goes on leaves bytes held back.
pub proof fn emission_completes_its_kind(held: Seq<u8>, data: EmitView)
    ensures
        data is Abort ==> emission(held, data) == (Seq::<u8>::empty(), Some(Output::Nothing)),
        data is Continuation && emission(held, data).1 is Some ==> emission(held, data).1 == Some(
            Output::Nothing,
        ),
        data is PartialResult && emission(held, data).1 is Some ==> emission(held, data).1->0
            is Item && emission(held, data).0.len() == 0,
        data is End && emission(held, data).1 is Some ==> emission(held, data).1->0 is Complete
            && emission(held, data).0.len() == 0 && (emission(held, data).1->0->Complete_0 is None
            <==> held.len() + chunk_of(data).len() == 0),
{
    assert((held + chunk_of(data)).len() == held.len() + chunk_of(data).len());
}

/// An emission is refused exactly where its value would pass 16 MiB, and then nothing of the value
/// is left.
pub proof fn emission_is_refused_past_the_limit(held: Seq<u8>, data: EmitView)
    ensures
        MAX_BUFFERED_OUTPUT_BYTES == 16 * 1024 * 1024,
        emission(held, data).1 is None <==> !(data is Abort) && held.len() + chunk_of(data).len()
            > 16 * 1024 * 1024,
        emission(held, data).1 is None ==> emission(held, data).0.len() == 0,
{
    assert((held + chunk_of(data)).len() == held.len() + chunk_of(data).len());
}

/// The values that are handed to a target that receives them as they come, in order.
pub open spec fn events_of(done: Seq<Output>) -> Seq<EventView>
    decreases done.len(),
{
    if done.len() == 0 {
        Seq::empty()
    } else {
        let before = events_of(done.drop_last());
        match event_of(done.last()) {
            Some(event) => before.push(event),
            None => before,
        }
    }
}

/// The yielded values among events, in order.
pub open spec fn yielded(events: Seq<EventView>) -> Seq<Seq<u8>>
    decreases events.len(),
{
    if events.len() == 0 {
        Seq::empty()
    } else {
        match events.last() {
            EventView::Item(value) => yielded(events.drop_last()).push(value),
            _ => yielded(events.drop_last()),
        }
    }
}

/// The final value among events: the last one.
pub open spec fn ended(events: Seq<EventView>) -> Option<Seq<u8>>
    decreases events.len(),
{
    if events.len() == 0 {
        None
    } else {
        match events.last() {
            EventView::Complete(value) => value,
            _ => ended(events.drop_last()),
        }
    }
}

/// It makes no difference where output goes: a target that receives the values of a call as they
/// come receives exactly those that the call would have collected, in the same order, and the same
/// final value.
pub proof fn targets_receive_what_calls_collect(all: Seq<EmitView>)
    ensures
        captured(Seq::empty(), CallOutputView { items: Seq::empty(), result: None }, all) == (
        CallOutputView {
            items: yielded(events_of(emissions(Seq::empty(), all).1)),
            result: ended(events_of(emissions(Seq::empty(), all).1)),
        }),
    decreases all.len(),
{
    if all.len() > 0 {
        targets_receive_what_calls_collect(all.drop_last());
        let before = emissions(Seq::empty(), all.drop_last()).1;
        match emission(emissions(Seq::empty(), all.drop_last()).0, all.last()).1 {
            Some(output) => {
                assert(before.push(output).drop_last() =~= before);
                let events = events_of(before);
                if let Some(event) = event_of(output) {
                    assert(events.push(event).drop_last() =~= events);
                }
            },
            None => {},
        }
    }
}

/// A completed value is handed over as what it is, and as nothing else.
pub proof fn values_are_handed_over_as_they_are(value: Seq<u8>)
    ensures
        event_of(Output::Item(value)) == Some(EventView::Item(value)),
        event_of(Output::Complete(Some(value))) == Some(EventView::Complete(Some(value))),
        event_of(Output::Complete(None)) == Some(EventView::Complete(None)),
        event_of(Output::Nothing) is None,
{
}

/// A record belongs to a standard stream exactly where its context names the stream, and its level
/// then says so, whatever its severity. A record with any other context keeps its context and its
/// severity.
pub proof fn records_keep_severity_and_context(level: GuestLevel, context: Seq<char>)
    ensures
        record_level(level, context_named(context)) == LogLevel::Stdout <==> context == "stdout"@,
        record_level(level, context_named(context)) == LogLevel::Stderr <==> context == "stderr"@,
        context != "stdout"@ && context != "stderr"@ ==> {
            &&& context_named(context) == ContextView::Other(context)
            &&& level_name(record_level(level, context_named(context))) == severity_name(level)
        },
        context == "stdout"@ ==> context_named(context) == ContextView::Stdout,
        context == "stderr"@ ==> context_named(context) == ContextView::Stderr,
{
    reveal_strlit("stdout");
    reveal_strlit("stderr");
    assert("stdout"@[3] == 'o' && "stderr"@[3] == 'e');
}

/// The name of a severity.
pub open spec fn severity_name(level: GuestLevel) -> Seq<char> {
    match level {
        GuestLevel::Trace => "trace"@,
        GuestLevel::Debug => "debug"@,
        GuestLevel::Info => "info"@,
        GuestLevel::Warn => "warn"@,
        GuestLevel::Error => "error"@,
        GuestLevel::Critical => "critical"@,
    }
}

/// The levels of the standard streams are named after them.
pub proof fn streams_name_their_levels(level: LogLevel)
    ensures
        level_name(LogLevel::Stdout) == "stdout"@,
        level_name(LogLevel::Stderr) == "stderr"@,
        context_named(level_name(level)) is Stdout <==> level == LogLevel::Stdout,
        context_named(level_name(level)) is Stderr <==> level == LogLevel::Stderr,
{
    crate::host::level_round_trip(level);
    crate::host::level_round_trip(LogLevel::Stdout);
    crate::host::level_round_trip(LogLevel::Stderr);
    reveal_strlit("stdout");
    reveal_strlit("stderr");
    assert("stdout"@[3] == 'o' && "stderr"@[3] == 'e');
}

/// An event goes to the target's own handle, once and with its contents. A target that discards
/// output, and one whose call collects it, is handed nothing.
pub proof fn events_reach_their_target<'a, B, U, S, A>(
    kind: OutputTargetKind<B, U, S, A>,
    event: EventView,
    d: Delivery<'a, B, U, S, A>,
)
    requires
        hands_over(kind, event, d),
    ensures
        d is Done <==> kind is Discard || kind is Capture,
        kind matches OutputTargetKind::Bounded(own) ==> d matches Delivery::Bounded(to, sent)
            && *to == own && sent@ == event,
        kind matches OutputTargetKind::Unbounded(own) ==> d matches Delivery::Unbounded(to, sent)
            && *to == own && sent@ == event,
        kind matches OutputTargetKind::Sync(own) ==> d matches Delivery::Sync(to, sent) && *to
            == own && sent@ == event,
        kind matches OutputTargetKind::Async(own) ==> match event {
            EventView::Item(bytes) => d matches Delivery::Item(to, value) && *to == own && value@
                == bytes,
            EventView::Complete(bytes) => d matches Delivery::Complete(to, value) && *to == own
                && OutputEvent::Complete(value)@ == EventView::Complete(bytes),
            EventView::Log { level, context, message } => d matches Delivery::Log(to, l, c, m)
                && *to == own && l == level && c@ == context && m@ == message,
        },
{
}

/// How many bytes several memories have in all.
pub open spec fn total(sizes: Seq<nat>) -> nat
    decreases sizes.len(),
{
    if sizes.len() == 0 {
        0
    } else {
        total(sizes.drop_last()) + sizes.last()
    }
}

/// A memory has no more than all of them, and the rest stays when it changes.
proof fn total_with(sizes: Seq<nat>, i: int, size: nat)
    requires
        0 <= i < sizes.len(),
    ensures
        sizes[i] <= total(sizes),
        total(sizes.update(i, size)) == total(sizes) - sizes[i] + size,
    decreases sizes.len(),
{
    let changed = sizes.update(i, size);
    if i == sizes.len() - 1 {
        assert(changed.drop_last() =~= sizes.drop_last());
    } else {
        total_with(sizes.drop_last(), i, size);
        assert(changed.drop_last() =~= sizes.drop_last().update(i, size));
    }
}

/// The limit bounds all memories of a guest together. As long as what is counted is what they have
/// in all, a memory may grow exactly where they all stay within the limit, and what is counted is
/// again what they have in all; where it may not, nothing changes.
pub proof fn memories_share_one_limit(memory: MemoryView, sizes: Seq<nat>, i: int, desired: nat)
    requires
        memory.allocated == total(sizes),
        0 <= i < sizes.len(),
    ensures
        allocated_after(memory.allocated, sizes[i], desired) <= memory.limit <==> total(
            sizes.update(i, desired),
        ) <= memory.limit,
        total(sizes.update(i, desired)) <= memory.limit ==> grown(memory, sizes[i], desired)
            == (MemoryView { limit: memory.limit, allocated: total(sizes.update(i, desired)) }),
        total(sizes.update(i, desired)) > memory.limit ==> grown(memory, sizes[i], desired)
            == memory,
{
    total_with(sizes, i, desired);
}

/// A call collects its own output exactly where its target says so: what goes to any other target
/// is not collected, and without a target there is nothing to collect.
pub proof fn only_capturing_calls_collect<'a, B, U, S, A>(
    target: OutputTarget<B, U, S, A>,
    event: EventView,
    d: Delivery<'a, B, U, S, A>,
)
    requires
        hands_over(target.kind, event, d),
    ensures
        capturing(Some(target)) ==> d is Done,
        !capturing(Some(target)) && !(target.kind is Discard) ==> !(d is Done),
        target.kind is Capture ==> capturing(Some(target)),
        target.kind is Discard ==> !capturing(Some(target)),
        !capturing(None::<OutputTarget<B, U, S, A>>),
{
}

/// A level is found by its name, and every other name stands for an informational message.
pub proof fn unknown_levels_are_informational(name: Seq<char>)
    ensures
        level_name(level_named(name)) == name || level_named(name) == LogLevel::Info,
        level_name(LogLevel::Info) == "info"@,
{
}

} // verus!
