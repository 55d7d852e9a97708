//! What holds of a body that is read as server-sent events: which lines make which events.

use vstd::prelude::*;
use vstd::utf8::{decode_utf8, valid_utf8};

use crate::body_buffer::{
    after_some, all_events, all_lines, empty_event, field_name, field_value, first_bad, next_event,
    next_event_shrinks, next_line, next_line_not_empty, with_line, without_line_end, EventContents,
    SseOutcome, SseState,
};

verus! {

/// Whether a line is blank: nothing but carriage returns and newlines.
pub open spec fn is_blank(line: Seq<char>) -> bool {
    forall|i: int| 0 <= i < line.len() ==> #[trigger] line[i] == '\r' || line[i] == '\n'
}

/// The lines of each event: those between two blank lines, for every blank line.
pub open spec fn blocks(lines: Seq<Seq<char>>) -> Seq<Seq<Seq<char>>>
    decreases lines.len(),
{
    if lines.len() == 0 {
        Seq::empty()
    } else if is_blank(lines.last()) {
        blocks(lines.drop_last()).push(open_block(lines.drop_last()))
    } else {
        blocks(lines.drop_last())
    }
}

/// The lines after the last blank line.
pub open spec fn open_block(lines: Seq<Seq<char>>) -> Seq<Seq<char>>
    decreases lines.len(),
{
    if lines.len() == 0 || is_blank(lines.last()) {
        Seq::empty()
    } else {
        open_block(lines.drop_last()).push(lines.last())
    }
}

/// The event that several lines make: the last id, the last type, and all the data.
pub open spec fn block_event(lines: Seq<Seq<char>>) -> EventContents {
    EventContents {
        id: last_value(lines, "id"@),
        event_type: last_value(lines, "event"@),
        data: all_data(lines),
    }
}

/// The field of a line, without what ends the line.
pub open spec fn sets(line: Seq<char>, name: Seq<char>) -> bool {
    without_line_end(line).len() > 0 && field_name(without_line_end(line)) == name
}

/// The last value that several lines give to a field.
pub open spec fn last_value(lines: Seq<Seq<char>>, name: Seq<char>) -> Option<Seq<char>>
    decreases lines.len(),
{
    if lines.len() == 0 {
        None
    } else if sets(lines.last(), name) {
        Some(field_value(without_line_end(lines.last())))
    } else {
        last_value(lines.drop_last(), name)
    }
}

/// All that several lines give as data, each with a newline after it.
pub open spec fn all_data(lines: Seq<Seq<char>>) -> Seq<char>
    decreases lines.len(),
{
    if lines.len() == 0 {
        Seq::empty()
    } else if sets(lines.last(), "data"@) {
        all_data(lines.drop_last()) + field_value(without_line_end(lines.last())) + seq!['\n']
    } else {
        all_data(lines.drop_last())
    }
}

/// The texts of lines.
pub open spec fn texts(lines: Seq<Seq<u8>>) -> Seq<Seq<char>> {
    lines.map_values(|line: Seq<u8>| decode_utf8(line))
}

/// The events of several blocks.
pub open spec fn block_events(blocks: Seq<Seq<Seq<char>>>) -> Seq<EventContents> {
    blocks.map_values(|block: Seq<Seq<char>>| block_event(block))
}

/// A line is blank if nothing is left of it without what ends it.
pub proof fn blank_lines(line: Seq<char>)
    ensures
        is_blank(line) <==> without_line_end(line).len() == 0,
    decreases line.len(),
{
    if line.len() > 0 && (line.last() == '\r' || line.last() == '\n') {
        let front = line.drop_last();
        blank_lines(front);
        if is_blank(front) {
            assert forall|i: int| 0 <= i < line.len() implies #[trigger] line[i] == '\r' || line[i]
                == '\n' by {
                if i < front.len() {
                    assert(front[i] == line[i]);
                }
            }
        }
        if is_blank(line) {
            assert forall|i: int| 0 <= i < front.len() implies #[trigger] front[i] == '\r'
                || front[i] == '\n' by {
                assert(front[i] == line[i]);
            }
        }
    } else if line.len() > 0 {
        assert(line[line.len() - 1] == line.last());
    }
}

/// What a line of a field does: an id or a type replaces the one before, and data is added with a
/// newline after it. Any other field changes nothing.
pub proof fn field_lines(event: EventContents, name: Seq<char>, value: Seq<char>)
    requires
        !name.contains(':'),
        value.len() > 0 ==> value.last() != '\r' && value.last() != '\n',
    ensures
        ({
            let after = with_line(event, name + ": "@ + value);
            &&& after.id == if name == "id"@ {
                Some(value)
            } else {
                event.id
            }
            &&& after.event_type == if name == "event"@ {
                Some(value)
            } else {
                event.event_type
            }
            &&& after.data == if name == "data"@ {
                event.data + value + seq!['\n']
            } else {
                event.data
            }
        }),
{
    reveal_strlit(": ");
    reveal_strlit("id");
    reveal_strlit("event");
    reveal_strlit("data");
    let line = name + ": "@ + value;
    assert(line.last() == if value.len() > 0 {
        value.last()
    } else {
        ' '
    });
    assert(without_line_end(line) == line);
    let n = name.len() as int;
    assert(line[n] == ':');
    line.index_of_first_ensures(':');
    assert(line.contains(':'));
    let at = line.index_of_first(':')->0;
    assert(at == n) by {
        if at < n {
            assert(line[at] == name[at]);
            assert(name.contains(name[at]));
        }
    }
    assert(line.take(at) =~= name);
    let rest = line.skip(at + 1);
    assert(rest[0] == ' ');
    assert(rest.skip(1) =~= value);
    assert(event.data + value.push('\n') =~= event.data + value + seq!['\n']);
    assert("id"@[0] != "event"@[0]);
    assert("id"@[0] != "data"@[0]);
    assert("event"@[0] != "data"@[0]);
}

/// The event of several lines, line by line.
proof fn block_event_next(lines: Seq<Seq<char>>, line: Seq<char>)
    ensures
        block_event(lines.push(line)) == with_line(block_event(lines), line),
        block_event(Seq::empty()) == empty_event(),
{
    let more = lines.push(line);
    assert(more.drop_last() =~= lines);
    assert(block_event(Seq::empty()) =~= empty_event());
    reveal_strlit("id");
    reveal_strlit("event");
    reveal_strlit("data");
    assert("id"@[0] != "event"@[0]);
    assert("id"@[0] != "data"@[0]);
    assert("event"@[0] != "data"@[0]);
    let text = without_line_end(line);
    let value = field_value(text);
    assert(block_event(lines).data + value.push('\n') =~= block_event(lines).data + value + seq![
        '\n',
    ]);
    assert(block_event(more) =~= with_line(block_event(lines), line));
}

/// A blank line after lines of which none is blank.
proof fn first_block(first: Seq<Seq<char>>, lines: Seq<Seq<char>>, blank: Seq<char>)
    requires
        forall|i: int| 0 <= i < first.len() ==> !is_blank(#[trigger] first[i]),
        is_blank(blank),
    ensures
        blocks(first.push(blank) + lines) == seq![first] + blocks(lines),
        open_block(first.push(blank) + lines) == open_block(lines),
    decreases lines.len(),
{
    let head = first.push(blank);
    if lines.len() == 0 {
        assert(head + lines =~= head);
        assert(head.drop_last() =~= first);
        no_blank(first);
        assert(blocks(head) =~= seq![first] + blocks(lines));
    } else {
        let front = lines.drop_last();
        first_block(first, front, blank);
        assert((head + lines).drop_last() =~= head + front);
        assert((head + lines).last() == lines.last());
        if is_blank(lines.last()) {
            assert((seq![first] + blocks(front)).push(open_block(front)) =~= seq![first]
                + blocks(lines));
        }
    }
}

/// Lines of which none is blank.
proof fn no_blank(lines: Seq<Seq<char>>)
    requires
        forall|i: int| 0 <= i < lines.len() ==> !is_blank(#[trigger] lines[i]),
    ensures
        blocks(lines) == Seq::<Seq<Seq<char>>>::empty(),
        open_block(lines) == lines,
    decreases lines.len(),
{
    if lines.len() > 0 {
        let front = lines.drop_last();
        assert(lines.last() == lines[lines.len() - 1]);
        assert forall|i: int| 0 <= i < front.len() implies !is_blank(#[trigger] front[i]) by {
            assert(front[i] == lines[i]);
        }
        no_blank(front);
        assert(front.push(lines.last()) =~= lines);
    } else {
        assert(open_block(lines) =~= lines);
    }
}

/// The first of several lines, as texts.
proof fn texts_next(line: Seq<u8>, rest: Seq<Seq<u8>>)
    ensures
        texts(seq![line] + rest) == seq![decode_utf8(line)] + texts(rest),
{
    assert(texts(seq![line] + rest) =~= seq![decode_utf8(line)] + texts(rest));
}

/// What an event stream that has read some lines of an event holds of whole events.
proof fn events_so_far(
    first: Seq<Seq<char>>,
    pending: Seq<u8>,
    ended: bool,
    count: nat,
)
    requires
        forall|i: int| 0 <= i < first.len() ==> !is_blank(#[trigger] first[i]),
        count <= all_lines(pending, ended).len(),
        forall|i: int| 0 <= i < count ==> valid_utf8(#[trigger] all_lines(pending, ended)[i]),
        count < all_lines(pending, ended).len() ==> !valid_utf8(
            all_lines(pending, ended)[count as int],
        ),
    ensures
        ({
            let state = SseState { pending, event: block_event(first) };
            let (events, outcome, last) = all_events(state, ended);
            let lines = all_lines(pending, ended);
            let read = first + texts(lines.take(count as int));
            let open = block_event(open_block(read));
            if count < lines.len() {
                &&& outcome == SseOutcome::NotText(lines[count as int])
                &&& events == block_events(blocks(read))
                &&& last == (SseState {
                    pending: after_some(pending, ended, count + 1),
                    event: open,
                })
            } else {
                &&& outcome == SseOutcome::Waiting
                &&& events == block_events(blocks(read)) + if ended && open != empty_event() {
                    seq![open]
                } else {
                    Seq::empty()
                }
                &&& last == (SseState {
                    pending: after_some(pending, ended, count),
                    event: if ended {
                        empty_event()
                    } else {
                        open
                    },
                })
            }
        }),
    decreases pending.len(),
{
    let state = SseState { pending, event: block_event(first) };
    let lines = all_lines(pending, ended);
    next_line_not_empty(pending, ended);
    next_event_shrinks(state, ended);
    no_blank(first);
    match next_line(pending, ended) {
        None => {
            assert(lines.len() == 0);
            assert(first + texts(lines.take(0)) =~= first);
            assert(block_events(blocks(first)) =~= Seq::<EventContents>::empty());
            let open = block_event(first);
            if ended && open != empty_event() {
                let next = SseState { pending, event: empty_event() };
                assert(next_event(state, ended) == (SseOutcome::Completed(open), next));
                assert(next_event(next, ended) == (SseOutcome::Waiting, next));
                assert(all_events(next, ended) == (
                    Seq::<EventContents>::empty(),
                    SseOutcome::Waiting,
                    next,
                ));
                assert(all_events(state, ended).0 =~= seq![open]);
            } else {
                assert(next_event(state, ended) == (SseOutcome::Waiting, state));
                assert(all_events(state, ended).0 =~= Seq::<EventContents>::empty());
            }
        },
        Some(line) => {
            let rest = pending.skip(line.len() as int);
            let others = all_lines(rest, ended);
            assert(lines == seq![line] + others);
            assert(lines[0] == line);
            let text = decode_utf8(line);
            blank_lines(text);
            if count == 0 {
                assert(!valid_utf8(line));
                assert(first + texts(lines.take(0)) =~= first);
                reveal_with_fuel(after_some, 2);
                assert(block_events(blocks(first)) =~= Seq::<EventContents>::empty());
            } else {
                let before = (count - 1) as nat;
                assert(valid_utf8(lines[0]));
                assert forall|i: int| 0 <= i < before implies valid_utf8(
                    #[trigger] others[i],
                ) by {
                    assert(others[i] == lines[i + 1]);
                }
                if count < lines.len() {
                    assert(others[before as int] == lines[count as int]);
                }
                assert(lines.take(count as int) =~= seq![line] + others.take(before as int));
                texts_next(line, others.take(before as int));
                let later = texts(others.take(before as int));
                let read = first + texts(lines.take(count as int));
                assert(after_some(pending, ended, count) == after_some(rest, ended, before));
                assert(after_some(pending, ended, count + 1) == after_some(
                    rest,
                    ended,
                    before + 1,
                ));
                if is_blank(text) {
                    block_event_next(Seq::empty(), text);
                    let none = Seq::<Seq<char>>::empty();
                    events_so_far(none, rest, ended, before);
                    assert(none + later =~= later);
                    assert(read =~= first.push(text) + later);
                    first_block(first, later, text);
                    let next = SseState { pending: rest, event: empty_event() };
                    assert(next_event(state, ended) == (
                        SseOutcome::Completed(block_event(first)),
                        next,
                    ));
                    assert(block_events(seq![first] + blocks(later)) =~= seq![block_event(first)]
                        + block_events(blocks(later)));
                    let tail = if ended && block_event(open_block(later)) != empty_event() {
                        seq![block_event(open_block(later))]
                    } else {
                        Seq::empty()
                    };
                    assert(seq![block_event(first)] + (block_events(blocks(later)) + tail) =~= (
                    seq![block_event(first)] + block_events(blocks(later))) + tail);
                } else {
                    let longer = first.push(text);
                    block_event_next(first, text);
                    events_so_far(longer, rest, ended, before);
                    assert(read =~= longer + later);
                    let next = SseState { pending: rest, event: block_event(longer) };
                    assert(next_event(state, ended) == next_event(next, ended));
                    assert(all_events(state, ended) == all_events(next, ended));
                }
            }
        },
    }
}

/// The events of a body are those of its blocks of lines: each blank line ends one, and so does the
/// end of the body if the lines after the last blank line say anything. Each has the last id and
/// the last type that its lines give, and all of their data.
pub proof fn events_are_blocks_of_lines(pending: Seq<u8>, ended: bool)
    requires
        forall|i: int|
            0 <= i < all_lines(pending, ended).len() ==> valid_utf8(
                #[trigger] all_lines(pending, ended)[i],
            ),
    ensures
        ({
            let (events, outcome, last) = all_events(
                SseState { pending, event: empty_event() },
                ended,
            );
            let lines = texts(all_lines(pending, ended));
            let open = block_event(open_block(lines));
            &&& outcome == SseOutcome::Waiting
            &&& events == block_events(blocks(lines)) + if ended && open != empty_event() {
                seq![open]
            } else {
                Seq::empty()
            }
            &&& last.event == if ended {
                empty_event()
            } else {
                open
            }
            &&& last.pending == crate::body_buffer::after_lines(pending, ended)
        }),
{
    let none = Seq::<Seq<char>>::empty();
    let lines = all_lines(pending, ended);
    block_event_next(none, none[0]);
    events_so_far(none, pending, ended, lines.len());
    assert(lines.take(lines.len() as int) =~= lines);
    assert(none + texts(lines) =~= texts(lines));
}

/// A line that is not text is what comes of the body, after the events before it; it is lost, and
/// what was read of an event stays.
pub proof fn events_before_a_bad_line(pending: Seq<u8>, ended: bool, i: int)
    requires
        first_bad(all_lines(pending, ended), i),
    ensures
        ({
            let (events, outcome, last) = all_events(
                SseState { pending, event: empty_event() },
                ended,
            );
            let lines = all_lines(pending, ended);
            let read = texts(lines.take(i));
            &&& outcome == SseOutcome::NotText(lines[i])
            &&& events == block_events(blocks(read))
            &&& last.event == block_event(open_block(read))
            &&& last.pending == after_some(pending, ended, (i + 1) as nat)
        }),
{
    let none = Seq::<Seq<char>>::empty();
    block_event_next(none, none[0]);
    events_so_far(none, pending, ended, i as nat);
    assert(none + texts(all_lines(pending, ended).take(i)) =~= texts(
        all_lines(pending, ended).take(i),
    ));
}

} // verus!
