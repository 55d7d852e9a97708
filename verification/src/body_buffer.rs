//! Decoding of HTTP response bodies that arrive in pieces.

use eventsource::event::{parse_event_line, Event, ParseResult};
use vstd::prelude::*;
use vstd::utf8::{decode_utf8, valid_utf8};

use crate::text::{concat2, text_eq, utf8_error_text, utf8_text};

verus! {

/// What a buffer hands out.
#[derive(Debug)]
pub enum Decoded<J> {
    /// Raw bytes.
    Bytes(Vec<u8>),
    /// Text.
    Text(String),
    /// A converted JSON document.
    Json(J),
    /// A server-sent event.
    Event(SseEvent),
    /// Several lines.
    Lines(Vec<String>),
    /// Several server-sent events.
    Events(Vec<SseEvent>),
}

/// Why a body cannot be decoded.
#[derive(Debug)]
pub struct DecodeError {
    /// The text that describes it.
    pub message: String,
}

/// The result of one attempt to decode.
pub type Attempt<J> = Result<Option<Decoded<J>>, DecodeError>;

/// Takes the pieces of a body and hands out what they make up.
///
/// `convert` turns the text of a JSON document into the caller's own value.
pub trait BodyBuffer: Sized {
    /// The bytes that were written and not handed out.
    spec fn pending(&self) -> Seq<u8>;

    /// Whether the body is known to be complete.
    spec fn ended(&self) -> bool;

    /// Takes the next piece.
    fn write(&mut self, data: &[u8])
        ensures
            final(self).pending() == old(self).pending() + data@,
            final(self).ended() == old(self).ended(),
    ;

    /// Hands out the next unit, if it is there.
    fn decode<J, F: Fn(&str) -> Result<J, String>>(&mut self, convert: &F) -> (r: Attempt<J>)
        requires
            forall|s: &str| call_requires(*convert, (s,)),
        ensures
            final(self).ended() == old(self).ended(),
    ;

    /// Hands out everything that is there.
    fn decode_all<J, F: Fn(&str) -> Result<J, String>>(&mut self, convert: &F) -> (r: Attempt<J>)
        requires
            forall|s: &str| call_requires(*convert, (s,)),
        ensures
            final(self).ended() == old(self).ended(),
    ;

    /// Marks the body as complete.
    fn close(&mut self)
        ensures
            final(self).pending() == old(self).pending(),
    ;
}

/// How a buffer of raw bytes is decoded: all at once, if there is any.
pub open spec fn bytes_decoded<J>(before: Seq<u8>, after: Seq<u8>, r: Attempt<J>) -> bool {
    if before.len() == 0 {
        r matches Ok(None) && after == before
    } else {
        r matches Ok(Some(Decoded::Bytes(bytes))) && bytes@ == before && after.len() == 0
    }
}

/// Hands the body out as it comes.
#[derive(Debug)]
pub struct Bytes {
    buffer: Vec<u8>,
}

impl Default for Bytes {
    fn default() -> (r: Bytes)
        ensures
            r.pending() == Seq::<u8>::empty(),
    {
        Bytes { buffer: Vec::new() }
    }
}

impl BodyBuffer for Bytes {
    closed spec fn pending(&self) -> Seq<u8> {
        self.buffer@
    }

    open spec fn ended(&self) -> bool {
        false
    }

    fn write(&mut self, data: &[u8]) {
        extend(&mut self.buffer, data);
    }

    fn decode<J, F: Fn(&str) -> Result<J, String>>(&mut self, convert: &F) -> (r: Attempt<J>)
        ensures
            bytes_decoded(old(self).pending(), final(self).pending(), r),
    {
        if self.buffer.len() == 0 {
            return Ok(None);
        }
        let mut taken: Vec<u8> = Vec::new();
        std::mem::swap(&mut taken, &mut self.buffer);
        Ok(Some(Decoded::Bytes(taken)))
    }

    fn decode_all<J, F: Fn(&str) -> Result<J, String>>(&mut self, convert: &F) -> (r: Attempt<J>)
        ensures
            bytes_decoded(old(self).pending(), final(self).pending(), r),
    {
        self.decode(convert)
    }

    fn close(&mut self) {
    }
}

/// Appends a slice to a vector of bytes.
fn extend(buffer: &mut Vec<u8>, data: &[u8])
    ensures
        final(buffer)@ == old(buffer)@ + data@,
{
    buffer.extend_from_slice(data);
    proof {
        assert(buffer@ =~= old(buffer)@ + data@);
    }
}

/// The number of bytes up to and with the first newline, if there is one.
pub open spec fn line_length(s: Seq<u8>) -> Option<nat>
    decreases s.len(),
{
    if s.len() == 0 {
        None
    } else if s[0] == 10 {
        Some(1)
    } else {
        match line_length(s.skip(1)) {
            Some(n) => Some(n + 1),
            None => None,
        }
    }
}

/// The next line of a body: up to and with a newline, or the rest of a complete body.
pub open spec fn next_line(pending: Seq<u8>, ended: bool) -> Option<Seq<u8>> {
    match line_length(pending) {
        Some(n) => Some(pending.take(n as int)),
        None => if ended && pending.len() > 0 {
            Some(pending)
        } else {
            None
        },
    }
}

/// What `line_length` finds: a newline, and none before it.
pub proof fn line_length_found(s: Seq<u8>)
    ensures
        match line_length(s) {
            Some(n) => {
                &&& 1 <= n <= s.len()
                &&& s[n - 1] == 10
                &&& forall|i: int| 0 <= i < n - 1 ==> #[trigger] s[i] != 10
            },
            None => forall|i: int| 0 <= i < s.len() ==> #[trigger] s[i] != 10,
        },
    decreases s.len(),
{
    if s.len() > 0 && s[0] != 10 {
        let rest = s.skip(1);
        line_length_found(rest);
        assert forall|i: int| 1 <= i < s.len() implies s[i] == #[trigger] rest[i - 1] by {}
        match line_length(rest) {
            Some(n) => {
                assert(s[n as int] == rest[n - 1]);
                assert forall|i: int| 0 <= i < n implies #[trigger] s[i] != 10 by {
                    if i > 0 {
                        assert(s[i] == rest[i - 1]);
                    }
                }
            },
            None => {
                assert forall|i: int| 0 <= i < s.len() implies #[trigger] s[i] != 10 by {
                    if i > 0 {
                        assert(s[i] == rest[i - 1]);
                    }
                }
            },
        }
    }
}

/// A next line is never empty.
pub proof fn next_line_not_empty(pending: Seq<u8>, ended: bool)
    ensures
        next_line(pending, ended) matches Some(line) ==> 0 < line.len() <= pending.len() && line
            + pending.skip(line.len() as int) == pending,
{
    line_length_found(pending);
    match next_line(pending, ended) {
        Some(line) => {
            assert(line + pending.skip(line.len() as int) =~= pending);
        },
        None => {},
    }
}

/// Takes the next line out of a buffer.
fn take_line(buffer: &mut Vec<u8>, closed: bool) -> (r: Option<Vec<u8>>)
    ensures
        match next_line(old(buffer)@, closed) {
            Some(line) => {
                &&& r matches Some(taken) && taken@ == line
                &&& final(buffer)@ == old(buffer)@.skip(line.len() as int)
            },
            None => r is None && final(buffer)@ == old(buffer)@,
        },
{
    proof {
        line_length_found(buffer@);
    }
    let mut i: usize = 0;
    while i < buffer.len()
        invariant
            i <= buffer@.len(),
            buffer@ == old(buffer)@,
            forall|k: int| 0 <= k < i ==> #[trigger] buffer@[k] != 10,
        decreases buffer@.len() - i,
    {
        if buffer[i] == 10 {
            proof {
                line_length_found(buffer@);
                assert(line_length(buffer@) == Some((i + 1) as nat)) by {
                    let n = line_length(buffer@);
                    assert(n is Some) by {
                        if n is None {
                            assert(buffer@[i as int] != 10);
                        }
                    }
                    let m = n->0;
                    if m < i + 1 {
                        assert(buffer@[m - 1] != 10);
                    }
                    if m > i + 1 {
                        assert(buffer@[i as int] != 10);
                    }
                }
            }
            let mut rest: Vec<u8> = buffer.split_off(i + 1);
            std::mem::swap(&mut rest, buffer);
            proof {
                assert(rest@ =~= old(buffer)@.take(i + 1));
                assert(buffer@ =~= old(buffer)@.skip(i + 1));
            }
            return Some(rest);
        }
        i = i + 1;
    }
    proof {
        line_length_found(buffer@);
        assert(line_length(buffer@) is None) by {
            if let Some(n) = line_length(buffer@) {
                assert(buffer@[n - 1] != 10);
            }
        }
    }
    if closed && buffer.len() > 0 {
        let mut taken: Vec<u8> = Vec::new();
        std::mem::swap(&mut taken, buffer);
        proof {
            assert(buffer@ =~= old(buffer)@.skip(old(buffer)@.len() as int));
        }
        return Some(taken);
    }
    None
}

/// Hands the body out line by line, each with its newline.
#[derive(Debug)]
pub struct Lines {
    buffer: Vec<u8>,
    closed: bool,
}

impl Default for Lines {
    fn default() -> (r: Lines)
        ensures
            r.pending() == Seq::<u8>::empty(),
            !r.ended(),
    {
        Lines { buffer: Vec::new(), closed: false }
    }
}

/// The complete lines of a body, in order.
pub open spec fn all_lines(pending: Seq<u8>, ended: bool) -> Seq<Seq<u8>>
    decreases pending.len(),
{
    match next_line(pending, ended) {
        Some(line) => if 0 < line.len() <= pending.len() {
            seq![line] + all_lines(pending.skip(line.len() as int), ended)
        } else {
            Seq::empty()
        },
        None => Seq::empty(),
    }
}

/// A text is what these bytes encode.
pub open spec fn encodes(bytes: Seq<u8>, text: Seq<char>) -> bool {
    valid_utf8(bytes) && text == decode_utf8(bytes)
}

/// Texts that are the decoded forms of these lines.
pub open spec fn are_texts(texts: Seq<String>, lines: Seq<Seq<u8>>) -> bool {
    &&& texts.len() == lines.len()
    &&& forall|i: int| 0 <= i < lines.len() ==> encodes(lines[i], (#[trigger] texts[i])@)
}

/// Where the first line that is not text stands: after so many good lines.
pub open spec fn first_bad(lines: Seq<Seq<u8>>, i: int) -> bool {
    &&& 0 <= i < lines.len()
    &&& !valid_utf8(lines[i])
    &&& forall|k: int| 0 <= k < i ==> valid_utf8(#[trigger] lines[k])
}

/// What is left of a body after its first lines.
pub open spec fn after_some(pending: Seq<u8>, ended: bool, count: nat) -> Seq<u8>
    decreases count,
{
    if count == 0 {
        pending
    } else {
        match next_line(pending, ended) {
            Some(line) => after_some(
                pending.skip(line.len() as int),
                ended,
                (count - 1) as nat,
            ),
            None => pending,
        }
    }
}

/// How the next line of a body is decoded. A line that is not text is lost.
pub open spec fn line_decoded<J>(
    before: Seq<u8>,
    ended: bool,
    after: Seq<u8>,
    r: Attempt<J>,
) -> bool {
    match next_line(before, ended) {
        None => r matches Ok(None) && after == before,
        Some(line) => {
            &&& after == before.skip(line.len() as int)
            &&& if valid_utf8(line) {
                r matches Ok(Some(Decoded::Text(text))) && text@ == decode_utf8(line)
            } else {
                r matches Err(e) && e.message@ == utf8_error_text(line)
            }
        },
    }
}

/// How all the lines of a body are decoded. Where one is not text, it and those before it are
/// lost.
pub open spec fn lines_decoded<J>(
    before: Seq<u8>,
    ended: bool,
    after: Seq<u8>,
    r: Attempt<J>,
) -> bool {
    let lines = all_lines(before, ended);
    if before.len() == 0 {
        r matches Ok(None) && after == before
    } else {
        match r {
            Ok(Some(Decoded::Lines(texts))) => {
                &&& are_texts(texts@, lines)
                &&& after == after_some(before, ended, lines.len())
            },
            Err(e) => exists|i: int| #[trigger]
                first_bad(lines, i) && e.message@ == utf8_error_text(lines[i]) && after
                    == after_some(before, ended, (i + 1) as nat),
            _ => false,
        }
    }
}

impl BodyBuffer for Lines {
    closed spec fn pending(&self) -> Seq<u8> {
        self.buffer@
    }

    closed spec fn ended(&self) -> bool {
        self.closed
    }

    fn write(&mut self, data: &[u8]) {
        extend(&mut self.buffer, data);
    }

    fn decode<J, F: Fn(&str) -> Result<J, String>>(&mut self, convert: &F) -> (r: Attempt<J>)
        ensures
            line_decoded(old(self).pending(), old(self).ended(), final(self).pending(), r),
    {
        match self.next_text() {
            Ok(Some(text)) => Ok(Some(Decoded::Text(text))),
            Ok(None) => Ok(None),
            Err(e) => Err(e),
        }
    }

    fn decode_all<J, F: Fn(&str) -> Result<J, String>>(&mut self, convert: &F) -> (r: Attempt<J>)
        ensures
            lines_decoded(old(self).pending(), old(self).ended(), final(self).pending(), r),
    {
        if self.buffer.len() == 0 {
            return Ok(None);
        }
        let ghost start = self.buffer@;
        let ghost ended = self.closed;
        let ghost lines = all_lines(start, ended);
        let mut results: Vec<String> = Vec::new();
        proof {
            assert(seq![] + lines =~= lines);
        }
        loop
            invariant
                self.closed == ended,
                start == old(self).buffer@,
                ended == old(self).closed,
                start.len() > 0,
                lines == all_lines(start, ended),
                results@.len() <= lines.len(),
                lines.skip(results@.len() as int) == all_lines(self.buffer@, ended),
                are_texts(results@, lines.take(results@.len() as int)),
                self.buffer@ == after_some(start, ended, results@.len()),
            ensures
                results@.len() == lines.len(),
                self.buffer@ == after_some(start, ended, lines.len()),
                are_texts(results@, lines),
                self.closed == ended,
            decreases self.buffer@.len(),
        {
            let ghost before = self.buffer@;
            let ghost n = results@.len() as int;
            proof {
                next_line_not_empty(before, ended);
            }
            match self.next_text() {
                Ok(Some(text)) => {
                    proof {
                        let line = next_line(before, ended)->0;
                        let rest = lines.skip(n);
                        assert(rest == all_lines(before, ended));
                        assert(rest.len() > 0 && rest[0] == line);
                        assert(lines[n] == line);
                        assert(rest.skip(1) =~= lines.skip(n + 1));
                        assert(rest.skip(1) =~= all_lines(self.buffer@, ended));
                        after_some_next(start, ended, n as nat);
                        assert(lines.take(n + 1) =~= lines.take(n).push(line));
                    }
                    let ghost earlier = results@;
                    results.push(text);
                    proof {
                        assert forall|i: int| 0 <= i < n + 1 implies encodes(
                            lines.take(n + 1)[i],
                            (#[trigger] results@[i])@,
                        ) by {
                            if i < n {
                                assert(encodes(lines.take(n)[i], earlier[i]@));
                            }
                        }
                    }
                },
                Ok(None) => {
                    proof {
                        assert(lines.skip(n).len() == 0);
                        assert(lines.take(n) =~= lines);
                    }
                    break;
                },
                Err(e) => {
                    proof {
                        let line = next_line(before, ended)->0;
                        let rest = lines.skip(n);
                        assert(rest == all_lines(before, ended));
                        assert(rest.len() > 0 && rest[0] == line);
                        assert(lines[n] == line);
                        after_some_next(start, ended, n as nat);
                        assert forall|k: int| 0 <= k < n implies valid_utf8(
                            #[trigger] lines[k],
                        ) by {
                            assert(lines.take(n)[k] == lines[k]);
                            assert(encodes(lines[k], results@[k]@));
                        }
                        assert(first_bad(lines, n));
                    }
                    return Err(e);
                },
            }
        }
        Ok(Some(Decoded::Lines(results)))
    }

    fn close(&mut self)
        ensures
            final(self).ended(),
    {
        self.closed = true;
    }
}

/// One more line is taken off after the others.
proof fn after_some_next(pending: Seq<u8>, ended: bool, count: nat)
    ensures
        after_some(pending, ended, count + 1) == match next_line(
            after_some(pending, ended, count),
            ended,
        ) {
            Some(line) => after_some(pending, ended, count).skip(line.len() as int),
            None => after_some(pending, ended, count),
        },
    decreases count,
{
    reveal_with_fuel(after_some, 2);
    if count > 0 {
        match next_line(pending, ended) {
            Some(line) => {
                after_some_next(pending.skip(line.len() as int), ended, (count - 1) as nat);
            },
            None => {},
        }
    }
}

impl Lines {
    /// The next line as text.
    fn next_text(&mut self) -> (r: Result<Option<String>, DecodeError>)
        ensures
            final(self).closed == old(self).closed,
            match next_line(old(self).buffer@, old(self).closed) {
                None => r matches Ok(None) && final(self).buffer@ == old(self).buffer@,
                Some(line) => {
                    &&& final(self).buffer@ == old(self).buffer@.skip(line.len() as int)
                    &&& if valid_utf8(line) {
                        r matches Ok(Some(text)) && text@ == decode_utf8(line)
                    } else {
                        r matches Err(e) && e.message@ == utf8_error_text(line)
                    }
                },
            },
    {
        match take_line(&mut self.buffer, self.closed) {
            None => Ok(None),
            Some(line) => match utf8_text(line) {
                Ok(text) => Ok(Some(text)),
                Err(message) => Err(DecodeError { message }),
            },
        }
    }
}

/// A server-sent event.
#[derive(Debug)]
pub struct SseEvent {
    pub id: Option<String>,
    pub event_type: Option<String>,
    pub data: String,
}

/// The contents of a server-sent event.
#[verifier::ext_equal]
pub struct EventContents {
    pub id: Option<Seq<char>>,
    pub event_type: Option<Seq<char>>,
    pub data: Seq<char>,
}

/// The contents of an optional text.
pub open spec fn optional_text(text: Option<String>) -> Option<Seq<char>> {
    match text {
        Some(text) => Some(text@),
        None => None,
    }
}

impl View for SseEvent {
    type V = EventContents;

    open spec fn view(&self) -> EventContents {
        EventContents {
            id: optional_text(self.id),
            event_type: optional_text(self.event_type),
            data: self.data@,
        }
    }
}

/// The event of which nothing has been read.
pub open spec fn empty_event() -> EventContents {
    EventContents { id: None, event_type: None, data: Seq::empty() }
}

/// A line without the carriage returns and newlines at its end.
pub open spec fn without_line_end(line: Seq<char>) -> Seq<char>
    decreases line.len(),
{
    if line.len() > 0 && (line.last() == '\r' || line.last() == '\n') {
        without_line_end(line.drop_last())
    } else {
        line
    }
}

/// The field that a line of an event stream sets: what stands before its first colon.
pub open spec fn field_name(line: Seq<char>) -> Seq<char> {
    match line.index_of_first(':') {
        Some(at) => line.take(at),
        None => line,
    }
}

/// The value that a line of an event stream gives: what stands after its first colon and one
/// space.
pub open spec fn field_value(line: Seq<char>) -> Seq<char> {
    match line.index_of_first(':') {
        Some(at) => {
            let rest = line.skip(at + 1);
            if rest.len() > 0 && rest[0] == ' ' {
                rest.skip(1)
            } else {
                rest
            }
        },
        None => Seq::empty(),
    }
}

/// The event after one more field.
pub open spec fn with_field(event: EventContents, line: Seq<char>) -> EventContents {
    let name = field_name(line);
    let value = field_value(line);
    if name == "event"@ {
        EventContents { event_type: Some(value), ..event }
    } else if name == "data"@ {
        EventContents { data: event.data + value.push('\n'), ..event }
    } else if name == "id"@ {
        EventContents { id: Some(value), ..event }
    } else {
        event
    }
}

/// The event after one more line: an empty line leaves it as it is.
pub open spec fn with_line(event: EventContents, line: Seq<char>) -> EventContents {
    let line = without_line_end(line);
    if line.len() == 0 {
        event
    } else {
        with_field(event, line)
    }
}

/// `eventsource::event::parse_event_line` reads one line into an event. It answers `Dispatch`
/// exactly for a line of carriage returns and newlines alone, which leaves the event as it is.
/// Any other line sets the field named before its first colon to what follows the colon and one
/// space: `event` and `id` are replaced, `data` grows by the value and a newline, and a line of
/// another name changes nothing.
#[verifier::external_body]
fn read_event_line(line: &str, event: &mut SseEvent) -> (dispatched: bool)
    ensures
        dispatched == (without_line_end(line@).len() == 0),
        final(event)@ == with_line(old(event)@, line@),
{
    let mut parsed = Event {
        id: event.id.take(),
        event_type: event.event_type.take(),
        data: std::mem::take(&mut event.data),
    };
    let dispatched = match parse_event_line(line, &mut parsed) {
        ParseResult::Dispatch => true,
        ParseResult::Next => false,
        ParseResult::SetRetry(_) => false,
    };
    *event = SseEvent { id: parsed.id, event_type: parsed.event_type, data: parsed.data };
    dispatched
}

impl SseEvent {
    /// An event of which nothing has been read.
    pub fn new() -> (r: SseEvent)
        ensures
            r@ == empty_event(),
    {
        let r = SseEvent { id: None, event_type: None, data: String::new() };
        proof {
            assert(r@ =~= empty_event());
        }
        r
    }

    /// Whether the event has no id, no type and no data.
    pub fn is_empty(&self) -> (r: bool)
        ensures
            r == (self@ == empty_event()),
    {
        let r = self.id.is_none() && self.event_type.is_none() && text_eq(self.data.as_str(), "");
        proof {
            reveal_strlit("");
            if r {
                assert(self@ =~= empty_event());
            }
            if self@ == empty_event() {
                assert(self@.data == Seq::<char>::empty());
                assert(self.data@ =~= ""@);
            }
        }
        r
    }

    /// Hands the event out and leaves an empty one.
    fn take(&mut self) -> (r: SseEvent)
        ensures
            r@ == old(self)@,
            final(self)@ == empty_event(),
    {
        let mut taken = SseEvent::new();
        std::mem::swap(&mut taken, self);
        taken
    }
}

/// What came of reading an event stream.
pub enum SseOutcome {
    /// More of the body is needed, or it has ended.
    Waiting,
    /// An event was completed.
    Completed(EventContents),
    /// A line is not text.
    NotText(Seq<u8>),
}

/// An event stream that is being read: what is pending, and the event so far.
#[verifier::ext_equal]
pub struct SseState {
    pub pending: Seq<u8>,
    pub event: EventContents,
}

/// Reads an event stream up to the next event: an empty line completes it, and so does the end of
/// the body if anything of it has been read.
pub open spec fn next_event(state: SseState, ended: bool) -> (SseOutcome, SseState)
    decreases state.pending.len(),
{
    match next_line(state.pending, ended) {
        None => if ended && state.event != empty_event() {
            (SseOutcome::Completed(state.event), SseState { event: empty_event(), ..state })
        } else {
            (SseOutcome::Waiting, state)
        },
        Some(line) => {
            let rest = state.pending.skip(line.len() as int);
            if !valid_utf8(line) {
                (SseOutcome::NotText(line), SseState { pending: rest, ..state })
            } else if without_line_end(decode_utf8(line)).len() == 0 {
                (
                    SseOutcome::Completed(state.event),
                    SseState { pending: rest, event: empty_event() },
                )
            } else if rest.len() < state.pending.len() {
                next_event(
                    SseState { pending: rest, event: with_line(state.event, decode_utf8(line)) },
                    ended,
                )
            } else {
                (SseOutcome::Waiting, state)
            }
        },
    }
}

/// How much an event stream still holds.
pub open spec fn remaining(state: SseState) -> nat {
    if state.event == empty_event() {
        state.pending.len() * 2
    } else {
        state.pending.len() * 2 + 1
    }
}

/// Each completed event leaves less to be read.
pub proof fn next_event_shrinks(state: SseState, ended: bool)
    ensures
        next_event(state, ended).1.pending.len() <= state.pending.len(),
        next_event(state, ended).0 is Completed ==> remaining(next_event(state, ended).1)
            < remaining(state),
    decreases state.pending.len(),
{
    next_line_not_empty(state.pending, ended);
    match next_line(state.pending, ended) {
        None => {},
        Some(line) => {
            let rest = state.pending.skip(line.len() as int);
            if valid_utf8(line) && without_line_end(decode_utf8(line)).len() != 0 {
                next_event_shrinks(
                    SseState { pending: rest, event: with_line(state.event, decode_utf8(line)) },
                    ended,
                );
            }
        },
    }
}

/// All the events that an event stream holds, how reading them ended, and what is left.
pub open spec fn all_events(state: SseState, ended: bool) -> (
    Seq<EventContents>,
    SseOutcome,
    SseState,
)
    decreases remaining(state),
{
    proof {
        next_event_shrinks(state, ended);
    }
    match next_event(state, ended) {
        (SseOutcome::Completed(event), next) => {
            let (events, outcome, last) = all_events(next, ended);
            (seq![event] + events, outcome, last)
        },
        (outcome, next) => (Seq::empty(), outcome, next),
    }
}

/// Hands the body out as server-sent events.
#[derive(Debug)]
pub struct ServerSentEvent {
    buffer: Vec<u8>,
    closed: bool,
    event: SseEvent,
}

impl Default for ServerSentEvent {
    fn default() -> (r: ServerSentEvent)
        ensures
            r.pending() == Seq::<u8>::empty(),
            !r.ended(),
            r.state().event == empty_event(),
    {
        ServerSentEvent { buffer: Vec::new(), closed: false, event: SseEvent::new() }
    }
}

/// How the next event is decoded.
pub open spec fn event_decoded<J>(
    before: SseState,
    ended: bool,
    after: SseState,
    r: Attempt<J>,
) -> bool {
    &&& after == next_event(before, ended).1
    &&& match next_event(before, ended).0 {
        SseOutcome::Waiting => r matches Ok(None),
        SseOutcome::Completed(contents) => r matches Ok(Some(Decoded::Event(event))) && event@
            == contents,
        SseOutcome::NotText(line) => r matches Err(e) && e.message@ == utf8_error_text(line),
    }
}

/// The contents of several events.
pub open spec fn event_contents(events: Seq<SseEvent>) -> Seq<EventContents> {
    events.map_values(|event: SseEvent| event@)
}

/// How all the events are decoded. Where a line is not text, it and the events before it are
/// lost.
pub open spec fn events_decoded<J>(
    before: SseState,
    ended: bool,
    after: SseState,
    r: Attempt<J>,
) -> bool {
    if before.pending.len() == 0 {
        r matches Ok(None) && after == before
    } else {
        &&& after == all_events(before, ended).2
        &&& match all_events(before, ended).1 {
            SseOutcome::NotText(line) => r matches Err(e) && e.message@ == utf8_error_text(line),
            _ => r matches Ok(Some(Decoded::Events(events))) && event_contents(events@)
                == all_events(before, ended).0,
        }
    }
}

/// Events handed out move from the ones to come to those collected.
proof fn one_more_event(earlier: Seq<SseEvent>, event: SseEvent, rest: Seq<EventContents>)
    ensures
        event_contents(earlier) + (seq![event@] + rest) == event_contents(earlier.push(event))
            + rest,
{
    assert(event_contents(earlier.push(event)) =~= event_contents(earlier).push(event@));
    assert(event_contents(earlier) + (seq![event@] + rest) =~= event_contents(earlier.push(event))
        + rest);
}

impl ServerSentEvent {
    /// The stream as it is being read.
    pub closed spec fn state(&self) -> SseState {
        SseState { pending: self.buffer@, event: self.event@ }
    }

    /// The next event, if it is complete.
    fn next(&mut self) -> (r: Result<Option<SseEvent>, DecodeError>)
        ensures
            final(self).closed == old(self).closed,
            final(self).state() == next_event(old(self).state(), old(self).closed).1,
            match next_event(old(self).state(), old(self).closed).0 {
                SseOutcome::Waiting => r matches Ok(None),
                SseOutcome::Completed(contents) => r matches Ok(Some(event)) && event@ == contents,
                SseOutcome::NotText(line) => r matches Err(e) && e.message@ == utf8_error_text(
                    line,
                ),
            },
    {
        loop
            invariant
                self.closed == old(self).closed,
                next_event(self.state(), self.closed) == next_event(
                    old(self).state(),
                    old(self).closed,
                ),
            decreases self.buffer@.len(),
        {
            let ghost before = self.state();
            proof {
                next_line_not_empty(before.pending, self.closed);
            }
            match take_line(&mut self.buffer, self.closed) {
                None => {
                    if self.closed && !self.event.is_empty() {
                        return Ok(Some(self.event.take()));
                    }
                    return Ok(None);
                },
                Some(line) => match utf8_text(line) {
                    Err(message) => {
                        return Err(DecodeError { message });
                    },
                    Ok(text) => {
                        if read_event_line(text.as_str(), &mut self.event) {
                            return Ok(Some(self.event.take()));
                        }
                    },
                },
            }
        }
    }
}

impl BodyBuffer for ServerSentEvent {
    open spec fn pending(&self) -> Seq<u8> {
        self.state().pending
    }

    closed spec fn ended(&self) -> bool {
        self.closed
    }

    fn write(&mut self, data: &[u8])
        ensures
            final(self).state().event == old(self).state().event,
    {
        extend(&mut self.buffer, data);
    }

    fn decode<J, F: Fn(&str) -> Result<J, String>>(&mut self, convert: &F) -> (r: Attempt<J>)
        ensures
            event_decoded(old(self).state(), old(self).ended(), final(self).state(), r),
    {
        match self.next() {
            Ok(Some(event)) => Ok(Some(Decoded::Event(event))),
            Ok(None) => Ok(None),
            Err(e) => Err(e),
        }
    }

    fn decode_all<J, F: Fn(&str) -> Result<J, String>>(&mut self, convert: &F) -> (r: Attempt<J>)
        ensures
            events_decoded(old(self).state(), old(self).ended(), final(self).state(), r),
    {
        if self.buffer.len() == 0 {
            return Ok(None);
        }
        let ghost start = self.state();
        let ghost ended = self.closed;
        let mut results: Vec<SseEvent> = Vec::new();
        proof {
            assert(event_contents(results@) + all_events(start, ended).0 =~= all_events(
                start,
                ended,
            ).0);
        }
        loop
            invariant_except_break
                self.closed == ended,
                event_contents(results@) + all_events(self.state(), ended).0 == all_events(
                    start,
                    ended,
                ).0,
                all_events(self.state(), ended).1 == all_events(start, ended).1,
                all_events(self.state(), ended).2 == all_events(start, ended).2,
            invariant
                start == old(self).state(),
                ended == old(self).closed,
                start.pending.len() > 0,
            ensures
                self.closed == ended,
                event_contents(results@) == all_events(start, ended).0,
                all_events(start, ended).1 !is NotText,
                self.state() == all_events(start, ended).2,
            decreases remaining(self.state()),
        {
            let ghost before = self.state();
            let ghost earlier = results@;
            proof {
                next_event_shrinks(before, ended);
            }
            match self.next() {
                Ok(Some(event)) => {
                    results.push(event);
                    proof {
                        one_more_event(earlier, event, all_events(self.state(), ended).0);
                    }
                },
                Ok(None) => {
                    proof {
                        assert(event_contents(results@) + Seq::<EventContents>::empty()
                            =~= event_contents(results@));
                    }
                    break;
                },
                Err(e) => {
                    return Err(e);
                },
            }
        }
        Ok(Some(Decoded::Events(results)))
    }

    fn close(&mut self)
        ensures
            final(self).ended(),
            final(self).state() == old(self).state(),
    {
        self.closed = true;
    }
}

/// How a JSON document is decoded: once the body is complete, all of it at once. The body stays
/// where it is if it cannot be decoded.
pub open spec fn json_decoded<J, F: Fn(&str) -> Result<J, String>>(
    before: Seq<u8>,
    ended: bool,
    after: Seq<u8>,
    convert: F,
    r: Attempt<J>,
) -> bool {
    if !ended || before.len() == 0 {
        r matches Ok(None) && after == before
    } else if !valid_utf8(before) {
        &&& r matches Err(e) && e.message@ == "Invalid UTF-8: "@ + utf8_error_text(before)
        &&& after == before
    } else {
        exists|text: &str, outcome: Result<J, String>| #[trigger]
            call_ensures(convert, (text,), outcome) && text@ == decode_utf8(before)
                && json_converted(outcome, before, after, r)
    }
}

/// What a conversion makes of a JSON document.
pub open spec fn json_converted<J>(
    outcome: Result<J, String>,
    before: Seq<u8>,
    after: Seq<u8>,
    r: Attempt<J>,
) -> bool {
    match outcome {
        Ok(value) => r == Ok::<Option<Decoded<J>>, DecodeError>(Some(Decoded::Json(value)))
            && after.len() == 0,
        Err(message) => r == Err::<Option<Decoded<J>>, DecodeError>(DecodeError { message })
            && after == before,
    }
}

/// Hands the body out as one JSON document.
#[derive(Debug)]
pub struct Json {
    buffer: Vec<u8>,
    closed: bool,
}

impl Default for Json {
    fn default() -> (r: Json)
        ensures
            r.pending() == Seq::<u8>::empty(),
            !r.ended(),
    {
        Json { buffer: Vec::new(), closed: false }
    }
}

impl BodyBuffer for Json {
    closed spec fn pending(&self) -> Seq<u8> {
        self.buffer@
    }

    closed spec fn ended(&self) -> bool {
        self.closed
    }

    fn write(&mut self, data: &[u8]) {
        extend(&mut self.buffer, data);
    }

    fn decode<J, F: Fn(&str) -> Result<J, String>>(&mut self, convert: &F) -> (r: Attempt<J>)
        ensures
            json_decoded(
                old(self).pending(),
                old(self).ended(),
                final(self).pending(),
                *convert,
                r,
            ),
    {
        if !self.closed || self.buffer.len() == 0 {
            return Ok(None);
        }
        match utf8_text(self.buffer.clone()) {
            Err(message) => Err(
                DecodeError { message: concat2("Invalid UTF-8: ", message.as_str()) },
            ),
            Ok(text) => {
                let outcome = convert(text.as_str());
                match outcome {
                    Ok(value) => {
                        self.buffer = Vec::new();
                        Ok(Some(Decoded::Json(value)))
                    },
                    Err(message) => Err(DecodeError { message }),
                }
            },
        }
    }

    fn decode_all<J, F: Fn(&str) -> Result<J, String>>(&mut self, convert: &F) -> (r: Attempt<J>)
        ensures
            json_decoded(
                old(self).pending(),
                old(self).ended(),
                final(self).pending(),
                *convert,
                r,
            ),
    {
        self.decode(convert)
    }

    fn close(&mut self)
        ensures
            final(self).ended(),
    {
        self.closed = true;
    }
}

/// How text is decoded: once the body is complete, all of it at once. A body that is not text is
/// lost.
pub open spec fn text_decoded<J>(
    before: Seq<u8>,
    ended: bool,
    after: Seq<u8>,
    r: Attempt<J>,
) -> bool {
    if !ended || before.len() == 0 {
        r matches Ok(None) && after == before
    } else {
        &&& after.len() == 0
        &&& if valid_utf8(before) {
            r matches Ok(Some(Decoded::Text(text))) && text@ == decode_utf8(before)
        } else {
            r matches Err(e) && e.message@ == utf8_error_text(before)
        }
    }
}

/// Hands the body out as one text.
#[derive(Debug)]
pub struct Text {
    buffer: Vec<u8>,
    closed: bool,
}

impl Default for Text {
    fn default() -> (r: Text)
        ensures
            r.pending() == Seq::<u8>::empty(),
            !r.ended(),
    {
        Text { buffer: Vec::new(), closed: false }
    }
}

impl BodyBuffer for Text {
    closed spec fn pending(&self) -> Seq<u8> {
        self.buffer@
    }

    closed spec fn ended(&self) -> bool {
        self.closed
    }

    fn write(&mut self, data: &[u8]) {
        extend(&mut self.buffer, data);
    }

    fn decode<J, F: Fn(&str) -> Result<J, String>>(&mut self, convert: &F) -> (r: Attempt<J>)
        ensures
            text_decoded(old(self).pending(), old(self).ended(), final(self).pending(), r),
    {
        if !self.closed || self.buffer.len() == 0 {
            return Ok(None);
        }
        let mut taken: Vec<u8> = Vec::new();
        std::mem::swap(&mut taken, &mut self.buffer);
        match utf8_text(taken) {
            Ok(text) => Ok(Some(Decoded::Text(text))),
            Err(message) => Err(DecodeError { message }),
        }
    }

    fn decode_all<J, F: Fn(&str) -> Result<J, String>>(&mut self, convert: &F) -> (r: Attempt<J>)
        ensures
            text_decoded(old(self).pending(), old(self).ended(), final(self).pending(), r),
    {
        self.decode(convert)
    }

    fn close(&mut self)
        ensures
            final(self).ended(),
    {
        self.closed = true;
    }
}

/// A buffer of one of the kinds.
#[derive(Debug)]
pub enum Buffer {
    Bytes(Bytes),
    Lines(Lines),
    Json(Json),
    Text(Text),
    ServerSentEvent(ServerSentEvent),
}

impl Default for Buffer {
    fn default() -> (r: Buffer)
        ensures
            r matches Buffer::Bytes(b) && b.pending() == Seq::<u8>::empty(),
    {
        Buffer::Bytes(Bytes::default())
    }
}

/// A buffer of this kind that holds nothing.
pub open spec fn fresh_of_kind(kind: Seq<char>, buffer: Buffer) -> bool {
    &&& buffer.pending() == Seq::<u8>::empty()
    &&& !buffer.ended()
    &&& if kind == "binary"@ || kind == "bytes"@ {
        buffer is Bytes
    } else if kind == "lines"@ {
        buffer is Lines
    } else if kind == "json"@ {
        buffer is Json
    } else if kind == "text"@ {
        buffer is Text
    } else {
        buffer matches Buffer::ServerSentEvent(b) && b.state().event == empty_event()
    }
}

/// Whether there is a buffer of this kind.
pub open spec fn is_kind(kind: Seq<char>) -> bool {
    ||| kind == "binary"@
    ||| kind == "bytes"@
    ||| kind == "lines"@
    ||| kind == "json"@
    ||| kind == "text"@
    ||| kind == "sse"@
}

impl Buffer {
    /// The empty buffer of a kind.
    pub fn new(kind: &str) -> (r: Option<Buffer>)
        ensures
            r is Some <==> is_kind(kind@),
            r matches Some(buffer) ==> fresh_of_kind(kind@, buffer),
    {
        if text_eq(kind, "binary") || text_eq(kind, "bytes") {
            Some(Buffer::Bytes(Bytes::default()))
        } else if text_eq(kind, "lines") {
            Some(Buffer::Lines(Lines::default()))
        } else if text_eq(kind, "json") {
            Some(Buffer::Json(Json::default()))
        } else if text_eq(kind, "text") {
            Some(Buffer::Text(Text::default()))
        } else if text_eq(kind, "sse") {
            Some(Buffer::ServerSentEvent(ServerSentEvent::default()))
        } else {
            None
        }
    }
}

/// How a buffer of any kind is decoded: by its own rule, and its kind stays.
pub open spec fn unit_decoded<J, F: Fn(&str) -> Result<J, String>>(
    before: Buffer,
    after: Buffer,
    convert: F,
    r: Attempt<J>,
) -> bool {
    match (before, after) {
        (Buffer::Bytes(b), Buffer::Bytes(a)) => bytes_decoded(b.pending(), a.pending(), r),
        (Buffer::Lines(b), Buffer::Lines(a)) => line_decoded(
            b.pending(),
            b.ended(),
            a.pending(),
            r,
        ),
        (Buffer::Json(b), Buffer::Json(a)) => json_decoded(
            b.pending(),
            b.ended(),
            a.pending(),
            convert,
            r,
        ),
        (Buffer::Text(b), Buffer::Text(a)) => text_decoded(b.pending(), b.ended(), a.pending(), r),
        (Buffer::ServerSentEvent(b), Buffer::ServerSentEvent(a)) => event_decoded(
            b.state(),
            b.ended(),
            a.state(),
            r,
        ),
        _ => false,
    }
}

/// How a buffer of any kind is emptied: by its own rule, and its kind stays.
pub open spec fn all_decoded<J, F: Fn(&str) -> Result<J, String>>(
    before: Buffer,
    after: Buffer,
    convert: F,
    r: Attempt<J>,
) -> bool {
    match (before, after) {
        (Buffer::Lines(b), Buffer::Lines(a)) => lines_decoded(
            b.pending(),
            b.ended(),
            a.pending(),
            r,
        ),
        (Buffer::ServerSentEvent(b), Buffer::ServerSentEvent(a)) => events_decoded(
            b.state(),
            b.ended(),
            a.state(),
            r,
        ),
        _ => unit_decoded(before, after, convert, r),
    }
}

/// Two buffers of the same kind, with the same event so far.
pub open spec fn same_kind(before: Buffer, after: Buffer) -> bool {
    match (before, after) {
        (Buffer::Bytes(b), Buffer::Bytes(a)) => true,
        (Buffer::Lines(b), Buffer::Lines(a)) => true,
        (Buffer::Json(b), Buffer::Json(a)) => true,
        (Buffer::Text(b), Buffer::Text(a)) => true,
        (Buffer::ServerSentEvent(b), Buffer::ServerSentEvent(a)) => a.state().event
            == b.state().event,
        _ => false,
    }
}

impl BodyBuffer for Buffer {
    open spec fn pending(&self) -> Seq<u8> {
        match *self {
            Buffer::Bytes(b) => b.pending(),
            Buffer::Lines(b) => b.pending(),
            Buffer::Json(b) => b.pending(),
            Buffer::Text(b) => b.pending(),
            Buffer::ServerSentEvent(b) => b.pending(),
        }
    }

    open spec fn ended(&self) -> bool {
        match *self {
            Buffer::Bytes(b) => b.ended(),
            Buffer::Lines(b) => b.ended(),
            Buffer::Json(b) => b.ended(),
            Buffer::Text(b) => b.ended(),
            Buffer::ServerSentEvent(b) => b.ended(),
        }
    }

    fn write(&mut self, data: &[u8])
        ensures
            same_kind(*old(self), *final(self)),
    {
        match self {
            Buffer::Bytes(b) => b.write(data),
            Buffer::Lines(b) => b.write(data),
            Buffer::Json(b) => b.write(data),
            Buffer::Text(b) => b.write(data),
            Buffer::ServerSentEvent(b) => b.write(data),
        }
    }

    fn decode<J, F: Fn(&str) -> Result<J, String>>(&mut self, convert: &F) -> (r: Attempt<J>)
        ensures
            unit_decoded(*old(self), *final(self), *convert, r),
    {
        match self {
            Buffer::Bytes(b) => b.decode(convert),
            Buffer::Lines(b) => b.decode(convert),
            Buffer::Json(b) => b.decode(convert),
            Buffer::Text(b) => b.decode(convert),
            Buffer::ServerSentEvent(b) => b.decode(convert),
        }
    }

    fn decode_all<J, F: Fn(&str) -> Result<J, String>>(&mut self, convert: &F) -> (r: Attempt<J>)
        ensures
            all_decoded(*old(self), *final(self), *convert, r),
    {
        match self {
            Buffer::Bytes(b) => b.decode_all(convert),
            Buffer::Lines(b) => b.decode_all(convert),
            Buffer::Json(b) => b.decode_all(convert),
            Buffer::Text(b) => b.decode_all(convert),
            Buffer::ServerSentEvent(b) => b.decode_all(convert),
        }
    }

    fn close(&mut self)
        ensures
            same_kind(*old(self), *final(self)),
            final(self).ended() == (*final(self) !is Bytes),
    {
        match self {
            Buffer::Bytes(b) => b.close(),
            Buffer::Lines(b) => b.close(),
            Buffer::Json(b) => b.close(),
            Buffer::Text(b) => b.close(),
            Buffer::ServerSentEvent(b) => b.close(),
        }
    }
}

/// What a buffer handed out, by its contents.
pub enum DecodedView<J> {
    Bytes(Seq<u8>),
    Text(Seq<char>),
    Json(J),
    Event(EventContents),
    Lines(Seq<Seq<char>>),
    Events(Seq<EventContents>),
}

impl<J> Decoded<J> {
    /// What was handed out, by its contents.
    pub open spec fn contents(self) -> DecodedView<J> {
        match self {
            Decoded::Bytes(bytes) => DecodedView::Bytes(bytes@),
            Decoded::Text(text) => DecodedView::Text(text@),
            Decoded::Json(json) => DecodedView::Json(json),
            Decoded::Event(event) => DecodedView::Event(event@),
            Decoded::Lines(lines) => DecodedView::Lines(
                lines@.map_values(|line: String| line@),
            ),
            Decoded::Events(events) => DecodedView::Events(event_contents(events@)),
        }
    }
}

/// What an attempt to decode came to, by its contents: an error is the text that describes it.
pub open spec fn attempt_contents<J>(r: Attempt<J>) -> Result<Option<DecodedView<J>>, Seq<char>> {
    match r {
        Ok(Some(decoded)) => Ok(Some(decoded.contents())),
        Ok(None) => Ok(None),
        Err(e) => Err(e.message@),
    }
}

/// Whether a conversion makes the same of the same text each time.
pub open spec fn is_function<J, F: Fn(&str) -> Result<J, String>>(convert: F) -> bool {
    forall|a: &str, b: &str, x: Result<J, String>, y: Result<J, String>|
        #[trigger] call_ensures(convert, (a,), x) && #[trigger] call_ensures(convert, (b,), y)
            && a@ == b@ ==> x == y
}

/// What emptying a buffer gives depends on its kind, what it holds and whether that is complete,
/// and on nothing else. Of a JSON document this holds as long as the conversion makes the same of
/// the same text.
pub proof fn decoding_is_determined<J, F: Fn(&str) -> Result<J, String>>(
    before: Buffer,
    after: Buffer,
    r: Attempt<J>,
    other_before: Buffer,
    other_after: Buffer,
    other_r: Attempt<J>,
    convert: F,
)
    requires
        all_decoded(before, after, convert, r),
        all_decoded(other_before, other_after, convert, other_r),
        same_kind(before, other_before),
        before.pending() == other_before.pending(),
        before.ended() == other_before.ended(),
        before is Json ==> is_function::<J, F>(convert),
    ensures
        attempt_contents(r) == attempt_contents(other_r),
{
    if let (Buffer::Lines(b), Buffer::Lines(a)) = (before, after) {
        let lines = all_lines(b.pending(), b.ended());
        match (r, other_r) {
            (Ok(Some(Decoded::Lines(x))), Ok(Some(Decoded::Lines(y)))) => {
                assert(x@.map_values(|line: String| line@) =~= y@.map_values(
                    |line: String| line@,
                ));
            },
            (Ok(Some(Decoded::Lines(x))), Err(_)) => {
                let i = choose|i: int| #[trigger] first_bad(lines, i);
                assert(encodes(lines[i], x@[i]@));
            },
            (Err(_), Ok(Some(Decoded::Lines(x)))) => {
                let i = choose|i: int| #[trigger] first_bad(lines, i);
                assert(encodes(lines[i], x@[i]@));
            },
            (Err(e), Err(f)) => {
                let i = choose|i: int| #[trigger]
                    first_bad(lines, i) && e.message@ == utf8_error_text(lines[i]);
                let k = choose|k: int| #[trigger]
                    first_bad(lines, k) && f.message@ == utf8_error_text(lines[k]);
                assert(i == k) by {
                    if i < k {
                        assert(valid_utf8(lines[i]));
                    }
                    if k < i {
                        assert(valid_utf8(lines[k]));
                    }
                }
            },
            _ => {},
        }
    }
}

/// What is left of a body after all its complete lines.
pub open spec fn after_lines(pending: Seq<u8>, ended: bool) -> Seq<u8> {
    after_some(pending, ended, all_lines(pending, ended).len())
}

/// Lines lose nothing: put together again, with what is left, they are the body. Of a complete
/// body nothing is left.
pub proof fn lines_make_the_body(pending: Seq<u8>, ended: bool)
    ensures
        all_lines(pending, ended).flatten() + after_lines(pending, ended) == pending,
        ended ==> after_lines(pending, ended).len() == 0,
    decreases pending.len(),
{
    next_line_not_empty(pending, ended);
    match next_line(pending, ended) {
        Some(line) => {
            let rest = pending.skip(line.len() as int);
            let others = all_lines(rest, ended);
            lines_make_the_body(rest, ended);
            assert((seq![line] + others).drop_first() =~= others);
            assert(all_lines(pending, ended).flatten() =~= line + others.flatten());
            assert(line + (others.flatten() + after_lines(rest, ended)) =~= pending);
        },
        None => {
            assert(all_lines(pending, ended).flatten() =~= Seq::<u8>::empty());
        },
    }
}

/// Each line holds a newline at its end and nowhere else; the last line of a complete body may do
/// without.
pub proof fn lines_end_in_newlines(pending: Seq<u8>, ended: bool, i: int)
    requires
        0 <= i < all_lines(pending, ended).len(),
    ensures
        ({
            let lines = all_lines(pending, ended);
            let line = lines[i];
            &&& line.len() > 0
            &&& forall|k: int| 0 <= k < line.len() - 1 ==> #[trigger] line[k] != 10
            &&& line.last() == 10 || (ended && i == lines.len() - 1)
        }),
    decreases pending.len(),
{
    next_line_not_empty(pending, ended);
    line_length_found(pending);
    let line = next_line(pending, ended)->0;
    let rest = pending.skip(line.len() as int);
    if i > 0 {
        lines_end_in_newlines(rest, ended, i - 1);
        assert(all_lines(pending, ended)[i] == all_lines(rest, ended)[i - 1]);
    } else {
        if line_length(pending) is None {
            assert(line_length(rest) is None);
            assert(all_lines(rest, ended).len() == 0);
        }
    }
}

/// A newline that is there stays the first one, whatever follows.
proof fn line_length_prefix(a: Seq<u8>, b: Seq<u8>)
    requires
        line_length(a) is Some,
    ensures
        line_length(a + b) == line_length(a),
    decreases a.len(),
{
    assert((a + b)[0] == a[0]);
    if a[0] != 10 {
        assert((a + b).skip(1) =~= a.skip(1) + b);
        line_length_prefix(a.skip(1), b);
    }
}

/// A line that is complete is the next line, whatever follows.
pub proof fn next_line_prefix(a: Seq<u8>, b: Seq<u8>, ended: bool)
    requires
        next_line(a, false) is Some,
    ensures
        next_line(a + b, ended) == next_line(a, false),
        (a + b).skip(next_line(a, false)->0.len() as int) == a.skip(
            next_line(a, false)->0.len() as int,
        ) + b,
{
    line_length_prefix(a, b);
    line_length_found(a);
    let n = line_length(a)->0 as int;
    assert((a + b).take(n) =~= a.take(n));
    assert((a + b).skip(n) =~= a.skip(n) + b);
}

/// The lines of a body do not depend on the pieces it comes in: those of the first piece, then
/// those of what was left of it together with the second.
pub proof fn lines_in_pieces(a: Seq<u8>, b: Seq<u8>, ended: bool)
    ensures
        all_lines(a + b, ended) == all_lines(a, false) + all_lines(
            after_lines(a, false) + b,
            ended,
        ),
        after_lines(a + b, ended) == after_lines(after_lines(a, false) + b, ended),
    decreases a.len(),
{
    match next_line(a, false) {
        Some(line) => {
            let n = line.len() as int;
            next_line_not_empty(a, false);
            next_line_prefix(a, b, ended);
            lines_in_pieces(a.skip(n), b, ended);
            let later = all_lines(after_lines(a.skip(n), false) + b, ended);
            assert(seq![line] + (all_lines(a.skip(n), false) + later) =~= (seq![line] + all_lines(
                a.skip(n),
                false,
            )) + later);
        },
        None => {
            assert(Seq::<Seq<u8>>::empty() + all_lines(a + b, ended) =~= all_lines(a + b, ended));
        },
    }
}

/// An event stream to which more was written.
pub open spec fn extended(state: SseState, more: Seq<u8>) -> SseState {
    SseState { pending: state.pending + more, ..state }
}

/// The next event does not depend on what is written after it.
proof fn next_event_prefix(state: SseState, b: Seq<u8>, ended: bool)
    ensures
        match next_event(state, false) {
            (SseOutcome::Waiting, next) => next_event(extended(state, b), ended) == next_event(
                extended(next, b),
                ended,
            ),
            (outcome, next) => next_event(extended(state, b), ended) == (
                outcome,
                extended(next, b),
            ),
        },
    decreases state.pending.len(),
{
    if let Some(line) = next_line(state.pending, false) {
        next_line_not_empty(state.pending, false);
        next_line_prefix(state.pending, b, ended);
        let rest = state.pending.skip(line.len() as int);
        if valid_utf8(line) && without_line_end(decode_utf8(line)).len() != 0 {
            next_event_prefix(
                SseState { pending: rest, event: with_line(state.event, decode_utf8(line)) },
                b,
                ended,
            );
        }
    }
}

/// The events of a body do not depend on the pieces it comes in: those of the first piece, then
/// those of what was left of it together with the second.
pub proof fn events_in_pieces(state: SseState, b: Seq<u8>, ended: bool)
    requires
        all_events(state, false).1 is Waiting,
    ensures
        ({
            let first = all_events(state, false);
            let second = all_events(extended(first.2, b), ended);
            all_events(extended(state, b), ended) == (first.0 + second.0, second.1, second.2)
        }),
    decreases remaining(state),
{
    next_event_prefix(state, b, ended);
    next_event_shrinks(state, false);
    let (outcome, next) = next_event(state, false);
    let first = all_events(state, false);
    let second = all_events(extended(first.2, b), ended);
    match outcome {
        SseOutcome::Completed(event) => {
            events_in_pieces(next, b, ended);
            assert(seq![event] + (all_events(next, false).0 + second.0) =~= first.0 + second.0);
        },
        _ => {
            assert(first.0 + second.0 =~= second.0);
        },
    }
}

} // verus!
