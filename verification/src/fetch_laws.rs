//! What holds of the requests that a guest puts together, and of the responses it reads.

use vstd::prelude::*;
use vstd::utf8::{
    decode_utf8, decode_utf8_encode_utf8, encode_utf8, encode_utf8_decode_utf8,
    encode_utf8_valid_utf8, valid_utf8,
};

use crate::body_buffer::{
    all_decoded, all_events, all_lines, after_some, bytes_decoded, event_contents, event_decoded,
    events_decoded, first_bad, fresh_of_kind, is_kind, json_converted, json_decoded, line_decoded,
    line_length, line_length_found, lines_decoded, next_event, next_line, text_decoded,
    unit_decoded, Attempt, BodyBuffer, Buffer, Decoded, SseOutcome, SseState,
};
use crate::fetch::{
    after_read, are_fields, fetch, first_refused, header_entries, is_request, names_header,
    none_refused, read_length, read_refused, read_wholly, saturated, with_params, Applied,
    FetchError, OutboundRequest, Progress, PyResponse, ReceivedResponse, RequestBody, ResponseError,
};
use crate::keyed::{distinct_keys, effective, text_entries};
use crate::text::{ascii_lower, same_ignoring_case, utf8_error_text};
use crate::urls::{before_fragment, encoded_length, has_room, joint, url_parsed, url_with_pair};

verus! {

/// Each parameter is appended to what the ones before it made of the URL. The first one that is no
/// text, or finds no room, decides what becomes of the request.
pub proof fn parameters_are_appended_in_order<E>(
    url: Seq<char>,
    params: Seq<Result<(String, String), E>>,
    next: Result<(String, String), E>,
)
    ensures
        with_params(url, Seq::<Result<(String, String), E>>::empty()) == Applied::<E>::Url(url),
        with_params(url, params.push(next)) == match with_params(url, params) {
            Applied::Url(so_far) => match next {
                Err(e) => Applied::Refused(e),
                Ok(pair) => if has_room(so_far, pair.0@, pair.1@) {
                    Applied::Url(url_with_pair(so_far, pair.0@, pair.1@))
                } else {
                    Applied::TooLong
                },
            },
            stopped => stopped,
        },
    decreases params.len(),
{
    let all = params.push(next);
    if params.len() == 0 {
        assert(all[0] == next);
        assert(all.skip(1) =~= Seq::<Result<(String, String), E>>::empty());
        if let Ok((key, value)) = next {
            let one = url_with_pair(url, key@, value@);
            assert(with_params(one, all.skip(1)) == Applied::<E>::Url(one));
        }
    } else {
        assert(all[0] == params[0]);
        assert(all.skip(1) =~= params.skip(1).push(next));
        if let Ok((key, value)) = params[0] {
            if has_room(url, key@, value@) {
                parameters_are_appended_in_order(
                    url_with_pair(url, key@, value@),
                    params.skip(1),
                    next,
                );
            }
        }
    }
}

/// Whether a header that is given is sent with its name and its value.
pub open spec fn is_sent<E>(given: Result<(String, String), E>, field: (String, Vec<u8>)) -> bool {
    given matches Ok(pair) && field.0 == pair.0 && decode_utf8(field.1@) == pair.1@
}

/// The headers that are given are sent first, unchanged and in order. One more is sent exactly
/// where the body is an object and no header that is given, in whatever case, is its content type.
pub proof fn headers_are_sent_as_given<E>(
    headers: Seq<Result<(String, String), E>>,
    is_object: bool,
    fields: Seq<(String, Vec<u8>)>,
)
    requires
        are_fields(headers, is_object, fields),
    ensures
        forall|i: int| 0 <= i < headers.len() ==> #[trigger] is_sent(headers[i], fields[i]),
        !is_object ==> fields.len() == headers.len(),
        names_header(headers, "content-type"@) ==> fields.len() == headers.len(),
        is_object && !names_header(headers, "content-type"@) ==> {
            &&& fields.len() == headers.len() + 1
            &&& fields.last().0@ == "content-type"@
            &&& decode_utf8(fields.last().1@) == "application/json"@
        },
{
    assert forall|i: int| 0 <= i < headers.len() implies #[trigger] is_sent(
        headers[i],
        fields[i],
    ) by {
        assert(crate::fetch::is_field(headers[i], fields[i]));
        encode_utf8_decode_utf8(headers[i]->Ok_0.1@);
    }
    encode_utf8_decode_utf8("application/json"@);
}

/// Letters are the same in either case, and nothing else is the same as anything but itself.
pub proof fn header_names_ignore_case(a: Seq<char>, b: Seq<char>)
    ensures
        same_ignoring_case(a, b) <==> a.len() == b.len() && forall|i: int|
            0 <= i < a.len() ==> same_letter(#[trigger] a[i], b[i]),
{
    let x = a.map_values(|c: char| ascii_lower(c));
    let y = b.map_values(|c: char| ascii_lower(c));
    if same_ignoring_case(a, b) {
        assert(x.len() == y.len());
        assert forall|i: int| 0 <= i < a.len() implies same_letter(#[trigger] a[i], b[i]) by {
            assert(x[i] == y[i]);
            letters_in_either_case(a[i], b[i]);
        }
    }
    if a.len() == b.len() && forall|i: int| 0 <= i < a.len() ==> same_letter(#[trigger] a[i], b[i]) {
        assert forall|i: int| 0 <= i < x.len() implies x[i] == y[i] by {
            assert(same_letter(a[i], b[i]));
            letters_in_either_case(a[i], b[i]);
        }
        assert(x =~= y);
    }
}

/// Whether two characters are equal, or an ASCII letter in its two cases.
pub open spec fn same_letter(a: char, b: char) -> bool {
    let m = a as u32;
    let n = b as u32;
    ||| m == n
    ||| 65 <= m <= 90 && n == m + 32
    ||| 65 <= n <= 90 && m == n + 32
}

/// Two characters have the same lower case exactly where they are the same letter.
proof fn letters_in_either_case(a: char, b: char)
    ensures
        ascii_lower(a) == ascii_lower(b) <==> same_letter(a, b),
{
    let m = a as u32;
    let n = b as u32;
    if 65 <= m <= 90 {
        assert(ascii_lower(a) as u32 == m + 32);
    }
    if 65 <= n <= 90 {
        assert(ascii_lower(b) as u32 == n + 32);
    }
}

/// A request keeps its method, URL and headers, waits no longer than asked for, and has the body
/// that was given: none, these bytes, or what an object is written as. It fails only where an
/// object cannot be written.
pub proof fn request_is_sent_as_given<E, S: FnOnce() -> Option<Vec<u8>>>(
    method: Seq<char>,
    url: Seq<char>,
    fields: Seq<(String, Vec<u8>)>,
    body: RequestBody<S>,
    timeout: Option<u128>,
    r: Result<OutboundRequest, FetchError<E>>,
)
    requires
        is_request(method, url, fields, body, timeout, r),
    ensures
        !(body is Object) ==> r is Ok,
        r is Err ==> r->Err_0 is Body,
        r matches Ok(request) ==> {
            &&& request.method@ == method
            &&& request.url@ == url
            &&& request.headers@ == fields
            &&& body is Empty ==> request.body is None
            &&& body matches RequestBody::Bytes(bytes) ==> request.body == Some(bytes)
            &&& body is Object ==> request.body is Some
            &&& timeout is None <==> request.timeout_ms is None
            &&& timeout is Some ==> request.timeout_ms->0 <= timeout->0
        },
{
}

/// A time limit is kept where it fits 64 bits, and is otherwise the longest that does.
pub proof fn time_limits_saturate(millis: u128)
    ensures
        saturated(None) is None,
        saturated(Some(millis)) is Some,
        millis <= u64::MAX ==> saturated(Some(millis))->0 == millis,
        millis > u64::MAX ==> saturated(Some(millis))->0 == u64::MAX,
{
}

/// A read gives as many bytes as it asks for, if there are so many, and otherwise all that are
/// left; one that asks for a negative number gives all that are left. It reaches the end exactly
/// where nothing is left after it.
pub proof fn reads_give_what_they_ask_for(progress: Progress, size: i64)
    ensures
        0 <= size <= progress.rest.len() ==> read_length(progress.rest, size) == size,
        size < 0 || size > progress.rest.len() ==> read_length(progress.rest, size)
            == progress.rest.len(),
        after_read(progress, size).rest.len() + read_length(progress.rest, size)
            == progress.rest.len(),
        after_read(progress, size).consumed <==> after_read(progress, size).rest.len() == 0,
        after_read(progress, size).closed == progress.closed,
{
}

/// A response can be read until it is closed or its end was reached. A closed one says that it is
/// closed, whether or not it was read.
pub proof fn finished_responses_refuse_reads(progress: Progress, size: i64)
    ensures
        progress.closed ==> read_refused(progress, size) == Some(ResponseError::Closed),
        !progress.closed && progress.consumed ==> read_refused(progress, size) == Some(
            ResponseError::AlreadyRead,
        ),
        !progress.closed && !progress.consumed && size <= u32::MAX ==> read_refused(progress, size)
            is None,
{
}

/// Bytes are handed out as they came, all that are there, and nothing is handed out where there
/// are none.
pub proof fn bytes_are_handed_out<J>(before: Seq<u8>, after: Seq<u8>, r: Attempt<J>)
    requires
        bytes_decoded(before, after, r),
    ensures
        after.len() == 0,
        before.len() == 0 ==> r matches Ok(None),
        before.len() > 0 ==> (r matches Ok(Some(Decoded::Bytes(bytes))) && bytes@ + after == before),
{
    assert(before + after =~= before);
}

/// A text that was written whole comes out whole, once the body is complete and not before.
pub proof fn text_comes_out_whole<J>(text: Seq<char>, ended: bool, after: Seq<u8>, r: Attempt<J>)
    requires
        text_decoded(encode_utf8(text), ended, after, r),
    ensures
        !ended ==> r matches Ok(None),
        !ended ==> after == encode_utf8(text),
        ended ==> after.len() == 0,
        ended && encode_utf8(text).len() > 0 ==> (r matches Ok(Some(Decoded::Text(t))) && t@ == text),
        ended && text.len() == 0 ==> r matches Ok(None),
        !(r is Err),
{
    encode_utf8_valid_utf8(text);
    encode_utf8_decode_utf8(text);
    if text.len() == 0 {
        assert(encode_utf8(text) =~= Seq::<u8>::empty());
    }
}

/// A complete body that is not text is refused and lost.
pub proof fn other_bodies_are_no_text<J>(before: Seq<u8>, after: Seq<u8>, r: Attempt<J>)
    requires
        text_decoded(before, true, after, r),
        forall|text: Seq<char>| before != #[trigger] encode_utf8(text),
    ensures
        r is Err,
        after.len() == 0,
{
    if valid_utf8(before) {
        decode_utf8_encode_utf8(before);
        assert(before == encode_utf8(decode_utf8(before)));
    }
    if before.len() == 0 {
        assert(encode_utf8(Seq::<char>::empty()) =~= Seq::<u8>::empty());
        assert(before =~= encode_utf8(Seq::<char>::empty()));
    }
}

/// A document that was converted is handed out, and the body is then empty. One that cannot be
/// converted is refused with the reason and stays, so that it can be tried again.
pub proof fn documents_stay_until_converted<J>(
    outcome: Result<J, String>,
    before: Seq<u8>,
    after: Seq<u8>,
    r: Attempt<J>,
)
    requires
        json_converted(outcome, before, after, r),
    ensures
        outcome matches Ok(value) ==> r matches Ok(Some(Decoded::Json(j))) && j == value,
        outcome is Ok ==> after.len() == 0,
        outcome matches Err(message) ==> r matches Err(e) && e.message == message,
        outcome is Err ==> after == before,
{
}

/// A line ends with its newline, and the body goes on behind it.
proof fn line_up_to_newline(line: Seq<u8>, rest: Seq<u8>, ended: bool)
    requires
        forall|i: int| 0 <= i < line.len() ==> #[trigger] line[i] != 10,
    ensures
        next_line(line.push(10) + rest, ended) == Some(line.push(10)),
        (line.push(10) + rest).skip(line.len() as int + 1) == rest,
{
    let body = line.push(10) + rest;
    line_length_found(body);
    assert(body[line.len() as int] == 10);
    match line_length(body) {
        Some(n) => {
            if n - 1 < line.len() {
                assert(body[n - 1] == line[n - 1]);
            }
            if n - 1 > line.len() {
                assert(body[line.len() as int] != 10);
            }
            assert(body.take(n as int) =~= line.push(10));
        },
        None => {},
    }
    assert(body.skip(line.len() as int + 1) =~= rest);
}

/// The next line is handed out with its newline, and the body goes on behind it. A line that is
/// not text is refused, and the body goes on behind it all the same.
pub proof fn body_goes_on_behind_a_line<J>(
    line: Seq<u8>,
    rest: Seq<u8>,
    ended: bool,
    after: Seq<u8>,
    r: Attempt<J>,
)
    requires
        forall|i: int| 0 <= i < line.len() ==> #[trigger] line[i] != 10,
        line_decoded(line.push(10) + rest, ended, after, r),
    ensures
        after == rest,
        r is Err <==> !valid_utf8(line.push(10)),
        valid_utf8(line.push(10)) ==> (r matches Ok(Some(Decoded::Text(text))) && encode_utf8(text@)
            == line.push(10)),
{
    line_up_to_newline(line, rest, ended);
    if valid_utf8(line.push(10)) {
        decode_utf8_encode_utf8(line.push(10));
    }
}

/// What is left at the end of a body without a newline is its last line.
pub proof fn last_line_needs_no_newline<J>(line: Seq<u8>, after: Seq<u8>, r: Attempt<J>)
    requires
        line.len() > 0,
        forall|i: int| 0 <= i < line.len() ==> #[trigger] line[i] != 10,
        line_decoded(line, true, after, r),
    ensures
        after.len() == 0,
        r is Err <==> !valid_utf8(line),
        valid_utf8(line) ==> (r matches Ok(Some(Decoded::Text(text))) && encode_utf8(text@) == line),
{
    line_length_found(line);
    if let Some(n) = line_length(line) {
        assert(line[n - 1] == 10);
    }
    if valid_utf8(line) {
        decode_utf8_encode_utf8(line);
    }
}

/// Asking for all lines at once gives the lines that asking one by one gives: the first, then
/// those of the rest. Where the first is not text, neither gives any.
pub proof fn lines_come_one_by_one_or_at_once<J, K>(
    before: Seq<u8>,
    ended: bool,
    between: Seq<u8>,
    first: Attempt<J>,
    last: Seq<u8>,
    all: Attempt<K>,
)
    requires
        before.len() > 0,
        line_decoded(before, ended, between, first),
        lines_decoded(before, ended, last, all),
    ensures
        first matches Ok(None) ==> all matches Ok(Some(Decoded::Lines(texts))) && texts@.len() == 0
            && last == before,
        first matches Ok(Some(Decoded::Text(text))) ==> (all matches Ok(Some(Decoded::Lines(texts)))
            ==> texts@.len() > 0 && texts@[0]@ == text@ && texts@.len() == 1 + all_lines(
            between,
            ended,
        ).len()),
        first is Err ==> all is Err && last == between,
        all is Err ==> exists|i: int| first_bad(all_lines(before, ended), i),
{
    let lines = all_lines(before, ended);
    crate::body_buffer::next_line_not_empty(before, ended);
    match next_line(before, ended) {
        None => {
            assert(lines.len() == 0);
            if let Err(e) = all {
                let i = choose|i: int| #[trigger]
                    first_bad(lines, i) && e.message@ == utf8_error_text(lines[i])
                        && last == after_some(before, ended, (i + 1) as nat);
                assert(false);
            }
        },
        Some(line) => {
            assert(lines == seq![line] + all_lines(between, ended));
            assert(lines[0] == line);
            match all {
                Ok(Some(Decoded::Lines(texts))) => {
                    assert(crate::body_buffer::encodes(lines[0], texts@[0]@));
                },
                Err(e) => {
                    let i = choose|i: int| #[trigger]
                        first_bad(lines, i) && e.message@ == utf8_error_text(lines[i])
                            && last == after_some(before, ended, (i + 1) as nat);
                    assert(first_bad(lines, i));
                    if !valid_utf8(line) {
                        if i > 0 {
                            assert(valid_utf8(lines[0]));
                        }
                        reveal_with_fuel(after_some, 2);
                    }
                },
                _ => {},
            }
        },
    }
}

/// Asking for all events at once gives the events that asking one by one gives: the first, then
/// those of the rest. Nothing is given where nothing is complete, and a line that is not text is an
/// error either way.
pub proof fn events_come_one_by_one_or_at_once<J, K>(
    before: SseState,
    ended: bool,
    between: SseState,
    first: Attempt<J>,
    last: SseState,
    all: Attempt<K>,
)
    requires
        before.pending.len() > 0,
        event_decoded(before, ended, between, first),
        events_decoded(before, ended, last, all),
    ensures
        first matches Ok(None) ==> all matches Ok(Some(Decoded::Events(events))) && events@.len()
            == 0 && last == between,
        first is Err ==> all is Err && last == between,
        first matches Ok(Some(Decoded::Event(event))) ==> all_events(before, ended).0 == seq![
            event@,
        ] + all_events(between, ended).0 && last == all_events(between, ended).2,
        first is Ok ==> first->Ok_0 is None || first->Ok_0->0 is Event,
        all matches Ok(given) ==> given matches Some(Decoded::Events(events)) && event_contents(
            events@,
        ) == all_events(before, ended).0,
        all is Err <==> all_events(before, ended).1 is NotText,
{
    crate::body_buffer::next_event_shrinks(before, ended);
    match next_event(before, ended).0 {
        SseOutcome::Waiting => {
            assert(all_events(before, ended).0.len() == 0);
        },
        SseOutcome::Completed(_) => {},
        SseOutcome::NotText(_) => {},
    }
}

/// A buffer reads a body as its kind says: raw bytes, lines, a document, a text, or events. There
/// are no other kinds.
pub proof fn kinds_say_what_is_read(kind: Seq<char>, buffer: Buffer)
    requires
        is_kind(kind),
        fresh_of_kind(kind, buffer),
    ensures
        buffer is Bytes <==> kind == "binary"@ || kind == "bytes"@,
        buffer is Lines <==> kind == "lines"@,
        buffer is Json <==> kind == "json"@,
        buffer is Text <==> kind == "text"@,
        buffer is ServerSentEvent <==> kind == "sse"@,
        buffer.pending().len() == 0,
        !buffer.ended(),
{
    reveal_strlit("binary");
    reveal_strlit("bytes");
    reveal_strlit("lines");
    reveal_strlit("json");
    reveal_strlit("text");
    reveal_strlit("sse");
    assert("binary"@.len() == 6 && "bytes"@.len() == 5 && "lines"@.len() == 5);
    assert("json"@.len() == 4 && "text"@.len() == 4 && "sse"@.len() == 3);
    assert("bytes"@[0] == 'b' && "lines"@[0] == 'l' && "json"@[0] == 'j' && "text"@[0] == 't');
}

/// A buffer stays of its kind, and gives what its kind says, whether it is asked for the next unit
/// or for all of them.
pub proof fn buffers_give_their_kind<J, F: Fn(&str) -> Result<J, String>>(
    before: Buffer,
    after: Buffer,
    convert: F,
    unit: Attempt<J>,
    all: Attempt<J>,
)
    ensures
        unit_decoded(before, after, convert, unit) || all_decoded(before, after, convert, all) ==> {
            &&& before is Bytes <==> after is Bytes
            &&& before is Lines <==> after is Lines
            &&& before is Json <==> after is Json
            &&& before is Text <==> after is Text
            &&& before is ServerSentEvent <==> after is ServerSentEvent
        },
        unit_decoded(before, after, convert, unit) ==> (unit matches Ok(Some(given)) ==> {
            &&& given is Bytes <==> before is Bytes
            &&& given is Text <==> before is Lines || before is Text
            &&& given is Json <==> before is Json
            &&& given is Event <==> before is ServerSentEvent
        }),
        all_decoded(before, after, convert, all) ==> (all matches Ok(Some(given)) ==> {
            &&& given is Bytes <==> before is Bytes
            &&& given is Lines <==> before is Lines
            &&& given is Text <==> before is Text
            &&& given is Json <==> before is Json
            &&& given is Events <==> before is ServerSentEvent
        }),
{
}

/// A document is converted once the body is complete and not before, from the whole text of the
/// body. A body that is not text is refused and stays.
pub proof fn documents_are_converted_whole<J, F: Fn(&str) -> Result<J, String>>(
    before: Seq<u8>,
    ended: bool,
    after: Seq<u8>,
    convert: F,
    r: Attempt<J>,
)
    requires
        json_decoded(before, ended, after, convert, r),
    ensures
        !ended || before.len() == 0 ==> r matches Ok(None),
        !ended || before.len() == 0 ==> after == before,
        ended && before.len() > 0 && !valid_utf8(before) ==> r is Err && after == before,
        ended && before.len() > 0 && !valid_utf8(before) ==> r->Err_0.message@
            == "Invalid UTF-8: "@ + utf8_error_text(before),
        ended && before.len() > 0 && valid_utf8(before) ==> exists|text: &str, outcome: Result<
            J,
            String,
        >| #[trigger]
            call_ensures(convert, (text,), outcome) && encode_utf8(text@) == before && (r is Ok
                <==> outcome is Ok),
{
    if ended && before.len() > 0 && valid_utf8(before) {
        decode_utf8_encode_utf8(before);
        let (text, outcome) = choose|text: &str, outcome: Result<J, String>| #[trigger]
            call_ensures(convert, (text,), outcome) && text@ == decode_utf8(before)
                && json_converted(outcome, before, after, r);
        assert(call_ensures(convert, (text,), outcome) && encode_utf8(text@) == before);
    }
}

/// Whether the headers of a response are these texts.
pub open spec fn are_sent(
    headers: Seq<(String, Vec<u8>)>,
    given: Seq<(Seq<char>, Seq<char>)>,
) -> bool {
    &&& headers.len() == given.len()
    &&& forall|i: int|
        0 <= i < given.len() ==> (#[trigger] headers[i]).0@ == given[i].0 && headers[i].1@
            == encode_utf8(given[i].1)
}

/// A response that is open gives its headers as the texts that were sent, each name once, with its
/// last value. One header that is not text refuses all of them.
pub proof fn headers_are_read_back(
    response: &PyResponse,
    given: Seq<(Seq<char>, Seq<char>)>,
    r: Result<Vec<(String, String)>, ResponseError>,
)
    requires
        call_ensures(PyResponse::headers, (response,), r),
    ensures
        response.progress().closed ==> r is Err && r->Err_0 is Closed,
        !response.progress().closed && are_sent(response.received_headers(), given) ==> r is Ok
            && distinct_keys(text_entries(r->Ok_0@)) && forall|name: Seq<char>| #[trigger]
            effective(text_entries(r->Ok_0@), name) == effective(given, name),
        r is Err && !response.progress().closed ==> exists|i: int|
            0 <= i < response.received_headers().len() && !valid_utf8(
                (#[trigger] response.received_headers()[i]).1@,
            ),
{
    let headers = response.received_headers();
    if are_sent(headers, given) {
        assert forall|i: int| 0 <= i < headers.len() implies valid_utf8(
            (#[trigger] headers[i]).1@,
        ) by {
            encode_utf8_valid_utf8(given[i].1);
        }
        assert forall|i: int| 0 <= i < given.len() implies #[trigger] header_entries(headers)[i]
            == given[i] by {
            encode_utf8_decode_utf8(given[i].1);
            assert(headers[i].0@ == given[i].0 && headers[i].1@ == encode_utf8(given[i].1));
        }
        assert(header_entries(headers) =~= given);
    }
}

/// A response that is open gives the status that was received.
pub proof fn status_is_read_back(
    received: ReceivedResponse,
    response: PyResponse,
    r: Result<u16, ResponseError>,
)
    requires
        call_ensures(
            PyResponse::try_from,
            (Ok::<ReceivedResponse, String>(received),),
            Ok::<PyResponse, ResponseError>(response),
        ),
        call_ensures(PyResponse::status, (&response,), r),
    ensures
        r == Ok::<u16, ResponseError>(received.status),
        response.progress().rest == received.body@,
        response.received_headers() == received.headers@,
        read_refused(response.progress(), 0i64) is None,
{
}

/// A request is put together only where every header and every parameter is text, the URL can be
/// parsed, and the body can be written; it then goes to the URL with all parameters. A header that
/// is no text is what is reported first, before anything is said of the URL.
pub proof fn requests_need_every_part<E, S: FnOnce() -> Option<Vec<u8>>>(
    method: &str,
    url: &str,
    params: Vec<Result<(String, String), E>>,
    headers: Vec<Result<(String, String), E>>,
    body: RequestBody<S>,
    timeout: Option<u128>,
    r: Result<OutboundRequest, FetchError<E>>,
)
    requires
        call_ensures(fetch::<E, S>, (method, url, params, headers, body, timeout), r),
    ensures
        r is Ok ==> forall|i: int| 0 <= i < headers@.len() ==> (#[trigger] headers@[i]) is Ok,
        r is Ok ==> forall|i: int| 0 <= i < params@.len() ==> (#[trigger] params@[i]) is Ok,
        r matches Ok(request) ==> {
            &&& url_parsed(url@) is Ok
            &&& with_params(url_parsed(url@)->Ok_0, params@) == Applied::<E>::Url(request.url@)
            &&& request.method@ == method@
            &&& request.headers@.len() >= headers@.len()
            &&& forall|i: int|
                0 <= i < headers@.len() ==> #[trigger] is_sent(headers@[i], request.headers@[i])
        },
        (exists|i: int| 0 <= i < headers@.len() && (#[trigger] headers@[i]) is Err) ==> r is Err
            && r->Err_0 is Extract && exists|i: int|
            0 <= i < headers@.len() && #[trigger] headers@[i] == Err::<(String, String), E>(
                r->Err_0->Extract_0,
            ) && forall|k: int| 0 <= k < i ==> (#[trigger] headers@[k]) is Ok,
        r matches Err(FetchError::Url(message)) ==> url_parsed(url@) == Err::<Seq<char>, Seq<char>>(
            message@,
        ),
        r matches Err(FetchError::Body) ==> body is Object,
{
    if none_refused(headers@) {
        if let Ok(text) = url_parsed(url@) {
            match with_params(text, params@) {
                Applied::Url(whole) => {
                    parameters_are_texts(text, params@);
                    let fields = choose|fields: Seq<(String, Vec<u8>)>| #[trigger]
                        are_fields(headers@, body is Object, fields) && is_request(
                            method@,
                            whole,
                            fields,
                            body,
                            timeout,
                            r,
                        );
                    headers_are_sent_as_given(headers@, body is Object, fields);
                },
                _ => {},
            }
        }
    } else {
        let i = choose|i: int| #[trigger]
            first_refused(headers@, i) && r == Err::<OutboundRequest, FetchError<E>>(
                FetchError::Extract(headers@[i]->Err_0),
            );
        assert(headers@[i] == Err::<(String, String), E>(headers@[i]->Err_0));
    }
}

/// Parameters that were all appended are all texts.
proof fn parameters_are_texts<E>(url: Seq<char>, params: Seq<Result<(String, String), E>>)
    requires
        with_params(url, params) is Url,
    ensures
        forall|i: int| 0 <= i < params.len() ==> (#[trigger] params[i]) is Ok,
    decreases params.len(),
{
    if params.len() > 0 {
        if let Ok((key, value)) = params[0] {
            parameters_are_texts(url_with_pair(url, key@, value@), params.skip(1));
            assert forall|i: int| 0 <= i < params.len() implies (#[trigger] params[i]) is Ok by {
                if i > 0 {
                    assert(params.skip(1)[i - 1] == params[i]);
                }
            }
        }
    }
}

/// Bytes take at least their own number and at most three times as many in a query.
proof fn encoded_lengths_are_bounded(bytes: Seq<u8>)
    ensures
        bytes.len() <= encoded_length(bytes) <= 3 * bytes.len(),
    decreases bytes.len(),
{
    if bytes.len() > 0 {
        encoded_lengths_are_bounded(bytes.drop_last());
    }
}

/// A parameter finds room in every URL that stays within 32 bits even where every byte of the
/// parameter takes three. In a URL without a fragment it finds room exactly where there is a query
/// or one can begin within 32 bits. A parameter that is longer than 32 bits can count finds none
/// before a fragment.
pub proof fn parameters_find_room(url: Seq<char>, key: Seq<char>, value: Seq<char>)
    ensures
        encode_utf8(url).len() + 3 * encode_utf8(key).len() + 3 * encode_utf8(value).len() + 2
            <= u32::MAX ==> has_room(url, key, value),
        !encode_utf8(url).contains(0x23) ==> (has_room(url, key, value) <==> encode_utf8(
            url,
        ).contains(0x3f) || encode_utf8(url).len() <= u32::MAX),
        encode_utf8(url).contains(0x23) && encode_utf8(key).len() + encode_utf8(value).len()
            >= u32::MAX ==> !has_room(url, key, value),
{
    let bytes = encode_utf8(url);
    encoded_lengths_are_bounded(encode_utf8(key));
    encoded_lengths_are_bounded(encode_utf8(value));
    bytes.index_of_first_ensures(0x23u8);
    before_fragment(bytes).index_of_first_ensures(0x3fu8);
    assert(before_fragment(bytes).len() <= bytes.len());
}

/// A parameter follows a query that says something with an ampersand, begins a query with a question
/// mark, and needs neither behind a question mark that ends the URL.
pub proof fn parameters_are_set_apart(kept: Seq<u8>, rest: Seq<u8>)
    requires
        !kept.contains(0x3f),
    ensures
        joint(kept) == 1,
        joint(kept.push(0x3f)) == 0,
        rest.len() > 0 ==> joint(kept.push(0x3f) + rest) == 1,
{
    kept.index_of_first_ensures(0x3fu8);
    let begun = kept.push(0x3f);
    let n = kept.len() as int;
    begun.index_of_first_ensures(0x3fu8);
    assert(begun[n] == 0x3f);
    assert(begun.contains(0x3fu8));
    let at = begun.index_of_first(0x3fu8)->0;
    if at < n {
        assert(kept[at] == 0x3f);
    }
    let whole = begun + rest;
    whole.index_of_first_ensures(0x3fu8);
    assert(whole[n] == 0x3f);
    assert(whole.contains(0x3fu8));
    let first = whole.index_of_first(0x3fu8)->0;
    if first < n {
        assert(kept[first] == 0x3f);
    }
}

/// Letters, digits, a space, and the four signs that stand for themselves take one byte in a query,
/// and any other byte takes three.
pub proof fn encoded_bytes(byte: u8)
    ensures
        encoded_length(seq![byte]) == 1 || encoded_length(seq![byte]) == 3,
        encoded_length(seq![byte]) == 1 <==> byte == 32 || byte == 42 || byte == 45 || byte == 46
            || byte == 95 || 48 <= byte <= 57 || 65 <= byte <= 90 || 97 <= byte <= 122,
{
    assert(seq![byte].drop_last() =~= Seq::<u8>::empty());
    assert(encoded_length(Seq::<u8>::empty()) == 0);
}

/// A response that can be read is read as a text whole: what comes out is the text that was sent, in
/// reads of whatever size, and the response is then read to its end.
pub proof fn texts_are_read_whole<J, F: Fn(&str) -> Result<J, String>>(
    before: Progress,
    after: Progress,
    size: i64,
    convert: F,
    text: Seq<char>,
    r: Result<Option<Decoded<J>>, ResponseError>,
)
    requires
        read_wholly(before, after, "text"@, size, convert, r),
        read_refused(before, size) is None,
        size != 0,
        before.rest == encode_utf8(text),
        before.rest.len() > 0,
    ensures
        r matches Ok(Some(Decoded::Text(read))) && read@ == text,
        after.rest.len() == 0 && after.consumed,
        read_refused(after, size) is Some,
{
    reveal_strlit("text");
    reveal_strlit("binary");
    reveal_strlit("bytes");
    reveal_strlit("lines");
    reveal_strlit("json");
    assert("text"@.len() == 4 && "binary"@.len() == 6 && "bytes"@.len() == 5 && "lines"@.len() == 5);
    assert("text"@[0] == 't' && "json"@[0] == 'j');
    encode_utf8_valid_utf8(text);
    encode_utf8_decode_utf8(text);
}

/// A response that can be read is read as bytes whole: what comes out is what was sent.
pub proof fn bytes_are_read_whole<J, F: Fn(&str) -> Result<J, String>>(
    before: Progress,
    after: Progress,
    size: i64,
    convert: F,
    r: Result<Option<Decoded<J>>, ResponseError>,
)
    requires
        read_wholly(before, after, "bytes"@, size, convert, r),
        read_refused(before, size) is None,
        size != 0,
        before.rest.len() > 0,
    ensures
        r matches Ok(Some(Decoded::Bytes(read))) && read@ == before.rest,
        after.rest.len() == 0 && after.consumed,
{
}

/// A response is not read where it was read or closed before, or where there is no such kind: the
/// first of these that holds is reported, and nothing is read.
pub proof fn refused_reads_read_nothing<J, F: Fn(&str) -> Result<J, String>>(
    before: Progress,
    after: Progress,
    kind: Seq<char>,
    size: i64,
    convert: F,
    r: Result<Option<Decoded<J>>, ResponseError>,
)
    requires
        read_wholly(before, after, kind, size, convert, r),
        before.consumed || before.closed || !is_kind(kind),
    ensures
        after == before,
        r is Err,
        before.consumed ==> r->Err_0 is AlreadyRead,
        !before.consumed && !is_kind(kind) ==> r->Err_0 is InvalidKind && r->Err_0->InvalidKind_0@
            == kind,
        !before.consumed && is_kind(kind) ==> r->Err_0 is Closed,
{
}

} // verus!
