//! What holds of a guest's HTTP requests on their way to the host and back.

use http::{HeaderMap, HeaderValue};
use vstd::prelude::*;

use crate::engine_laws::decimal_stands_for_its_number;
use crate::outgoing::{
    acceptable, all_data, all_digits, body_bytes, body_timeout, declared_length, digits_value,
    first_byte_timeout, first_of, frame_error, header_values, host_receives_whole_body,
    is_admission, is_digit, read_frame, read_frames, unsigned_value, Admitted, BodyFrame, Exchange,
    ExchangeAction, ExchangeEvent, HttpError, RequestOptions, RequestParts, Timeout,
    DEFAULT_FIRST_BYTE_SECONDS, MAX_OUTGOING_HTTP_BODY_BYTES, MAX_OUTGOING_HTTP_BODY_READ_SECONDS,
};
use crate::python_script::decimal;

verus! {

/// The time that the guest asks for to connect, if it does.
pub open spec fn asked_to_connect(options: Option<RequestOptions>) -> Option<Timeout> {
    match options {
        Some(asked) => asked.connect_timeout,
        None => None,
    }
}

/// The time that the guest asks for until the response begins, if it does.
pub open spec fn asked_to_wait(options: Option<RequestOptions>) -> Option<Timeout> {
    match options {
        Some(asked) => asked.first_byte_timeout,
        None => None,
    }
}

/// A body is read for no longer than the guest asks for to connect, and in no case for longer than
/// the maximum; where both allow it, for as long as the shorter one.
pub proof fn body_time_is_bounded(options: Option<RequestOptions>)
    ensures
        body_timeout(options).length() <= MAX_OUTGOING_HTTP_BODY_READ_SECONDS * 1_000_000_000,
        asked_to_connect(options) matches Some(asked) ==> body_timeout(options).length()
            <= asked.length() && (body_timeout(options) == asked || asked.length()
            > MAX_OUTGOING_HTTP_BODY_READ_SECONDS * 1_000_000_000),
        body_timeout(options).length() == MAX_OUTGOING_HTTP_BODY_READ_SECONDS * 1_000_000_000
            || asked_to_connect(options) == Some(body_timeout(options)),
{
}

/// The response is awaited for as long as the guest asks for, and for the default time where it
/// does not ask. What it asks for to connect, or between bytes, does not matter.
pub proof fn response_time_is_as_asked(options: Option<RequestOptions>)
    ensures
        asked_to_wait(options) matches Some(asked) ==> first_byte_timeout(options) == asked,
        asked_to_wait(options) is None ==> first_byte_timeout(options).length()
            == DEFAULT_FIRST_BYTE_SECONDS * 1_000_000_000,
{
}

/// A request is refused at once exactly where it declares a body over the limit, with the limit.
/// Otherwise it goes on as it was sent, with nothing of its body read.
pub proof fn oversized_requests_are_refused_at_once(
    parts: RequestParts,
    declared: Option<nat>,
    options: Option<RequestOptions>,
    r: Result<Admitted, HttpError>,
)
    requires
        is_admission(parts, declared, options, r),
    ensures
        r is Err <==> declared is Some && declared->0 > MAX_OUTGOING_HTTP_BODY_BYTES,
        r is Err ==> r->Err_0 == HttpError::HttpRequestBodySize(
            Some(MAX_OUTGOING_HTTP_BODY_BYTES as u64),
        ),
        r is Ok ==> r->Ok_0.exchange is ReadingBody && r->Ok_0.exchange->parts == parts
            && r->Ok_0.exchange->body@.len() == 0,
        r is Ok ==> r->Ok_0.body_timeout.length() <= MAX_OUTGOING_HTTP_BODY_READ_SECONDS
            * 1_000_000_000,
{
    body_time_is_bounded(options);
}

/// A frame that ends a request tells the guest why: too large a body, a failure with its cause, or
/// the end of the time.
pub proof fn frame_errors_say_why(have: nat, max_bytes: usize, frame: BodyFrame, e: HttpError)
    requires
        frame_error(have, max_bytes, frame, e),
    ensures
        e is HttpRequestBodySize <==> frame is Data,
        e is ConnectionWriteTimeout <==> frame is TimedOut,
        e is InternalError <==> frame is Failed,
        e is HttpRequestBodySize ==> e == HttpError::HttpRequestBodySize(Some(max_bytes as u64))
            && have + crate::octets::octets(frame->Data_0).len() > max_bytes,
        frame matches BodyFrame::Failed(cause) ==> {
            let text = e->InternalError_0->0@;
            text.len() >= cause@.len() && text.skip(text.len() - cause@.len()) == cause@
        },
{
    if let BodyFrame::Failed(cause) = frame {
        let text = e->InternalError_0->0@;
        assert(text.skip(text.len() - cause@.len()) =~= cause@);
    }
}

/// An exchange that goes through these states, and these actions, as these events happen.
pub open spec fn is_exchange<R>(
    states: Seq<Exchange>,
    actions: Seq<ExchangeAction<R>>,
    events: Seq<ExchangeEvent<R>>,
) -> bool {
    &&& states.len() == events.len() + 1
    &&& actions.len() == events.len()
    &&& forall|i: int|
        0 <= i < events.len() ==> call_ensures(
            Exchange::step::<R>,
            (states[i], #[trigger] events[i]),
            (states[i + 1], actions[i]),
        )
}

/// The events of a body that arrives frame by frame.
pub open spec fn frame_events<R>(frames: Seq<BodyFrame>) -> Seq<ExchangeEvent<R>> {
    frames.map_values(|frame: BodyFrame| ExchangeEvent::<R>::Frame(frame))
}

/// Frames within the limit, so far, are read on.
proof fn frames_are_read<R>(
    parts: RequestParts,
    declared: Option<nat>,
    options: Option<RequestOptions>,
    admitted: Admitted,
    frames: Seq<BodyFrame>,
    events: Seq<ExchangeEvent<R>>,
    states: Seq<Exchange>,
    actions: Seq<ExchangeAction<R>>,
    n: int,
)
    requires
        is_admission(parts, declared, options, Ok::<Admitted, HttpError>(admitted)),
        is_exchange(states, actions, events),
        states[0] == admitted.exchange,
        0 <= n <= frames.len() <= events.len(),
        forall|i: int| 0 <= i < frames.len() ==> #[trigger] events[i] == ExchangeEvent::<R>::Frame(
            frames[i],
        ),
        read_frames(frames.take(n)) is Some,
    ensures
        states[n] matches Exchange::ReadingBody { parts: p, body, first_byte } && p == parts
            && read_frames(frames.take(n)) == Some(body@) && first_byte == first_byte_timeout(
            options,
        ),
    decreases n,
{
    let taken = frames.take(n);
    if n > 0 {
        assert(taken.drop_last() =~= frames.take(n - 1));
        assert(taken.last() == frames[n - 1]);
        assert(read_frames(frames.take(n - 1)) is Some);
        frames_are_read(
            parts,
            declared,
            options,
            admitted,
            frames,
            events,
            states,
            actions,
            n - 1,
        );
        assert(events[n - 1] == ExchangeEvent::<R>::Frame(frames[n - 1]));
        assert(call_ensures(
            Exchange::step::<R>,
            (states[n - 1], events[n - 1]),
            (states[n - 1 + 1], actions[n - 1]),
        ));
        match actions[n - 1] {
            ExchangeAction::ReadFrame => {},
            ExchangeAction::Return(Err(_)) => {},
            _ => {},
        }
    } else {
        assert(taken =~= Seq::<BodyFrame>::empty());
    }
}

/// A request whose body arrives within the limit reaches the host as the guest sent it, with all of
/// its body, and the guest gets what the host answers.
pub proof fn request_and_response_pass_through<R>(
    parts: RequestParts,
    declared: Option<nat>,
    options: Option<RequestOptions>,
    admitted: Admitted,
    frames: Seq<BodyFrame>,
    response: R,
    states: Seq<Exchange>,
    actions: Seq<ExchangeAction<R>>,
)
    requires
        is_admission(parts, declared, options, Ok::<Admitted, HttpError>(admitted)),
        states.len() > 0 && states[0] == admitted.exchange,
        acceptable(frames, MAX_OUTGOING_HTTP_BODY_BYTES),
        is_exchange(
            states,
            actions,
            frame_events::<R>(frames).push(ExchangeEvent::BodyEnd).push(
                ExchangeEvent::HostReplied(response),
            ),
        ),
    ensures
        forall|i: int| 0 <= i < frames.len() ==> #[trigger] actions[i] is ReadFrame,
        actions[frames.len() as int] matches ExchangeAction::CallHost(request, wait) && {
            &&& request.method == parts.method
            &&& request.uri == parts.uri
            &&& request.headers == parts.headers
            &&& body_bytes(request.body) == all_data(frames)
            &&& request.body is None <==> all_data(frames).len() == 0
            &&& wait == first_byte_timeout(options)
        },
        actions[frames.len() as int + 1] == ExchangeAction::Return(Ok::<R, HttpError>(response)),
        states.last() is Done,
{
    let events = frame_events::<R>(frames).push(ExchangeEvent::BodyEnd).push(
        ExchangeEvent::HostReplied(response),
    );
    let n = frames.len() as int;
    assert forall|i: int| 0 <= i < n implies #[trigger] events[i] == ExchangeEvent::<R>::Frame(
        frames[i],
    ) by {}
    assert forall|i: int| 0 <= i <= n implies read_frames(#[trigger] frames.take(i)) is Some by {
        host_receives_whole_body(frames);
        prefix_is_read(frames, i);
    }
    assert forall|i: int| 0 <= i < n implies #[trigger] actions[i] is ReadFrame by {
        assert(read_frames(frames.take(i)) is Some && read_frames(frames.take(i + 1)) is Some);
        frames_are_read(parts, declared, options, admitted, frames, events, states, actions, i);
        assert(events[i] == ExchangeEvent::<R>::Frame(frames[i]));
        assert(frames.take(i + 1).drop_last() =~= frames.take(i));
        assert(frames.take(i + 1).last() == frames[i]);
        assert(call_ensures(
            Exchange::step::<R>,
            (states[i], events[i]),
            (states[i + 1], actions[i]),
        ));
    }
    assert(read_frames(frames.take(n)) is Some);
    frames_are_read(parts, declared, options, admitted, frames, events, states, actions, n);
    assert(frames.take(n) =~= frames);
    host_receives_whole_body(frames);
    assert(events[n] == ExchangeEvent::<R>::BodyEnd);
    assert(call_ensures(
        Exchange::step::<R>,
        (states[n], events[n]),
        (states[n + 1], actions[n]),
    ));
    assert(events[n + 1] == ExchangeEvent::<R>::HostReplied(response));
    assert(call_ensures(
        Exchange::step::<R>,
        (states[n + 1], events[n + 1]),
        (states[n + 1 + 1], actions[n + 1]),
    ));
}

/// The frames before some frame of a body that is read are read too.
proof fn prefix_is_read(frames: Seq<BodyFrame>, n: int)
    requires
        0 <= n <= frames.len(),
        read_frames(frames) is Some,
    ensures
        read_frames(frames.take(n)) is Some,
    decreases frames.len(),
{
    if n < frames.len() {
        prefix_is_read(frames.drop_last(), n);
        assert(frames.drop_last().take(n) =~= frames.take(n));
    } else {
        assert(frames.take(n) =~= frames);
    }
}

/// Data is taken as long as the body stays within the limit, frames without data change nothing,
/// and nothing follows a frame that ends the request.
pub proof fn frames_add_their_data(have: Seq<u8>, frame: BodyFrame)
    ensures
        read_frame(None, frame) is None,
        frame is Other ==> read_frame(Some(have), frame) == Some(have),
        frame is Failed || frame is TimedOut ==> read_frame(Some(have), frame) is None,
        frame matches BodyFrame::Data(data) ==> {
            let now = have + crate::octets::octets(data);
            &&& read_frame(Some(have), frame) is Some <==> now.len()
                <= MAX_OUTGOING_HTTP_BODY_BYTES
            &&& read_frame(Some(have), frame) is Some ==> read_frame(Some(have), frame) == Some(now)
        },
{
}

/// A host that refuses a request, or does not answer in time, ends it with an error that says so.
pub proof fn host_failures_reach_the_guest<R>(
    exchange: Exchange,
    cause: String,
    refused: (Exchange, ExchangeAction<R>),
    late: (Exchange, ExchangeAction<R>),
)
    requires
        call_ensures(
            Exchange::step::<R>,
            (exchange, ExchangeEvent::<R>::HostFailed(cause)),
            refused,
        ),
        call_ensures(Exchange::step::<R>, (exchange, ExchangeEvent::<R>::HostTimedOut), late),
    ensures
        refused.0 is Done && late.0 is Done,
        late.1 == ExchangeAction::Return(Err::<R, HttpError>(HttpError::HttpResponseTimeout)),
        refused.1 matches ExchangeAction::Return(Err(HttpError::InternalError(Some(text)))) && text@
            == "request error: "@ + cause@,
{
}

/// The bytes of a number's decimal digits.
pub open spec fn decimal_bytes(n: nat) -> Seq<u8> {
    decimal(n).map_values(|c: char| c as u8)
}

/// Decimal digits are read as the number that they were written for.
proof fn digits_are_read_back(n: nat)
    ensures
        all_digits(decimal_bytes(n)),
        digits_value(decimal_bytes(n)) == n,
    decreases n,
{
    decimal_stands_for_its_number(n);
    let digits = decimal_bytes(n);
    assert forall|i: int| 0 <= i < digits.len() implies is_digit(#[trigger] digits[i]) by {
        assert('0' <= decimal(n)[i] <= '9');
    }
    assert(digits.last() == decimal(n).last() as u8);
    if n < 10 {
        assert(digits.drop_last() =~= Seq::<u8>::empty());
        assert(digits_value(Seq::<u8>::empty()) == 0);
    } else {
        digits_are_read_back(n / 10);
        assert(decimal(n).drop_last() =~= decimal(n / 10));
        assert(digits.drop_last() =~= decimal_bytes(n / 10));
    }
}

/// Whether a byte other than a digit follows the first byte.
pub open spec fn has_other_byte(bytes: Seq<u8>) -> bool {
    exists|i: int| 0 < i < bytes.len() && !(48 <= #[trigger] bytes[i] <= 57)
}

/// A length is declared by the decimal digits of a number, with a `+` before them or not, and is
/// that number where it fits 64 bits. A value in which another byte follows the first declares
/// none.
pub proof fn declared_length_is_a_number(headers: HeaderMap<HeaderValue>, n: nat)
    ensures
        ({
            let value = first_of(header_values(headers), "content-length"@);
            &&& value == Some(decimal_bytes(n)) || value == Some(seq![43u8] + decimal_bytes(n))
                ==> declared_length(headers) == if n <= u64::MAX {
                Some(n)
            } else {
                None
            }
            &&& value is None ==> declared_length(headers) is None
            &&& value is Some && has_other_byte(value->0) ==> declared_length(headers) is None
            &&& declared_length(headers) matches Some(length) ==> length <= u64::MAX
        }),
{
    digits_are_read_back(n);
    let digits = decimal_bytes(n);
    assert(is_digit(digits[0]));
    let signed = seq![43u8] + digits;
    assert(signed[0] == 43 && signed.skip(1) =~= digits);
    assert(unsigned_value(digits) == Some(n));
    assert(unsigned_value(signed) == Some(n));
    if let Some(bytes) = first_of(header_values(headers), "content-length"@) {
        if has_other_byte(bytes) {
            let i = choose|i: int| 0 < i < bytes.len() && !(48 <= #[trigger] bytes[i] <= 57);
            assert(!is_digit(bytes[i]));
            assert(bytes.skip(1)[i - 1] == bytes[i]);
        }
    }
}

/// The shorter of two spans is one of them, and no longer than either.
pub proof fn shorter_span_is_chosen(a: Timeout, b: Timeout, r: Timeout)
    requires
        call_ensures(Timeout::min, (a, b), r),
    ensures
        r == a || r == b,
        r.length() <= a.length() && r.length() <= b.length(),
        r.length() == r.secs * 1_000_000_000 + r.nanos,
{
}

/// A frame of a body, or its end, can come only while the body is read, and an answer of the host
/// only while the host has the request. Nothing can come once the guest has its answer.
pub proof fn events_come_in_their_stage<R>(exchange: Exchange, event: ExchangeEvent<R>)
    requires
        exchange.expects(event),
    ensures
        event is Frame || event is BodyEnd <==> exchange is ReadingBody,
        event is HostReplied || event is HostFailed || event is HostTimedOut <==> exchange
            is AwaitingHost,
        !(exchange is Done),
{
}

} // verus!
