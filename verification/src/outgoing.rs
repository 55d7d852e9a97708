//! Outbound HTTP requests of the guest: which are admitted, how their body is read, and what is
//! handed to the host and back.

use bytes::{Bytes, BytesMut};
use http::{HeaderMap, HeaderValue};
use vstd::prelude::*;

use crate::octets::{buffered, octet_slice, octets};
use crate::text::concat2;

verus! {

/// The header collection of the `http` crate.
#[verifier::external_type_specification]
#[verifier::external_body]
#[verifier::reject_recursive_types(T)]
pub struct ExHeaderMap<T>(http::HeaderMap<T>);

/// The value type of the `http` crate's headers.
#[verifier::external_type_specification]
#[verifier::external_body]
pub struct ExHeaderValue(http::HeaderValue);

/// The values under each header name, in the order in which they were added.
pub uninterp spec fn header_values(headers: HeaderMap<HeaderValue>) -> Map<
    Seq<char>,
    Seq<Seq<u8>>,
>;

/// The first value under a header name.
pub open spec fn first_of(all: Map<Seq<char>, Seq<Seq<u8>>>, name: Seq<char>) -> Option<Seq<u8>> {
    if all.contains_key(name) && all[name].len() > 0 {
        Some(all[name][0])
    } else {
        None
    }
}

/// `HeaderMap::get` with the `content-length` name gives the first value under that name, by its
/// bytes.
#[verifier::external_body]
fn content_length_value(headers: &HeaderMap<HeaderValue>) -> (r: Option<Vec<u8>>)
    ensures
        match r {
            Some(value) => first_of(header_values(*headers), "content-length"@) == Some(value@),
            None => first_of(header_values(*headers), "content-length"@) is None,
        },
{
    headers.get(http::header::CONTENT_LENGTH).map(|value| value.as_bytes().to_vec())
}

/// The most bytes of a request body that are read from a guest.
pub const MAX_OUTGOING_HTTP_BODY_BYTES: usize = 16_777_216;

/// The longest time in seconds for which a request body is read.
pub const MAX_OUTGOING_HTTP_BODY_READ_SECONDS: u64 = 30;

/// The time in seconds for which the head of a response is awaited where the guest sets none.
pub const DEFAULT_FIRST_BYTE_SECONDS: u64 = 600;

/// Why a request fails, as the guest sees it.
#[derive(Debug)]
pub enum HttpError {
    /// The body is larger than this.
    HttpRequestBodySize(Option<u64>),
    /// The body did not arrive in time.
    ConnectionWriteTimeout,
    /// The response did not arrive in time.
    HttpResponseTimeout,
    /// Anything else.
    InternalError(Option<String>),
}

/// A span of time.
#[derive(Debug, Clone, Copy, PartialEq, Eq, Structural)]
pub struct Timeout {
    pub secs: u64,
    pub nanos: u32,
}

impl Timeout {
    /// The length in nanoseconds.
    pub open spec fn length(self) -> int {
        self.secs * 1_000_000_000 + self.nanos
    }

    /// A whole number of seconds.
    pub fn from_secs(secs: u64) -> (r: Timeout)
        ensures
            r == (Timeout { secs, nanos: 0 }),
    {
        Timeout { secs, nanos: 0 }
    }

    /// The shorter of two spans.
    pub fn min(self, other: Timeout) -> (r: Timeout)
        ensures
            r == (if other.length() < self.length() {
                other
            } else {
                self
            }),
    {
        let a: u128 = self.secs as u128 * 1_000_000_000 + self.nanos as u128;
        let b: u128 = other.secs as u128 * 1_000_000_000 + other.nanos as u128;
        if b < a {
            other
        } else {
            self
        }
    }
}

/// Time limits that the guest asks for.
#[derive(Debug, Clone, Copy)]
pub struct RequestOptions {
    pub connect_timeout: Option<Timeout>,
    pub first_byte_timeout: Option<Timeout>,
    pub between_bytes_timeout: Option<Timeout>,
}

/// The request as the guest sent it, without its body.
#[derive(Debug)]
pub struct RequestParts {
    pub method: String,
    pub uri: String,
    pub headers: HeaderMap<HeaderValue>,
}

/// HTTP request forwarded from a guest to its host.
///
/// The request body is fully buffered. `None` represents an empty body.
#[derive(Debug)]
pub struct HttpRequest {
    pub method: String,
    pub uri: String,
    pub headers: HeaderMap<HeaderValue>,
    pub body: Option<Bytes>,
}

/// HTTP response returned by a host, with the frames of its body.
#[derive(Debug)]
pub struct HttpResponse {
    pub status: u16,
    pub headers: HeaderMap<HeaderValue>,
    pub body: Vec<Bytes>,
}

/// The number that decimal digits write.
pub open spec fn digits_value(digits: Seq<u8>) -> nat
    decreases digits.len(),
{
    if digits.len() == 0 {
        0
    } else {
        digits_value(digits.drop_last()) * 10 + (digits.last() - 48) as nat
    }
}

/// An ASCII digit.
pub open spec fn is_digit(b: u8) -> bool {
    48 <= b <= 57
}

/// A text of ASCII digits.
pub open spec fn all_digits(text: Seq<u8>) -> bool {
    text.len() > 0 && forall|i: int| 0 <= i < text.len() ==> is_digit(#[trigger] text[i])
}

/// The unsigned number that a text writes: digits, with an optional `+` before them.
pub open spec fn unsigned_value(text: Seq<u8>) -> Option<nat> {
    let digits = if text.len() > 0 && text[0] == 43 {
        text.skip(1)
    } else {
        text
    };
    if all_digits(digits) {
        Some(digits_value(digits))
    } else {
        None
    }
}

proof fn longer_digits_are_larger(digits: Seq<u8>, i: int)
    requires
        0 <= i <= digits.len(),
    ensures
        digits_value(digits.take(i)) <= digits_value(digits),
    decreases digits.len(),
{
    if i < digits.len() {
        longer_digits_are_larger(digits.drop_last(), i);
        assert(digits.drop_last().take(i) =~= digits.take(i));
    } else {
        assert(digits.take(i) =~= digits);
    }
}

/// Reads an unsigned 64-bit number.
pub fn parse_unsigned(text: &[u8]) -> (r: Option<u64>)
    ensures
        match unsigned_value(text@) {
            Some(n) => if n <= u64::MAX {
                r == Some(n as u64)
            } else {
                r is None
            },
            None => r is None,
        },
{
    let start: usize = if text.len() > 0 && text[0] == 43 {
        1
    } else {
        0
    };
    let ghost digits = text@.skip(start as int);
    assert(text@.skip(0) =~= text@);
    if start == text.len() {
        return None;
    }
    let mut value: u64 = 0;
    let mut i: usize = start;
    while i < text.len()
        invariant
            start <= i <= text@.len(),
            start < text@.len(),
            digits == text@.skip(start as int),
            start == (if text@.len() > 0 && text@[0] == 43 {
                1int
            } else {
                0int
            }),
            text@.skip(0) == text@,
            value == digits_value(digits.take(i - start)),
            forall|k: int| 0 <= k < i - start ==> is_digit(#[trigger] digits[k]),
        decreases text@.len() - i,
    {
        let b: u8 = text[i];
        assert(digits[i - start] == b);
        if b < 48 || b > 57 {
            assert(!all_digits(digits));
            return None;
        }
        proof {
            let next = digits.take(i - start + 1);
            assert(next.drop_last() =~= digits.take(i - start));
            assert(next.last() == b);
            longer_digits_are_larger(digits, i - start + 1);
        }
        let d: u64 = (b - 48) as u64;
        if value > u64::MAX / 10 || value * 10 > u64::MAX - d {
            assert(digits_value(digits) > u64::MAX);
            return None;
        }
        value = value * 10 + d;
        i = i + 1;
    }
    assert(digits.take(i - start) =~= digits);
    Some(value)
}

/// The length that a request declares in its `content-length` header, where it is a number that
/// fits 64 bits.
pub open spec fn declared_length(headers: HeaderMap<HeaderValue>) -> Option<nat> {
    match first_of(header_values(headers), "content-length"@) {
        Some(value) => match unsigned_value(value) {
            Some(n) => if n <= u64::MAX {
                Some(n)
            } else {
                None
            },
            None => None,
        },
        None => None,
    }
}

/// Reads the declared length of a request.
pub fn content_length(headers: &HeaderMap<HeaderValue>) -> (r: Option<u64>)
    ensures
        match declared_length(*headers) {
            Some(n) => r == Some(n as u64),
            None => r is None,
        },
{
    match content_length_value(headers) {
        Some(value) => parse_unsigned(value.as_slice()),
        None => None,
    }
}

/// One frame of a body, or how reading it ended.
#[derive(Debug)]
pub enum BodyFrame {
    /// Data.
    Data(Bytes),
    /// A frame without data, such as trailers.
    Other,
    /// Reading failed.
    Failed(String),
    /// The time for reading is over.
    TimedOut,
}

/// Puts a request body together.
#[derive(Debug)]
pub struct BodyCollector {
    buf: BytesMut,
    max_bytes: usize,
}

impl View for BodyCollector {
    type V = Seq<u8>;

    /// The data so far.
    closed spec fn view(&self) -> Seq<u8> {
        buffered(self.buf)
    }
}

/// The body of a forwarded request; one without bytes is no body.
pub open spec fn body_bytes(body: Option<Bytes>) -> Seq<u8> {
    match body {
        Some(b) => octets(b),
        None => Seq::empty(),
    }
}

/// The error that a frame ends the request with, if any.
pub open spec fn frame_error(have: nat, max_bytes: usize, frame: BodyFrame, e: HttpError) -> bool {
    match frame {
        BodyFrame::Data(data) => have + octets(data).len() > max_bytes
            && e == HttpError::HttpRequestBodySize(Some(max_bytes as u64)),
        BodyFrame::Other => false,
        BodyFrame::Failed(cause) => e matches HttpError::InternalError(Some(text)) && text@
            == "request body read error: "@ + cause@,
        BodyFrame::TimedOut => e is ConnectionWriteTimeout,
    }
}

/// The data of a frame.
pub open spec fn frame_data(frame: BodyFrame) -> Seq<u8> {
    match frame {
        BodyFrame::Data(data) => octets(data),
        _ => Seq::empty(),
    }
}

impl BodyCollector {
    /// The most bytes that this collector takes.
    pub closed spec fn limit(&self) -> usize {
        self.max_bytes
    }

    /// The data so far is within the limit.
    pub open spec fn wf(&self) -> bool {
        self@.len() <= self.limit() <= isize::MAX / 2
    }

    /// An empty body of at most `max_bytes`, with room for the declared length.
    pub fn new(max_bytes: usize, content_length: Option<usize>) -> (r: BodyCollector)
        requires
            max_bytes <= isize::MAX / 2,
        ensures
            r.wf(),
            r@ == Seq::<u8>::empty(),
            r.limit() == max_bytes,
    {
        let declared: usize = match content_length {
            Some(n) => n,
            None => 0,
        };
        let capacity: usize = if declared < max_bytes {
            declared
        } else {
            max_bytes
        };
        BodyCollector { buf: BytesMut::with_capacity(capacity), max_bytes }
    }

    /// Takes the next frame.
    pub fn push(&mut self, frame: BodyFrame) -> (r: Result<(), HttpError>)
        requires
            old(self).wf(),
        ensures
            final(self).wf(),
            final(self).limit() == old(self).limit(),
            match r {
                Ok(()) => {
                    &&& frame is Data || frame is Other
                    &&& final(self)@ == old(self)@ + frame_data(frame)
                },
                Err(e) => {
                    &&& frame_error(old(self)@.len(), old(self).limit(), frame, e)
                    &&& final(self)@ == old(self)@
                },
            },
    {
        match frame {
            BodyFrame::Data(data) => {
                if self.buf.len().saturating_add(data.len()) > self.max_bytes {
                    return Err(HttpError::HttpRequestBodySize(Some(self.max_bytes as u64)));
                }
                self.buf.extend_from_slice(octet_slice(&data));
                Ok(())
            },
            BodyFrame::Other => {
                assert(self@ + Seq::<u8>::empty() =~= self@);
                Ok(())
            },
            BodyFrame::Failed(cause) => Err(
                HttpError::InternalError(
                    Some(concat2("request body read error: ", cause.as_str())),
                ),
            ),
            BodyFrame::TimedOut => Err(HttpError::ConnectionWriteTimeout),
        }
    }

    /// The whole body; one without bytes is no body.
    pub fn finish(self) -> (r: Option<Bytes>)
        ensures
            r is None <==> self@.len() == 0,
            body_bytes(r) == self@,
    {
        if self.buf.is_empty() {
            assert(self@ =~= Seq::<u8>::empty());
            None
        } else {
            Some(self.buf.freeze())
        }
    }
}

/// The data of a sequence of frames put together.
pub open spec fn all_data(frames: Seq<BodyFrame>) -> Seq<u8>
    decreases frames.len(),
{
    if frames.len() == 0 {
        Seq::empty()
    } else {
        all_data(frames.drop_last()) + frame_data(frames.last())
    }
}

/// Frames that make up a body within the limit, without a failure among them.
pub open spec fn acceptable(frames: Seq<BodyFrame>, max_bytes: usize) -> bool {
    &&& forall|i: int|
        0 <= i < frames.len() ==> (#[trigger] frames[i]) is Data || frames[i] is Other
    &&& all_data(frames).len() <= max_bytes
}

proof fn data_grows(frames: Seq<BodyFrame>, i: int)
    requires
        0 <= i <= frames.len(),
    ensures
        all_data(frames.take(i)).len() <= all_data(frames).len(),
    decreases frames.len(),
{
    if i < frames.len() {
        data_grows(frames.drop_last(), i);
        assert(frames.drop_last().take(i) =~= frames.take(i));
    } else {
        assert(frames.take(i) =~= frames);
    }
}

/// Reads a whole request body from its frames.
pub fn collect_outgoing_http_body(
    frames: Vec<BodyFrame>,
    max_bytes: usize,
    content_length: Option<usize>,
) -> (r: Result<Option<Bytes>, HttpError>)
    requires
        max_bytes <= isize::MAX / 2,
    ensures
        match r {
            Ok(body) => {
                &&& acceptable(frames@, max_bytes)
                &&& body_bytes(body) == all_data(frames@)
                &&& body is None <==> all_data(frames@).len() == 0
            },
            Err(e) => exists|i: int|
                0 <= i < frames@.len() && acceptable(frames@.take(i), max_bytes) && frame_error(
                    all_data(frames@.take(i)).len(),
                    max_bytes,
                    #[trigger] frames@[i],
                    e,
                ),
        },
        r is Ok <==> acceptable(frames@, max_bytes),
{
    let mut body: BodyCollector = BodyCollector::new(max_bytes, content_length);
    assert(frames@.take(0) =~= Seq::empty());
    for frame in it: frames
        invariant
            it.seq() == frames@,
            body.wf(),
            body.limit() == max_bytes,
            body@ == all_data(frames@.take(it.index() as int)),
            acceptable(frames@.take(it.index() as int), max_bytes),
    {
        let ghost i = it.index() as int;
        proof {
            assert(frame == frames@[i]);
            let next = frames@.take(i + 1);
            assert(next.drop_last() =~= frames@.take(i));
            assert(next.last() == frame);
            data_grows(frames@, i + 1);
        }
        match body.push(frame) {
            Ok(()) => {
                proof {
                    assert forall|k: int| 0 <= k < i + 1 implies (#[trigger] frames@.take(
                        i + 1,
                    )[k]) is Data || frames@.take(i + 1)[k] is Other by {
                        if k < i {
                            assert(frames@.take(i)[k] == frames@[k]);
                        }
                    }
                }
            },
            Err(e) => {
                proof {
                    assert(!acceptable(frames@, max_bytes)) by {
                        if acceptable(frames@, max_bytes) {
                            assert(frames@[i] is Data || frames@[i] is Other);
                        }
                    }
                }
                return Err(e);
            },
        }
    }
    assert(frames@.take(frames@.len() as int) =~= frames@);
    Ok(body.finish())
}

/// The time for reading a request body: what the guest asks for, up to the maximum.
pub open spec fn body_timeout(options: Option<RequestOptions>) -> Timeout {
    let longest = Timeout { secs: MAX_OUTGOING_HTTP_BODY_READ_SECONDS, nanos: 0 };
    match options {
        Some(RequestOptions { connect_timeout: Some(asked), .. }) => if longest.length()
            < asked.length() {
            longest
        } else {
            asked
        },
        _ => longest,
    }
}

/// The time for awaiting the head of the response.
pub open spec fn first_byte_timeout(options: Option<RequestOptions>) -> Timeout {
    match options {
        Some(RequestOptions { first_byte_timeout: Some(asked), .. }) => asked,
        _ => Timeout { secs: DEFAULT_FIRST_BYTE_SECONDS, nanos: 0 },
    }
}

/// A request of the guest on its way to the host.
#[derive(Debug)]
pub enum Exchange {
    /// The body is being read.
    ReadingBody { parts: RequestParts, body: BodyCollector, first_byte: Timeout },
    /// The host has the request.
    AwaitingHost,
    /// The guest has its answer.
    Done,
}

/// What happened to an exchange.
#[derive(Debug)]
pub enum ExchangeEvent<R> {
    /// The next frame of the body arrived, or reading it failed.
    Frame(BodyFrame),
    /// The body is complete.
    BodyEnd,
    /// The host answered.
    HostReplied(R),
    /// The host refused.
    HostFailed(String),
    /// The host did not answer in time.
    HostTimedOut,
}

/// What is to be done next for an exchange.
#[derive(Debug)]
pub enum ExchangeAction<R> {
    /// Read the next frame of the body.
    ReadFrame,
    /// Hand the request to the host and await its answer for this time.
    CallHost(HttpRequest, Timeout),
    /// Answer the guest.
    Return(Result<R, HttpError>),
}

impl Exchange {
    /// The body read so far is within the limit.
    pub open spec fn wf(&self) -> bool {
        self matches Exchange::ReadingBody { body, .. } ==> body.wf() && body.limit()
            == MAX_OUTGOING_HTTP_BODY_BYTES
    }

    /// Events that can happen at this stage.
    pub open spec fn expects<R>(&self, event: ExchangeEvent<R>) -> bool {
        match event {
            ExchangeEvent::Frame(_) | ExchangeEvent::BodyEnd => self is ReadingBody,
            _ => self is AwaitingHost,
        }
    }

    /// Whether an event can happen at this stage.
    pub fn is_expected<R>(&self, event: &ExchangeEvent<R>) -> (r: bool)
        ensures
            r == self.expects(*event),
    {
        match event {
            ExchangeEvent::Frame(_) => matches!(self, Exchange::ReadingBody { .. }),
            ExchangeEvent::BodyEnd => matches!(self, Exchange::ReadingBody { .. }),
            _ => matches!(self, Exchange::AwaitingHost),
        }
    }
}

/// A request whose body is to be read within a time limit.
#[derive(Debug)]
pub struct Admitted {
    pub exchange: Exchange,
    pub body_timeout: Timeout,
}

/// What comes of a request that declares this length: one over the limit is refused before any of
/// its body is read.
pub open spec fn is_admission(
    parts: RequestParts,
    declared: Option<nat>,
    options: Option<RequestOptions>,
    r: Result<Admitted, HttpError>,
) -> bool {
    if declared matches Some(n) && n > MAX_OUTGOING_HTTP_BODY_BYTES {
        r == Err::<Admitted, HttpError>(
            HttpError::HttpRequestBodySize(Some(MAX_OUTGOING_HTTP_BODY_BYTES as u64)),
        )
    } else {
        r matches Ok(admitted) && {
            &&& admitted.exchange.wf()
            &&& admitted.exchange matches Exchange::ReadingBody { parts: p, body, first_byte }
                && p == parts && body@ == Seq::<u8>::empty() && first_byte
                == first_byte_timeout(options)
            &&& admitted.body_timeout == body_timeout(options)
        }
    }
}

/// Takes a request of the guest that declares this length, if it declares one.
pub fn take_request(
    parts: RequestParts,
    declared: Option<u64>,
    options: Option<RequestOptions>,
) -> (r: Result<Admitted, HttpError>)
    ensures
        is_admission(
            parts,
            match declared {
                Some(n) => Some(n as nat),
                None => None,
            },
            options,
            r,
        ),
{
    if let Some(len) = declared {
        if len > MAX_OUTGOING_HTTP_BODY_BYTES as u64 {
            return Err(HttpError::HttpRequestBodySize(Some(MAX_OUTGOING_HTTP_BODY_BYTES as u64)));
        }
    }
    let longest: Timeout = Timeout::from_secs(MAX_OUTGOING_HTTP_BODY_READ_SECONDS);
    let mut reading: Timeout = longest;
    let mut first_byte: Timeout = Timeout::from_secs(DEFAULT_FIRST_BYTE_SECONDS);
    if let Some(asked) = options {
        if let Some(connect) = asked.connect_timeout {
            reading = connect.min(longest);
        }
        if let Some(wait) = asked.first_byte_timeout {
            first_byte = wait;
        }
    }
    let room: Option<usize> = match declared {
        Some(len) => Some(len as usize),
        None => None,
    };
    let body: BodyCollector = BodyCollector::new(MAX_OUTGOING_HTTP_BODY_BYTES, room);
    Ok(
        Admitted {
            exchange: Exchange::ReadingBody { parts, body, first_byte },
            body_timeout: reading,
        },
    )
}

/// Takes a request of the guest, by the length that its headers declare.
pub fn send_request(parts: RequestParts, options: Option<RequestOptions>) -> (r: Result<
    Admitted,
    HttpError,
>)
    ensures
        is_admission(parts, declared_length(parts.headers), options, r),
{
    let declared: Option<u64> = content_length(&parts.headers);
    take_request(parts, declared, options)
}

/// The error for a response body that fails while the guest reads it.
pub fn response_body_error(cause: String) -> (r: HttpError)
    ensures
        r == HttpError::InternalError(Some(cause)),
{
    HttpError::InternalError(Some(cause))
}

impl Exchange {
    /// Takes an exchange one event further.
    pub fn step<R>(self, event: ExchangeEvent<R>) -> (r: (Exchange, ExchangeAction<R>))
        requires
            self.wf(),
            self.expects(event),
        ensures
            r.0.wf(),
            match event {
                ExchangeEvent::Frame(frame) => self matches Exchange::ReadingBody {
                    parts,
                    body,
                    first_byte,
                } && match r.1 {
                    ExchangeAction::ReadFrame => {
                        &&& r.0 matches Exchange::ReadingBody {
                            parts: parts_now,
                            body: body_now,
                            first_byte: first_byte_now,
                        } && parts_now == parts && first_byte_now == first_byte && read_frame(
                            Some(body@),
                            frame,
                        ) == Some(body_now@)
                    },
                    ExchangeAction::Return(Err(e)) => {
                        &&& read_frame(Some(body@), frame) is None
                        &&& frame_error(body@.len(), MAX_OUTGOING_HTTP_BODY_BYTES, frame, e)
                        &&& r.0 is Done
                    },
                    _ => false,
                },
                ExchangeEvent::BodyEnd => self matches Exchange::ReadingBody {
                    parts,
                    body,
                    first_byte,
                } && r.1 matches ExchangeAction::CallHost(request, wait) && {
                    &&& request.method == parts.method
                    &&& request.uri == parts.uri
                    &&& request.headers == parts.headers
                    &&& body_bytes(request.body) == body@
                    &&& request.body is None <==> body@.len() == 0
                    &&& wait == first_byte
                    &&& r.0 is AwaitingHost
                },
                ExchangeEvent::HostReplied(response) => r == (
                    Exchange::Done,
                    ExchangeAction::Return(Ok::<R, HttpError>(response)),
                ),
                ExchangeEvent::HostFailed(cause) => {
                    &&& r.0 is Done
                    &&& r.1 matches ExchangeAction::Return(Err(HttpError::InternalError(Some(text))))
                        && text@ == "request error: "@ + cause@
                },
                ExchangeEvent::HostTimedOut => r == (
                    Exchange::Done,
                    ExchangeAction::Return(Err::<R, HttpError>(HttpError::HttpResponseTimeout)),
                ),
            },
    {
        match (self, event) {
            (Exchange::ReadingBody { parts, body, first_byte }, ExchangeEvent::Frame(frame)) => {
                let mut body = body;
                assert(body@ + Seq::<u8>::empty() =~= body@);
                match body.push(frame) {
                    Ok(()) => (
                        Exchange::ReadingBody { parts, body, first_byte },
                        ExchangeAction::ReadFrame,
                    ),
                    Err(e) => (Exchange::Done, ExchangeAction::Return(Err(e))),
                }
            },
            (Exchange::ReadingBody { parts, body, first_byte }, ExchangeEvent::BodyEnd) => {
                let request = HttpRequest {
                    method: parts.method,
                    uri: parts.uri,
                    headers: parts.headers,
                    body: body.finish(),
                };
                (Exchange::AwaitingHost, ExchangeAction::CallHost(request, first_byte))
            },
            (_, ExchangeEvent::HostReplied(response)) => (
                Exchange::Done,
                ExchangeAction::Return(Ok(response)),
            ),
            (_, ExchangeEvent::HostFailed(cause)) => (
                Exchange::Done,
                ExchangeAction::Return(
                    Err(
                        HttpError::InternalError(
                            Some(concat2("request error: ", cause.as_str())),
                        ),
                    ),
                ),
            ),
            (_, _) => (
                Exchange::Done,
                ExchangeAction::Return(Err(HttpError::HttpResponseTimeout)),
            ),
        }
    }
}

/// The body read after one more frame, or `None` where the frame ends the exchange.
pub open spec fn read_frame(read: Option<Seq<u8>>, frame: BodyFrame) -> Option<Seq<u8>> {
    match (read, frame) {
        (Some(have), BodyFrame::Data(data)) => if have.len() + octets(data).len()
            <= MAX_OUTGOING_HTTP_BODY_BYTES {
            Some(have + octets(data))
        } else {
            None
        },
        (Some(have), BodyFrame::Other) => Some(have),
        _ => None,
    }
}

/// The body read after a sequence of frames.
pub open spec fn read_frames(frames: Seq<BodyFrame>) -> Option<Seq<u8>>
    decreases frames.len(),
{
    if frames.len() == 0 {
        Some(Seq::empty())
    } else {
        read_frame(read_frames(frames.drop_last()), frames.last())
    }
}

/// The host receives the whole body of a request, and receives no request whose body is over the
/// limit or failed on the way.
pub proof fn host_receives_whole_body(frames: Seq<BodyFrame>)
    ensures
        read_frames(frames) == if acceptable(frames, MAX_OUTGOING_HTTP_BODY_BYTES) {
            Some(all_data(frames))
        } else {
            None
        },
    decreases frames.len(),
{
    if frames.len() > 0 {
        let front = frames.drop_last();
        let n = frames.len() - 1;
        host_receives_whole_body(front);
        data_grows(frames, n);
        assert(frames.take(n) =~= front);
        assert(frames[n] == frames.last());
        if acceptable(frames, MAX_OUTGOING_HTTP_BODY_BYTES) {
            assert forall|i: int| 0 <= i < front.len() implies (#[trigger] front[i]) is Data
                || front[i] is Other by {
                assert(frames[i] == front[i]);
            }
            assert(frames[n] is Data || frames[n] is Other);
            assert(all_data(front) + Seq::<u8>::empty() =~= all_data(front));
        } else if acceptable(front, MAX_OUTGOING_HTTP_BODY_BYTES) && (frames.last() is Data
            || frames.last() is Other) {
            assert forall|i: int| 0 <= i < frames.len() implies (#[trigger] frames[i]) is Data
                || frames[i] is Other by {
                if i < n {
                    assert(frames[i] == front[i]);
                }
            }
            assert(all_data(front) + Seq::<u8>::empty() =~= all_data(front));
        }
    }
}

} // verus!
