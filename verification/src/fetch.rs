//! HTTP requests of Python code: how a request is put together, and how its response is read.

use vstd::prelude::*;
use vstd::utf8::{decode_utf8, encode_utf8, valid_utf8};

use crate::body_buffer::{
    decoding_is_determined, is_function, BodyBuffer, Buffer, DecodeError, Decoded, DecodedView,
};
use crate::keyed::{is_latest, latest, latest_once, place_text, text_entries, Entries};
use crate::text::{concat2, eq_ignore_case, utf8_text};
use crate::urls::{has_room, room_for, url_parsed, url_with_pair, RequestUrl};

verus! {

/// The body that a request is made with.
#[derive(Debug)]
pub enum RequestBody<S> {
    /// No body.
    Empty,
    /// These bytes.
    Bytes(Vec<u8>),
    /// An object, which this serializes as JSON if it can be.
    Object(S),
}

/// A request that is ready to be sent.
#[derive(Debug)]
pub struct OutboundRequest {
    pub method: String,
    pub url: String,
    pub headers: Vec<(String, Vec<u8>)>,
    pub body: Option<Vec<u8>>,
    pub timeout_ms: Option<u64>,
}

/// Why a request cannot be made.
#[derive(Debug)]
pub enum FetchError<E> {
    /// A header or a parameter is not text.
    Extract(E),
    /// The URL is not one.
    Url(String),
    /// The URL would be too long with its parameters.
    UrlTooLong,
    /// The body cannot be serialized.
    Body,
}

impl<E> FetchError<E> {
    /// The text that describes the error, where it is not another one handed on.
    pub fn message(&self) -> (r: Option<String>)
        ensures
            match *self {
                FetchError::Extract(_) => r is None,
                FetchError::Url(message) => r == Some(message),
                FetchError::UrlTooLong => r matches Some(text) && text@
                    == "URLs more than 4 GB are not supported"@,
                FetchError::Body => r matches Some(text) && text@ == "serde error"@,
            },
    {
        match self {
            FetchError::Extract(_) => None,
            FetchError::Url(message) => Some(message.clone()),
            FetchError::UrlTooLong => Some("URLs more than 4 GB are not supported".to_owned()),
            FetchError::Body => Some("serde error".to_owned()),
        }
    }
}

/// The first of several results that is an error.
pub open spec fn first_refused<T, E>(items: Seq<Result<T, E>>, i: int) -> bool {
    &&& 0 <= i < items.len()
    &&& items[i] is Err
    &&& forall|k: int| 0 <= k < i ==> (#[trigger] items[k]) is Ok
}

/// Whether none of several results is an error.
pub open spec fn none_refused<T, E>(items: Seq<Result<T, E>>) -> bool {
    forall|k: int| 0 <= k < items.len() ==> (#[trigger] items[k]) is Ok
}

/// What became of the parameters of a request.
pub enum Applied<E> {
    /// The URL with all of them.
    Url(Seq<char>),
    /// One is not text.
    Refused(E),
    /// There is no room for one.
    TooLong,
}

/// Appends parameters to the query of a URL, one after the other.
pub open spec fn with_params<E>(
    url: Seq<char>,
    params: Seq<Result<(String, String), E>>,
) -> Applied<E>
    decreases params.len(),
{
    if params.len() == 0 {
        Applied::Url(url)
    } else {
        match params[0] {
            Err(e) => Applied::Refused(e),
            Ok((key, value)) => if has_room(url, key@, value@) {
                with_params(url_with_pair(url, key@, value@), params.skip(1))
            } else {
                Applied::TooLong
            },
        }
    }
}

/// A header field as it is sent: the value by its bytes.
pub open spec fn is_field<E>(
    given: Result<(String, String), E>,
    field: (String, Vec<u8>),
) -> bool {
    match given {
        Ok((name, value)) => field.0 == name && field.1@ == encode_utf8(value@),
        Err(_) => false,
    }
}

/// Whether a header of this name is given, in whatever case it is written.
pub open spec fn names_header<E>(
    headers: Seq<Result<(String, String), E>>,
    name: Seq<char>,
) -> bool {
    exists|i: int|
        0 <= i < headers.len() && (#[trigger] headers[i]) is Ok && same_header(headers[i], name)
}

/// A header of this name, in whatever case it is written.
pub open spec fn same_header<E>(given: Result<(String, String), E>, name: Seq<char>) -> bool {
    given matches Ok(pair) && crate::text::same_ignoring_case(pair.0@, name)
}

/// The header fields of a request: those given, and the content type of an object where none is
/// given.
pub open spec fn are_fields<E>(
    headers: Seq<Result<(String, String), E>>,
    is_object: bool,
    fields: Seq<(String, Vec<u8>)>,
) -> bool {
    let typed = is_object && !names_header(headers, "content-type"@);
    &&& fields.len() == headers.len() + if typed { 1int } else { 0int }
    &&& forall|i: int| 0 <= i < headers.len() ==> is_field(headers[i], #[trigger] fields[i])
    &&& typed ==> fields.last().0@ == "content-type"@ && fields.last().1@ == encode_utf8(
        "application/json"@,
    )
}

/// What the body of a request comes to.
pub open spec fn is_body<S: FnOnce() -> Option<Vec<u8>>>(
    body: RequestBody<S>,
    sent: Option<Option<Vec<u8>>>,
) -> bool {
    match body {
        RequestBody::Empty => sent == Some(None::<Vec<u8>>),
        RequestBody::Bytes(bytes) => sent == Some(Some(bytes)),
        RequestBody::Object(serialize) => match sent {
            Some(Some(bytes)) => call_ensures(serialize, (), Some(bytes)),
            Some(None) => false,
            None => call_ensures(serialize, (), None::<Vec<u8>>),
        },
    }
}

/// The largest number of milliseconds that fits, where there are more.
pub open spec fn saturated(millis: Option<u128>) -> Option<u64> {
    match millis {
        None => None,
        Some(n) => Some(
            if n <= u64::MAX {
                n as u64
            } else {
                u64::MAX
            },
        ),
    }
}

/// The bytes of a text.
fn text_bytes(text: &str) -> (r: Vec<u8>)
    ensures
        r@ == encode_utf8(text@),
{
    let mut bytes: Vec<u8> = Vec::new();
    bytes.extend_from_slice(text.as_bytes());
    proof {
        assert(bytes@ =~= encode_utf8(text@));
    }
    bytes
}

/// Takes the headers in the order in which they are given.
fn header_fields<E>(headers: Vec<Result<(String, String), E>>) -> (r: Result<
    Vec<(String, Vec<u8>)>,
    E,
>)
    ensures
        match r {
            Ok(fields) => none_refused(headers@) && are_fields(headers@, false, fields@),
            Err(e) => exists|i: int| #[trigger] first_refused(headers@, i) && headers@[i] == Err::<
                (String, String),
                E,
            >(e),
        },
{
    let mut fields: Vec<(String, Vec<u8>)> = Vec::new();
    for header in it: headers
        invariant
            it.seq() == headers@,
            fields@.len() == it.index(),
            forall|i: int| 0 <= i < it.index() ==> (#[trigger] headers@[i]) is Ok,
            forall|i: int|
                0 <= i < it.index() ==> is_field(headers@[i], #[trigger] fields@[i]),
    {
        match header {
            Ok((name, value)) => {
                let bytes = text_bytes(value.as_str());
                fields.push((name, bytes));
            },
            Err(e) => {
                proof {
                    assert(first_refused(headers@, it.index() as int));
                }
                return Err(e);
            },
        }
    }
    Ok(fields)
}

/// Whether one of the fields has this name.
fn has_field(fields: &Vec<(String, Vec<u8>)>, name: &str) -> (r: bool)
    ensures
        r == (exists|i: int|
            0 <= i < fields@.len() && crate::text::same_ignoring_case(
                (#[trigger] fields@[i]).0@,
                name@,
            )),
{
    let mut i: usize = 0;
    while i < fields.len()
        invariant
            i <= fields@.len(),
            forall|k: int|
                0 <= k < i ==> !crate::text::same_ignoring_case(
                    (#[trigger] fields@[k]).0@,
                    name@,
                ),
        decreases fields@.len() - i,
    {
        if eq_ignore_case(fields[i].0.as_str(), name) {
            return true;
        }
        i = i + 1;
    }
    false
}

/// The header fields of a request: those given, in their order, and the content type of an object
/// where none is given.
pub fn request_fields<E>(
    headers: Vec<Result<(String, String), E>>,
    is_object: bool,
) -> (r: Result<Vec<(String, Vec<u8>)>, E>)
    ensures
        match r {
            Ok(fields) => none_refused(headers@) && are_fields(headers@, is_object, fields@),
            Err(e) => exists|i: int| #[trigger] first_refused(headers@, i) && headers@[i] == Err::<
                (String, String),
                E,
            >(e),
        },
{
    let ghost given = headers@;
    let mut fields = match header_fields(headers) {
        Ok(fields) => fields,
        Err(e) => {
            return Err(e);
        },
    };
    let ghost plain = fields@;
    let typed = is_object && !has_field(&fields, "content-type");
    proof {
        let name = "content-type"@;
        if names_header(given, name) {
            let i = choose|i: int|
                0 <= i < given.len() && (#[trigger] given[i]) is Ok && same_header(given[i], name);
            assert(crate::text::same_ignoring_case(plain[i].0@, name));
        }
        if exists|i: int|
            0 <= i < plain.len() && crate::text::same_ignoring_case(
                (#[trigger] plain[i]).0@,
                name,
            ) {
            let i = choose|i: int|
                0 <= i < plain.len() && crate::text::same_ignoring_case(
                    (#[trigger] plain[i]).0@,
                    name,
                );
            assert(same_header(given[i], name));
        }
    }
    if typed {
        fields.push(("content-type".to_owned(), text_bytes("application/json")));
    }
    proof {
        assert forall|i: int| 0 <= i < given.len() implies is_field(
            given[i],
            #[trigger] fields@[i],
        ) by {
            assert(fields@[i] == plain[i]);
        }
    }
    Ok(fields)
}

/// Appends the parameters to the query, in the order in which they are given.
fn add_params<E>(url: &mut RequestUrl, params: Vec<Result<(String, String), E>>) -> (r: Result<
    (),
    FetchError<E>,
>)
    ensures
        match with_params(old(url)@, params@) {
            Applied::Url(text) => r is Ok && final(url)@ == text,
            Applied::Refused(e) => r == Err::<(), FetchError<E>>(FetchError::Extract(e)),
            Applied::TooLong => r == Err::<(), FetchError<E>>(FetchError::UrlTooLong),
        },
{
    proof {
        assert(params@.skip(0) =~= params@);
    }
    for param in it: params
        invariant
            it.seq() == params@,
            with_params(old(url)@, params@) == with_params(
                url@,
                params@.skip(it.index() as int),
            ),
    {
        let ghost rest = params@.skip(it.index() as int);
        proof {
            assert(rest[0] == param);
            assert(rest.skip(1) =~= params@.skip(it.index() + 1));
        }
        match param {
            Err(e) => {
                return Err(FetchError::Extract(e));
            },
            Ok((key, value)) => {
                if !room_for(url.as_str(), key.as_str(), value.as_str()) {
                    return Err(FetchError::UrlTooLong);
                }
                url.append_pair(key.as_str(), value.as_str());
            },
        }
    }
    Ok(())
}

/// What a request comes to once its URL and its header fields are known.
pub open spec fn is_request<E, S: FnOnce() -> Option<Vec<u8>>>(
    method: Seq<char>,
    url: Seq<char>,
    fields: Seq<(String, Vec<u8>)>,
    body: RequestBody<S>,
    timeout: Option<u128>,
    r: Result<OutboundRequest, FetchError<E>>,
) -> bool {
    match r {
        Ok(request) => {
            &&& request.method@ == method
            &&& request.url@ == url
            &&& request.headers@ == fields
            &&& is_body(body, Some(request.body))
            &&& request.timeout_ms == saturated(timeout)
        },
        Err(e) => e is Body && is_body(body, None),
    }
}

/// Puts a request together whose URL and header fields are known. `timeout` is in milliseconds.
pub fn request_to<E, S: FnOnce() -> Option<Vec<u8>>>(
    method: &str,
    url: &str,
    fields: Vec<(String, Vec<u8>)>,
    body: RequestBody<S>,
    timeout: Option<u128>,
) -> (r: Result<OutboundRequest, FetchError<E>>)
    requires
        body matches RequestBody::Object(serialize) ==> call_requires(serialize, ()),
    ensures
        is_request(method@, url@, fields@, body, timeout, r),
{
    let timeout_ms: Option<u64> = match timeout {
        None => None,
        Some(n) => if n <= u64::MAX as u128 {
            Some(n as u64)
        } else {
            Some(u64::MAX)
        },
    };
    let sent: Option<Vec<u8>> = match body {
        RequestBody::Empty => None,
        RequestBody::Bytes(bytes) => Some(bytes),
        RequestBody::Object(serialize) => match serialize() {
            Some(bytes) => Some(bytes),
            None => {
                return Err(FetchError::Body);
            },
        },
    };
    Ok(
        OutboundRequest {
            method: method.to_owned(),
            url: url.to_owned(),
            headers: fields,
            body: sent,
            timeout_ms,
        },
    )
}

/// What a request comes to once its URL with the parameters is known.
pub open spec fn fetched<E, S: FnOnce() -> Option<Vec<u8>>>(
    method: Seq<char>,
    applied: Applied<E>,
    headers: Seq<Result<(String, String), E>>,
    body: RequestBody<S>,
    timeout: Option<u128>,
    r: Result<OutboundRequest, FetchError<E>>,
) -> bool {
    match applied {
        Applied::Refused(e) => r == Err::<OutboundRequest, FetchError<E>>(FetchError::Extract(e)),
        Applied::TooLong => r == Err::<OutboundRequest, FetchError<E>>(FetchError::UrlTooLong),
        Applied::Url(url) => exists|fields: Seq<(String, Vec<u8>)>| #[trigger]
            are_fields(headers, body is Object, fields) && is_request(
                method,
                url,
                fields,
                body,
                timeout,
                r,
            ),
    }
}

/// Puts a request together: its headers, then its URL with the parameters, then its body.
///
/// `params` and `headers` hold what each entry came to when it was read as text, and `timeout` is
/// in milliseconds.
pub fn fetch<E, S: FnOnce() -> Option<Vec<u8>>>(
    method: &str,
    url: &str,
    params: Vec<Result<(String, String), E>>,
    headers: Vec<Result<(String, String), E>>,
    body: RequestBody<S>,
    timeout: Option<u128>,
) -> (r: Result<OutboundRequest, FetchError<E>>)
    requires
        body matches RequestBody::Object(serialize) ==> call_requires(serialize, ()),
    ensures
        if none_refused(headers@) {
            match url_parsed(url@) {
                Ok(text) => fetched(
                    method@,
                    with_params(text, params@),
                    headers@,
                    body,
                    timeout,
                    r,
                ),
                Err(message) => r matches Err(FetchError::Url(text)) && text@ == message,
            }
        } else {
            exists|i: int| #[trigger]
                first_refused(headers@, i) && r == Err::<OutboundRequest, FetchError<E>>(
                    FetchError::Extract(headers@[i]->Err_0),
                )
        },
{
    let is_object = matches!(body, RequestBody::Object(_));
    let fields = match request_fields(headers, is_object) {
        Ok(fields) => fields,
        Err(e) => {
            return Err(FetchError::Extract(e));
        },
    };
    proof {
        assert(are_fields(headers@, body is Object, fields@));
    }
    let mut parsed = match RequestUrl::parse(url) {
        Ok(parsed) => parsed,
        Err(message) => {
            return Err(FetchError::Url(message));
        },
    };
    match add_params(&mut parsed, params) {
        Ok(()) => {},
        Err(e) => {
            return Err(e);
        },
    }
    request_to(method, parsed.as_str(), fields, body, timeout)
}

/// Why a response cannot be read.
#[derive(Debug)]
pub enum ResponseError {
    /// The request failed, with this message.
    Failed(String),
    /// The response was closed.
    Closed,
    /// All of the response was read before.
    AlreadyRead,
    /// A header is not text.
    InvalidHeader,
    /// There is no buffer of this kind.
    InvalidKind(String),
    /// So many bytes cannot be counted here.
    SizeTooLarge,
    /// The body cannot be decoded.
    Decode(DecodeError),
}

impl ResponseError {
    /// The text that describes the error.
    pub open spec fn text(self) -> Seq<char> {
        match self {
            ResponseError::Failed(message) => message@,
            ResponseError::Closed => "response closed"@,
            ResponseError::AlreadyRead => "Response already read"@,
            ResponseError::InvalidHeader => "invalid header value"@,
            ResponseError::InvalidKind(kind) => "invalid buffer kind: "@ + kind@,
            ResponseError::SizeTooLarge => "read size is too large for this platform"@,
            ResponseError::Decode(e) => e.message@,
        }
    }

    /// The text that describes the error.
    pub fn message(&self) -> (r: String)
        ensures
            r@ == self.text(),
    {
        match self {
            ResponseError::Failed(message) => message.clone(),
            ResponseError::Closed => "response closed".to_owned(),
            ResponseError::AlreadyRead => "Response already read".to_owned(),
            ResponseError::InvalidHeader => "invalid header value".to_owned(),
            ResponseError::InvalidKind(kind) => concat2("invalid buffer kind: ", kind.as_str()),
            ResponseError::SizeTooLarge => "read size is too large for this platform".to_owned(),
            ResponseError::Decode(e) => e.message.clone(),
        }
    }
}

/// The empty buffer of a kind that a response can be read into.
pub fn new_buffer(kind: &str) -> (r: Result<Buffer, ResponseError>)
    ensures
        match r {
            Ok(buffer) => crate::body_buffer::is_kind(kind@) && crate::body_buffer::fresh_of_kind(
                kind@,
                buffer,
            ),
            Err(e) => !crate::body_buffer::is_kind(kind@) && (e matches ResponseError::InvalidKind(
                given,
            ) && given@ == kind@),
        },
{
    match Buffer::new(kind) {
        Some(buffer) => Ok(buffer),
        None => Err(ResponseError::InvalidKind(kind.to_owned())),
    }
}

/// A response as it was received.
#[derive(Debug)]
pub struct ReceivedResponse {
    pub status: u16,
    pub headers: Vec<(String, Vec<u8>)>,
    pub body: Vec<u8>,
}

/// A response that is being read.
#[derive(Debug)]
pub struct PyResponse {
    status: u16,
    headers: Vec<(String, Vec<u8>)>,
    body: Vec<u8>,
    cursor: usize,
    consumed: bool,
    closed: bool,
}

/// How far a response has been read.
#[verifier::ext_equal]
pub struct Progress {
    /// The body that is not read yet.
    pub rest: Seq<u8>,
    /// Whether its end was reached.
    pub consumed: bool,
    /// Whether it was closed.
    pub closed: bool,
}

/// How much of a body one read takes.
pub open spec fn read_length(rest: Seq<u8>, size: i64) -> nat {
    if size < 0 || size >= rest.len() {
        rest.len()
    } else {
        size as nat
    }
}

/// Why a read is refused, if it is.
pub open spec fn read_refused(progress: Progress, size: i64) -> Option<ResponseError> {
    if progress.closed {
        Some(ResponseError::Closed)
    } else if progress.consumed {
        Some(ResponseError::AlreadyRead)
    } else if size > usize::MAX {
        Some(ResponseError::SizeTooLarge)
    } else {
        None
    }
}

/// How far a response has been read after one more read. A read of no bytes changes nothing unless
/// the end was reached.
pub open spec fn after_read(progress: Progress, size: i64) -> Progress {
    let rest = progress.rest.skip(read_length(progress.rest, size) as int);
    Progress { rest, consumed: rest.len() == 0, closed: progress.closed }
}

/// The headers of a response, each value decoded.
pub open spec fn header_entries(headers: Seq<(String, Vec<u8>)>) -> Entries<Seq<char>> {
    headers.map_values(|header: (String, Vec<u8>)| (header.0@, decode_utf8(header.1@)))
}

/// Whether the value of each header is text.
pub open spec fn are_texts(headers: Seq<(String, Vec<u8>)>) -> bool {
    forall|i: int| 0 <= i < headers.len() ==> valid_utf8((#[trigger] headers[i]).1@)
}

/// What decoding the rest of a body of a kind gives.
pub open spec fn body_decoded<J, F: Fn(&str) -> Result<J, String>>(
    kind: Seq<char>,
    rest: Seq<u8>,
    ended: bool,
    convert: F,
    r: Result<Option<Decoded<J>>, ResponseError>,
) -> bool {
    exists|fresh: Buffer, filled: Buffer, emptied: Buffer, outcome: Result<
        Option<Decoded<J>>,
        DecodeError,
    >| #[trigger]
        crate::body_buffer::all_decoded(filled, emptied, convert, outcome) && #[trigger]
            crate::body_buffer::fresh_of_kind(kind, fresh) && crate::body_buffer::same_kind(
            fresh,
            filled,
        ) && filled.pending() == rest && filled.ended() == (ended && filled !is Bytes) && match r {
            Ok(decoded) => outcome == Ok::<Option<Decoded<J>>, DecodeError>(decoded),
            Err(ResponseError::Decode(e)) => outcome == Err::<Option<Decoded<J>>, DecodeError>(e),
            Err(_) => false,
        }
}

impl PyResponse {
    /// The cursor stays within the body, and the end is only reached there.
    pub closed spec fn wf(&self) -> bool {
        &&& self.cursor <= self.body@.len()
        &&& self.consumed ==> self.cursor == self.body@.len()
    }

    /// How far the response has been read.
    pub closed spec fn progress(&self) -> Progress {
        Progress {
            rest: self.body@.skip(self.cursor as int),
            consumed: self.consumed,
            closed: self.closed,
        }
    }

    /// The status code that was received.
    pub closed spec fn received_status(&self) -> u16 {
        self.status
    }

    /// The headers that were received.
    pub closed spec fn received_headers(&self) -> Seq<(String, Vec<u8>)> {
        self.headers@
    }

    /// Starts to read what came of a request.
    pub fn try_from(value: Result<ReceivedResponse, String>) -> (r: Result<
        PyResponse,
        ResponseError,
    >)
        ensures
            match value {
                Ok(received) => r matches Ok(response) && response.wf() && response.progress() == (
                Progress { rest: received.body@, consumed: false, closed: false })
                    && response.received_status() == received.status && response.received_headers()
                    == received.headers@,
                Err(message) => r == Err::<PyResponse, ResponseError>(
                    ResponseError::Failed(message),
                ),
            },
    {
        match value {
            Ok(received) => {
                proof {
                    assert(received.body@.skip(0) =~= received.body@);
                }
                Ok(
                    PyResponse {
                        status: received.status,
                        headers: received.headers,
                        body: received.body,
                        cursor: 0,
                        consumed: false,
                        closed: false,
                    },
                )
            },
            Err(message) => Err(ResponseError::Failed(message)),
        }
    }

    /// Closes the response: it cannot be read any more.
    pub fn close(&mut self)
        requires
            old(self).wf(),
        ensures
            final(self).wf(),
            final(self).progress() == (Progress { closed: true, ..old(self).progress() }),
            final(self).received_status() == old(self).received_status(),
            final(self).received_headers() == old(self).received_headers(),
    {
        self.closed = true;
    }

    /// The status code.
    pub fn status(&self) -> (r: Result<u16, ResponseError>)
        ensures
            r == if self.progress().closed {
                Err::<u16, ResponseError>(ResponseError::Closed)
            } else {
                Ok::<u16, ResponseError>(self.received_status())
            },
    {
        if self.closed {
            return Err(ResponseError::Closed);
        }
        Ok(self.status)
    }

    /// The headers as texts, in the order in which they were received. Of several with the same
    /// name there is one, in the place of the first, with the value of the last.
    pub fn headers(&self) -> (r: Result<Vec<(String, String)>, ResponseError>)
        ensures
            match r {
                Ok(texts) => {
                    let received = header_entries(self.received_headers());
                    &&& !self.progress().closed
                    &&& are_texts(self.received_headers())
                    &&& text_entries(texts@) == latest(received)
                    &&& is_latest(text_entries(texts@), received)
                },
                Err(e) => if self.progress().closed {
                    e is Closed
                } else {
                    e is InvalidHeader && !are_texts(self.received_headers())
                },
            },
    {
        if self.closed {
            return Err(ResponseError::Closed);
        }
        let mut texts: Vec<(String, String)> = Vec::new();
        let mut i: usize = 0;
        proof {
            assert(header_entries(self.headers@.take(0)) =~= Seq::empty());
            assert(text_entries(texts@) =~= Seq::empty());
        }
        while i < self.headers.len()
            invariant
                i <= self.headers@.len(),
                !self.closed,
                are_texts(self.headers@.take(i as int)),
                text_entries(texts@) == latest(header_entries(self.headers@.take(i as int))),
            decreases self.headers@.len() - i,
        {
            match utf8_text(self.headers[i].1.clone()) {
                Ok(value) => {
                    proof {
                        let taken = self.headers@.take(i + 1);
                        let entries = header_entries(taken);
                        assert(entries.drop_last() =~= header_entries(self.headers@.take(i as int)));
                        assert(entries.last() == (self.headers@[i as int].0@, value@));
                        assert forall|k: int| 0 <= k < taken.len() implies valid_utf8(
                            (#[trigger] taken[k]).1@,
                        ) by {
                            if k < i {
                                assert(taken[k] == self.headers@.take(i as int)[k]);
                            }
                        }
                    }
                    place_text(&mut texts, (self.headers[i].0.clone(), value));
                },
                Err(_) => {
                    proof {
                        assert(!valid_utf8(self.received_headers()[i as int].1@));
                    }
                    return Err(ResponseError::InvalidHeader);
                },
            }
            i = i + 1;
        }
        proof {
            assert(self.headers@.take(i as int) =~= self.headers@);
            latest_once(header_entries(self.headers@));
        }
        Ok(texts)
    }

    /// Reads the next bytes into a buffer: so many, or all of them where `size` is negative. The
    /// buffer is closed at the end of the body. Tells whether there is more to read.
    pub fn read_into(&mut self, buf: &mut Buffer, size: i64) -> (r: Result<
        bool,
        ResponseError,
    >)
        requires
            old(self).wf(),
        ensures
            final(self).wf(),
            final(self).received_status() == old(self).received_status(),
            final(self).received_headers() == old(self).received_headers(),
            match read_refused(old(self).progress(), size) {
                Some(e) => r == Err::<bool, ResponseError>(e) && final(self).progress() == old(
                    self,
                ).progress() && *final(buf) == *old(buf),
                None => {
                    let rest = old(self).progress().rest;
                    let length = read_length(rest, size);
                    &&& final(self).progress() == after_read(old(self).progress(), size)
                    &&& r == Ok::<bool, ResponseError>(length > 0 && length < rest.len())
                    &&& final(buf).pending() == old(buf).pending() + rest.take(length as int)
                    &&& crate::body_buffer::same_kind(*old(buf), *final(buf))
                    &&& final(buf).ended() == if length == rest.len() {
                        *final(buf) !is Bytes
                    } else {
                        old(buf).ended()
                    }
                },
            },
    {
        if self.closed {
            return Err(ResponseError::Closed);
        }
        if self.consumed {
            return Err(ResponseError::AlreadyRead);
        }
        let ghost rest = self.progress().rest;
        let left: usize = self.body.len() - self.cursor;
        let read_size: usize = if size < 0 {
            left
        } else if size as u64 > usize::MAX as u64 {
            return Err(ResponseError::SizeTooLarge);
        } else {
            size as usize
        };
        proof {
            assert(rest.len() == left);
            assert(rest.skip(0) =~= rest);
            assert(buf.pending() + rest.take(0) =~= buf.pending());
        }
        if read_size == 0 && self.cursor < self.body.len() {
            return Ok(false);
        }
        let end: usize = if read_size >= left {
            self.body.len()
        } else {
            self.cursor + read_size
        };
        if self.cursor < end {
            let piece = vstd::slice::slice_subrange(self.body.as_slice(), self.cursor, end);
            buf.write(piece);
            proof {
                assert(piece@ =~= rest.take(end - self.cursor));
                assert(self.body@.skip(end as int) =~= rest.skip(end - self.cursor));
            }
            self.cursor = end;
        }
        if self.cursor >= self.body.len() {
            buf.close();
            self.consumed = true;
            Ok(false)
        } else {
            Ok(true)
        }
    }

    /// Reads all that is left, in reads of this size, and decodes it as a body of a kind. With a
    /// size of zero nothing is read.
    pub fn blocking_read<J, F: Fn(&str) -> Result<J, String>>(
        &mut self,
        kind: &str,
        size: i64,
        convert: &F,
    ) -> (r: Result<Option<Decoded<J>>, ResponseError>)
        requires
            old(self).wf(),
            forall|s: &str| call_requires(*convert, (s,)),
        ensures
            final(self).wf(),
            final(self).received_status() == old(self).received_status(),
            final(self).received_headers() == old(self).received_headers(),
            read_wholly(old(self).progress(), final(self).progress(), kind@, size, *convert, r),
    {
        if self.consumed {
            return Err(ResponseError::AlreadyRead);
        }
        let mut buf = match new_buffer(kind) {
            Ok(buf) => buf,
            Err(e) => {
                return Err(e);
            },
        };
        let ghost fresh = buf;
        let ghost start = self.progress();
        let ghost zero = size == 0 && start.rest.len() > 0;
        proof {
            assert(buf.pending() + start.rest =~= start.rest);
        }
        loop
            invariant_except_break
                !self.progress().consumed,
                !buf.ended(),
                buf.pending() + self.progress().rest == start.rest,
                zero ==> self.progress() == start && buf.pending().len() == 0,
            invariant
                self.wf(),
                start == old(self).progress(),
                zero == (size == 0 && start.rest.len() > 0),
                self.received_status() == old(self).received_status(),
                self.received_headers() == old(self).received_headers(),
                self.progress().closed == start.closed,
                !start.consumed,
                crate::body_buffer::is_kind(kind@),
                crate::body_buffer::fresh_of_kind(kind@, fresh),
                crate::body_buffer::same_kind(fresh, buf),
                forall|s: &str| call_requires(*convert, (s,)),
                start.closed || size > usize::MAX ==> self.progress() == start,
            ensures
                !start.closed && size <= usize::MAX,
                zero ==> self.progress() == start && buf.pending().len() == 0 && !buf.ended(),
                !zero ==> self.progress() == (Progress {
                    rest: Seq::empty(),
                    consumed: true,
                    closed: false,
                }) && buf.pending() == start.rest && buf.ended() == (buf !is Bytes),
            decreases self.progress().rest.len(),
        {
            let ghost before = self.progress();
            let ghost held = buf.pending();
            match self.read_into(&mut buf, size) {
                Ok(more) => {
                    proof {
                        let length = read_length(before.rest, size) as int;
                        assert(before.rest.take(length) + before.rest.skip(length)
                            =~= before.rest);
                        assert((held + before.rest.take(length)) + before.rest.skip(length)
                            =~= held + before.rest);
                        if length == before.rest.len() {
                            assert(self.progress().rest =~= Seq::<u8>::empty());
                            assert(held + before.rest.take(length) =~= held + before.rest);
                        }
                    }
                    if !more {
                        break;
                    }
                },
                Err(e) => {
                    return Err(e);
                },
            }
        }
        if size < 0 {
            self.consumed = true;
        }
        let ghost filled = buf;
        let outcome = buf.decode_all(convert);
        let ghost decoded = outcome;
        let r: Result<Option<Decoded<J>>, ResponseError> = match outcome {
            Ok(decoded) => Ok(decoded),
            Err(e) => Err(ResponseError::Decode(e)),
        };
        proof {
            assert(crate::body_buffer::all_decoded(filled, buf, *convert, decoded));
            assert(crate::body_buffer::fresh_of_kind(kind@, fresh));
            if zero {
                assert(filled.pending() =~= Seq::<u8>::empty());
                assert(body_decoded(kind@, Seq::empty(), false, *convert, r));
            } else {
                assert(body_decoded(kind@, start.rest, true, *convert, r));
            }
        }
        r
    }
}

/// How reading all that is left of a response goes: what it gives does not depend on the size of
/// the single reads, unless that is zero.
pub open spec fn read_wholly<J, F: Fn(&str) -> Result<J, String>>(
    before: Progress,
    after: Progress,
    kind: Seq<char>,
    size: i64,
    convert: F,
    r: Result<Option<Decoded<J>>, ResponseError>,
) -> bool {
    if before.consumed {
        r matches Err(ResponseError::AlreadyRead) && after == before
    } else if !crate::body_buffer::is_kind(kind) {
        (r matches Err(ResponseError::InvalidKind(given)) && given@ == kind) && after == before
    } else {
        match read_refused(before, size) {
            Some(e) => r == Err::<Option<Decoded<J>>, ResponseError>(e) && after == before,
            None => if size == 0 && before.rest.len() > 0 {
                after == before && body_decoded(kind, Seq::empty(), false, convert, r)
            } else {
                &&& after == (Progress { rest: Seq::empty(), consumed: true, closed: false })
                &&& body_decoded(kind, before.rest, true, convert, r)
            },
        }
    }
}

/// The bytes that reads of these sizes hand over, one after the other, and how far the response
/// has been read after them.
pub open spec fn reads(progress: Progress, sizes: Seq<i64>) -> (Seq<u8>, Progress)
    decreases sizes.len(),
{
    if sizes.len() == 0 {
        (Seq::empty(), progress)
    } else {
        let piece = progress.rest.take(read_length(progress.rest, sizes[0]) as int);
        let (later, last) = reads(after_read(progress, sizes[0]), sizes.skip(1));
        (piece + later, last)
    }
}

/// Reads of whatever sizes hand over the body from its beginning, without a gap: what they gave
/// and what is left make up the body.
pub proof fn reads_make_the_body(progress: Progress, sizes: Seq<i64>)
    ensures
        reads(progress, sizes).0 + reads(progress, sizes).1.rest == progress.rest,
    decreases sizes.len(),
{
    if sizes.len() > 0 {
        let length = read_length(progress.rest, sizes[0]) as int;
        let next = after_read(progress, sizes[0]);
        reads_make_the_body(next, sizes.skip(1));
        let (later, last) = reads(next, sizes.skip(1));
        assert((progress.rest.take(length) + later) + last.rest =~= progress.rest.take(length) + (
        later + last.rest));
        assert(progress.rest.take(length) + progress.rest.skip(length) =~= progress.rest);
    }
}

/// What reading a response came to, by its contents: an error is the text that describes it.
pub open spec fn read_contents<J>(r: Result<Option<Decoded<J>>, ResponseError>) -> Result<
    Option<DecodedView<J>>,
    Seq<char>,
> {
    match r {
        Ok(Some(decoded)) => Ok(Some(decoded.contents())),
        Ok(None) => Ok(None),
        Err(e) => Err(e.text()),
    }
}

/// Decoding the same body as the same kind gives the same.
proof fn body_decoded_once<J, F: Fn(&str) -> Result<J, String>>(
    kind: Seq<char>,
    rest: Seq<u8>,
    ended: bool,
    convert: F,
    r: Result<Option<Decoded<J>>, ResponseError>,
    other_r: Result<Option<Decoded<J>>, ResponseError>,
)
    requires
        body_decoded(kind, rest, ended, convert, r),
        body_decoded(kind, rest, ended, convert, other_r),
        kind == "json"@ ==> is_function::<J, F>(convert),
    ensures
        read_contents(r) == read_contents(other_r),
{
    let (fresh, filled, emptied, outcome) = choose|
        fresh: Buffer,
        filled: Buffer,
        emptied: Buffer,
        outcome: Result<Option<Decoded<J>>, DecodeError>,
    | #[trigger]
        crate::body_buffer::all_decoded(filled, emptied, convert, outcome) && #[trigger]
            crate::body_buffer::fresh_of_kind(kind, fresh) && crate::body_buffer::same_kind(
            fresh,
            filled,
        ) && filled.pending() == rest && filled.ended() == (ended && filled !is Bytes) && match r {
            Ok(decoded) => outcome == Ok::<Option<Decoded<J>>, DecodeError>(decoded),
            Err(ResponseError::Decode(e)) => outcome == Err::<Option<Decoded<J>>, DecodeError>(e),
            Err(_) => false,
        };
    let (other_fresh, other_filled, other_emptied, other_outcome) = choose|
        fresh: Buffer,
        filled: Buffer,
        emptied: Buffer,
        outcome: Result<Option<Decoded<J>>, DecodeError>,
    | #[trigger]
        crate::body_buffer::all_decoded(filled, emptied, convert, outcome) && #[trigger]
            crate::body_buffer::fresh_of_kind(kind, fresh) && crate::body_buffer::same_kind(
            fresh,
            filled,
        ) && filled.pending() == rest && filled.ended() == (ended && filled !is Bytes) && match
        other_r {
            Ok(decoded) => outcome == Ok::<Option<Decoded<J>>, DecodeError>(decoded),
            Err(ResponseError::Decode(e)) => outcome == Err::<Option<Decoded<J>>, DecodeError>(e),
            Err(_) => false,
        };
    decoding_is_determined(
        filled,
        emptied,
        outcome,
        other_filled,
        other_emptied,
        other_outcome,
        convert,
    );
}

/// Whatever comes of a whole read comes of it with single reads of any other size too, unless that
/// is zero.
pub proof fn read_size_does_not_matter<J, F: Fn(&str) -> Result<J, String>>(
    before: Progress,
    after: Progress,
    kind: Seq<char>,
    size: i64,
    other_size: i64,
    convert: F,
    r: Result<Option<Decoded<J>>, ResponseError>,
)
    requires
        read_wholly(before, after, kind, size, convert, r),
        size != 0,
        size <= usize::MAX,
        other_size != 0,
        other_size <= usize::MAX,
    ensures
        read_wholly(before, after, kind, other_size, convert, r),
{
}

/// A whole read gives the same whatever the size of the single reads, unless that is zero: of two
/// equal responses, both reads give the same and leave the response the same. Of a JSON document
/// this holds as long as the conversion makes the same of the same text.
pub proof fn whole_reads_agree<J, F: Fn(&str) -> Result<J, String>>(
    before: Progress,
    kind: Seq<char>,
    convert: F,
    size: i64,
    after: Progress,
    r: Result<Option<Decoded<J>>, ResponseError>,
    other_size: i64,
    other_after: Progress,
    other_r: Result<Option<Decoded<J>>, ResponseError>,
)
    requires
        read_wholly(before, after, kind, size, convert, r),
        read_wholly(before, other_after, kind, other_size, convert, other_r),
        size != 0,
        size <= usize::MAX,
        other_size != 0,
        other_size <= usize::MAX,
        kind == "json"@ ==> is_function::<J, F>(convert),
    ensures
        after == other_after,
        read_contents(r) == read_contents(other_r),
{
    if !before.consumed && crate::body_buffer::is_kind(kind) && read_refused(before, size) is None {
        body_decoded_once(kind, before.rest, true, convert, r, other_r);
    }
}

/// One read of a response, as it was asked for and answered.
pub struct WholeRead<J> {
    /// The kind of buffer.
    pub kind: Seq<char>,
    /// The size of the single reads.
    pub size: i64,
    /// The answer.
    pub r: Result<Option<Decoded<J>>, ResponseError>,
}

/// Whether a response is read so, one whole read after the other: it stands so before each, and so
/// after the last.
pub open spec fn read_in_turn<J, F: Fn(&str) -> Result<J, String>>(
    states: Seq<Progress>,
    reads: Seq<WholeRead<J>>,
    convert: F,
) -> bool {
    &&& states.len() == reads.len() + 1
    &&& forall|i: int|
        0 <= i < reads.len() ==> read_wholly(
            states[i],
            states[i + 1],
            (#[trigger] reads[i]).kind,
            reads[i].size,
            convert,
            reads[i].r,
        )
}

/// After a whole read that was not refused, each later one is, whatever it asks for.
pub proof fn later_reads_are_refused<J, F: Fn(&str) -> Result<J, String>>(
    states: Seq<Progress>,
    reads: Seq<WholeRead<J>>,
    convert: F,
    i: int,
)
    requires
        read_in_turn(states, reads, convert),
        !states[0].closed,
        !states[0].consumed,
        0 < i < reads.len(),
        crate::body_buffer::is_kind(reads[0].kind),
        reads[0].size != 0,
        reads[0].size <= usize::MAX,
    ensures
        reads[i].r matches Err(ResponseError::AlreadyRead),
        read_contents(reads[i].r) == Err::<Option<DecodedView<J>>, Seq<char>>(
            "Response already read"@,
        ),
        states[i].consumed,
    decreases i,
{
    let before = reads[i - 1];
    if i > 1 {
        later_reads_are_refused(states, reads, convert, i - 1);
    }
}

} // verus!
