use isola::body_buffer::{BodyBuffer, Decoded};
use isola::fetch::{
    fetch, new_buffer, request_fields, request_to, FetchError, OutboundRequest, PyResponse,
    ReceivedResponse, RequestBody, ResponseError,
};
use isola::urls::room_for;

type Pairs = Vec<Result<(String, String), &'static str>>;
type Serialize = fn() -> Option<Vec<u8>>;

fn pairs(list: &[(&str, &str)]) -> Pairs {
    list.iter().map(|(k, v)| Ok((k.to_string(), v.to_string()))).collect()
}

fn empty() -> RequestBody<Serialize> {
    RequestBody::Empty
}

fn get(url: &str, params: Pairs) -> Result<OutboundRequest, FetchError<&'static str>> {
    fetch("GET", url, params, vec![], empty(), None)
}

#[test]
fn urls_are_normalised() {
    let request = get("HTTP://Example.COM", vec![]).unwrap();
    assert_eq!(request.method, "GET");
    assert_eq!(request.url, "http://example.com/");
    assert!(request.headers.is_empty());
    assert!(request.body.is_none());
    assert!(request.timeout_ms.is_none());
}

#[test]
fn params_are_appended_in_order() {
    let request = get(
        "https://example.net?lang=fr#nav",
        pairs(&[("foo", "bar & baz"), ("\u{e9}", "+")]),
    )
    .unwrap();
    assert_eq!(request.url, "https://example.net/?lang=fr&foo=bar+%26+baz&%C3%A9=%2B#nav");
}

#[test]
fn params_stand_before_the_fragment() {
    let url = |text: &str| get(text, pairs(&[("k", "v"), ("l", "?#")])).unwrap().url;
    assert_eq!(url("http://a/"), "http://a/?k=v&l=%3F%23");
    assert_eq!(url("http://a/#f#g?"), "http://a/?k=v&l=%3F%23#f#g?");
    assert_eq!(url("http://a/?#f"), "http://a/?k=v&l=%3F%23#f");
    assert_eq!(url("http://a/?b?c#"), "http://a/?b?c&k=v&l=%3F%23#");
    assert_eq!(url("data:x?y"), "data:x?y&k=v&l=%3F%23");
    assert!(room_for("http://a/#f", "k", "v"));
    assert!(room_for("http://a/", "k", "v"));
}

#[test]
fn requests_are_refused_in_order() {
    let error = fetch(
        "GET",
        "not a url",
        vec![Err("param")],
        vec![Err("header")],
        empty(),
        None,
    )
    .unwrap_err();
    assert!(matches!(error, FetchError::Extract("header")));
    let error = get("not a url", vec![Err("param")]).unwrap_err();
    assert_eq!(error.message().as_deref(), Some("relative URL without a base"));
    let error = get("http://a/", vec![Ok(("k".into(), "v".into())), Err("param")]).unwrap_err();
    assert!(matches!(error, FetchError::Extract("param")));
    assert!(error.message().is_none());
    let failing: Serialize = || None;
    let error = fetch::<&str, _>(
        "POST",
        "http://a/",
        vec![],
        vec![],
        RequestBody::Object(failing),
        None,
    )
    .unwrap_err();
    assert_eq!(error.message().as_deref(), Some("serde error"));
    assert_eq!(
        FetchError::<()>::UrlTooLong.message().as_deref(),
        Some("URLs more than 4 GB are not supported")
    );
}

#[test]
fn objects_are_sent_as_json() {
    let object: Serialize = || Some(b"{}".to_vec());
    let request = fetch::<&str, _>(
        "POST",
        "http://a/",
        vec![],
        pairs(&[("x-a", "\u{fc}")]),
        RequestBody::Object(object),
        None,
    )
    .unwrap();
    assert_eq!(request.body.as_deref(), Some(b"{}".as_slice()));
    assert_eq!(
        request.headers,
        [
            ("x-a".to_string(), "\u{fc}".as_bytes().to_vec()),
            ("content-type".to_string(), b"application/json".to_vec())
        ]
    );
    let request = fetch::<&str, _>(
        "POST",
        "http://a/",
        vec![],
        pairs(&[("Content-TYPE", "text/plain")]),
        RequestBody::Object(object),
        None,
    )
    .unwrap();
    assert_eq!(request.headers, [("Content-TYPE".to_string(), b"text/plain".to_vec())]);
    let request = fetch::<&str, Serialize>(
        "POST",
        "http://a/",
        vec![],
        vec![],
        RequestBody::Bytes(vec![1, 2]),
        None,
    )
    .unwrap();
    assert_eq!(request.body.as_deref(), Some([1u8, 2].as_slice()));
    assert!(request.headers.is_empty());
}

#[test]
fn requests_to_a_known_url() {
    let fields = request_fields(pairs(&[("x-a", "1")]), true).unwrap();
    assert_eq!(
        fields,
        [
            ("x-a".to_string(), b"1".to_vec()),
            ("content-type".to_string(), b"application/json".to_vec())
        ]
    );
    assert_eq!(request_fields(pairs(&[("x-a", "1")]), false).unwrap().len(), 1);
    assert_eq!(
        request_fields(vec![Ok(("a".into(), "b".into())), Err("first"), Err("second")], true),
        Err("first")
    );
    let request = request_to::<(), Serialize>(
        "PUT",
        "http://a/?b=c",
        fields,
        RequestBody::Bytes(vec![9]),
        Some(7),
    )
    .unwrap();
    assert_eq!((request.method.as_str(), request.url.as_str()), ("PUT", "http://a/?b=c"));
    assert_eq!(request.headers.len(), 2);
    assert_eq!(request.body, Some(vec![9]));
    assert_eq!(request.timeout_ms, Some(7));
}

#[test]
fn timeouts_saturate() {
    let wait = |timeout| {
        fetch::<&str, _>("GET", "http://a/", vec![], vec![], empty(), timeout)
            .unwrap()
            .timeout_ms
    };
    assert_eq!(wait(Some(1500)), Some(1500));
    assert_eq!(wait(Some(u64::MAX as u128 + 1)), Some(u64::MAX));
    assert_eq!(wait(None), None);
}

fn response(body: &[u8]) -> PyResponse {
    PyResponse::try_from(Ok(ReceivedResponse {
        status: 204,
        headers: vec![("a".to_string(), b"b".to_vec())],
        body: body.to_vec(),
    }))
    .unwrap()
}

fn parse(text: &str) -> Result<String, String> {
    Ok(text.to_string())
}

fn lines(decoded: Option<Decoded<String>>) -> Vec<String> {
    match decoded {
        Some(Decoded::Lines(lines)) => lines,
        other => panic!("expected lines, got {other:?}"),
    }
}

#[test]
fn responses_are_read_piece_by_piece() {
    let mut response = response(b"abcdef");
    let mut buffer = new_buffer("bytes").unwrap();
    assert!(response.read_into(&mut buffer, 4).unwrap());
    assert!(!response.read_into(&mut buffer, 0).unwrap());
    assert!(!response.read_into(&mut buffer, 4).unwrap());
    match buffer.decode(&parse).unwrap() {
        Some(Decoded::Bytes(bytes)) => assert_eq!(bytes, b"abcdef"),
        other => panic!("expected bytes, got {other:?}"),
    }
    let error = response.read_into(&mut buffer, 1).unwrap_err();
    assert_eq!(error.message(), "Response already read");
}

#[test]
fn blocking_reads_do_not_depend_on_their_size() {
    for size in [-1, 1, 2, 5, 100] {
        let mut response = response(b"a\nb\nc");
        let decoded = response.blocking_read("lines", size, &parse).unwrap();
        assert_eq!(lines(decoded), ["a\n", "b\n", "c"]);
        let error = response.blocking_read("lines", size, &parse).unwrap_err();
        assert_eq!(error.message(), "Response already read");
    }
}

#[test]
fn reads_of_nothing_change_nothing() {
    let mut response = response(b"body");
    assert!(response.blocking_read("text", 0, &parse).unwrap().is_none());
    match response.blocking_read("text", -1, &parse).unwrap() {
        Some(Decoded::Text(text)) => assert_eq!(text, "body"),
        other => panic!("expected text, got {other:?}"),
    }
    let mut response = self::response(b"");
    assert!(response.blocking_read("text", 0, &parse).unwrap().is_none());
    assert!(matches!(
        response.blocking_read("text", 0, &parse),
        Err(ResponseError::AlreadyRead)
    ));
}

#[test]
fn repeated_headers_stand_once_with_their_last_value() {
    let header = |name: &str, value: &str| (name.to_string(), value.as_bytes().to_vec());
    let response = PyResponse::try_from(Ok(ReceivedResponse {
        status: 200,
        headers: vec![
            header("set-cookie", "a"),
            header("etag", "\u{e9}"),
            header("set-cookie", "b"),
        ],
        body: vec![],
    }))
    .unwrap();
    assert_eq!(
        response.headers().unwrap(),
        [
            ("set-cookie".to_string(), "b".to_string()),
            ("etag".to_string(), "\u{e9}".to_string())
        ]
    );
}

#[test]
fn response_errors() {
    let mut response = response(b"\xff");
    assert_eq!(response.status().unwrap(), 204);
    assert_eq!(response.headers().unwrap(), [("a".to_string(), "b".to_string())]);
    let error = response.blocking_read("xml", -1, &parse).unwrap_err();
    assert_eq!(error.message(), "invalid buffer kind: xml");
    assert_eq!(new_buffer("xml").unwrap_err().message(), "invalid buffer kind: xml");
    assert!(matches!(
        response.blocking_read("text", -1, &parse),
        Err(ResponseError::Decode(_))
    ));
    let mut response = self::response(b"x");
    response.close();
    assert_eq!(response.status().unwrap_err().message(), "response closed");
    assert_eq!(response.headers().unwrap_err().message(), "response closed");
    assert_eq!(
        response.blocking_read("text", -1, &parse).unwrap_err().message(),
        "response closed"
    );
    let failed = PyResponse::try_from(Err("no route".to_string())).unwrap_err();
    assert_eq!(failed.message(), "no route");
    let broken = PyResponse::try_from(Ok(ReceivedResponse {
        status: 200,
        headers: vec![("a".to_string(), vec![0xff])],
        body: vec![],
    }))
    .unwrap();
    assert_eq!(broken.headers().unwrap_err().message(), "invalid header value");
    assert_eq!(
        ResponseError::SizeTooLarge.message(),
        "read size is too large for this platform"
    );
}
