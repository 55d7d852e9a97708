use bytes::Bytes;
use http::header::{HeaderMap, HeaderValue, AUTHORIZATION, CONTENT_LENGTH, COOKIE, HOST};
use isola::outgoing::{
    collect_outgoing_http_body, content_length, parse_unsigned, response_body_error, send_request,
    take_request, BodyFrame, Exchange, ExchangeAction, ExchangeEvent, HttpError, RequestOptions,
    RequestParts, Timeout,
};

fn data(text: &'static str) -> BodyFrame {
    BodyFrame::Data(Bytes::from_static(text.as_bytes()))
}

fn parts(headers: HeaderMap<HeaderValue>) -> RequestParts {
    RequestParts {
        method: "POST".to_string(),
        uri: "http://a.example/".to_string(),
        headers,
    }
}

fn millis(n: u64) -> Timeout {
    Timeout { secs: n / 1000, nanos: (n % 1000) as u32 * 1_000_000 }
}

#[test]
fn outgoing_http_body_is_capped() {
    let err = collect_outgoing_http_body(vec![data("abcd"), data("e")], 4, None)
        .expect_err("expected cap error");
    assert!(matches!(err, HttpError::HttpRequestBodySize(Some(4))));
}

#[test]
fn bodies_are_put_together() {
    let body = collect_outgoing_http_body(
        vec![data("ab"), BodyFrame::Other, data("cd")],
        4,
        Some(1_000_000_000),
    )
    .unwrap();
    assert_eq!(body.as_deref(), Some(b"abcd".as_slice()));
    assert!(collect_outgoing_http_body(vec![BodyFrame::Other], 4, None).unwrap().is_none());
    let failed = collect_outgoing_http_body(
        vec![data("a"), BodyFrame::Failed("reset".to_string())],
        4,
        None,
    )
    .unwrap_err();
    assert!(matches!(
        failed,
        HttpError::InternalError(Some(text)) if text == "request body read error: reset"
    ));
}

#[test]
fn send_request_body_timeout_is_enforced() {
    let options = RequestOptions {
        connect_timeout: Some(millis(20)),
        first_byte_timeout: Some(millis(1000)),
        between_bytes_timeout: Some(millis(1000)),
    };
    let admitted = send_request(parts(HeaderMap::new()), Some(options)).unwrap();
    assert_eq!(admitted.body_timeout, millis(20));
    let event: ExchangeEvent<()> = ExchangeEvent::Frame(BodyFrame::TimedOut);
    assert!(admitted.exchange.is_expected(&event));
    let (exchange, action) = admitted.exchange.step(event);
    assert!(matches!(action, ExchangeAction::Return(Err(HttpError::ConnectionWriteTimeout))));
    assert!(matches!(exchange, Exchange::Done));
}

#[test]
fn send_request_delegates_redirect_and_host_handling_to_host() {
    let mut headers = HeaderMap::new();
    headers.insert(HOST, HeaderValue::from_static("a.example"));
    headers.insert(AUTHORIZATION, HeaderValue::from_static("Bearer secret"));
    headers.insert(COOKIE, HeaderValue::from_static("a=b"));
    headers.insert("x-other", HeaderValue::from_static("keep"));
    let options = RequestOptions {
        connect_timeout: Some(millis(1000)),
        first_byte_timeout: Some(millis(1000)),
        between_bytes_timeout: Some(millis(1000)),
    };
    let admitted = send_request(parts(headers), Some(options)).unwrap();
    let (exchange, action) =
        admitted.exchange.step(ExchangeEvent::<http::Response<()>>::BodyEnd);
    match action {
        ExchangeAction::CallHost(request, wait) => {
            assert_eq!(request.method, "POST");
            assert_eq!(request.uri, "http://a.example/");
            assert!(request.body.is_none());
            assert_eq!(request.headers.get("x-other").unwrap().to_str().unwrap(), "keep");
            assert_eq!(request.headers.get(HOST).unwrap().to_str().unwrap(), "a.example");
            assert_eq!(
                request.headers.get(AUTHORIZATION).unwrap().to_str().unwrap(),
                "Bearer secret"
            );
            assert_eq!(request.headers.get(COOKIE).unwrap().to_str().unwrap(), "a=b");
            assert_eq!(wait, millis(1000));
        }
        _ => panic!("expected the host to be called"),
    }
    let answer = http::Response::builder()
        .status(http::StatusCode::FOUND)
        .header(http::header::LOCATION, "http://b.example/next")
        .body(())
        .unwrap();
    let event = ExchangeEvent::HostReplied(answer);
    assert!(exchange.is_expected(&event));
    let (_, action) = exchange.step(event);
    match action {
        ExchangeAction::Return(Ok(incoming)) => {
            assert_eq!(incoming.status(), http::StatusCode::FOUND);
            assert_eq!(
                incoming.headers().get(http::header::LOCATION).unwrap(),
                "http://b.example/next"
            );
        }
        _ => panic!("expected the answer of the host"),
    }
}

#[test]
fn declared_bodies_over_the_limit_are_refused_at_once() {
    let mut headers = HeaderMap::new();
    headers.insert(CONTENT_LENGTH, HeaderValue::from_static("16777217"));
    assert_eq!(content_length(&headers), Some(16_777_217));
    let error = send_request(parts(headers), None).unwrap_err();
    assert!(matches!(error, HttpError::HttpRequestBodySize(Some(16_777_216))));

    let mut headers = HeaderMap::new();
    headers.insert(CONTENT_LENGTH, HeaderValue::from_static("16777216"));
    assert!(send_request(parts(headers), None).is_ok());
    let mut headers = HeaderMap::new();
    headers.insert(CONTENT_LENGTH, HeaderValue::from_static("many"));
    assert_eq!(content_length(&headers), None);
    assert!(send_request(parts(headers), None).is_ok());
    assert_eq!(content_length(&HeaderMap::new()), None);
}

#[test]
fn time_limits() {
    let admitted = send_request(parts(HeaderMap::new()), None).unwrap();
    assert_eq!(admitted.body_timeout, millis(30_000));
    match admitted.exchange.step(ExchangeEvent::<()>::BodyEnd) {
        (_, ExchangeAction::CallHost(_, wait)) => assert_eq!(wait, millis(600_000)),
        _ => panic!("expected the host to be called"),
    }
    let options = RequestOptions {
        connect_timeout: Some(millis(31_000)),
        first_byte_timeout: None,
        between_bytes_timeout: None,
    };
    let admitted = send_request(parts(HeaderMap::new()), Some(options)).unwrap();
    assert_eq!(admitted.body_timeout, millis(30_000));
    assert_eq!(millis(1500).min(millis(1499)), millis(1499));
}

#[test]
fn the_host_receives_the_whole_body() {
    let admitted = send_request(parts(HeaderMap::new()), None).unwrap();
    let (exchange, action) =
        admitted.exchange.step(ExchangeEvent::<()>::Frame(data("first ")));
    assert!(matches!(action, ExchangeAction::ReadFrame));
    let (exchange, _) = exchange.step(ExchangeEvent::<()>::Frame(data("second")));
    match exchange.step(ExchangeEvent::<()>::BodyEnd) {
        (exchange, ExchangeAction::CallHost(request, _)) => {
            assert_eq!(request.body.as_deref(), Some(b"first second".as_slice()));
            let (_, action) =
                exchange.step(ExchangeEvent::<()>::HostFailed("refused".to_string()));
            assert!(matches!(
                action,
                ExchangeAction::Return(Err(HttpError::InternalError(Some(text))))
                    if text == "request error: refused"
            ));
        }
        _ => panic!("expected the host to be called"),
    }
    let (_, action) = Exchange::AwaitingHost.step(ExchangeEvent::<()>::HostTimedOut);
    assert!(matches!(action, ExchangeAction::Return(Err(HttpError::HttpResponseTimeout))));
    assert!(matches!(
        response_body_error("gone".to_string()),
        HttpError::InternalError(Some(text)) if text == "gone"
    ));
}

#[test]
fn unsigned_numbers() {
    assert_eq!(parse_unsigned(b"0"), Some(0));
    assert_eq!(parse_unsigned(b"+12"), Some(12));
    assert_eq!(parse_unsigned(b"18446744073709551615"), Some(u64::MAX));
    assert_eq!(parse_unsigned(b"18446744073709551616"), None);
    assert_eq!(parse_unsigned(b""), None);
    assert_eq!(parse_unsigned(b"+"), None);
    assert_eq!(parse_unsigned(b" 1"), None);
    assert_eq!(parse_unsigned(b"-1"), None);
}

#[test]
fn declared_lengths_decide_before_the_body_is_read() {
    let limit = 16_777_216;
    assert!(take_request(parts(HeaderMap::new()), Some(limit), None).is_ok());
    let error = take_request(parts(HeaderMap::new()), Some(limit + 1), None).unwrap_err();
    assert!(matches!(error, HttpError::HttpRequestBodySize(Some(16_777_216))));
    let admitted = take_request(parts(HeaderMap::new()), None, None).unwrap();
    assert_eq!(admitted.body_timeout, Timeout { secs: 30, nanos: 0 });
}
