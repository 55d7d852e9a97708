use isola::body_buffer::{
    BodyBuffer, Buffer, Bytes, Decoded, Json, Lines, ServerSentEvent, SseEvent, Text,
};

fn number(text: &str) -> Result<i64, String> {
    text.trim().parse::<i64>().map_err(|e| e.to_string())
}

fn text(decoded: Option<Decoded<i64>>) -> Option<String> {
    match decoded {
        Some(Decoded::Text(text)) => Some(text),
        None => None,
        other => panic!("expected text, got {other:?}"),
    }
}

fn event(decoded: Option<Decoded<i64>>) -> (Option<String>, Option<String>, String) {
    match decoded {
        Some(Decoded::Event(event)) => (event.id, event.event_type, event.data),
        other => panic!("expected an event, got {other:?}"),
    }
}

#[test]
fn bytes_come_as_they_are() {
    let mut buffer = Bytes::default();
    assert!(buffer.decode(&number).unwrap().is_none());
    buffer.write(b"ab");
    buffer.write(b"\xff");
    match buffer.decode(&number).unwrap() {
        Some(Decoded::Bytes(bytes)) => assert_eq!(bytes, b"ab\xff"),
        other => panic!("expected bytes, got {other:?}"),
    }
    buffer.close();
    assert!(buffer.decode_all(&number).unwrap().is_none());
}

#[test]
fn lines_keep_their_newlines() {
    let mut buffer = Lines::default();
    buffer.write(b"one\ntwo\r\nthr");
    assert_eq!(text(buffer.decode(&number).unwrap()).as_deref(), Some("one\n"));
    assert_eq!(text(buffer.decode(&number).unwrap()).as_deref(), Some("two\r\n"));
    assert_eq!(text(buffer.decode(&number).unwrap()), None);
    buffer.write(b"ee");
    assert_eq!(text(buffer.decode(&number).unwrap()), None);
    buffer.close();
    assert_eq!(text(buffer.decode(&number).unwrap()).as_deref(), Some("three"));
    assert_eq!(text(buffer.decode(&number).unwrap()), None);
}

#[test]
fn all_lines_at_once() {
    let mut buffer = Lines::default();
    assert!(buffer.decode_all(&number).unwrap().is_none());
    buffer.write(b"a\n\nb\nrest");
    match buffer.decode_all(&number).unwrap() {
        Some(Decoded::Lines(lines)) => assert_eq!(lines, ["a\n", "\n", "b\n"]),
        other => panic!("expected lines, got {other:?}"),
    }
    match buffer.decode_all(&number).unwrap() {
        Some(Decoded::Lines(lines)) => assert!(lines.is_empty()),
        other => panic!("expected no lines, got {other:?}"),
    }
    buffer.close();
    match buffer.decode_all(&number).unwrap() {
        Some(Decoded::Lines(lines)) => assert_eq!(lines, ["rest"]),
        other => panic!("expected the rest, got {other:?}"),
    }
}

#[test]
fn lines_that_are_not_text_are_lost() {
    let mut buffer = Lines::default();
    buffer.write(b"ok\n\xff\xfe\nafter\n");
    let error = buffer.decode_all(&number).unwrap_err();
    assert_eq!(
        error.message,
        String::from_utf8(b"\xff\xfe\n".to_vec()).unwrap_err().to_string()
    );
    assert_eq!(text(buffer.decode(&number).unwrap()).as_deref(), Some("after\n"));
    buffer.write(b"\xff\n");
    assert!(buffer.decode(&number).is_err());
    assert!(buffer.decode(&number).unwrap().is_none());
}

#[test]
fn lines_do_not_depend_on_the_pieces() {
    let body = b"first\nsecond\n\nlast";
    for cut in 0..=body.len() {
        let mut buffer = Lines::default();
        let mut lines = Vec::new();
        buffer.write(&body[..cut]);
        while let Some(line) = text(buffer.decode(&number).unwrap()) {
            lines.push(line);
        }
        buffer.write(&body[cut..]);
        buffer.close();
        while let Some(line) = text(buffer.decode(&number).unwrap()) {
            lines.push(line);
        }
        assert_eq!(lines, ["first\n", "second\n", "\n", "last"]);
        assert_eq!(lines.concat().as_bytes(), body);
    }
}

#[test]
fn json_waits_for_the_end() {
    let mut buffer = Json::default();
    buffer.write(b" 4");
    assert!(buffer.decode(&number).unwrap().is_none());
    buffer.write(b"2 ");
    buffer.close();
    assert!(matches!(buffer.decode(&number).unwrap(), Some(Decoded::Json(42))));
    assert!(buffer.decode(&number).unwrap().is_none());
}

#[test]
fn json_that_fails_stays() {
    let mut buffer = Json::default();
    buffer.write(b"x");
    buffer.close();
    let first = buffer.decode(&number).unwrap_err();
    assert_eq!(first.message, "invalid digit found in string");
    let second = buffer.decode_all(&number).unwrap_err();
    assert_eq!(second.message, first.message);

    let mut buffer = Json::default();
    buffer.write(b"\xc3");
    buffer.close();
    assert_eq!(
        buffer.decode(&number).unwrap_err().message,
        format!("Invalid UTF-8: {}", std::str::from_utf8(b"\xc3").unwrap_err())
    );
}

#[test]
fn text_waits_for_the_end() {
    let mut buffer = Text::default();
    buffer.write("gr\u{fc}n".as_bytes());
    assert!(buffer.decode(&number).unwrap().is_none());
    buffer.close();
    assert_eq!(text(buffer.decode(&number).unwrap()).as_deref(), Some("gr\u{fc}n"));
    assert_eq!(text(buffer.decode_all(&number).unwrap()), None);

    let mut buffer = Text::default();
    buffer.write(b"\xff");
    buffer.close();
    assert!(buffer.decode(&number).is_err());
    assert!(buffer.decode(&number).unwrap().is_none());
}

#[test]
fn events_end_at_empty_lines() {
    let mut buffer = ServerSentEvent::default();
    buffer.write(b"id: 42\nevent:update\ndata: one\ndata:two\n");
    assert!(buffer.decode(&number).unwrap().is_none());
    buffer.write(b": comment\nretry: 10\n\r\n");
    assert_eq!(
        event(buffer.decode(&number).unwrap()),
        (Some("42".to_string()), Some("update".to_string()), "one\ntwo\n".to_string())
    );
    buffer.write(b"\n");
    assert_eq!(event(buffer.decode(&number).unwrap()), (None, None, String::new()));
    buffer.write(b"data\ndata:  spaced");
    buffer.close();
    assert_eq!(
        event(buffer.decode(&number).unwrap()),
        (None, None, "\n spaced\n".to_string())
    );
    assert!(buffer.decode(&number).unwrap().is_none());
}

#[test]
fn all_events_at_once() {
    let mut buffer = ServerSentEvent::default();
    buffer.write(b"data: a\n\ndata: b\n\nid: 7\n");
    match buffer.decode_all(&number).unwrap() {
        Some(Decoded::Events(events)) => {
            let data: Vec<&str> = events.iter().map(|e| e.data.as_str()).collect();
            assert_eq!(data, ["a\n", "b\n"]);
        }
        other => panic!("expected events, got {other:?}"),
    }
    buffer.close();
    assert!(buffer.decode_all(&number).unwrap().is_none());
    assert_eq!(event(buffer.decode(&number).unwrap()).0.as_deref(), Some("7"));
}

#[test]
fn event_lines_that_are_not_text_are_lost() {
    let mut buffer = ServerSentEvent::default();
    buffer.write(b"data: a\n\xff\ndata: b\n\n");
    assert!(buffer.decode_all(&number).is_err());
    assert_eq!(event(buffer.decode(&number).unwrap()).2, "a\nb\n");
}

#[test]
fn events_do_not_depend_on_the_pieces() {
    let body = b"data: a\n\nid: 1\ndata: b\n\ndata: c";
    for cut in 0..=body.len() {
        let mut buffer = ServerSentEvent::default();
        let mut data = Vec::new();
        buffer.write(&body[..cut]);
        while let Some(decoded) = buffer.decode(&number).unwrap() {
            data.push(event(Some(decoded)).2);
        }
        buffer.write(&body[cut..]);
        buffer.close();
        while let Some(decoded) = buffer.decode(&number).unwrap() {
            data.push(event(Some(decoded)).2);
        }
        assert_eq!(data, ["a\n", "b\n", "c\n"]);
    }
}

#[test]
fn event_emptiness() {
    let mut event = SseEvent::new();
    assert!(event.is_empty());
    event.id = Some(String::new());
    assert!(!event.is_empty());
}

#[test]
fn buffers_by_kind() {
    assert!(matches!(Buffer::new("binary"), Some(Buffer::Bytes(_))));
    assert!(matches!(Buffer::new("bytes"), Some(Buffer::Bytes(_))));
    assert!(matches!(Buffer::new("lines"), Some(Buffer::Lines(_))));
    assert!(matches!(Buffer::new("json"), Some(Buffer::Json(_))));
    assert!(matches!(Buffer::new("text"), Some(Buffer::Text(_))));
    assert!(matches!(Buffer::new("sse"), Some(Buffer::ServerSentEvent(_))));
    assert!(Buffer::new("SSE").is_none());
    assert!(matches!(Buffer::default(), Buffer::Bytes(_)));

    let mut buffer = Buffer::new("text").unwrap();
    buffer.write(b"abc");
    buffer.close();
    assert_eq!(text(buffer.decode_all(&number).unwrap()).as_deref(), Some("abc"));
}
