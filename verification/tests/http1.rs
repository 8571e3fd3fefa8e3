use kfm_na::http1::{
    parse_header_line, parse_hex, parse_status_line, serialize_request, take_line, BodyDecoder,
    BodyKind, BodyPoll, BodyState, Head, HeadProgress, HeadReader, HttpError, LineTake, Request,
};

fn head(pairs: &[(&str, &str)]) -> Head {
    Head {
        status: 200,
        headers: pairs.iter().map(|(k, v)| (k.to_string(), v.to_string())).collect(),
    }
}

#[test]
fn serialize_adds_content_length() {
    let req = Request {
        method: "POST".into(),
        path: "/x".into(),
        headers: vec![("Host".into(), "h".into())],
        body: b"abc".to_vec(),
    };
    assert_eq!(
        serialize_request(&req),
        b"POST /x HTTP/1.1\r\nHost: h\r\nContent-Length: 3\r\n\r\nabc".to_vec()
    );
}

#[test]
fn serialize_keeps_given_content_length() {
    let req = Request {
        method: "GET".into(),
        path: "/".into(),
        headers: vec![("content-LENGTH".into(), "0".into())],
        body: vec![],
    };
    assert_eq!(
        serialize_request(&req),
        b"GET / HTTP/1.1\r\ncontent-LENGTH: 0\r\n\r\n".to_vec()
    );
}

#[test]
fn header_lookup_ignores_case_and_takes_first() {
    let h = head(&[("X-A", "1"), ("x-a", "2")]);
    assert_eq!(h.header("x-A"), Some("1"));
    assert_eq!(h.header("missing"), None);
}

#[test]
fn body_kind_rules() {
    assert_eq!(head(&[("Transfer-Encoding", "gzip, CHUNKED")]).body_kind(), BodyKind::Chunked);
    assert_eq!(head(&[("Content-Length", " 42 ")]).body_kind(), BodyKind::Len(42));
    assert_eq!(head(&[("Content-Length", "x")]).body_kind(), BodyKind::Eof);
    assert_eq!(head(&[]).body_kind(), BodyKind::Eof);
    assert_eq!(
        head(&[("Transfer-Encoding", "identity"), ("Content-Length", "+7")]).body_kind(),
        BodyKind::Len(7)
    );
}

#[test]
fn take_line_strips_crlf_and_waits() {
    let mut b = b"ab\r\ncd".to_vec();
    match take_line(&mut b, false) {
        LineTake::Line(l) => assert_eq!(l, b"ab".to_vec()),
        _ => panic!("expected a line"),
    }
    assert_eq!(b, b"cd".to_vec());
    assert!(matches!(take_line(&mut b, false), LineTake::NeedMore));
    match take_line(&mut b, true) {
        LineTake::Line(l) => assert_eq!(l, b"cd".to_vec()),
        _ => panic!("expected the residue"),
    }
    assert!(matches!(take_line(&mut b, true), LineTake::Closed));
}

#[test]
fn status_and_header_lines() {
    assert_eq!(parse_status_line("HTTP/1.1 200 OK"), Some(200));
    assert_eq!(parse_status_line("HTTP/1.1"), None);
    assert_eq!(parse_status_line("HTTP/1.1 70000 X"), None);
    assert_eq!(
        parse_header_line("  Content-Type :  text/plain  "),
        Some(("Content-Type".to_string(), "text/plain".to_string()))
    );
    assert_eq!(parse_header_line("a: b:c"), Some(("a".to_string(), "b:c".to_string())));
    assert_eq!(parse_header_line("no colon"), None);
}

#[test]
fn head_reader_assembles_a_head() {
    let r = HeadReader::new();
    let r = match r.on_line(Some(b"HTTP/1.1 404 Not Found")) {
        HeadProgress::More(r) => r,
        _ => panic!(),
    };
    let r = match r.on_line(Some(b"Content-Length: 3")) {
        HeadProgress::More(r) => r,
        _ => panic!(),
    };
    let r = match r.on_line(Some(b"garbage")) {
        HeadProgress::More(r) => r,
        _ => panic!(),
    };
    match r.on_line(Some(b"")) {
        HeadProgress::Done(h) => {
            assert_eq!(h.status, 404);
            assert_eq!(h.headers, vec![("Content-Length".to_string(), "3".to_string())]);
        }
        _ => panic!(),
    }
}

#[test]
fn head_reader_errors() {
    match HeadReader::new().on_line(None) {
        HeadProgress::Fail(HttpError::UnexpectedEof(m)) => assert_eq!(m, "空响应"),
        _ => panic!(),
    }
    match HeadReader::new().on_line(Some(b"junk")) {
        HeadProgress::Fail(HttpError::InvalidData(m)) => assert_eq!(m, "坏状态行: junk"),
        _ => panic!(),
    }
}

#[test]
fn hex_parse_like_from_str_radix() {
    assert_eq!(parse_hex(&['1', 'a', 'F']), Some(0x1af));
    assert_eq!(parse_hex(&['+', '0']), Some(0));
    assert_eq!(parse_hex(&['+']), None);
    assert_eq!(parse_hex(&[]), None);
    assert_eq!(parse_hex(&['-', '1']), None);
    assert_eq!(parse_hex(&['1', '0', '0', '0', '0', '0', '0', '0', '0', '0', '0', '0', '0', '0', '0', '0', '0']), None);
}

/// Drives a decoder over the whole input as the socket loop does.
fn drain(kind: BodyKind, input: &[u8], cap: usize, piece: usize) -> Result<Vec<u8>, HttpError> {
    let mut d = BodyDecoder::new(kind);
    let mut buf: Vec<u8> = Vec::new();
    let mut fed = 0;
    let mut closed = false;
    let mut out = Vec::new();
    loop {
        match d.poll(&mut buf, cap, closed, &mut out)? {
            BodyPoll::Read(0) => return Ok(out),
            BodyPoll::Read(_) | BodyPoll::Continue => {}
            BodyPoll::NeedMore => {
                if fed < input.len() {
                    let end = (fed + piece).min(input.len());
                    buf.extend_from_slice(&input[fed..end]);
                    fed = end;
                } else {
                    closed = true;
                }
            }
        }
    }
}

#[test]
fn chunked_body_decodes_in_any_pieces() {
    let wire = b"4;ext=1\r\nWiki\r\n5\r\npedia\r\n0\r\nTrailer: x\r\n\r\n";
    for piece in 1..wire.len() + 1 {
        assert_eq!(drain(BodyKind::Chunked, wire, 3, piece).unwrap(), b"Wikipedia".to_vec());
    }
}

#[test]
fn length_body_stops_at_length_or_close() {
    assert_eq!(drain(BodyKind::Len(3), b"abcdef", 8, 2).unwrap(), b"abc".to_vec());
    assert_eq!(drain(BodyKind::Len(10), b"abc", 8, 2).unwrap(), b"abc".to_vec());
    assert_eq!(drain(BodyKind::Eof, b"hello", 2, 3).unwrap(), b"hello".to_vec());
}

#[test]
fn chunked_errors() {
    match drain(BodyKind::Chunked, b"zz\r\n", 8, 4) {
        Err(HttpError::InvalidData(m)) => assert_eq!(m, "坏 chunk 尺寸: zz"),
        _ => panic!(),
    }
    match drain(BodyKind::Chunked, b"", 8, 4) {
        Err(HttpError::UnexpectedEof(m)) => assert_eq!(m, "chunk 尺寸行缺失"),
        _ => panic!(),
    }
}

#[test]
fn decoder_starts_in_kind_state() {
    assert_eq!(BodyDecoder::new(BodyKind::Chunked).state, BodyState::ChunkSize);
    assert_eq!(BodyDecoder::new(BodyKind::Len(5)).state, BodyState::Len(5));
    assert_eq!(BodyDecoder::new(BodyKind::Eof).state, BodyState::Eof);
}
