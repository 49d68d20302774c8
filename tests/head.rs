use h1_codec::codec::{decode_message, PayloadType, ServiceConfig};
use h1_codec::decoder::{Kind, ParseError, PayloadItem};
use h1_codec::head::{connection_type, eq_ignore_case, payload_framing, Framing, HeadKind, Header};
use h1_codec::encoder::TransferEncoding;
use h1_codec::lines::{
    decode_request, encode_request_head, encode_response_head, parse_request_line,
    split_header_exec, write_dec, RequestHead,
};
use h1_codec::message::{ConnectionType, Version};

fn hdr(n: &str, v: &str) -> Header {
    Header { name: n.as_bytes().to_vec(), value: v.as_bytes().to_vec() }
}

#[test]
fn request_head_round_trip() {
    let head = RequestHead {
        method: b"POST".to_vec(),
        target: b"/upload?x=1".to_vec(),
        version: Version::Http11,
        headers: vec![hdr("Host", "example.org"), hdr("X-Dup", "a"), hdr("x-dup", "b")],
    };
    let mut wire = Vec::new();
    encode_request_head(&head, &mut wire);
    assert_eq!(
        wire,
        b"POST /upload?x=1 HTTP/1.1\r\nHost: example.org\r\nX-Dup: a\r\nx-dup: b\r\n\r\n".to_vec()
    );
    wire.extend_from_slice(b"body");
    let back = decode_request(&mut wire, 8192, 96).unwrap().unwrap();
    assert_eq!(back.method, head.method);
    assert_eq!(back.target, head.target);
    assert_eq!(back.version, Version::Http11);
    assert_eq!(back.headers.len(), 3);
    for (a, b) in back.headers.iter().zip(head.headers.iter()) {
        assert_eq!(a.name, b.name);
        assert_eq!(a.value, b.value);
    }
    assert_eq!(wire, b"body".to_vec());
}

#[test]
fn incomplete_head_consumes_nothing() {
    let mut buf = b"GET / HTTP/1.1\r\nHost: a\r\n".to_vec();
    assert!(matches!(decode_request(&mut buf, 8192, 96), Ok(None)));
    assert_eq!(buf, b"GET / HTTP/1.1\r\nHost: a\r\n".to_vec());
}

#[test]
fn head_errors() {
    let mut buf = b"GET / HTTP/2.0\r\n\r\n".to_vec();
    assert!(matches!(decode_request(&mut buf, 8192, 96), Err(ParseError::Version)));
    let mut buf = b"GET/ HTTP/1.1\r\n\r\n".to_vec();
    assert!(matches!(decode_request(&mut buf, 8192, 96), Err(ParseError::Header)));
    let mut buf = b"GET / HTTP/1.1\r\nno colon here\r\n\r\n".to_vec();
    assert!(matches!(decode_request(&mut buf, 8192, 96), Err(ParseError::Header)));
    let mut buf = b"GET / HTTP/1.1\r\nA: 1\r\nB: 2\r\n\r\n".to_vec();
    assert!(matches!(decode_request(&mut buf, 8192, 1), Err(ParseError::TooLarge)));
    let mut buf = b"GET / HTTP/1.1\r\nLong: 0123456789\r\n\r\n".to_vec();
    assert!(matches!(decode_request(&mut buf, 15, 96), Err(ParseError::TooLarge)));
    let mut buf = vec![b'a'; 40];
    assert!(matches!(decode_request(&mut buf, 16, 96), Err(ParseError::TooLarge)));
}

#[test]
fn request_line_parts() {
    let (m, t, v) = parse_request_line(b"HEAD /x HTTP/1.0").unwrap();
    assert_eq!(m, b"HEAD".to_vec());
    assert_eq!(t, b"/x".to_vec());
    assert_eq!(v, Version::Http10);
    let (n, v) = split_header_exec(b"Content-Type:  \ttext/plain").unwrap();
    assert_eq!(n, b"Content-Type".to_vec());
    assert_eq!(v, b"text/plain".to_vec());
    assert!(split_header_exec(b": empty name").is_none());
    assert!(eq_ignore_case(b"KeeP-Alive", b"keep-alive"));
    assert!(!eq_ignore_case(b"keep-alive", b"KEEP-ALIVE"));
}

#[test]
fn chunked_takes_priority_over_content_length() {
    let hs = vec![hdr("Content-Length", "10"), hdr("Transfer-Encoding", "Chunked")];
    assert_eq!(
        payload_framing(&hs, HeadKind::Request),
        Framing::Body(Kind::Chunked { done: false })
    );
    let hs = vec![hdr("content-length", "10"), hdr("Content-Length", "3")];
    assert_eq!(
        payload_framing(&hs, HeadKind::Request),
        Framing::Body(Kind::Length(10))
    );
    let hs = vec![hdr("Content-Length", "ten")];
    assert_eq!(
        payload_framing(&hs, HeadKind::Request),
        Framing::BadLength
    );
}

#[test]
fn response_framing_without_length() {
    let hs: Vec<Header> = vec![];
    assert_eq!(
        payload_framing(&hs, HeadKind::Response { status: 200, head_request: false }),
        Framing::Body(Kind::Eof)
    );
    assert_eq!(
        payload_framing(&hs, HeadKind::Response { status: 204, head_request: false }),
        Framing::NoBody
    );
    assert_eq!(
        payload_framing(&hs, HeadKind::Response { status: 304, head_request: false }),
        Framing::NoBody
    );
    assert_eq!(
        payload_framing(&hs, HeadKind::Response { status: 101, head_request: false }),
        Framing::NoBody
    );
    assert_eq!(
        payload_framing(&hs, HeadKind::Response { status: 200, head_request: true }),
        Framing::NoBody
    );
    assert_eq!(
        payload_framing(&hs, HeadKind::Request),
        Framing::NoBody
    );
}

#[test]
fn connection_header_values() {
    assert_eq!(connection_type(&vec![hdr("Connection", "Close")]), Some(ConnectionType::Close));
    assert_eq!(
        connection_type(&vec![hdr("connection", "keep-alive")]),
        Some(ConnectionType::KeepAlive)
    );
    assert_eq!(
        connection_type(&vec![hdr("Connection", "Upgrade")]),
        Some(ConnectionType::Upgrade)
    );
    assert_eq!(connection_type(&vec![hdr("Connection", "whatever")]), None);
    assert_eq!(connection_type(&vec![hdr("Host", "a")]), None);
}

#[test]
fn two_pipelined_requests_in_one_read() {
    let cfg = ServiceConfig::new(true);
    let mut buf = b"POST /a HTTP/1.1\r\nContent-Length: 3\r\n\r\nabcGET /b HTTP/1.1\r\nConnection: close\r\n\r\n".to_vec();
    let (h1, p1, c1) = decode_message(&mut buf, &cfg).unwrap().unwrap();
    assert_eq!(h1.target, b"/a".to_vec());
    assert_eq!(c1, ConnectionType::KeepAlive);
    let mut dec = match p1 {
        PayloadType::Payload(d) => d,
        _ => panic!("expected a body"),
    };
    match dec.decode(&mut buf) {
        Ok(Some(PayloadItem::Chunk(c))) => assert_eq!(c, b"abc".to_vec()),
        _ => panic!("expected the body"),
    }
    assert!(matches!(dec.decode(&mut buf), Ok(Some(PayloadItem::Eof))));
    let (h2, p2, c2) = decode_message(&mut buf, &cfg).unwrap().unwrap();
    assert_eq!(h2.target, b"/b".to_vec());
    assert!(matches!(p2, PayloadType::NoBody));
    assert_eq!(c2, ConnectionType::Close);
    assert!(buf.is_empty());
}

#[test]
fn message_keep_alive_and_length_rules() {
    let cfg = ServiceConfig::new(false);
    let mut buf = b"GET / HTTP/1.1\r\nConnection: keep-alive\r\n\r\n".to_vec();
    let (_, _, c) = decode_message(&mut buf, &cfg).unwrap().unwrap();
    assert_eq!(c, ConnectionType::Close);

    let cfg = ServiceConfig::new(true).limits(100, 4);
    let mut buf = b"GET / HTTP/1.0\r\n\r\n".to_vec();
    let (_, _, c) = decode_message(&mut buf, &cfg).unwrap().unwrap();
    assert_eq!(c, ConnectionType::Close);

    let mut buf = b"PUT / HTTP/1.1\r\nContent-Length: 0\r\n\r\n".to_vec();
    let (_, p, c) = decode_message(&mut buf, &cfg).unwrap().unwrap();
    assert!(matches!(p, PayloadType::NoBody));
    assert_eq!(c, ConnectionType::KeepAlive);

    let mut buf = b"PUT / HTTP/1.1\r\nContent-Length: -1\r\n\r\n".to_vec();
    assert!(matches!(decode_message(&mut buf, &cfg), Err(ParseError::Header)));
}

#[test]
fn response_head_bytes() {
    let mut dst = Vec::new();
    encode_response_head(
        Version::Http11,
        200,
        b"OK",
        &vec![hdr("Server", "x"), hdr("Connection", "close"), hdr("content-length", "1")],
        TransferEncoding::Length(1234),
        ConnectionType::KeepAlive,
        &mut dst,
    );
    assert_eq!(
        dst,
        b"HTTP/1.1 200 OK\r\nServer: x\r\ncontent-length: 1234\r\nconnection: keep-alive\r\n\r\n"
            .to_vec()
    );
    let mut dst = Vec::new();
    encode_response_head(
        Version::Http10,
        404,
        b"Not Found",
        &vec![],
        TransferEncoding::Chunked { eof: false },
        ConnectionType::Close,
        &mut dst,
    );
    assert_eq!(
        dst,
        b"HTTP/1.0 404 Not Found\r\ntransfer-encoding: chunked\r\nconnection: close\r\n\r\n"
            .to_vec()
    );
    let mut dst = Vec::new();
    encode_response_head(
        Version::Http11,
        101,
        b"Switching Protocols",
        &vec![hdr("Upgrade", "websocket"), hdr("Connection", "upgrade")],
        TransferEncoding::NoBody,
        ConnectionType::Upgrade,
        &mut dst,
    );
    assert_eq!(
        dst,
        b"HTTP/1.1 101 Switching Protocols\r\nUpgrade: websocket\r\nConnection: upgrade\r\n\r\n"
            .to_vec()
    );
    let mut dst = Vec::new();
    write_dec(0, &mut dst);
    write_dec(18446744073709551615, &mut dst);
    assert_eq!(dst, b"018446744073709551615".to_vec());
}
