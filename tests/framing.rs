use h1_codec::codec::{ClientCodec, Message, PayloadType, ServiceConfig};
use h1_codec::decoder::{scan_chunk, ChunkScan, Kind, ParseError, PayloadDecoder, PayloadItem};
use h1_codec::dispatch::{Action, Dispatcher, Event, Phase};
use h1_codec::encoder::{BodyOverrun, TransferEncoding};
use h1_codec::head::Header;
use h1_codec::lines::RequestHead;
use h1_codec::message::{
    body_encoding, resolve_connection, select_framing, BodySize, ConnectionType, MessageType,
    Version,
};

fn req(method: &str, version: Version) -> RequestHead {
    RequestHead {
        method: method.as_bytes().to_vec(),
        target: b"/".to_vec(),
        version,
        headers: vec![Header { name: b"Host".to_vec(), value: b"h".to_vec() }],
    }
}

fn decode_all(dec: &mut PayloadDecoder, buf: &mut Vec<u8>) -> Result<(Vec<u8>, bool), ParseError> {
    let mut out = Vec::new();
    loop {
        match dec.decode(buf)? {
            Some(PayloadItem::Chunk(c)) => out.extend_from_slice(&c),
            Some(PayloadItem::Eof) => return Ok((out, true)),
            None => return Ok((out, false)),
        }
    }
}

fn chunked_wire(pieces: &[&[u8]]) -> Vec<u8> {
    let mut te = TransferEncoding::Chunked { eof: false };
    let mut wire = Vec::new();
    for p in pieces {
        te.encode_chunk(p, &mut wire).unwrap();
    }
    te.encode_eof(&mut wire);
    wire
}

#[test]
fn chunk_encoding_bytes() {
    let wire = chunked_wire(&[b"hello", &[7u8; 26]]);
    let mut expected = b"5\r\nhello\r\n1a\r\n".to_vec();
    expected.extend_from_slice(&[7u8; 26]);
    expected.extend_from_slice(b"\r\n0\r\n\r\n");
    assert_eq!(wire, expected);
}

#[test]
fn chunked_round_trip() {
    let mut wire = chunked_wire(&[b"abc", b"defghijklmnopqrstu"]);
    wire.extend_from_slice(b"GET / HTTP/1.1\r\n");
    let mut dec = PayloadDecoder::chunked();
    let (body, eof) = decode_all(&mut dec, &mut wire).unwrap();
    assert!(eof);
    assert_eq!(body, b"abcdefghijklmnopqrstu".to_vec());
    assert_eq!(wire, b"GET / HTTP/1.1\r\n".to_vec());
}

#[test]
fn chunked_split_one_byte_at_a_time() {
    let wire = chunked_wire(&[b"first piece", b"x", b"the last one"]);
    let mut whole = wire.clone();
    let mut dec = PayloadDecoder::chunked();
    let (all_at_once, eof) = decode_all(&mut dec, &mut whole).unwrap();
    assert!(eof);

    let mut dec = PayloadDecoder::chunked();
    let mut buf = Vec::new();
    let mut out = Vec::new();
    let mut ended = false;
    for b in &wire {
        buf.push(*b);
        let (part, e) = decode_all(&mut dec, &mut buf).unwrap();
        out.extend_from_slice(&part);
        if e {
            ended = true;
            break;
        }
    }
    assert!(ended);
    assert_eq!(out, all_at_once);
    assert_eq!(out, b"first piecexthe last one".to_vec());
}

#[test]
fn malformed_chunk_size_is_an_error() {
    let mut dec = PayloadDecoder::chunked();
    let mut buf = b"zz\r\nhello\r\n".to_vec();
    assert!(matches!(dec.decode(&mut buf), Err(ParseError::InvalidChunk)));
    let mut buf = b"5\r\nhelloXY".to_vec();
    let mut dec = PayloadDecoder::chunked();
    assert!(matches!(dec.decode(&mut buf), Err(ParseError::InvalidChunk)));
    let mut buf = b"11111111111111111\r\n".to_vec();
    assert!(matches!(scan_chunk(&buf), ChunkScan::Invalid));
    buf.truncate(5);
    assert!(matches!(scan_chunk(&buf), ChunkScan::Incomplete));

    let mut d = Dispatcher::new(false);
    assert_eq!(d.step(Event::ParseFailed), Action::WriteError);
    assert_eq!(d.phase, Phase::Closed);
}

#[test]
fn zero_length_body_ends_at_once() {
    let mut dec = PayloadDecoder::length(0);
    let mut buf = b"next".to_vec();
    assert!(matches!(dec.decode(&mut buf), Ok(Some(PayloadItem::Eof))));
    assert_eq!(buf, b"next".to_vec());

    let mut codec = ClientCodec::new(ServiceConfig::new(true));
    codec.decode_head(None, PayloadType::NoBody);
    assert_eq!(codec.message_type(), MessageType::NoBody);
}

#[test]
fn fixed_length_body() {
    let mut dec = PayloadDecoder::length(5);
    let mut buf = b"abc".to_vec();
    match dec.decode(&mut buf) {
        Ok(Some(PayloadItem::Chunk(c))) => assert_eq!(c, b"abc".to_vec()),
        _ => panic!("expected a chunk"),
    }
    assert_eq!(dec.kind, Kind::Length(2));
    assert!(matches!(dec.decode(&mut buf), Ok(None)));
    let mut buf = b"deXYZ".to_vec();
    match dec.decode(&mut buf) {
        Ok(Some(PayloadItem::Chunk(c))) => assert_eq!(c, b"de".to_vec()),
        _ => panic!("expected a chunk"),
    }
    assert_eq!(buf, b"XYZ".to_vec());
    assert!(matches!(dec.decode(&mut buf), Ok(Some(PayloadItem::Eof))));
}

#[test]
fn close_delimited_body() {
    let mut dec = PayloadDecoder::eof();
    let mut buf = Vec::new();
    assert!(matches!(dec.decode(&mut buf), Ok(None)));
    let mut buf = b"all of it".to_vec();
    match dec.decode(&mut buf) {
        Ok(Some(PayloadItem::Chunk(c))) => assert_eq!(c, b"all of it".to_vec()),
        _ => panic!("expected a chunk"),
    }
    assert!(buf.is_empty());
}

#[test]
fn fixed_length_overrun_is_refused() {
    let mut te = TransferEncoding::Length(3);
    let mut dst = Vec::new();
    assert_eq!(te.encode_chunk(b"ab", &mut dst), Ok(()));
    assert_eq!(te.encode_chunk(b"cd", &mut dst), Err(BodyOverrun));
    assert_eq!(dst, b"ab".to_vec());
    assert_eq!(te, TransferEncoding::Length(1));
}

#[test]
fn head_response_writes_no_body() {
    let (head_te, ct) = select_framing(BodySize::Sized(5), Version::Http11, ConnectionType::KeepAlive, true);
    assert_eq!(head_te, TransferEncoding::Length(5));
    assert_eq!(ct, ConnectionType::KeepAlive);
    let mut te = body_encoding(head_te, true);
    assert_eq!(te, TransferEncoding::Suppressed);
    let mut dst = Vec::new();
    assert_eq!(te.encode_chunk(b"hello", &mut dst), Ok(()));
    te.encode_eof(&mut dst);
    assert!(dst.is_empty());
}

#[test]
fn framing_selection() {
    assert_eq!(
        select_framing(BodySize::Stream, Version::Http11, ConnectionType::KeepAlive, false),
        (TransferEncoding::Chunked { eof: false }, ConnectionType::KeepAlive)
    );
    assert_eq!(
        select_framing(BodySize::Stream, Version::Http10, ConnectionType::KeepAlive, false),
        (TransferEncoding::Eof, ConnectionType::Close)
    );
    assert_eq!(
        select_framing(BodySize::Sized(9), Version::Http10, ConnectionType::Close, false),
        (TransferEncoding::Length(9), ConnectionType::Close)
    );
    assert_eq!(
        select_framing(BodySize::Empty, Version::Http11, ConnectionType::Close, true),
        (TransferEncoding::Length(0), ConnectionType::Close)
    );
    assert_eq!(
        select_framing(BodySize::Empty, Version::Http11, ConnectionType::Close, false),
        (TransferEncoding::NoBody, ConnectionType::Close)
    );
    assert_eq!(
        select_framing(BodySize::Absent, Version::Http11, ConnectionType::Close, true),
        (TransferEncoding::NoBody, ConnectionType::Close)
    );
    let mut te = TransferEncoding::NoBody;
    let mut dst = Vec::new();
    assert_eq!(te.encode_chunk(b"", &mut dst), Ok(()));
    assert_eq!(te.encode_chunk(b"x", &mut dst), Err(BodyOverrun));
    assert!(dst.is_empty());
}

#[test]
fn keep_alive_resolution() {
    assert_eq!(
        resolve_connection(Some(ConnectionType::Close), Version::Http11, true),
        ConnectionType::Close
    );
    assert_eq!(
        resolve_connection(Some(ConnectionType::KeepAlive), Version::Http11, false),
        ConnectionType::Close
    );
    assert_eq!(resolve_connection(None, Version::Http10, true), ConnectionType::Close);
    assert_eq!(resolve_connection(None, Version::Http11, true), ConnectionType::KeepAlive);
    assert_eq!(
        resolve_connection(Some(ConnectionType::Upgrade), Version::Http10, false),
        ConnectionType::Upgrade
    );
}

#[test]
fn client_codec_flow() {
    let mut codec = ClientCodec::new(ServiceConfig::new(true));
    assert!(!codec.keepalive());
    let mut dst = Vec::new();
    codec.encode_head(&req("POST", Version::Http11), BodySize::Stream, &mut dst);
    assert!(codec.keepalive());
    assert_eq!(
        dst,
        b"POST / HTTP/1.1\r\nHost: h\r\ntransfer-encoding: chunked\r\nconnection: keep-alive\r\n\r\n".to_vec()
    );
    let mut dst = Vec::new();
    codec.encode_chunk(b"hi", &mut dst).unwrap();
    codec.encode_eof(&mut dst);
    assert_eq!(dst, b"2\r\nhi\r\n0\r\n\r\n".to_vec());

    // a peer's keep-alive does not override; its close does
    codec.decode_head(Some(ConnectionType::KeepAlive), PayloadType::Payload(PayloadDecoder::length(2)));
    assert!(codec.keepalive());
    assert_eq!(codec.message_type(), MessageType::Payload);
    let mut pc = codec.into_payload_codec();
    let mut buf = b"ok".to_vec();
    assert_eq!(pc.decode(&mut buf), Ok(Some(Some(b"ok".to_vec()))));
    assert_eq!(pc.decode(&mut buf), Ok(Some(None)));
    let mut codec = pc.into_message_codec();
    codec.decode_head(Some(ConnectionType::Close), PayloadType::Stream(PayloadDecoder::eof()));
    assert!(!codec.keepalive());
    assert_eq!(codec.message_type(), MessageType::Stream);
}

#[test]
fn client_keep_alive_disabled() {
    let mut codec = ClientCodec::new(ServiceConfig::new(false));
    let mut dst = Vec::new();
    codec.encode_head(&req("GET", Version::Http11), BodySize::Sized(0), &mut dst);
    assert!(!codec.keepalive());
    assert_eq!(
        dst,
        b"GET / HTTP/1.1\r\nHost: h\r\ncontent-length: 0\r\nconnection: close\r\n\r\n".to_vec()
    );
    let mut up = req("GET", Version::Http11);
    up.headers.push(Header { name: b"Connection".to_vec(), value: b"Upgrade".to_vec() });
    codec.encode_head(&up, BodySize::Absent, &mut dst);
    assert!(codec.upgrade());
}

#[test]
fn head_request_response_has_no_body() {
    let mut codec = ClientCodec::new(ServiceConfig::new(true));
    let mut dst = Vec::new();
    codec.encode_head(&req("HEAD", Version::Http11), BodySize::Absent, &mut dst);
    codec.decode_head(None, PayloadType::Payload(PayloadDecoder::length(10)));
    assert_eq!(codec.message_type(), MessageType::NoBody);

    let mut codec = ClientCodec::new(ServiceConfig::new(true));
    codec.encode_head(&req("HEAD", Version::Http11), BodySize::Absent, &mut dst);
    let mut buf = b"HTTP/1.1 200 OK\r\nContent-Length: 10\r\n\r\n".to_vec();
    let resp = codec.decode(&mut buf).unwrap().unwrap();
    assert_eq!(resp.status, 200);
    assert_eq!(codec.message_type(), MessageType::NoBody);
    assert!(buf.is_empty());
}

#[test]
fn pipelined_requests_need_no_second_read() {
    let mut d = Dispatcher::new(false);
    let ev = Event::HeadDecoded { ctype: ConnectionType::KeepAlive, expect: false, has_body: false };
    assert_eq!(d.step(ev), Action::CallHandler);
    assert_eq!(d.step(Event::ResponseWritten { buffered: true }), Action::DecodeBuffered);
    assert_eq!(d.phase, Phase::ReadHead);
    assert_eq!(d.step(ev), Action::CallHandler);
    assert_eq!(d.step(Event::ResponseWritten { buffered: false }), Action::ArmIdleTimer);
}

#[test]
fn dispatcher_expect_and_close() {
    let mut d = Dispatcher::new(true);
    let ev = Event::HeadDecoded { ctype: ConnectionType::Close, expect: true, has_body: true };
    assert_eq!(d.step(ev), Action::Read);
    assert_eq!(d.phase, Phase::ExpectContinue);
    assert_eq!(d.step(Event::ExpectDone { accepted: true }), Action::SendContinue);
    assert_eq!(d.step(Event::BodyDone), Action::Read);
    d.mark_response_started();
    assert_eq!(d.step(Event::ResponseWritten { buffered: true }), Action::Shutdown);
    assert_eq!(d.phase, Phase::Closed);

    let mut d = Dispatcher::new(true);
    let ev = Event::HeadDecoded { ctype: ConnectionType::Upgrade, expect: false, has_body: false };
    d.step(ev);
    assert_eq!(d.step(Event::ResponseWritten { buffered: false }), Action::HandOff);
    assert_eq!(d.phase, Phase::Upgrade);

    let mut d = Dispatcher::new(false);
    d.step(Event::HeadDecoded { ctype: ConnectionType::KeepAlive, expect: true, has_body: true });
    assert_eq!(d.step(Event::ExpectDone { accepted: false }), Action::Reject);
    d.mark_response_started();
    assert_eq!(d.step(Event::ParseFailed), Action::Shutdown);
    assert_eq!(d.step(Event::TimedOut), Action::Shutdown);
}

#[test]
fn client_decodes_response_heads() {
    let mut codec = ClientCodec::new(ServiceConfig::new(true));
    let mut dst = Vec::new();
    codec.encode_head(&req("GET", Version::Http11), BodySize::Absent, &mut dst);
    let mut buf = b"HTTP/1.1 404 Not Found\r\nContent-Length: 3\r\nConnection: keep-alive\r\n\r\nabc".to_vec();
    let resp = codec.decode(&mut buf).unwrap().unwrap();
    assert_eq!(resp.status, 404);
    assert_eq!(resp.reason, b"Not Found".to_vec());
    assert_eq!(resp.version, Version::Http11);
    assert_eq!(resp.headers.len(), 2);
    assert!(codec.keepalive());
    assert_eq!(codec.message_type(), MessageType::Payload);
    let mut pc = codec.into_payload_codec();
    assert_eq!(pc.decode(&mut buf), Ok(Some(Some(b"abc".to_vec()))));
    assert_eq!(pc.decode(&mut buf), Ok(Some(None)));
    let mut codec = pc.into_message_codec();

    let mut buf = b"HTTP/1.0 200 OK\r\nConnection: close\r\n\r\nrest".to_vec();
    codec.decode(&mut buf).unwrap().unwrap();
    assert!(!codec.keepalive());
    assert_eq!(codec.message_type(), MessageType::Payload);
    assert_eq!(buf, b"rest".to_vec());
    let mut pc = codec.into_payload_codec();
    assert_eq!(pc.decode(&mut buf), Ok(Some(Some(b"rest".to_vec()))));

    let mut codec = ClientCodec::new(ServiceConfig::new(true));
    let mut buf = b"HTTP/1.1 204 No Content\r\n\r\n".to_vec();
    codec.decode(&mut buf).unwrap().unwrap();
    assert_eq!(codec.message_type(), MessageType::NoBody);

    let mut codec = ClientCodec::new(ServiceConfig::new(true));
    let mut buf = b"HTTP/1.1 200 OK\r\nContent-Le".to_vec();
    assert!(matches!(codec.decode(&mut buf), Ok(None)));
    let mut buf = b"HTTP/1.1 2x0 OK\r\n\r\n".to_vec();
    assert!(matches!(codec.decode(&mut buf), Err(ParseError::Header)));
    let mut buf = b"HTTP/3.0 200 OK\r\n\r\n".to_vec();
    assert!(matches!(codec.decode(&mut buf), Err(ParseError::Version)));
    let mut buf = b"HTTP/1.1 200 OK\r\nContent-Length: x\r\n\r\n".to_vec();
    assert!(matches!(codec.decode(&mut buf), Err(ParseError::Header)));
}

#[test]
fn client_encodes_message_events() {
    let mut codec = ClientCodec::default();
    let mut dst = Vec::new();
    let head = Message::Item((req("PUT", Version::Http11), BodySize::Sized(4)));
    assert_eq!(codec.encode(head, &mut dst), Ok(()));
    assert!(codec.keepalive());
    assert_eq!(
        dst,
        b"PUT / HTTP/1.1\r\nHost: h\r\ncontent-length: 4\r\nconnection: keep-alive\r\n\r\n".to_vec()
    );
    let mut dst = Vec::new();
    assert_eq!(codec.encode(Message::Chunk(Some(b"abc".to_vec())), &mut dst), Ok(()));
    assert_eq!(codec.encode(Message::Chunk(Some(b"de".to_vec())), &mut dst), Err(BodyOverrun));
    assert_eq!(codec.encode(Message::Chunk(None), &mut dst), Ok(()));
    assert_eq!(dst, b"abc".to_vec());
}

#[test]
fn chunked_body_with_trailers() {
    let mut dec = PayloadDecoder::chunked();
    let mut buf = b"3\r\nabc\r\n0\r\nExpires: never\r\nX-Sum: 1\r\n\r\nNEXT".to_vec();
    let (body, eof) = decode_all(&mut dec, &mut buf).unwrap();
    assert!(eof);
    assert_eq!(body, b"abc".to_vec());
    assert_eq!(buf, b"NEXT".to_vec());
    let mut dec = PayloadDecoder::chunked();
    let mut buf = b"0\r\nab: c\r\n".to_vec();
    assert!(matches!(dec.decode(&mut buf), Ok(None)));
    let mut buf = b"0\r\nno colon\r\n\r\n".to_vec();
    assert!(matches!(dec.decode(&mut buf), Err(ParseError::InvalidChunk)));
}

#[test]
fn request_heads_framing_and_connection_headers() {
    let mut codec = ClientCodec::new(ServiceConfig::new(true));
    let mut dst = Vec::new();
    codec.encode_head(&req("GET", Version::Http11), BodySize::Empty, &mut dst);
    assert_eq!(dst, b"GET / HTTP/1.1\r\nHost: h\r\nconnection: keep-alive\r\n\r\n".to_vec());
    let mut dst = Vec::new();
    codec.encode_head(&req("POST", Version::Http11), BodySize::Empty, &mut dst);
    assert_eq!(
        dst,
        b"POST / HTTP/1.1\r\nHost: h\r\ncontent-length: 0\r\nconnection: keep-alive\r\n\r\n".to_vec()
    );
    let mut head = req("POST", Version::Http11);
    head.headers.push(Header { name: b"Connection".to_vec(), value: b"close".to_vec() });
    head.headers.push(Header { name: b"Content-Length".to_vec(), value: b"99".to_vec() });
    let mut dst = Vec::new();
    codec.encode_head(&head, BodySize::Sized(2), &mut dst);
    assert!(!codec.keepalive());
    assert_eq!(
        dst,
        b"POST / HTTP/1.1\r\nHost: h\r\ncontent-length: 2\r\nconnection: close\r\n\r\n".to_vec()
    );
    let mut dst = Vec::new();
    codec.encode_head(&req("GET", Version::Http10), BodySize::Absent, &mut dst);
    assert!(!codec.keepalive());
    assert_eq!(dst, b"GET / HTTP/1.0\r\nHost: h\r\nconnection: close\r\n\r\n".to_vec());
}

#[test]
fn streamed_body_ends_streaming() {
    let mut codec = ClientCodec::new(ServiceConfig::new(true));
    codec.decode_head(None, PayloadType::Stream(PayloadDecoder::length(1)));
    assert_eq!(codec.message_type(), MessageType::Stream);
    let mut pc = codec.into_payload_codec();
    let mut buf = b"z".to_vec();
    assert_eq!(pc.decode(&mut buf), Ok(Some(Some(b"z".to_vec()))));
    assert_eq!(pc.decode(&mut buf), Ok(Some(None)));
    let codec = pc.into_message_codec();
    assert_eq!(codec.message_type(), MessageType::NoBody);
}

#[test]
fn chunk_extensions_are_ignored() {
    let mut dec = PayloadDecoder::chunked();
    let mut buf = b"3;name=value\r\nabc\r\n0;last\r\n\r\n".to_vec();
    let (body, eof) = decode_all(&mut dec, &mut buf).unwrap();
    assert!(eof);
    assert_eq!(body, b"abc".to_vec());
    assert!(buf.is_empty());
    let mut dec = PayloadDecoder::chunked();
    let mut buf = b"3;ext".to_vec();
    assert!(matches!(dec.decode(&mut buf), Ok(None)));
    let mut buf = b";x\r\n".to_vec();
    assert!(matches!(dec.decode(&mut buf), Err(ParseError::InvalidChunk)));
}
