use h1_codec::extract::{
    mime_verdict, parse_content_length, read_body, read_body_text, read_checked_body,
    ExtractError, HttpMessageBody, Payload, PayloadConfig, PayloadError, TextError,
    DEFAULT_CONFIG_LIMIT,
};
use h1_codec::decoder::{Kind, PayloadDecoder};

fn collect(body: HttpMessageBody, chunks: &[&[u8]]) -> Result<Vec<u8>, PayloadError> {
    let mut body = body;
    for c in chunks {
        if let Some(r) = body.poll(Some(c)) {
            return r;
        }
    }
    body.poll(None).unwrap()
}

#[test]
fn test_payload_config() {
    let cfg = PayloadConfig::default().mimetype(mime::APPLICATION_JSON.as_ref());
    assert!(cfg.check_mimetype(None).is_err());
    assert!(cfg
        .check_mimetype(Some("application/x-www-form-urlencoded"))
        .is_err());
    assert!(cfg.check_mimetype(Some("application/json")).is_ok());
}

#[test]
fn test_bytes() {
    let cfg = PayloadConfig::default();
    let chunks = vec![b"hello=world".to_vec()];
    let s = read_body(&cfg, None, Some(b"11"), &chunks).unwrap();
    assert_eq!(s, b"hello=world".to_vec());
}

#[test]
fn test_message_body() {
    let res = collect(HttpMessageBody::new(Some(b"xxxx")), &[]);
    match res.err().unwrap() {
        PayloadError::UnknownLength => (),
        _ => unreachable!("error"),
    }

    let res = collect(HttpMessageBody::new(Some(b"1000000")), &[]);
    match res.err().unwrap() {
        PayloadError::Overflow => (),
        _ => unreachable!("error"),
    }

    let res = collect(HttpMessageBody::new(None), &[b"test"]);
    assert_eq!(res.ok().unwrap(), b"test".to_vec());

    let res = collect(HttpMessageBody::new(None).limit(5), &[b"11111111111111"]);
    match res.err().unwrap() {
        PayloadError::Overflow => (),
        _ => unreachable!("error"),
    }
}

#[test]
fn content_type_required_but_missing() {
    let cfg = PayloadConfig::new(100).mimetype(mime::APPLICATION_JSON.as_ref());
    let chunks = vec![b"{}".to_vec()];
    assert_eq!(
        read_body(&cfg, None, None, &chunks),
        Err(ExtractError::ContentTypeExpected)
    );
    assert_eq!(
        read_body(&cfg, Some("text/plain"), None, &chunks),
        Err(ExtractError::UnexpectedContentType)
    );
    assert_eq!(
        read_body(&cfg, Some("application/json"), None, &chunks),
        Ok(b"{}".to_vec())
    );
}

#[test]
fn declared_length_over_limit_fails_before_reading() {
    let cfg = PayloadConfig::new(10);
    let chunks: Vec<Vec<u8>> = vec![];
    assert_eq!(
        read_body(&cfg, None, Some(b"11"), &chunks),
        Err(ExtractError::Payload(PayloadError::Overflow))
    );
    assert_eq!(
        read_body(&cfg, None, Some(b"262145"), &chunks),
        Err(ExtractError::Payload(PayloadError::Overflow))
    );
    assert_eq!(
        read_body(&cfg, None, Some(b"1x"), &chunks),
        Err(ExtractError::Payload(PayloadError::UnknownLength))
    );
}

#[test]
fn collected_body_over_limit_overflows() {
    let cfg = PayloadConfig::new(6).limit(7);
    let chunks = vec![b"abcd".to_vec(), b"efg".to_vec()];
    assert_eq!(read_body(&cfg, None, None, &chunks), Ok(b"abcdefg".to_vec()));
    let chunks = vec![b"abcd".to_vec(), b"efgh".to_vec()];
    assert_eq!(
        read_body(&cfg, None, None, &chunks),
        Err(ExtractError::Payload(PayloadError::Overflow))
    );
}

#[test]
fn content_length_values() {
    assert_eq!(parse_content_length(b"0"), Some(0));
    assert_eq!(parse_content_length(b"262144"), Some(262144));
    assert_eq!(parse_content_length(b"+12"), Some(12));
    assert_eq!(parse_content_length(b""), None);
    assert_eq!(parse_content_length(b"+"), None);
    assert_eq!(parse_content_length(b"-1"), None);
    assert_eq!(parse_content_length(b" 1"), None);
    assert_eq!(parse_content_length(b"99999999999999999999999"), None);
    assert_eq!(DEFAULT_CONFIG_LIMIT, 262144);
}

#[test]
fn default_limit_is_the_edge() {
    let body = HttpMessageBody::new(Some(b"262144"));
    assert_eq!(body.length, Some(262144));
    assert_eq!(body.err, None);
    let body = HttpMessageBody::new(Some(b"262145"));
    assert_eq!(body.err, Some(PayloadError::Overflow));
    assert_eq!(body.length, Some(262145));
}

#[test]
fn configured_limit_decides_declared_length() {
    let body = HttpMessageBody::new(Some(b"300000")).limit(400000);
    assert_eq!(body.err, None);
    let body = HttpMessageBody::new(Some(b"300000")).limit(299999);
    assert_eq!(body.err, Some(PayloadError::Overflow));
    let body = HttpMessageBody::new(Some(b"x")).limit(400000);
    assert_eq!(body.err, Some(PayloadError::UnknownLength));
    let cfg = PayloadConfig::new(400000);
    let chunks = vec![b"abc".to_vec()];
    assert_eq!(read_body(&cfg, None, Some(b"300000"), &chunks), Ok(b"abc".to_vec()));
}

#[test]
fn non_ascii_content_type_never_matches() {
    let cfg = PayloadConfig::default().mimetype(mime::TEXT_PLAIN_UTF_8.as_ref());
    assert_eq!(
        cfg.check_mimetype(Some("a/b;c=\"\u{e9}\u{e9}\"")),
        Err(ExtractError::UnexpectedContentType)
    );
    assert_eq!(cfg.check_mimetype(Some("text/plain; charset=utf-8")), Ok(()));
    let cfg = PayloadConfig::default().mimetype("not a type");
    assert_eq!(
        cfg.check_mimetype(Some("text/plain")),
        Err(ExtractError::UnexpectedContentType)
    );
}

#[test]
fn payload_into_inner() {
    let p = Payload(PayloadDecoder::length(3));
    assert_eq!(p.into_inner().kind, Kind::Length(3));
}

#[test]
fn test_string() {
    let cfg = PayloadConfig::default();
    let chunks = vec![b"hello=world".to_vec()];
    let s = read_body_text(&cfg, None, Some(b"11"), &chunks).unwrap();
    assert_eq!(s, "hello=world");
}

#[test]
fn text_body_must_be_utf8() {
    let cfg = PayloadConfig::default();
    let chunks = vec![vec![0xffu8, 0xfe], "é".as_bytes().to_vec()];
    assert_eq!(read_body_text(&cfg, None, None, &chunks), Err(TextError::Undecodable));
    let chunks = vec!["h".as_bytes().to_vec(), "é!".as_bytes().to_vec()];
    assert_eq!(read_body_text(&cfg, None, None, &chunks), Ok("hé!".to_string()));
    let chunks: Vec<Vec<u8>> = vec![];
    assert_eq!(read_body_text(&cfg, None, None, &chunks), Ok(String::new()));
    let cfg = PayloadConfig::new(1);
    let chunks = vec![b"ab".to_vec()];
    assert_eq!(
        read_body_text(&cfg, None, None, &chunks),
        Err(TextError::Extract(ExtractError::Payload(PayloadError::Overflow)))
    );
}

#[test]
fn content_type_is_compared_as_media_type() {
    let cfg = PayloadConfig::default().mimetype(mime::APPLICATION_JSON.as_ref());
    assert_eq!(cfg.check_mimetype(Some("Application/JSON")), Ok(()));
    assert_eq!(cfg.check_mimetype(Some("not a type")), Err(ExtractError::ContentTypeParse));
    assert_eq!(
        cfg.check_mimetype(Some("text/plain")),
        Err(ExtractError::UnexpectedContentType)
    );
    assert_eq!(PayloadConfig::default().check_mimetype(Some("not a type")), Ok(()));
}

#[test]
fn mime_verdict_cases() {
    assert_eq!(mime_verdict(false, None), Ok(()));
    assert_eq!(mime_verdict(true, None), Err(ExtractError::ContentTypeExpected));
    assert_eq!(mime_verdict(true, Some(None)), Err(ExtractError::ContentTypeParse));
    assert_eq!(mime_verdict(true, Some(Some(true))), Ok(()));
    assert_eq!(
        mime_verdict(true, Some(Some(false))),
        Err(ExtractError::UnexpectedContentType)
    );
}

#[test]
fn checked_body_concatenates_pieces() {
    let chunks = vec![b"ab".to_vec(), vec![], b"cde".to_vec()];
    assert_eq!(read_checked_body(5, Some(b"5"), &chunks), Ok(b"abcde".to_vec()));
    assert_eq!(
        read_checked_body(4, None, &chunks),
        Err(ExtractError::Payload(PayloadError::Overflow))
    );
}

#[test]
fn text_body_in_request_charset() {
    let cfg = PayloadConfig::default();
    let chunks = vec![vec![0x63u8, 0x61, 0x66, 0xe9]];
    assert_eq!(
        read_body_text(&cfg, Some("text/plain; charset=iso-8859-1"), None, &chunks),
        Ok("caf\u{e9}".to_string())
    );
    assert_eq!(
        read_body_text(&cfg, Some("text/plain; charset=nonesuch"), None, &chunks),
        Err(TextError::UnknownEncoding)
    );
    assert_eq!(
        read_body_text(&cfg, Some("text/plain"), None, &chunks),
        Err(TextError::Undecodable)
    );
    assert_eq!(
        read_body_text(&cfg, Some("not a type"), None, &chunks),
        Err(TextError::Extract(ExtractError::ContentTypeParse))
    );
}
