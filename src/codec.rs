//! Client-side HTTP/1 codec: connection-scoped state shared by the head,
//! body decoding and body encoding directions.
use vstd::prelude::*;

use crate::decoder::{decode_step, step_matches, Kind, ParseError, PayloadDecoder, PayloadItem};
use crate::head::{connection_spec, connection_type, framing_spec as head_framing, headers_view, payload_framing, Framing, HeadKind};
use crate::lines::{
    decode_request, decode_response, encode_request_message, head_method_text, is_head_method,
    method_needs_zero_length, request_head, request_message_text, request_needs_zero_length,
    response_head, HeadParse, RequestHead, ResponseHead, ResponseParse,
};
use crate::encoder::{encode_chunk_spec, encode_eof_spec, BodyOverrun, TransferEncoding};
use crate::message::{
    framing_spec, resolve_connection, resolve_spec, select_framing, BodySize, ConnectionType,
    MessageType, Version,
};

verus! {

/// Per-connection settings that framing depends on.
#[derive(PartialEq, Eq, Structural, Debug, Clone, Copy)]
pub struct ServiceConfig {
    pub keep_alive_enabled: bool,
    /// Longest head line accepted, CRLF excluded.
    pub max_header_line_length: usize,
    /// Most headers accepted in one head.
    pub max_header_count: usize,
}

/// Default longest head line.
pub const DEFAULT_MAX_LINE: usize = 8192;

/// Default most headers in one head.
pub const DEFAULT_MAX_HEADERS: usize = 96;

impl ServiceConfig {
    pub fn new(keep_alive_enabled: bool) -> (r: ServiceConfig)
        ensures
            r.keep_alive_enabled == keep_alive_enabled,
            r.max_header_line_length == DEFAULT_MAX_LINE,
            r.max_header_count == DEFAULT_MAX_HEADERS,
    {
        ServiceConfig {
            keep_alive_enabled,
            max_header_line_length: DEFAULT_MAX_LINE,
            max_header_count: DEFAULT_MAX_HEADERS,
        }
    }

    /// Changes the limits on head lines and header count.
    pub fn limits(self, max_line: usize, max_headers: usize) -> (r: ServiceConfig)
        ensures
            r.keep_alive_enabled == self.keep_alive_enabled,
            r.max_header_line_length == max_line,
            r.max_header_count == max_headers,
    {
        ServiceConfig {
            keep_alive_enabled: self.keep_alive_enabled,
            max_header_line_length: max_line,
            max_header_count: max_headers,
        }
    }
}

/// Body framing of a request by its headers, as the payload handle the
/// codec hands out: a zero length means no body at all.
pub open spec fn request_payload(f: Framing) -> Option<Kind> {
    match f {
        Framing::Body(Kind::Length(0)) => None,
        Framing::Body(k) => Some(k),
        _ => None,
    }
}

/// `x` holds a request with these parts, disposition and body framing.
pub open spec fn message_matches(
    x: (RequestHead, PayloadType, ConnectionType),
    method: Seq<u8>,
    target: Seq<u8>,
    version: Version,
    headers: Seq<(Seq<u8>, Seq<u8>)>,
    ctype: ConnectionType,
    payload: Option<Kind>,
) -> bool {
    &&& x.0.method@ == method
    &&& x.0.target@ == target
    &&& x.0.version == version
    &&& headers_view(x.0.headers@) == headers
    &&& x.2 == ctype
    &&& match payload {
        None => x.1 is NoBody,
        Some(k) => x.1 is Payload && x.1->Payload_0.kind == k,
    }
}

/// Decodes the next request at the start of `src`: its head, its body
/// framing and the disposition of the connection after it. The head's bytes
/// are consumed; its body and anything after it stay in `src`. `Ok(None)`
/// means that more bytes are needed. A `Content-Length` that is not a number
/// is a framing error.
pub fn decode_message(src: &mut Vec<u8>, cfg: &ServiceConfig) -> (r: Result<
    Option<(RequestHead, PayloadType, ConnectionType)>,
    ParseError,
>)
    ensures
        match request_head(
            old(src)@,
            cfg.max_header_line_length as nat,
            cfg.max_header_count as nat,
        ) {
            HeadParse::Incomplete => r is Ok && r->Ok_0 is None && final(src)@ == old(src)@,
            HeadParse::Fail(e) => r == Err::<
                Option<(RequestHead, PayloadType, ConnectionType)>,
                ParseError,
            >(e),
            HeadParse::Done { method, target, version, headers, end } => {
                let f = head_framing(headers, HeadKind::Request);
                &&& final(src)@ == old(src)@.skip(end)
                &&& f == Framing::BadLength ==> r == Err::<
                    Option<(RequestHead, PayloadType, ConnectionType)>,
                    ParseError,
                >(ParseError::Header)
                &&& f != Framing::BadLength ==> (r is Ok && r->Ok_0 is Some && message_matches(
                    r->Ok_0->Some_0,
                    method,
                    target,
                    version,
                    headers,
                    resolve_spec(connection_spec(headers), version, cfg.keep_alive_enabled),
                    request_payload(f),
                ))
            },
        },
{
    let head = match decode_request(src, cfg.max_header_line_length, cfg.max_header_count) {
        Err(e) => {
            return Err(e);
        },
        Ok(None) => {
            return Ok(None);
        },
        Ok(Some(h)) => h,
    };
    let framing = payload_framing(&head.headers, HeadKind::Request);
    let ctype = resolve_connection(connection_type(&head.headers), head.version, cfg.keep_alive_enabled);
    let payload = match framing {
        Framing::BadLength => {
            return Err(ParseError::Header);
        },
        Framing::NoBody => PayloadType::NoBody,
        Framing::Body(Kind::Length(0)) => PayloadType::NoBody,
        Framing::Body(k) => PayloadType::Payload(PayloadDecoder { kind: k }),
    };
    Ok(Some((head, payload, ctype)))
}

/// Body framing of a decoded message, as the head decoder reports it.
pub enum PayloadType {
    /// No body follows the head.
    NoBody,
    Payload(PayloadDecoder),
    /// A body that marks the connection as streaming until it is drained.
    Stream(PayloadDecoder),
}

/// One event on a message channel: a head, a piece of body, or (`Chunk(None)`)
/// the end of the body.
pub enum Message<T> {
    Item(T),
    Chunk(Option<Vec<u8>>),
}

/// State shared by both directions of a client connection.
pub struct ClientCodecInner {
    pub config: ServiceConfig,
    pub payload: Option<PayloadDecoder>,
    pub version: Version,
    pub ctype: ConnectionType,
    /// The last request was a HEAD request.
    pub head: bool,
    pub keepalive_enabled: bool,
    /// A streamed payload is in flight.
    pub stream: bool,
    pub encoder: TransferEncoding,
}

/// HTTP/1 client codec, between message heads.
pub struct ClientCodec {
    pub inner: ClientCodecInner,
}

/// HTTP/1 client codec while a response body is read.
pub struct ClientPayloadCodec {
    pub inner: ClientCodecInner,
}

impl ClientCodec {
    /// Creates a codec; keep-alive is granted only if `config` enables it.
    pub fn new(config: ServiceConfig) -> (r: ClientCodec)
        ensures
            r.inner.config == config,
            r.inner.keepalive_enabled == config.keep_alive_enabled,
            r.inner.payload is None,
            r.inner.version == Version::Http11,
            r.inner.ctype == ConnectionType::Close,
            !r.inner.head,
            !r.inner.stream,
            r.inner.encoder == TransferEncoding::Length(0),
    {
        ClientCodec {
            inner: ClientCodecInner {
                config: config,
                payload: None,
                version: Version::Http11,
                ctype: ConnectionType::Close,
                head: false,
                keepalive_enabled: config.keep_alive_enabled,
                stream: false,
                encoder: TransferEncoding::Length(0),
            },
        }
    }

    /// Whether the last message negotiated an upgrade.
    pub fn upgrade(&self) -> (r: bool)
        ensures
            r == (self.inner.ctype == ConnectionType::Upgrade),
    {
        self.inner.ctype == ConnectionType::Upgrade
    }

    /// Whether the connection stays open after the last response.
    pub fn keepalive(&self) -> (r: bool)
        ensures
            r == (self.inner.ctype == ConnectionType::KeepAlive),
    {
        self.inner.ctype == ConnectionType::KeepAlive
    }

    /// Kind of body that the last response carries.
    pub fn message_type(&self) -> (r: MessageType)
        ensures
            r == (if self.inner.stream {
                MessageType::Stream
            } else if self.inner.payload is None {
                MessageType::NoBody
            } else {
                MessageType::Payload
            }),
    {
        if self.inner.stream {
            MessageType::Stream
        } else if self.inner.payload.is_none() {
            MessageType::NoBody
        } else {
            MessageType::Payload
        }
    }

    /// Turns the codec into one that reads the response body.
    pub fn into_payload_codec(self) -> (r: ClientPayloadCodec)
        ensures
            r.inner == self.inner,
    {
        ClientPayloadCodec { inner: self.inner }
    }

    /// Takes in a decoded response head: its `Connection` header `ctype` (a
    /// peer's keep-alive never overrides the local decision) and its body
    /// framing. A response to a HEAD request carries no body whatever its
    /// headers say.
    pub fn decode_head(&mut self, ctype: Option<ConnectionType>, payload: PayloadType)
        requires
            old(self).inner.payload is None,
        ensures
            final(self).inner.ctype == (match ctype {
                Some(ConnectionType::KeepAlive) => old(self).inner.ctype,
                Some(c) => c,
                None => old(self).inner.ctype,
            }),
            old(self).inner.head ==> final(self).inner.payload is None
                && final(self).inner.stream == old(self).inner.stream,
            !old(self).inner.head ==> match payload {
                PayloadType::NoBody => final(self).inner.payload is None
                    && final(self).inner.stream == old(self).inner.stream,
                PayloadType::Payload(pl) => final(self).inner.payload == Some(pl)
                    && final(self).inner.stream == old(self).inner.stream,
                PayloadType::Stream(pl) => final(self).inner.payload == Some(pl)
                    && final(self).inner.stream,
            },
            final(self).inner.config == old(self).inner.config,
            final(self).inner.version == old(self).inner.version,
            final(self).inner.head == old(self).inner.head,
            final(self).inner.keepalive_enabled == old(self).inner.keepalive_enabled,
            final(self).inner.encoder == old(self).inner.encoder,
    {
        match ctype {
            Some(ConnectionType::KeepAlive) => {},
            Some(c) => {
                self.inner.ctype = c;
            },
            None => {},
        }
        if !self.inner.head {
            match payload {
                PayloadType::NoBody => {
                    self.inner.payload = None;
                },
                PayloadType::Payload(pl) => {
                    self.inner.payload = Some(pl);
                },
                PayloadType::Stream(pl) => {
                    self.inner.payload = Some(pl);
                    self.inner.stream = true;
                },
            }
        } else {
            self.inner.payload = None;
        }
    }

    /// Decodes the next response head at the start of `src`, consuming its
    /// bytes, and takes in what it says of the connection and of its body as
    /// `decode_head` does. `Ok(None)` means that more bytes are needed. A
    /// `Content-Length` that is not a number is a framing error.
    pub fn decode(&mut self, src: &mut Vec<u8>) -> (r: Result<Option<ResponseHead>, ParseError>)
        requires
            old(self).inner.payload is None,
            old(self).inner.ctype != ConnectionType::Upgrade,
        ensures
            match response_head(
                old(src)@,
                old(self).inner.config.max_header_line_length as nat,
                old(self).inner.config.max_header_count as nat,
            ) {
                ResponseParse::Incomplete => r is Ok && r->Ok_0 is None && final(src)@ == old(
                    src,
                )@ && final(self).inner == old(self).inner,
                ResponseParse::Fail(e) => r == Err::<Option<ResponseHead>, ParseError>(e)
                    && final(self).inner == old(self).inner,
                ResponseParse::Done { version, status, reason, headers, end } => {
                    let f = head_framing(
                        headers,
                        HeadKind::Response { status, head_request: old(self).inner.head },
                    );
                    &&& final(src)@ == old(src)@.skip(end)
                    &&& f == Framing::BadLength ==> r == Err::<Option<ResponseHead>, ParseError>(
                        ParseError::Header,
                    ) && final(self).inner == old(self).inner
                    &&& f != Framing::BadLength ==> {
                        &&& r is Ok && r->Ok_0 is Some
                        &&& r->Ok_0->Some_0.version == version
                        &&& r->Ok_0->Some_0.status == status
                        &&& r->Ok_0->Some_0.reason@ == reason
                        &&& headers_view(r->Ok_0->Some_0.headers@) == headers
                        &&& final(self).inner.ctype == (match connection_spec(headers) {
                            Some(ConnectionType::KeepAlive) => old(self).inner.ctype,
                            Some(c) => c,
                            None => old(self).inner.ctype,
                        })
                        &&& (old(self).inner.head || request_payload(f) is None)
                            ==> final(self).inner.payload is None
                        &&& !old(self).inner.head && request_payload(f) is Some
                            ==> final(self).inner.payload == Some(
                            PayloadDecoder { kind: request_payload(f)->Some_0 },
                        )
                        &&& final(self).inner.stream == old(self).inner.stream
                    }
                },
            },
    {
        let head = match decode_response(
            src,
            self.inner.config.max_header_line_length,
            self.inner.config.max_header_count,
        ) {
            Err(e) => {
                return Err(e);
            },
            Ok(None) => {
                return Ok(None);
            },
            Ok(Some(h)) => h,
        };
        let framing = payload_framing(
            &head.headers,
            HeadKind::Response { status: head.status, head_request: self.inner.head },
        );
        let payload = match framing {
            Framing::BadLength => {
                return Err(ParseError::Header);
            },
            Framing::NoBody => PayloadType::NoBody,
            Framing::Body(Kind::Length(0)) => PayloadType::NoBody,
            Framing::Body(k) => PayloadType::Payload(PayloadDecoder { kind: k }),
        };
        let ctype = connection_type(&head.headers);
        self.decode_head(ctype, payload);
        Ok(Some(head))
    }

    /// Starts an outgoing request: records its version and whether it is a
    /// HEAD request; resolves the connection disposition from the request's
    /// own `Connection` header and version against local keep-alive; selects
    /// the body framing for `length`; and writes the head with its framing
    /// header and its one connection header.
    pub fn encode_head(&mut self, head: &RequestHead, length: BodySize, dst: &mut Vec<u8>)
        ensures
            encode_head_post(*old(self), *final(self), head, length, old(dst)@, final(dst)@),
    {
        let ctype = resolve_connection(
            connection_type(&head.headers),
            head.version,
            self.inner.keepalive_enabled,
        );
        let explicit_zero = method_needs_zero_length(head.method.as_slice());
        let (te, ct) = select_framing(length, head.version, ctype, explicit_zero);
        self.inner.version = head.version;
        self.inner.head = is_head_method(head.method.as_slice());
        self.inner.encoder = te;
        self.inner.ctype = ct;
        encode_request_message(head, te, ct, dst);
    }

    /// Writes one event of an outgoing request: its head with its declared
    /// body size, a piece of its body, or the end of its body, as
    /// `encode_head`, `encode_chunk` and `encode_eof` write them.
    pub fn encode(&mut self, item: Message<(RequestHead, BodySize)>, dst: &mut Vec<u8>) -> (r: Result<
        (),
        BodyOverrun,
    >)
        ensures
            match item {
                Message::Item((head, length)) => r is Ok && encode_head_post(
                    *old(self),
                    *final(self),
                    &head,
                    length,
                    old(dst)@,
                    final(dst)@,
                ),
                Message::Chunk(Some(data)) => encode_chunk_post(
                    *old(self),
                    *final(self),
                    data@,
                    r,
                    old(dst)@,
                    final(dst)@,
                ),
                Message::Chunk(None) => r is Ok && encode_eof_post(
                    *old(self),
                    *final(self),
                    old(dst)@,
                    final(dst)@,
                ),
            },
    {
        match item {
            Message::Item((head, length)) => {
                self.encode_head(&head, length, dst);
                Ok(())
            },
            Message::Chunk(Some(data)) => self.encode_chunk(data.as_slice(), dst),
            Message::Chunk(None) => {
                self.encode_eof(dst);
                Ok(())
            },
        }
    }

    /// Writes one piece of the request body.
    pub fn encode_chunk(&mut self, data: &[u8], dst: &mut Vec<u8>) -> (r: Result<(), BodyOverrun>)
        ensures
            encode_chunk_post(*old(self), *final(self), data@, r, old(dst)@, final(dst)@),
    {
        self.inner.encoder.encode_chunk(data, dst)
    }

    /// Ends the request body.
    pub fn encode_eof(&mut self, dst: &mut Vec<u8>)
        ensures
            encode_eof_post(*old(self), *final(self), old(dst)@, final(dst)@),
    {
        self.inner.encoder.encode_eof(dst)
    }
}

/// `encode_head` took codec `c0` to `c1` and wrote `d0` to `d1`.
pub open spec fn encode_head_post(
    c0: ClientCodec,
    c1: ClientCodec,
    head: &RequestHead,
    length: BodySize,
    d0: Seq<u8>,
    d1: Seq<u8>,
) -> bool {
    let hs = headers_view(head.headers@);
    let ctype = resolve_spec(connection_spec(hs), head.version, c0.inner.keepalive_enabled);
    &&& c1.inner.version == head.version
    &&& c1.inner.head == (head.method@ == head_method_text())
    &&& (c1.inner.encoder, c1.inner.ctype) == framing_spec(
        length,
        head.version,
        ctype,
        request_needs_zero_length(head.method@),
    )
    &&& d1 == d0 + request_message_text(
        head.method@,
        head.target@,
        head.version,
        hs,
        c1.inner.encoder,
        c1.inner.ctype,
    )
    &&& c1.inner.payload == c0.inner.payload
    &&& c1.inner.stream == c0.inner.stream
    &&& c1.inner.config == c0.inner.config
    &&& c1.inner.keepalive_enabled == c0.inner.keepalive_enabled
}

/// `encode_chunk` of `data` took codec `c0` to `c1`, returned `r` and wrote
/// `d0` to `d1`: the framing decides, and nothing else changes.
pub open spec fn encode_chunk_post(
    c0: ClientCodec,
    c1: ClientCodec,
    data: Seq<u8>,
    r: Result<(), BodyOverrun>,
    d0: Seq<u8>,
    d1: Seq<u8>,
) -> bool {
    let st = encode_chunk_spec(c0.inner.encoder, data);
    &&& r is Ok == st.0
    &&& d1 == d0 + st.1
    &&& c1.inner == ClientCodecInner { encoder: st.2, ..c0.inner }
}

/// `encode_eof` took codec `c0` to `c1` and wrote `d0` to `d1`.
pub open spec fn encode_eof_post(c0: ClientCodec, c1: ClientCodec, d0: Seq<u8>, d1: Seq<u8>) -> bool {
    let st = encode_eof_spec(c0.inner.encoder);
    &&& d1 == d0 + st.0
    &&& c1.inner == ClientCodecInner { encoder: st.1, ..c0.inner }
}

impl Default for ClientCodec {
    fn default() -> (r: ClientCodec)
        ensures
            r.inner.keepalive_enabled,
            r.inner.payload is None,
            r.inner.ctype == ConnectionType::Close,
    {
        ClientCodec::new(ServiceConfig::new(true))
    }
}

impl ClientPayloadCodec {
    /// Whether the connection stays open after the last response.
    pub fn keepalive(&self) -> (r: bool)
        ensures
            r == (self.inner.ctype == ConnectionType::KeepAlive),
    {
        self.inner.ctype == ConnectionType::KeepAlive
    }

    /// Turns the codec back into one that reads message heads.
    pub fn into_message_codec(self) -> (r: ClientCodec)
        ensures
            r.inner == self.inner,
    {
        ClientCodec { inner: self.inner }
    }

    /// Decodes the next piece of the response body: `Some(Some(bytes))` for a
    /// chunk, `Some(None)` at the end of the body (the body decoder is then
    /// dropped and the connection no longer streams), `None` when more bytes
    /// are needed.
    pub fn decode(&mut self, src: &mut Vec<u8>) -> (r: Result<Option<Option<Vec<u8>>>, ParseError>)
        requires
            old(self).inner.payload is Some,
        ensures
            ({
                let pl = old(self).inner.payload->Some_0;
                exists|item: Result<Option<PayloadItem>, ParseError>, k: crate::decoder::Kind|
                    {
                        &&& step_matches(
                            decode_step(pl.kind, old(src)@),
                            item,
                            pl.kind,
                            old(src)@,
                            k,
                            final(src)@,
                        )
                        &&& match item {
                            Ok(Some(PayloadItem::Chunk(c))) => r matches Ok(Some(Some(v)))
                                && v@ == c@ && final(self).inner.payload == Some(
                                PayloadDecoder { kind: k },
                            ),
                            Ok(Some(PayloadItem::Eof)) => r matches Ok(Some(None))
                                && final(self).inner.payload is None && !final(self).inner.stream,
                            Ok(None) => r matches Ok(None) && final(self).inner.payload
                                == old(self).inner.payload,
                            Err(e) => r == Err::<Option<Option<Vec<u8>>>, ParseError>(e),
                        }
                    }
            }),
            final(self).inner.ctype == old(self).inner.ctype,
            final(self).inner.head == old(self).inner.head,
            final(self).inner.encoder == old(self).inner.encoder,
            final(self).inner.config == old(self).inner.config,
            final(self).inner.keepalive_enabled == old(self).inner.keepalive_enabled,
            !(r matches Ok(Some(None))) ==> final(self).inner.stream == old(self).inner.stream,
    {
        let mut pl = self.inner.payload.take().unwrap();
        let item = pl.decode(src);
        match item {
            Ok(Some(PayloadItem::Chunk(c))) => {
                self.inner.payload = Some(pl);
                Ok(Some(Some(c)))
            },
            Ok(Some(PayloadItem::Eof)) => {
                self.inner.stream = false;
                Ok(Some(None))
            },
            Ok(None) => {
                self.inner.payload = Some(pl);
                Ok(None)
            },
            Err(e) => {
                self.inner.payload = Some(pl);
                Err(e)
            },
        }
    }
}

} // verus!
