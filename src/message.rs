//! Connection disposition and body framing decisions for one message.
use vstd::prelude::*;

use crate::encoder::{chunk_output, TransferEncoding};

verus! {

/// What happens to the connection after a message.
#[derive(PartialEq, Eq, Structural, Debug, Clone, Copy)]
pub enum ConnectionType {
    Close,
    KeepAlive,
    Upgrade,
}

/// HTTP protocol version of a message.
#[derive(PartialEq, Eq, Structural, Debug, Clone, Copy)]
pub enum Version {
    Http10,
    Http11,
}

/// Declared length of an outgoing body.
#[derive(PartialEq, Eq, Structural, Debug, Clone, Copy)]
pub enum BodySize {
    /// No body at all.
    Absent,
    Empty,
    Sized(u64),
    Stream,
}

/// Kind of body that the last decoded message carries.
#[derive(PartialEq, Eq, Structural, Debug, Clone, Copy)]
pub enum MessageType {
    /// The message carries no body.
    NoBody,
    Payload,
    Stream,
}

/// Disposition of a connection for a message with `Connection` header value
/// `header` (if any) and version `version`: an upgrade always wins, a `close`
/// always closes, and keep-alive, asked for or implied by HTTP/1.1, is only
/// granted where local keep-alive is enabled.
pub open spec fn resolve_spec(
    header: Option<ConnectionType>,
    version: Version,
    keep_alive_enabled: bool,
) -> ConnectionType {
    match header {
        Some(ConnectionType::Upgrade) => ConnectionType::Upgrade,
        Some(ConnectionType::Close) => ConnectionType::Close,
        Some(ConnectionType::KeepAlive) => {
            if keep_alive_enabled {
                ConnectionType::KeepAlive
            } else {
                ConnectionType::Close
            }
        },
        None => {
            if keep_alive_enabled && version == Version::Http11 {
                ConnectionType::KeepAlive
            } else {
                ConnectionType::Close
            }
        },
    }
}

/// Resolves the disposition of a connection after a message.
pub fn resolve_connection(
    header: Option<ConnectionType>,
    version: Version,
    keep_alive_enabled: bool,
) -> (r: ConnectionType)
    ensures
        r == resolve_spec(header, version, keep_alive_enabled),
{
    match header {
        Some(ConnectionType::Upgrade) => ConnectionType::Upgrade,
        Some(ConnectionType::Close) => ConnectionType::Close,
        Some(ConnectionType::KeepAlive) => {
            if keep_alive_enabled {
                ConnectionType::KeepAlive
            } else {
                ConnectionType::Close
            }
        },
        None => {
            if keep_alive_enabled && version == Version::Http11 {
                ConnectionType::KeepAlive
            } else {
                ConnectionType::Close
            }
        },
    }
}

/// Keep-alive resolution: a peer's `close` closes even where keep-alive is
/// enabled; a peer's `keep-alive` closes where it is disabled; HTTP/1.0
/// without a `Connection` header closes; HTTP/1.1 without one keeps the
/// connection alive where keep-alive is enabled.
pub proof fn lemma_keep_alive_resolution(version: Version, keep_alive_enabled: bool)
    ensures
        resolve_spec(Some(ConnectionType::Close), version, keep_alive_enabled)
            == ConnectionType::Close,
        resolve_spec(Some(ConnectionType::KeepAlive), version, false) == ConnectionType::Close,
        resolve_spec(None, Version::Http10, keep_alive_enabled) == ConnectionType::Close,
        resolve_spec(None, Version::Http11, true) == ConnectionType::KeepAlive,
        resolve_spec(Some(ConnectionType::Upgrade), version, keep_alive_enabled)
            == ConnectionType::Upgrade,
{
}

/// Framing of an outgoing body, as its head announces it, and the
/// connection disposition it forces. A sized body is framed by its length; a
/// streamed body is chunked on a kept-alive HTTP/1.1 connection and otherwise
/// delimited by closing the connection; an absent body has no framing, and
/// an empty one is framed by a zero length only where `explicit_zero` asks
/// for one. A HEAD request does not change this: see `body_encoding`.
pub open spec fn framing_spec(
    size: BodySize,
    version: Version,
    ctype: ConnectionType,
    explicit_zero: bool,
) -> (TransferEncoding, ConnectionType) {
    match size {
        BodySize::Sized(n) => (TransferEncoding::Length(n), ctype),
        BodySize::Stream => {
            if version == Version::Http11 && ctype != ConnectionType::Close {
                (TransferEncoding::Chunked { eof: false }, ctype)
            } else {
                (TransferEncoding::Eof, ConnectionType::Close)
            }
        },
        BodySize::Empty => {
            if explicit_zero {
                (TransferEncoding::Length(0), ctype)
            } else {
                (TransferEncoding::NoBody, ctype)
            }
        },
        BodySize::Absent => (TransferEncoding::NoBody, ctype),
    }
}

/// How the body itself is written under framing `te`: not at all for a
/// response to a HEAD request, whose head is written as for any other.
pub open spec fn body_encoding_spec(te: TransferEncoding, head_request: bool) -> TransferEncoding {
    if head_request {
        TransferEncoding::Suppressed
    } else {
        te
    }
}

/// A response to a HEAD request writes no body bytes, whatever body size the
/// handler declared and whatever body it hands over, while its head announces
/// the same framing as for any other request.
pub proof fn lemma_head_response_has_no_body(
    size: BodySize,
    version: Version,
    ctype: ConnectionType,
    explicit_zero: bool,
    data: Seq<u8>,
)
    ensures
        chunk_output(
            body_encoding_spec(framing_spec(size, version, ctype, explicit_zero).0, true),
            data,
        ) == Seq::<u8>::empty(),
{
}

/// Chooses the framing of an outgoing body.
pub fn select_framing(
    size: BodySize,
    version: Version,
    ctype: ConnectionType,
    explicit_zero: bool,
) -> (r: (TransferEncoding, ConnectionType))
    ensures
        r == framing_spec(size, version, ctype, explicit_zero),
{
    match size {
        BodySize::Sized(n) => (TransferEncoding::Length(n), ctype),
        BodySize::Stream => {
            if version == Version::Http11 && ctype != ConnectionType::Close {
                (TransferEncoding::Chunked { eof: false }, ctype)
            } else {
                (TransferEncoding::Eof, ConnectionType::Close)
            }
        },
        BodySize::Empty => {
            if explicit_zero {
                (TransferEncoding::Length(0), ctype)
            } else {
                (TransferEncoding::NoBody, ctype)
            }
        },
        BodySize::Absent => (TransferEncoding::NoBody, ctype),
    }
}

/// Chooses how the body itself is written.
pub fn body_encoding(te: TransferEncoding, head_request: bool) -> (r: TransferEncoding)
    ensures
        r == body_encoding_spec(te, head_request),
{
    if head_request {
        TransferEncoding::Suppressed
    } else {
        te
    }
}

/// Whether a response with status `status` announces an empty body with an
/// explicit zero length: every status but 1xx, 204 and 304, which have no
/// body.
pub fn response_needs_zero_length(status: u16) -> (r: bool)
    ensures
        r == !((100 <= status < 200) || status == 204 || status == 304),
{
    !((100 <= status && status < 200) || status == 204 || status == 304)
}

} // verus!
