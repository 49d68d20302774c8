//! What a decoded head's headers say about its body and its connection.
use vstd::prelude::*;

use crate::decoder::Kind;
use crate::extract::{dec_value, length_digits, length_parses, parse_content_length};
use crate::message::ConnectionType;

verus! {

/// One header line: name and value as they were received.
pub struct Header {
    pub name: Vec<u8>,
    pub value: Vec<u8>,
}

pub open spec fn lower(b: u8) -> u8 {
    if 65 <= b <= 90 {
        (b + 32) as u8
    } else {
        b
    }
}

/// `a` equals the lower-case text `b` up to ASCII case.
pub open spec fn ieq(a: Seq<u8>, b: Seq<u8>) -> bool {
    a.len() == b.len() && forall|i: int| 0 <= i < a.len() ==> lower(#[trigger] a[i]) == b[i]
}

pub open spec fn header_view(h: Header) -> (Seq<u8>, Seq<u8>) {
    (h.name@, h.value@)
}

pub open spec fn headers_view(hs: Seq<Header>) -> Seq<(Seq<u8>, Seq<u8>)> {
    hs.map_values(|h: Header| header_view(h))
}

/// Index of the first header named `name` (lower case), if any.
pub open spec fn find_header(hs: Seq<(Seq<u8>, Seq<u8>)>, name: Seq<u8>) -> Option<int>
    decreases hs.len(),
{
    if hs.len() == 0 {
        None
    } else {
        match find_header(hs.drop_last(), name) {
            Some(i) => Some(i),
            None => {
                if ieq(hs.last().0, name) {
                    Some(hs.len() - 1)
                } else {
                    None
                }
            },
        }
    }
}

pub open spec fn transfer_encoding_name() -> Seq<u8> {
    seq![116u8, 114, 97, 110, 115, 102, 101, 114, 45, 101, 110, 99, 111, 100, 105, 110, 103]
}

pub open spec fn content_length_name() -> Seq<u8> {
    seq![99u8, 111, 110, 116, 101, 110, 116, 45, 108, 101, 110, 103, 116, 104]
}

pub open spec fn connection_name() -> Seq<u8> {
    seq![99u8, 111, 110, 110, 101, 99, 116, 105, 111, 110]
}

pub open spec fn chunked_text() -> Seq<u8> {
    seq![99u8, 104, 117, 110, 107, 101, 100]
}

pub open spec fn close_text() -> Seq<u8> {
    seq![99u8, 108, 111, 115, 101]
}

pub open spec fn keep_alive_text() -> Seq<u8> {
    seq![107u8, 101, 101, 112, 45, 97, 108, 105, 118, 101]
}

pub open spec fn upgrade_text() -> Seq<u8> {
    seq![117u8, 112, 103, 114, 97, 100, 101]
}

/// Some `Transfer-Encoding` header says `chunked`.
pub open spec fn is_chunked(hs: Seq<(Seq<u8>, Seq<u8>)>) -> bool {
    exists|i: int|
        0 <= i < hs.len() && ieq(#[trigger] hs[i].0, transfer_encoding_name()) && ieq(
            hs[i].1,
            chunked_text(),
        )
}

/// Which message a head starts, for the body rules that differ between the
/// two directions.
#[derive(PartialEq, Eq, Structural, Debug, Clone, Copy)]
pub enum HeadKind {
    /// A request: without a length header it carries no body.
    Request,
    /// A response with its status, and whether it answers a HEAD request.
    Response { status: u16, head_request: bool },
}

/// A head's framing, or why it has none.
#[derive(PartialEq, Eq, Structural, Debug, Clone, Copy)]
pub enum Framing {
    NoBody,
    Body(Kind),
    /// A `Content-Length` value that is not a number.
    BadLength,
}

pub open spec fn status_forbids_body(status: u16) -> bool {
    (100 <= status < 200) || status == 204 || status == 304
}

/// Framing of a body by its head: chunked wins over `Content-Length`; a
/// readable `Content-Length` gives a fixed length; else a request carries no
/// body, and a response is read to the end of the connection unless its
/// status or a HEAD request rule a body out.
pub open spec fn framing_spec(hs: Seq<(Seq<u8>, Seq<u8>)>, kind: HeadKind) -> Framing {
    if is_chunked(hs) {
        Framing::Body(Kind::Chunked { done: false })
    } else if find_header(hs, content_length_name()) is Some {
        let i = find_header(hs, content_length_name())->Some_0;
        if length_parses(hs[i].1) {
            Framing::Body(Kind::Length(dec_value(length_digits(hs[i].1)) as u64))
        } else {
            Framing::BadLength
        }
    } else {
        match kind {
            HeadKind::Request => Framing::NoBody,
            HeadKind::Response { status, head_request } => {
                if head_request || status_forbids_body(status) {
                    Framing::NoBody
                } else {
                    Framing::Body(Kind::Eof)
                }
            },
        }
    }
}

/// Disposition that a `Connection` header value asks for, if it names one.
pub open spec fn connection_value(v: Seq<u8>) -> Option<ConnectionType> {
    if ieq(v, close_text()) {
        Some(ConnectionType::Close)
    } else if ieq(v, keep_alive_text()) {
        Some(ConnectionType::KeepAlive)
    } else if ieq(v, upgrade_text()) {
        Some(ConnectionType::Upgrade)
    } else {
        None
    }
}

/// Disposition asked for by the first `Connection` header, if any.
pub open spec fn connection_spec(hs: Seq<(Seq<u8>, Seq<u8>)>) -> Option<ConnectionType> {
    match find_header(hs, connection_name()) {
        Some(i) => connection_value(hs[i].1),
        None => None,
    }
}

fn lower_byte(b: u8) -> (r: u8)
    ensures
        r == lower(b),
{
    if 65 <= b && b <= 90 {
        b + 32
    } else {
        b
    }
}

/// Compares `a` with the lower-case text `b`, ignoring ASCII case.
pub fn eq_ignore_case(a: &[u8], b: &[u8]) -> (r: bool)
    ensures
        r == ieq(a@, b@),
{
    if a.len() != b.len() {
        return false;
    }
    let mut i: usize = 0;
    while i < a.len()
        invariant
            a@.len() == b@.len(),
            i <= a@.len(),
            forall|j: int| 0 <= j < i ==> lower(#[trigger] a@[j]) == b@[j],
        decreases a.len() - i,
    {
        if lower_byte(a[i]) != b[i] {
            return false;
        }
        i = i + 1;
    }
    true
}

proof fn lemma_find_header_prefix(hs: Seq<(Seq<u8>, Seq<u8>)>, name: Seq<u8>, k: int)
    requires
        0 <= k <= hs.len(),
        find_header(hs.take(k), name) is Some,
    ensures
        find_header(hs, name) == find_header(hs.take(k), name),
    decreases hs.len() - k,
{
    if k == hs.len() {
        assert(hs.take(k) =~= hs);
    } else {
        assert(hs.take(k + 1).drop_last() =~= hs.take(k));
        lemma_find_header_prefix(hs, name, k + 1);
    }
}

/// Index of the first header named `name` (lower case).
pub fn find_header_index(hs: &Vec<Header>, name: &[u8]) -> (r: Option<usize>)
    ensures
        r matches Some(i) ==> i < hs@.len() && find_header(headers_view(hs@), name@) == Some(
            i as int,
        ),
        r is None ==> find_header(headers_view(hs@), name@) is None,
{
    let ghost v = headers_view(hs@);
    let mut i: usize = 0;
    while i < hs.len()
        invariant
            i <= hs@.len(),
            v == headers_view(hs@),
            find_header(v.take(i as int), name@) is None,
        decreases hs.len() - i,
    {
        proof {
            assert(v.take(i + 1).drop_last() =~= v.take(i as int));
        }
        if eq_ignore_case(hs[i].name.as_slice(), name) {
            proof {
                assert(v[i as int].0 == hs@[i as int].name@);
                lemma_find_header_prefix(v, name@, i + 1);
            }
            return Some(i);
        }
        proof {
            assert(v[i as int].0 == hs@[i as int].name@);
        }
        i = i + 1;
    }
    proof {
        assert(v.take(i as int) =~= v);
    }
    None
}

pub(crate) fn name_bytes(which: u8) -> (r: Vec<u8>)
    ensures
        which == 0 ==> r@ == transfer_encoding_name(),
        which == 1 ==> r@ == content_length_name(),
        which == 2 ==> r@ == connection_name(),
        which == 3 ==> r@ == chunked_text(),
        which == 4 ==> r@ == close_text(),
        which == 5 ==> r@ == keep_alive_text(),
        which >= 6 ==> r@ == upgrade_text(),
{
    let r = if which == 0 {
        vec![116u8, 114, 97, 110, 115, 102, 101, 114, 45, 101, 110, 99, 111, 100, 105, 110, 103]
    } else if which == 1 {
        vec![99u8, 111, 110, 116, 101, 110, 116, 45, 108, 101, 110, 103, 116, 104]
    } else if which == 2 {
        vec![99u8, 111, 110, 110, 101, 99, 116, 105, 111, 110]
    } else if which == 3 {
        vec![99u8, 104, 117, 110, 107, 101, 100]
    } else if which == 4 {
        vec![99u8, 108, 111, 115, 101]
    } else if which == 5 {
        vec![107u8, 101, 101, 112, 45, 97, 108, 105, 118, 101]
    } else {
        vec![117u8, 112, 103, 114, 97, 100, 101]
    };
    proof {
        if which == 0 {
            assert(r@ =~= transfer_encoding_name());
        } else if which == 1 {
            assert(r@ =~= content_length_name());
        } else if which == 2 {
            assert(r@ =~= connection_name());
        } else if which == 3 {
            assert(r@ =~= chunked_text());
        } else if which == 4 {
            assert(r@ =~= close_text());
        } else if which == 5 {
            assert(r@ =~= keep_alive_text());
        } else {
            assert(r@ =~= upgrade_text());
        }
    }
    r
}

/// Whether some `Transfer-Encoding` header says `chunked`.
pub fn has_chunked(hs: &Vec<Header>) -> (r: bool)
    ensures
        r == is_chunked(headers_view(hs@)),
{
    let ghost v = headers_view(hs@);
    let te = name_bytes(0);
    let ch = name_bytes(3);
    let mut i: usize = 0;
    while i < hs.len()
        invariant
            i <= hs@.len(),
            v == headers_view(hs@),
            te@ == transfer_encoding_name(),
            ch@ == chunked_text(),
            forall|j: int|
                0 <= j < i ==> !(ieq(#[trigger] v[j].0, transfer_encoding_name()) && ieq(
                    v[j].1,
                    chunked_text(),
                )),
        decreases hs.len() - i,
    {
        proof {
            assert(v[i as int] == header_view(hs@[i as int]));
        }
        if eq_ignore_case(hs[i].name.as_slice(), te.as_slice()) && eq_ignore_case(
            hs[i].value.as_slice(),
            ch.as_slice(),
        ) {
            proof {
                assert(ieq(v[i as int].0, transfer_encoding_name()) && ieq(
                    v[i as int].1,
                    chunked_text(),
                ));
            }
            return true;
        }
        i = i + 1;
    }
    false
}

/// Framing of the body that follows a head with headers `hs`.
pub fn payload_framing(hs: &Vec<Header>, kind: HeadKind) -> (r: Framing)
    ensures
        r == framing_spec(headers_view(hs@), kind),
{
    if has_chunked(hs) {
        return Framing::Body(Kind::Chunked { done: false });
    }
    let cl = name_bytes(1);
    match find_header_index(hs, cl.as_slice()) {
        Some(i) => {
            proof {
                assert(headers_view(hs@)[i as int] == header_view(hs@[i as int]));
            }
            match parse_content_length(hs[i].value.as_slice()) {
                Some(n) => Framing::Body(Kind::Length(n as u64)),
                None => Framing::BadLength,
            }
        },
        None => match kind {
            HeadKind::Request => Framing::NoBody,
            HeadKind::Response { status, head_request } => {
                if head_request || (100 <= status && status < 200) || status == 204
                    || status == 304 {
                    Framing::NoBody
                } else {
                    Framing::Body(Kind::Eof)
                }
            },
        },
    }
}

/// Disposition asked for by the first `Connection` header, if it names one.
pub fn connection_type(hs: &Vec<Header>) -> (r: Option<ConnectionType>)
    ensures
        r == connection_spec(headers_view(hs@)),
{
    let cn = name_bytes(2);
    match find_header_index(hs, cn.as_slice()) {
        Some(i) => {
            proof {
                assert(headers_view(hs@)[i as int] == header_view(hs@[i as int]));
            }
            let v = hs[i].value.as_slice();
            let close = name_bytes(4);
            let keep = name_bytes(5);
            let upg = name_bytes(6);
            if eq_ignore_case(v, close.as_slice()) {
                Some(ConnectionType::Close)
            } else if eq_ignore_case(v, keep.as_slice()) {
                Some(ConnectionType::KeepAlive)
            } else if eq_ignore_case(v, upg.as_slice()) {
                Some(ConnectionType::Upgrade)
            } else {
                None
            }
        },
        None => None,
    }
}

pub open spec fn expect_name() -> Seq<u8> {
    seq![101u8, 120, 112, 101, 99, 116]
}

pub open spec fn continue_text() -> Seq<u8> {
    seq![49u8, 48, 48, 45, 99, 111, 110, 116, 105, 110, 117, 101]
}

/// Whether the first `Expect` header asks for `100-continue`.
pub open spec fn expects_continue_spec(hs: Seq<(Seq<u8>, Seq<u8>)>) -> bool {
    match find_header(hs, expect_name()) {
        Some(i) => ieq(hs[i].1, continue_text()),
        None => false,
    }
}

/// Whether a request with headers `hs` asks for `100 Continue` before its
/// body is sent.
pub fn expects_continue(hs: &Vec<Header>) -> (r: bool)
    ensures
        r == expects_continue_spec(headers_view(hs@)),
{
    let name = vec![101u8, 120, 112, 101, 99, 116];
    let cont = vec![49u8, 48, 48, 45, 99, 111, 110, 116, 105, 110, 117, 101];
    proof {
        assert(name@ =~= expect_name());
        assert(cont@ =~= continue_text());
    }
    match find_header_index(hs, name.as_slice()) {
        Some(i) => {
            proof {
                assert(headers_view(hs@)[i as int] == header_view(hs@[i as int]));
            }
            eq_ignore_case(hs[i].value.as_slice(), cont.as_slice())
        },
        None => false,
    }
}

/// Where both `Transfer-Encoding: chunked` and `Content-Length` are present,
/// the body is chunked and the length is ignored.
pub proof fn lemma_chunked_wins(hs: Seq<(Seq<u8>, Seq<u8>)>, kind: HeadKind)
    requires
        is_chunked(hs),
    ensures
        framing_spec(hs, kind) == Framing::Body(Kind::Chunked { done: false }),
{
}

} // verus!
