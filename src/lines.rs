//! Splitting a buffered head into its start line and header lines.
use vstd::prelude::*;

use crate::decoder::{ParseError, CR, LF};
use crate::decoder::split_front;
use crate::head::{
    connection_name, content_length_name, eq_ignore_case, header_view, headers_view, ieq,
    name_bytes, transfer_encoding_name, Header,
};
use crate::encoder::{append_bytes, TransferEncoding};
use crate::message::{ConnectionType, Version};

verus! {

/// First position at or after `p` where CRLF starts, if any.
pub open spec fn find_crlf(s: Seq<u8>, p: int) -> Option<int>
    decreases s.len() - p,
{
    if p < 0 || p + 1 >= s.len() {
        None
    } else if s[p] == CR && s[p + 1] == LF {
        Some(p)
    } else {
        find_crlf(s, p + 1)
    }
}

/// Position of the first byte `b` in `line`, if any.
pub open spec fn find_byte(line: Seq<u8>, b: u8) -> Option<int>
    decreases line.len(),
{
    if line.len() == 0 {
        None
    } else {
        match find_byte(line.drop_last(), b) {
            Some(i) => Some(i),
            None => {
                if line.last() == b {
                    Some(line.len() - 1)
                } else {
                    None
                }
            },
        }
    }
}

pub open spec fn is_blank(b: u8) -> bool {
    b == 32 || b == 9
}

/// Number of spaces and tabs at the start of `v`.
pub open spec fn blank_run(v: Seq<u8>) -> nat
    decreases v.len(),
{
    if v.len() > 0 && is_blank(v[0]) {
        1 + blank_run(v.drop_first())
    } else {
        0
    }
}

/// A header line read as name and value: the name is what stands before the
/// first `:` (never empty), the value what follows, without leading blanks.
pub open spec fn split_header(line: Seq<u8>) -> Option<(Seq<u8>, Seq<u8>)> {
    match find_byte(line, 58) {
        Some(c) => {
            if c == 0 {
                None
            } else {
                let v = line.skip(c + 1);
                Some((line.take(c), v.skip(blank_run(v) as int)))
            }
        },
        None => None,
    }
}

/// What the header lines from position `p` say.
pub enum LinesParse {
    /// The empty line has not arrived yet.
    Incomplete,
    /// A line is not a header, or a line is longer than allowed.
    Invalid,
    TooLong,
    /// The headers, and the position just past the empty line.
    Done { headers: Seq<(Seq<u8>, Seq<u8>)>, end: int },
}

/// Header lines of `s` from `p` up to the empty line, each at most
/// `max_line` bytes long.
pub open spec fn parse_lines(s: Seq<u8>, p: int, max_line: nat) -> LinesParse
    decreases s.len() - p,
{
    if p < 0 || p > s.len() {
        LinesParse::Invalid
    } else {
        match find_crlf(s, p) {
            None => {
                if s.len() - p > max_line + 1 {
                    LinesParse::TooLong
                } else {
                    LinesParse::Incomplete
                }
            },
            Some(e) => {
                if e < p || e + 2 > s.len() {
                    LinesParse::Invalid
                } else if e - p > max_line {
                    LinesParse::TooLong
                } else if e == p {
                    LinesParse::Done { headers: Seq::empty(), end: p + 2 }
                } else {
                    match split_header(s.subrange(p, e)) {
                        None => LinesParse::Invalid,
                        Some(h) => prepend(h, parse_lines(s, e + 2, max_line)),
                    }
                }
            },
        }
    }
}

pub open spec fn prepend(h: (Seq<u8>, Seq<u8>), r: LinesParse) -> LinesParse {
    match r {
        LinesParse::Done { headers, end } => LinesParse::Done { headers: seq![h] + headers, end },
        _ => r,
    }
}

pub open spec fn prepend_all(acc: Seq<(Seq<u8>, Seq<u8>)>, r: LinesParse) -> LinesParse {
    match r {
        LinesParse::Done { headers, end } => LinesParse::Done { headers: acc + headers, end },
        _ => r,
    }
}

pub(crate) proof fn lemma_find_crlf_bounds(s: Seq<u8>, p: int)
    ensures
        find_crlf(s, p) matches Some(e) ==> p <= e && e + 1 < s.len() && s[e] == CR && s[e + 1]
            == LF,
    decreases s.len() - p,
{
    if !(p < 0 || p + 1 >= s.len()) && !(s[p] == CR && s[p + 1] == LF) {
        lemma_find_crlf_bounds(s, p + 1);
    }
}

/// First position at or after `p` where CRLF starts.
pub fn find_crlf_exec(s: &Vec<u8>, p: usize) -> (r: Option<usize>)
    ensures
        r matches Some(e) ==> find_crlf(s@, p as int) == Some(e as int) && e + 1 < s@.len(),
        r is None ==> find_crlf(s@, p as int) is None,
{
    let mut i: usize = p;
    while i < s.len() && s.len() - i > 1
        invariant
            p <= i,
            find_crlf(s@, p as int) == find_crlf(s@, i as int),
        decreases s.len() - i,
    {
        if s[i] == CR && s[i + 1] == LF {
            return Some(i);
        }
        i = i + 1;
    }
    None
}

fn find_byte_exec(line: &[u8], b: u8) -> (r: Option<usize>)
    ensures
        r matches Some(c) ==> find_byte(line@, b) == Some(c as int) && c < line@.len(),
        r is None ==> find_byte(line@, b) is None,
{
    let mut i: usize = 0;
    while i < line.len()
        invariant
            i <= line@.len(),
            find_byte(line@.take(i as int), b) is None,
        decreases line.len() - i,
    {
        proof {
            assert(line@.take(i + 1).drop_last() =~= line@.take(i as int));
        }
        if line[i] == b {
            proof {
                lemma_find_byte_prefix(line@, b, i + 1);
            }
            return Some(i);
        }
        i = i + 1;
    }
    proof {
        assert(line@.take(i as int) =~= line@);
    }
    None
}

proof fn lemma_find_byte_prefix(line: Seq<u8>, b: u8, k: int)
    requires
        0 <= k <= line.len(),
        find_byte(line.take(k), b) is Some,
    ensures
        find_byte(line, b) == find_byte(line.take(k), b),
    decreases line.len() - k,
{
    if k == line.len() {
        assert(line.take(k) =~= line);
    } else {
        assert(line.take(k + 1).drop_last() =~= line.take(k));
        lemma_find_byte_prefix(line, b, k + 1);
    }
}

fn copy_range(s: &[u8], a: usize, b: usize) -> (r: Vec<u8>)
    requires
        a <= b <= s@.len(),
    ensures
        r@ == s@.subrange(a as int, b as int),
{
    let mut r: Vec<u8> = Vec::new();
    let mut k: usize = a;
    while k < b
        invariant
            a <= k <= b,
            b <= s@.len(),
            r@ == s@.subrange(a as int, k as int),
        decreases b - k,
    {
        r.push(s[k]);
        k = k + 1;
        proof {
            assert(r@ =~= s@.subrange(a as int, k as int));
        }
    }
    r
}

proof fn lemma_blank_run(v: Seq<u8>, i: int)
    requires
        0 <= i <= v.len(),
        forall|j: int| 0 <= j < i ==> is_blank(#[trigger] v[j]),
        i == v.len() || !is_blank(v[i]),
    ensures
        blank_run(v) == i,
    decreases i,
{
    if i > 0 {
        let t = v.drop_first();
        assert forall|j: int| 0 <= j < i - 1 implies is_blank(#[trigger] t[j]) by {
            assert(t[j] == v[j + 1]);
        }
        lemma_blank_run(t, i - 1);
    }
}

/// Reads one header line as name and value.
pub fn split_header_exec(line: &[u8]) -> (r: Option<(Vec<u8>, Vec<u8>)>)
    ensures
        match split_header(line@) {
            Some(h) => r matches Some(p) && p.0@ == h.0 && p.1@ == h.1,
            None => r is None,
        },
{
    match find_byte_exec(line, 58) {
        None => None,
        Some(c) => {
            if c == 0 {
                return None;
            }
            let n = line.len();
            assert(c < n);
            let name = copy_range(line, 0, c);
            let mut i: usize = c + 1;
            let ghost v = line@.skip(c + 1);
            while i < line.len() && (line[i] == 32 || line[i] == 9)
                invariant
                    c + 1 <= i <= line@.len(),
                    v == line@.skip(c + 1),
                    forall|j: int| 0 <= j < i - (c + 1) ==> is_blank(#[trigger] v[j]),
                decreases line.len() - i,
            {
                proof {
                    assert(v[i - (c + 1)] == line@[i as int]);
                }
                i = i + 1;
            }
            proof {
                if i < line@.len() {
                    assert(v[i - (c + 1)] == line@[i as int]);
                }
                lemma_blank_run(v, i - (c + 1));
                assert(line@.take(c as int) =~= line@.subrange(0, c as int));
                assert(v.skip(i - (c + 1)) =~= line@.subrange(i as int, line@.len() as int));
            }
            let value = copy_range(line, i, line.len());
            Some((name, value))
        },
    }
}

proof fn lemma_prepend_all_step(
    acc: Seq<(Seq<u8>, Seq<u8>)>,
    h: (Seq<u8>, Seq<u8>),
    r: LinesParse,
)
    ensures
        prepend_all(acc, prepend(h, r)) == prepend_all(acc.push(h), r),
{
    match r {
        LinesParse::Done { headers, end } => {
            assert(acc + (seq![h] + headers) =~= acc.push(h) + headers);
        },
        _ => {},
    }
}

/// Reads the header lines of `s` from `p0` up to the empty line. Each line
/// is at most `max_line` bytes and there are at most `max_headers` of them.
/// `Ok(None)` means the empty line has not arrived yet.
pub fn read_header_lines(s: &Vec<u8>, p0: usize, max_line: usize, max_headers: usize) -> (r: Result<
    Option<(Vec<Header>, usize)>,
    ParseError,
>)
    requires
        p0 <= s@.len(),
    ensures
        match parse_lines(s@, p0 as int, max_line as nat) {
            LinesParse::Incomplete => r == Ok::<Option<(Vec<Header>, usize)>, ParseError>(None),
            LinesParse::Invalid => r == Err::<Option<(Vec<Header>, usize)>, ParseError>(
                ParseError::Header,
            ),
            LinesParse::TooLong => r == Err::<Option<(Vec<Header>, usize)>, ParseError>(
                ParseError::TooLarge,
            ),
            LinesParse::Done { headers, end } => {
                if headers.len() > max_headers {
                    r == Err::<Option<(Vec<Header>, usize)>, ParseError>(ParseError::TooLarge)
                } else {
                    r matches Ok(Some(x)) && headers_view(x.0@) == headers && x.1 == end
                }
            },
        },
{
    let mut acc: Vec<Header> = Vec::new();
    let mut p: usize = p0;
    proof {
        assert(headers_view(acc@) =~= Seq::<(Seq<u8>, Seq<u8>)>::empty());
        match parse_lines(s@, p0 as int, max_line as nat) {
            LinesParse::Done { headers, end } => {
                assert(Seq::<(Seq<u8>, Seq<u8>)>::empty() + headers =~= headers);
            },
            _ => {},
        }
    }
    loop
        invariant
            p0 <= p <= s@.len(),
            parse_lines(s@, p0 as int, max_line as nat) == prepend_all(
                headers_view(acc@),
                parse_lines(s@, p as int, max_line as nat),
            ),
        decreases s@.len() - p,
    {
        let found = find_crlf_exec(s, p);
        match found {
            None => {
                if s.len() - p > max_line && s.len() - p - max_line > 1 {
                    return Err(ParseError::TooLarge);
                }
                return Ok(None);
            },
            Some(e) => {
                proof {
                    lemma_find_crlf_bounds(s@, p as int);
                }
                let n = s.len();
                assert(e + 1 < n);
                if e - p > max_line {
                    return Err(ParseError::TooLarge);
                }
                if e == p {
                    proof {
                        assert(headers_view(acc@) + Seq::<(Seq<u8>, Seq<u8>)>::empty()
                            =~= headers_view(acc@));
                    }
                    if acc.len() > max_headers {
                        return Err(ParseError::TooLarge);
                    }
                    return Ok(Some((acc, p + 2)));
                }
                let line = copy_range(s.as_slice(), p, e);
                match split_header_exec(line.as_slice()) {
                    None => {
                        return Err(ParseError::Header);
                    },
                    Some(pair) => {
                        let (name, value) = pair;
                        let ghost h = (name@, value@);
                        proof {
                            lemma_prepend_all_step(
                                headers_view(acc@),
                                h,
                                parse_lines(s@, e + 2, max_line as nat),
                            );
                        }
                        let ghost before = acc@;
                        acc.push(Header { name, value });
                        proof {
                            assert(headers_view(acc@) =~= headers_view(before).push(h));
                        }
                        p = e + 2;
                    },
                }
            },
        }
    }
}

pub open spec fn http11_text() -> Seq<u8> {
    seq![72u8, 84, 84, 80, 47, 49, 46, 49]
}

pub open spec fn http10_text() -> Seq<u8> {
    seq![72u8, 84, 84, 80, 47, 49, 46, 48]
}

/// The version that `v` names, if it is `HTTP/1.1` or `HTTP/1.0`.
pub open spec fn version_of(v: Seq<u8>) -> Option<Version> {
    if v == http11_text() {
        Some(Version::Http11)
    } else if v == http10_text() {
        Some(Version::Http10)
    } else {
        None
    }
}

/// A request line read as method, target and version, each separated by
/// one space; method and target are never empty.
pub open spec fn request_line(line: Seq<u8>) -> Result<(Seq<u8>, Seq<u8>, Version), ParseError> {
    match find_byte(line, 32) {
        None => Err(ParseError::Header),
        Some(a) => {
            let rest = line.skip(a + 1);
            if a == 0 {
                Err(ParseError::Header)
            } else {
                match find_byte(rest, 32) {
                    None => Err(ParseError::Header),
                    Some(b) => {
                        if b == 0 {
                            Err(ParseError::Header)
                        } else {
                            match version_of(rest.skip(b + 1)) {
                                None => Err(ParseError::Version),
                                Some(v) => Ok((line.take(a), rest.take(b), v)),
                            }
                        }
                    },
                }
            }
        },
    }
}

/// A decoded request head.
pub struct RequestHead {
    pub method: Vec<u8>,
    pub target: Vec<u8>,
    pub version: Version,
    pub headers: Vec<Header>,
}

/// What the start of a buffer holds as a request head.
pub enum HeadParse {
    Incomplete,
    Fail(ParseError),
    Done {
        method: Seq<u8>,
        target: Seq<u8>,
        version: Version,
        headers: Seq<(Seq<u8>, Seq<u8>)>,
        end: int,
    },
}

/// The request head at the start of `s`, with lines of at most `max_line`
/// bytes and at most `max_headers` headers.
pub open spec fn request_head(s: Seq<u8>, max_line: nat, max_headers: nat) -> HeadParse {
    match find_crlf(s, 0) {
        None => {
            if s.len() > max_line + 1 {
                HeadParse::Fail(ParseError::TooLarge)
            } else {
                HeadParse::Incomplete
            }
        },
        Some(e) => {
            if e > max_line {
                HeadParse::Fail(ParseError::TooLarge)
            } else {
                match request_line(s.take(e)) {
                    Err(err) => HeadParse::Fail(err),
                    Ok(rl) => match parse_lines(s, e + 2, max_line) {
                        LinesParse::Incomplete => HeadParse::Incomplete,
                        LinesParse::Invalid => HeadParse::Fail(ParseError::Header),
                        LinesParse::TooLong => HeadParse::Fail(ParseError::TooLarge),
                        LinesParse::Done { headers, end } => {
                            if headers.len() > max_headers {
                                HeadParse::Fail(ParseError::TooLarge)
                            } else {
                                HeadParse::Done {
                                    method: rl.0,
                                    target: rl.1,
                                    version: rl.2,
                                    headers,
                                    end,
                                }
                            }
                        },
                    },
                }
            }
        },
    }
}

fn bytes_equal(a: &[u8], b: &[u8]) -> (r: bool)
    ensures
        r == (a@ == b@),
{
    if a.len() != b.len() {
        return false;
    }
    let mut i: usize = 0;
    while i < a.len()
        invariant
            a@.len() == b@.len(),
            i <= a@.len(),
            forall|j: int| 0 <= j < i ==> a@[j] == b@[j],
        decreases a.len() - i,
    {
        if a[i] != b[i] {
            return false;
        }
        i = i + 1;
    }
    proof {
        assert(a@ =~= b@);
    }
    true
}

fn parse_version(v: &[u8]) -> (r: Option<Version>)
    ensures
        r == version_of(v@),
{
    let h11 = vec![72u8, 84, 84, 80, 47, 49, 46, 49];
    let h10 = vec![72u8, 84, 84, 80, 47, 49, 46, 48];
    proof {
        assert(h11@ =~= http11_text());
        assert(h10@ =~= http10_text());
    }
    if bytes_equal(v, h11.as_slice()) {
        Some(Version::Http11)
    } else if bytes_equal(v, h10.as_slice()) {
        Some(Version::Http10)
    } else {
        None
    }
}

/// Reads a request line.
pub fn parse_request_line(line: &[u8]) -> (r: Result<(Vec<u8>, Vec<u8>, Version), ParseError>)
    ensures
        match request_line(line@) {
            Ok(rl) => r matches Ok(x) && x.0@ == rl.0 && x.1@ == rl.1 && x.2 == rl.2,
            Err(e) => r == Err::<(Vec<u8>, Vec<u8>, Version), ParseError>(e),
        },
{
    let a = match find_byte_exec(line, 32) {
        None => {
            return Err(ParseError::Header);
        },
        Some(a) => a,
    };
    if a == 0 {
        return Err(ParseError::Header);
    }
    let n = line.len();
    let rest = copy_range(line, a + 1, n);
    proof {
        assert(rest@ =~= line@.skip(a + 1));
    }
    let b = match find_byte_exec(rest.as_slice(), 32) {
        None => {
            return Err(ParseError::Header);
        },
        Some(b) => b,
    };
    if b == 0 {
        return Err(ParseError::Header);
    }
    let rn = rest.len();
    let tail = copy_range(rest.as_slice(), b + 1, rn);
    proof {
        assert(tail@ =~= rest@.skip(b + 1));
    }
    match parse_version(tail.as_slice()) {
        None => Err(ParseError::Version),
        Some(v) => {
            let method = copy_range(line, 0, a);
            let target = copy_range(rest.as_slice(), 0, b);
            proof {
                assert(method@ =~= line@.take(a as int));
                assert(target@ =~= rest@.take(b as int));
            }
            Ok((method, target, v))
        },
    }
}

/// Decodes the request head at the start of `src` and removes its bytes;
/// what follows (a body, or a next pipelined request) stays in `src`.
/// `Ok(None)` means that more bytes are needed; nothing is consumed then.
pub fn decode_request(src: &mut Vec<u8>, max_line: usize, max_headers: usize) -> (r: Result<
    Option<RequestHead>,
    ParseError,
>)
    ensures
        match request_head(old(src)@, max_line as nat, max_headers as nat) {
            HeadParse::Incomplete => r is Ok && r->Ok_0 is None && final(src)@ == old(src)@,
            HeadParse::Fail(e) => r == Err::<Option<RequestHead>, ParseError>(e),
            HeadParse::Done { method, target, version, headers, end } => {
                &&& r matches Ok(Some(h))
                &&& h.method@ == method
                &&& h.target@ == target
                &&& h.version == version
                &&& headers_view(h.headers@) == headers
                &&& final(src)@ == old(src)@.skip(end)
            },
        },
{
    let e = match find_crlf_exec(src, 0) {
        None => {
            if src.len() > max_line && src.len() - max_line > 1 {
                return Err(ParseError::TooLarge);
            }
            return Ok(None);
        },
        Some(e) => e,
    };
    proof {
        lemma_find_crlf_bounds(src@, 0);
    }
    if e > max_line {
        return Err(ParseError::TooLarge);
    }
    let line = copy_range(src.as_slice(), 0, e);
    proof {
        assert(line@ =~= src@.take(e as int));
    }
    let (method, target, version) = match parse_request_line(line.as_slice()) {
        Err(err) => {
            return Err(err);
        },
        Ok(x) => x,
    };
    let n = src.len();
    assert(e + 1 < n);
    match read_header_lines(src, e + 2, max_line, max_headers) {
        Err(err) => Err(err),
        Ok(None) => Ok(None),
        Ok(Some((headers, end))) => {
            proof {
                lemma_parse_lines_end(src@, (e + 2) as int, max_line as nat);
            }
            let _ = split_front(src, end);
            Ok(Some(RequestHead { method, target, version, headers }))
        },
    }
}

pub(crate) proof fn lemma_parse_lines_end(s: Seq<u8>, p: int, max_line: nat)
    ensures
        parse_lines(s, p, max_line) matches LinesParse::Done { end, .. } ==> p <= end <= s.len(),
    decreases s.len() - p,
{
    if 0 <= p <= s.len() {
        lemma_find_crlf_bounds(s, p);
        match find_crlf(s, p) {
            Some(e) => {
                if !(e < p || e + 2 > s.len()) && e - p <= max_line && e != p {
                    lemma_parse_lines_end(s, e + 2, max_line);
                }
            },
            None => {},
        }
    }
}

pub open spec fn version_text(v: Version) -> Seq<u8> {
    match v {
        Version::Http11 => http11_text(),
        Version::Http10 => http10_text(),
    }
}

/// Header lines as written: `name: value` and CRLF for each.
pub open spec fn header_text(hs: Seq<(Seq<u8>, Seq<u8>)>) -> Seq<u8>
    decreases hs.len(),
{
    if hs.len() == 0 {
        Seq::empty()
    } else {
        header_text(hs.drop_last()) + hs.last().0 + seq![58u8, 32u8] + hs.last().1 + seq![CR, LF]
    }
}

/// A request head as written: request line, header lines, empty line.
pub open spec fn request_text(
    method: Seq<u8>,
    target: Seq<u8>,
    version: Version,
    hs: Seq<(Seq<u8>, Seq<u8>)>,
) -> Seq<u8> {
    method + seq![32u8] + target + seq![32u8] + version_text(version) + seq![CR, LF] + header_text(
        hs,
    ) + seq![CR, LF]
}

/// Writes a request head.
pub fn encode_request_head(head: &RequestHead, dst: &mut Vec<u8>)
    ensures
        final(dst)@ == old(dst)@ + request_text(
            head.method@,
            head.target@,
            head.version,
            headers_view(head.headers@),
        ),
{
    write_request_line(head, dst);
    write_lines(dst, &head.headers);
    dst.push(CR);
    dst.push(LF);
    proof {
        assert(final(dst)@ =~= old(dst)@ + request_text(
            head.method@,
            head.target@,
            head.version,
            headers_view(head.headers@),
        ));
    }
}

/// Decimal text of `n`, without leading zeros.
pub open spec fn dec_digits(n: nat) -> Seq<u8>
    decreases n,
{
    if n < 10 {
        seq![(48 + n) as u8]
    } else {
        dec_digits(n / 10).push((48 + n % 10) as u8)
    }
}

/// Appends the decimal text of `n` to `dst`.
pub fn write_dec(n: u64, dst: &mut Vec<u8>)
    ensures
        final(dst)@ == old(dst)@ + dec_digits(n as nat),
    decreases n,
{
    if n >= 10 {
        write_dec(n / 10, dst);
    }
    dst.push(48 + (n % 10) as u8);
    proof {
        assert(final(dst)@ =~= old(dst)@ + dec_digits(n as nat));
    }
}

pub open spec fn content_length_line(n: nat) -> Seq<u8> {
    seq![99u8, 111, 110, 116, 101, 110, 116, 45, 108, 101, 110, 103, 116, 104, 58, 32]
        + dec_digits(n) + seq![CR, LF]
}

pub open spec fn chunked_line() -> Seq<u8> {
    seq![
        116u8, 114, 97, 110, 115, 102, 101, 114, 45, 101, 110, 99, 111, 100, 105, 110, 103, 58,
        32, 99, 104, 117, 110, 107, 101, 100, CR, LF
    ]
}

pub open spec fn close_line() -> Seq<u8> {
    seq![99u8, 111, 110, 110, 101, 99, 116, 105, 111, 110, 58, 32, 99, 108, 111, 115, 101, CR, LF]
}

pub open spec fn keep_alive_line() -> Seq<u8> {
    seq![
        99u8, 111, 110, 110, 101, 99, 116, 105, 111, 110, 58, 32, 107, 101, 101, 112, 45, 97,
        108, 105, 118, 101, CR, LF
    ]
}

/// The framing header of a body: its length, or chunked transfer coding;
/// none for a close-delimited body or a suppressed one.
pub open spec fn framing_line(te: TransferEncoding) -> Seq<u8> {
    match te {
        TransferEncoding::Length(n) => content_length_line(n as nat),
        TransferEncoding::Chunked { .. } => chunked_line(),
        _ => Seq::empty(),
    }
}

/// The one connection header: `close` or `keep-alive`; none on an upgrade,
/// whose own headers stand among the others.
pub open spec fn connection_line(ctype: ConnectionType) -> Seq<u8> {
    match ctype {
        ConnectionType::Close => close_line(),
        ConnectionType::KeepAlive => keep_alive_line(),
        ConnectionType::Upgrade => Seq::empty(),
    }
}

/// A response head as written: status line, the given headers but those
/// the codec writes itself, the framing header, the one connection header,
/// the empty line.
pub open spec fn response_text(
    version: Version,
    status: u16,
    reason: Seq<u8>,
    hs: Seq<(Seq<u8>, Seq<u8>)>,
    te: TransferEncoding,
    ctype: ConnectionType,
) -> Seq<u8> {
    version_text(version) + seq![32u8] + dec_digits(status as nat) + seq![32u8] + reason + seq![
        CR,
        LF,
    ] + header_text(kept_headers(hs, ctype)) + framing_line(te) + connection_line(ctype) + seq![
        CR,
        LF,
    ]
}

/// Whether a header of the caller's is left out of a written head because
/// the codec writes it: the framing headers always, the connection header
/// but on an upgrade.
pub open spec fn owned_by_codec(name: Seq<u8>, ctype: ConnectionType) -> bool {
    ieq(name, content_length_name()) || ieq(name, transfer_encoding_name()) || (ctype
        != ConnectionType::Upgrade && ieq(name, connection_name()))
}

/// The caller's headers that a written head keeps, in their order.
pub open spec fn kept_headers(hs: Seq<(Seq<u8>, Seq<u8>)>, ctype: ConnectionType) -> Seq<
    (Seq<u8>, Seq<u8>),
>
    decreases hs.len(),
{
    if hs.len() == 0 {
        Seq::empty()
    } else if owned_by_codec(hs.last().0, ctype) {
        kept_headers(hs.drop_last(), ctype)
    } else {
        kept_headers(hs.drop_last(), ctype).push(hs.last())
    }
}

fn is_owned_by_codec(name: &[u8], ctype: ConnectionType) -> (r: bool)
    ensures
        r == owned_by_codec(name@, ctype),
{
    let cl = name_bytes(1);
    let te = name_bytes(0);
    let cn = name_bytes(2);
    eq_ignore_case(name, cl.as_slice()) || eq_ignore_case(name, te.as_slice()) || (ctype
        != ConnectionType::Upgrade && eq_ignore_case(name, cn.as_slice()))
}

fn write_kept_lines(dst: &mut Vec<u8>, hs: &Vec<Header>, ctype: ConnectionType)
    ensures
        final(dst)@ == old(dst)@ + header_text(kept_headers(headers_view(hs@), ctype)),
{
    let ghost hv = headers_view(hs@);
    let mut i: usize = 0;
    while i < hs.len()
        invariant
            i <= hs@.len(),
            hv == headers_view(hs@),
            dst@ == old(dst)@ + header_text(kept_headers(hv.take(i as int), ctype)),
        decreases hs.len() - i,
    {
        let h = &hs[i];
        proof {
            assert(hv.take(i + 1).drop_last() =~= hv.take(i as int));
            assert(hv.take(i + 1).last() == header_view(hs@[i as int]));
        }
        if !is_owned_by_codec(h.name.as_slice(), ctype) {
            let ghost k = kept_headers(hv.take(i as int), ctype);
            append_bytes(dst, h.name.as_slice());
            dst.push(58);
            dst.push(32);
            append_bytes(dst, h.value.as_slice());
            dst.push(CR);
            dst.push(LF);
            proof {
                let x = header_view(hs@[i as int]);
                assert(k.push(x).drop_last() =~= k);
                assert(dst@ =~= old(dst)@ + header_text(k.push(x)));
            }
        }
        i = i + 1;
    }
    proof {
        assert(hv.take(i as int) =~= hv);
    }
}

fn write_lines(dst: &mut Vec<u8>, hs: &Vec<Header>)
    ensures
        final(dst)@ == old(dst)@ + header_text(headers_view(hs@)),
{
    let ghost hv = headers_view(hs@);
    let mut i: usize = 0;
    while i < hs.len()
        invariant
            i <= hs@.len(),
            hv == headers_view(hs@),
            dst@ == old(dst)@ + header_text(hv.take(i as int)),
        decreases hs.len() - i,
    {
        let h = &hs[i];
        append_bytes(dst, h.name.as_slice());
        dst.push(58);
        dst.push(32);
        append_bytes(dst, h.value.as_slice());
        dst.push(CR);
        dst.push(LF);
        proof {
            assert(hv.take(i + 1).drop_last() =~= hv.take(i as int));
            assert(hv.take(i + 1).last() == header_view(hs@[i as int]));
            assert(dst@ =~= old(dst)@ + header_text(hv.take(i + 1)));
        }
        i = i + 1;
    }
    proof {
        assert(hv.take(i as int) =~= hv);
    }
}

fn write_framing_line(te: TransferEncoding, dst: &mut Vec<u8>)
    ensures
        final(dst)@ == old(dst)@ + framing_line(te),
{
    match te {
        TransferEncoding::Length(n) => {
            let name = vec![99u8, 111, 110, 116, 101, 110, 116, 45, 108, 101, 110, 103, 116, 104, 58, 32];
            append_bytes(dst, name.as_slice());
            write_dec(n, dst);
            dst.push(CR);
            dst.push(LF);
        },
        TransferEncoding::Chunked { .. } => {
            let line = vec![
                116u8, 114, 97, 110, 115, 102, 101, 114, 45, 101, 110, 99, 111, 100, 105, 110, 103,
                58, 32, 99, 104, 117, 110, 107, 101, 100, CR, LF
            ];
            append_bytes(dst, line.as_slice());
        },
        _ => {},
    }
    proof {
        assert(final(dst)@ =~= old(dst)@ + framing_line(te));
    }
}

fn write_connection_line(ctype: ConnectionType, dst: &mut Vec<u8>)
    ensures
        final(dst)@ == old(dst)@ + connection_line(ctype),
{
    match ctype {
        ConnectionType::Close => {
            let line = vec![99u8, 111, 110, 110, 101, 99, 116, 105, 111, 110, 58, 32, 99, 108, 111, 115, 101, CR, LF];
            append_bytes(dst, line.as_slice());
        },
        ConnectionType::KeepAlive => {
            let line = vec![
                99u8, 111, 110, 110, 101, 99, 116, 105, 111, 110, 58, 32, 107, 101, 101, 112, 45, 97,
                108, 105, 118, 101, CR, LF
            ];
            append_bytes(dst, line.as_slice());
        },
        ConnectionType::Upgrade => {},
    }
    proof {
        assert(final(dst)@ =~= old(dst)@ + connection_line(ctype));
    }
}

fn write_status_line(version: Version, status: u16, reason: &[u8], dst: &mut Vec<u8>)
    ensures
        final(dst)@ == old(dst)@ + version_text(version) + seq![32u8] + dec_digits(status as nat)
            + seq![32u8] + reason@ + seq![CR, LF],
{
    let vt = match version {
        Version::Http11 => vec![72u8, 84, 84, 80, 47, 49, 46, 49],
        Version::Http10 => vec![72u8, 84, 84, 80, 47, 49, 46, 48],
    };
    proof {
        assert(vt@ =~= version_text(version));
    }
    append_bytes(dst, vt.as_slice());
    dst.push(32);
    write_dec(status as u64, dst);
    dst.push(32);
    append_bytes(dst, reason);
    dst.push(CR);
    dst.push(LF);
    proof {
        assert(final(dst)@ =~= old(dst)@ + version_text(version) + seq![32u8] + dec_digits(
            status as nat,
        ) + seq![32u8] + reason@ + seq![CR, LF]);
    }
}

/// Writes a response head for a body framed by `te` on a connection with
/// disposition `ctype`.
pub fn encode_response_head(
    version: Version,
    status: u16,
    reason: &[u8],
    hs: &Vec<Header>,
    te: TransferEncoding,
    ctype: ConnectionType,
    dst: &mut Vec<u8>,
)
    ensures
        final(dst)@ == old(dst)@ + response_text(
            version,
            status,
            reason@,
            headers_view(hs@),
            te,
            ctype,
        ),
{
    write_status_line(version, status, reason, dst);
    write_kept_lines(dst, hs, ctype);
    write_framing_line(te, dst);
    write_connection_line(ctype, dst);
    dst.push(CR);
    dst.push(LF);
    proof {
        assert(final(dst)@ =~= old(dst)@ + response_text(
            version,
            status,
            reason@,
            headers_view(hs@),
            te,
            ctype,
        ));
    }
}

pub(crate) proof fn lemma_find_crlf_at(s: Seq<u8>, p: int, e: int)
    requires
        0 <= p <= e,
        e + 1 < s.len(),
        s[e] == CR,
        s[e + 1] == LF,
        forall|j: int| p <= j < e ==> #[trigger] s[j] != CR,
    ensures
        find_crlf(s, p) == Some(e),
    decreases e - p,
{
    if p < e {
        lemma_find_crlf_at(s, p + 1, e);
    }
}

proof fn lemma_find_byte_none(line: Seq<u8>, b: u8)
    requires
        forall|j: int| 0 <= j < line.len() ==> #[trigger] line[j] != b,
    ensures
        find_byte(line, b) is None,
    decreases line.len(),
{
    if line.len() > 0 {
        let d = line.drop_last();
        assert forall|j: int| 0 <= j < d.len() implies #[trigger] d[j] != b by {
            assert(d[j] == line[j]);
        }
        lemma_find_byte_none(d, b);
    }
}

proof fn lemma_find_byte_at(line: Seq<u8>, b: u8, k: int)
    requires
        0 <= k < line.len(),
        line[k] == b,
        forall|j: int| 0 <= j < k ==> #[trigger] line[j] != b,
    ensures
        find_byte(line, b) == Some(k),
    decreases line.len(),
{
    let d = line.drop_last();
    if line.len() == k + 1 {
        assert forall|j: int| 0 <= j < d.len() implies #[trigger] d[j] != b by {
            assert(d[j] == line[j]);
        }
        lemma_find_byte_none(d, b);
    } else {
        assert(d[k] == line[k]);
        assert forall|j: int| 0 <= j < k implies #[trigger] d[j] != b by {
            assert(d[j] == line[j]);
        }
        lemma_find_byte_at(d, b, k);
    }
}

/// One header line as written.
pub open spec fn header_line(h: (Seq<u8>, Seq<u8>)) -> Seq<u8> {
    h.0 + seq![58u8, 32u8] + h.1 + seq![CR, LF]
}

proof fn lemma_header_text_front(hs: Seq<(Seq<u8>, Seq<u8>)>)
    requires
        hs.len() > 0,
    ensures
        header_text(hs) == header_line(hs[0]) + header_text(hs.drop_first()),
    decreases hs.len(),
{
    if hs.len() == 1 {
        assert(hs.drop_first() =~= Seq::<(Seq<u8>, Seq<u8>)>::empty());
        assert(hs.drop_last() =~= Seq::<(Seq<u8>, Seq<u8>)>::empty());
        assert(header_text(hs.drop_last()) == Seq::<u8>::empty());
        assert(hs.last() == hs[0]);
        assert(header_text(hs) =~= header_line(hs[0]));
        assert(header_text(hs.drop_first()) =~= Seq::<u8>::empty());
        assert(header_line(hs[0]) + Seq::<u8>::empty() =~= header_line(hs[0]));
    } else {
        let d = hs.drop_last();
        lemma_header_text_front(d);
        assert(d.drop_first() =~= hs.drop_first().drop_last());
        assert(d[0] == hs[0]);
        assert(hs.drop_first().last() == hs.last());
        assert(header_text(hs) =~= header_line(hs[0]) + header_text(hs.drop_first()));
    }
}

/// A header that writes and reads back as itself: a non-empty name without
/// `:` or CR, a value without CR that does not start with a blank, and a
/// line within `max_line` bytes.
pub open spec fn header_ok(h: (Seq<u8>, Seq<u8>), max_line: nat) -> bool {
    &&& h.0.len() > 0
    &&& forall|j: int| 0 <= j < h.0.len() ==> #[trigger] h.0[j] != 58 && h.0[j] != CR
    &&& forall|j: int| 0 <= j < h.1.len() ==> #[trigger] h.1[j] != CR
    &&& h.1.len() > 0 ==> !is_blank(h.1[0])
    &&& h.0.len() + 2 + h.1.len() <= max_line
}

proof fn lemma_split_written_header(h: (Seq<u8>, Seq<u8>), max_line: nat)
    requires
        header_ok(h, max_line),
    ensures
        split_header(h.0 + seq![58u8, 32u8] + h.1) == Some(h),
{
    let line = h.0 + seq![58u8, 32u8] + h.1;
    let n = h.0.len() as int;
    assert(line[n] == 58);
    assert forall|j: int| 0 <= j < n implies #[trigger] line[j] != 58 by {
        assert(line[j] == h.0[j]);
    }
    lemma_find_byte_at(line, 58, n);
    let v = line.skip(n + 1);
    assert(v =~= seq![32u8] + h.1);
    assert(v[0] == 32);
    if h.1.len() > 0 {
        assert(v[1] == h.1[0]);
    }
    lemma_blank_run(v, 1);
    assert(v.skip(1) =~= h.1);
    assert(line.take(n) =~= h.0);
}

proof fn lemma_parse_written_lines(
    pre: Seq<u8>,
    hs: Seq<(Seq<u8>, Seq<u8>)>,
    rest: Seq<u8>,
    max_line: nat,
)
    requires
        forall|i: int| 0 <= i < hs.len() ==> header_ok(#[trigger] hs[i], max_line),
    ensures
        parse_lines(pre + header_text(hs) + seq![CR, LF] + rest, pre.len() as int, max_line)
            == (LinesParse::Done {
            headers: hs,
            end: (pre.len() + header_text(hs).len() + 2) as int,
        }),
    decreases hs.len(),
{
    let s = pre + header_text(hs) + seq![CR, LF] + rest;
    let p = pre.len() as int;
    if hs.len() == 0 {
        assert(header_text(hs) =~= Seq::<u8>::empty());
        assert(s[p] == CR && s[p + 1] == LF);
        lemma_find_crlf_at(s, p, p);
        assert(parse_lines(s, p, max_line) == (LinesParse::Done { headers: Seq::<(Seq<u8>, Seq<u8>)>::empty(), end: p + 2 }));
        assert(hs =~= Seq::<(Seq<u8>, Seq<u8>)>::empty());
    } else {
        let h = hs[0];
        let tail = hs.drop_first();
        lemma_header_text_front(hs);
        assert(header_ok(h, max_line));
        let line = h.0 + seq![58u8, 32u8] + h.1;
        let e = p + line.len();
        let pre2 = pre + header_line(h);
        assert(s =~= pre2 + header_text(tail) + seq![CR, LF] + rest);
        assert forall|j: int| p <= j < e implies #[trigger] s[j] != CR by {
            assert(s[j] == line[j - p]);
            if j - p < h.0.len() {
                assert(line[j - p] == h.0[j - p]);
            } else if j - p >= h.0.len() + 2 {
                assert(line[j - p] == h.1[j - p - h.0.len() - 2]);
            }
        }
        assert(s[e] == CR && s[e + 1] == LF);
        lemma_find_crlf_at(s, p, e);
        assert(s.subrange(p, e) =~= line);
        lemma_split_written_header(h, max_line);
        assert forall|i: int| 0 <= i < tail.len() implies header_ok(#[trigger] tail[i], max_line) by {
            assert(tail[i] == hs[i + 1]);
        }
        lemma_parse_written_lines(pre2, tail, rest, max_line);
        assert(pre2.len() == e + 2);
        assert(seq![h] + tail =~= hs);
    }
}

/// Request heads round-trip: a head written by `encode_request_head`, with
/// method and target free of spaces and CR, headers that read back as
/// themselves, and lines and header count within the limits, decodes as
/// exactly that head, leaving whatever follows it in the buffer.
#[verifier::rlimit(60)]
pub proof fn lemma_request_round_trip(
    method: Seq<u8>,
    target: Seq<u8>,
    version: Version,
    hs: Seq<(Seq<u8>, Seq<u8>)>,
    rest: Seq<u8>,
    max_line: nat,
    max_headers: nat,
)
    requires
        method.len() > 0,
        target.len() > 0,
        forall|j: int| 0 <= j < method.len() ==> #[trigger] method[j] != 32 && method[j] != CR,
        forall|j: int| 0 <= j < target.len() ==> #[trigger] target[j] != 32 && target[j] != CR,
        method.len() + target.len() + 10 <= max_line,
        forall|i: int| 0 <= i < hs.len() ==> header_ok(#[trigger] hs[i], max_line),
        hs.len() <= max_headers,
    ensures
        request_head(request_text(method, target, version, hs) + rest, max_line, max_headers)
            == (HeadParse::Done {
            method,
            target,
            version,
            headers: hs,
            end: request_text(method, target, version, hs).len() as int,
        }),
{
    let vt = version_text(version);
    let t1 = target + seq![32u8] + vt;
    let rl = method + seq![32u8] + t1;
    let s = request_text(method, target, version, hs) + rest;
    let e = rl.len() as int;
    let m = method.len() as int;
    let t = target.len() as int;
    let pre = rl + seq![CR, LF];
    assert(s =~= pre + header_text(hs) + seq![CR, LF] + rest);
    assert(vt.len() == 8);
    assert forall|j: int| 0 <= j < 8 implies #[trigger] vt[j] != CR && vt[j] != 32 by {}
    assert forall|j: int| 0 <= j < e implies #[trigger] s[j] != CR by {
        assert(s[j] == rl[j]);
        if j < m {
            assert(rl[j] == method[j]);
        } else if j > m && j < m + 1 + t {
            assert(rl[j] == target[j - m - 1]);
        } else if j > m + 1 + t {
            assert(rl[j] == vt[j - m - 2 - t]);
        }
    }
    assert(s[e] == CR && s[e + 1] == LF);
    lemma_find_crlf_at(s, 0, e);
    assert(s.take(e) =~= rl);
    assert forall|j: int| 0 <= j < m implies #[trigger] rl[j] != 32 by {
        assert(rl[j] == method[j]);
    }
    assert(rl[m] == 32);
    lemma_find_byte_at(rl, 32, m);
    assert(rl.skip(m + 1) =~= t1);
    assert forall|j: int| 0 <= j < t implies #[trigger] t1[j] != 32 by {
        assert(t1[j] == target[j]);
    }
    assert(t1[t] == 32);
    lemma_find_byte_at(t1, 32, t);
    assert(t1.skip(t + 1) =~= vt);
    assert(http10_text()[7] != http11_text()[7]);
    assert(version_of(vt) == Some(version));
    assert(rl.take(m) =~= method);
    assert(t1.take(t) =~= target);
    lemma_parse_written_lines(pre, hs, rest, max_line);
}

/// Pipelining: of two request heads written back to back (each as in
/// `lemma_request_round_trip`), the first decodes from the joint buffer and
/// leaves exactly the second, which then decodes as well, with no further
/// bytes needed.
pub proof fn lemma_pipelined_heads(
    m1: Seq<u8>,
    t1: Seq<u8>,
    v1: Version,
    h1: Seq<(Seq<u8>, Seq<u8>)>,
    m2: Seq<u8>,
    t2: Seq<u8>,
    v2: Version,
    h2: Seq<(Seq<u8>, Seq<u8>)>,
    max_line: nat,
    max_headers: nat,
)
    requires
        m1.len() > 0 && t1.len() > 0 && m2.len() > 0 && t2.len() > 0,
        forall|j: int| 0 <= j < m1.len() ==> #[trigger] m1[j] != 32 && m1[j] != CR,
        forall|j: int| 0 <= j < t1.len() ==> #[trigger] t1[j] != 32 && t1[j] != CR,
        forall|j: int| 0 <= j < m2.len() ==> #[trigger] m2[j] != 32 && m2[j] != CR,
        forall|j: int| 0 <= j < t2.len() ==> #[trigger] t2[j] != 32 && t2[j] != CR,
        m1.len() + t1.len() + 10 <= max_line,
        m2.len() + t2.len() + 10 <= max_line,
        forall|i: int| 0 <= i < h1.len() ==> header_ok(#[trigger] h1[i], max_line),
        forall|i: int| 0 <= i < h2.len() ==> header_ok(#[trigger] h2[i], max_line),
        h1.len() <= max_headers,
        h2.len() <= max_headers,
    ensures
        ({
            let a = request_text(m1, t1, v1, h1);
            let b = request_text(m2, t2, v2, h2);
            &&& request_head(a + b, max_line, max_headers) == (HeadParse::Done {
                method: m1,
                target: t1,
                version: v1,
                headers: h1,
                end: a.len() as int,
            })
            &&& (a + b).skip(a.len() as int) == b
            &&& request_head(b, max_line, max_headers) == (HeadParse::Done {
                method: m2,
                target: t2,
                version: v2,
                headers: h2,
                end: b.len() as int,
            })
        }),
{
    let a = request_text(m1, t1, v1, h1);
    let b = request_text(m2, t2, v2, h2);
    lemma_request_round_trip(m1, t1, v1, h1, b, max_line, max_headers);
    lemma_request_round_trip(m2, t2, v2, h2, Seq::empty(), max_line, max_headers);
    assert(b + Seq::<u8>::empty() =~= b);
    assert((a + b).skip(a.len() as int) =~= b);
}

pub open spec fn digit_at(line: Seq<u8>, i: int) -> nat {
    (line[i] - 48) as nat
}

pub open spec fn is_dec(b: u8) -> bool {
    48 <= b <= 57
}

/// A status line read as version, three-digit status and reason phrase.
pub open spec fn status_line(line: Seq<u8>) -> Result<(Version, u16, Seq<u8>), ParseError> {
    if line.len() < 12 {
        Err(ParseError::Header)
    } else if version_of(line.take(8)) is None {
        Err(ParseError::Version)
    } else if line[8] != 32 || !is_dec(line[9]) || !is_dec(line[10]) || !is_dec(line[11]) {
        Err(ParseError::Header)
    } else if line.len() > 12 && line[12] != 32 {
        Err(ParseError::Header)
    } else {
        Ok((
            version_of(line.take(8))->Some_0,
            (digit_at(line, 9) * 100 + digit_at(line, 10) * 10 + digit_at(line, 11)) as u16,
            if line.len() > 12 {
                line.skip(13)
            } else {
                Seq::empty()
            },
        ))
    }
}

/// A decoded response head.
pub struct ResponseHead {
    pub version: Version,
    pub status: u16,
    pub reason: Vec<u8>,
    pub headers: Vec<Header>,
}

/// What the start of a buffer holds as a response head.
pub enum ResponseParse {
    Incomplete,
    Fail(ParseError),
    Done {
        version: Version,
        status: u16,
        reason: Seq<u8>,
        headers: Seq<(Seq<u8>, Seq<u8>)>,
        end: int,
    },
}

/// The response head at the start of `s`, under the same limits as a
/// request head.
pub open spec fn response_head(s: Seq<u8>, max_line: nat, max_headers: nat) -> ResponseParse {
    match find_crlf(s, 0) {
        None => {
            if s.len() > max_line + 1 {
                ResponseParse::Fail(ParseError::TooLarge)
            } else {
                ResponseParse::Incomplete
            }
        },
        Some(e) => {
            if e > max_line {
                ResponseParse::Fail(ParseError::TooLarge)
            } else {
                match status_line(s.take(e)) {
                    Err(err) => ResponseParse::Fail(err),
                    Ok(sl) => match parse_lines(s, e + 2, max_line) {
                        LinesParse::Incomplete => ResponseParse::Incomplete,
                        LinesParse::Invalid => ResponseParse::Fail(ParseError::Header),
                        LinesParse::TooLong => ResponseParse::Fail(ParseError::TooLarge),
                        LinesParse::Done { headers, end } => {
                            if headers.len() > max_headers {
                                ResponseParse::Fail(ParseError::TooLarge)
                            } else {
                                ResponseParse::Done {
                                    version: sl.0,
                                    status: sl.1,
                                    reason: sl.2,
                                    headers,
                                    end,
                                }
                            }
                        },
                    },
                }
            }
        },
    }
}

/// Reads a status line.
pub fn parse_status_line(line: &[u8]) -> (r: Result<(Version, u16, Vec<u8>), ParseError>)
    ensures
        match status_line(line@) {
            Ok(sl) => r matches Ok(x) && x.0 == sl.0 && x.1 == sl.1 && x.2@ == sl.2,
            Err(e) => r == Err::<(Version, u16, Vec<u8>), ParseError>(e),
        },
{
    let n = line.len();
    if n < 12 {
        return Err(ParseError::Header);
    }
    let vt = copy_range(line, 0, 8);
    proof {
        assert(vt@ =~= line@.take(8));
    }
    let version = match parse_version(vt.as_slice()) {
        None => {
            return Err(ParseError::Version);
        },
        Some(v) => v,
    };
    let (d0, d1, d2) = (line[9], line[10], line[11]);
    if line[8] != 32 || d0 < 48 || d0 > 57 || d1 < 48 || d1 > 57 || d2 < 48 || d2 > 57 {
        return Err(ParseError::Header);
    }
    if n > 12 && line[12] != 32 {
        return Err(ParseError::Header);
    }
    let status: u16 = (d0 - 48) as u16 * 100 + (d1 - 48) as u16 * 10 + (d2 - 48) as u16;
    let reason = if n > 12 {
        copy_range(line, 13, n)
    } else {
        Vec::new()
    };
    proof {
        if n > 12 {
            assert(reason@ =~= line@.skip(13));
        } else {
            assert(reason@ =~= Seq::<u8>::empty());
        }
    }
    Ok((version, status, reason))
}

/// Decodes the response head at the start of `src` and removes its bytes.
/// `Ok(None)` means that more bytes are needed; nothing is consumed then.
pub fn decode_response(src: &mut Vec<u8>, max_line: usize, max_headers: usize) -> (r: Result<
    Option<ResponseHead>,
    ParseError,
>)
    ensures
        match response_head(old(src)@, max_line as nat, max_headers as nat) {
            ResponseParse::Incomplete => r is Ok && r->Ok_0 is None && final(src)@ == old(src)@,
            ResponseParse::Fail(e) => r == Err::<Option<ResponseHead>, ParseError>(e),
            ResponseParse::Done { version, status, reason, headers, end } => {
                &&& r matches Ok(Some(h))
                &&& h.version == version
                &&& h.status == status
                &&& h.reason@ == reason
                &&& headers_view(h.headers@) == headers
                &&& final(src)@ == old(src)@.skip(end)
            },
        },
{
    let e = match find_crlf_exec(src, 0) {
        None => {
            if src.len() > max_line && src.len() - max_line > 1 {
                return Err(ParseError::TooLarge);
            }
            return Ok(None);
        },
        Some(e) => e,
    };
    proof {
        lemma_find_crlf_bounds(src@, 0);
    }
    if e > max_line {
        return Err(ParseError::TooLarge);
    }
    let line = copy_range(src.as_slice(), 0, e);
    proof {
        assert(line@ =~= src@.take(e as int));
    }
    let (version, status, reason) = match parse_status_line(line.as_slice()) {
        Err(err) => {
            return Err(err);
        },
        Ok(x) => x,
    };
    let n = src.len();
    assert(e + 1 < n);
    match read_header_lines(src, e + 2, max_line, max_headers) {
        Err(err) => Err(err),
        Ok(None) => Ok(None),
        Ok(Some((headers, end))) => {
            proof {
                lemma_parse_lines_end(src@, (e + 2) as int, max_line as nat);
            }
            let _ = split_front(src, end);
            Ok(Some(ResponseHead { version, status, reason, headers }))
        },
    }
}

pub open spec fn head_method_text() -> Seq<u8> {
    seq![72u8, 69, 65, 68]
}

/// Whether a method is `HEAD`.
pub fn is_head_method(method: &[u8]) -> (r: bool)
    ensures
        r == (method@ == head_method_text()),
{
    let h = vec![72u8, 69, 65, 68];
    proof {
        assert(h@ =~= head_method_text());
    }
    bytes_equal(method, h.as_slice())
}

pub open spec fn post_text() -> Seq<u8> {
    seq![80u8, 79, 83, 84]
}

pub open spec fn put_text() -> Seq<u8> {
    seq![80u8, 85, 84]
}

pub open spec fn patch_text() -> Seq<u8> {
    seq![80u8, 65, 84, 67, 72]
}

/// Whether a request with method `method` announces an empty body with an
/// explicit zero length: the methods whose body has a meaning, POST, PUT
/// and PATCH.
pub open spec fn request_needs_zero_length(method: Seq<u8>) -> bool {
    method == post_text() || method == put_text() || method == patch_text()
}

/// Whether a request announces an empty body with an explicit zero length.
pub fn method_needs_zero_length(method: &[u8]) -> (r: bool)
    ensures
        r == request_needs_zero_length(method@),
{
    let post = vec![80u8, 79, 83, 84];
    let put = vec![80u8, 85, 84];
    let patch = vec![80u8, 65, 84, 67, 72];
    proof {
        assert(post@ =~= post_text());
        assert(put@ =~= put_text());
        assert(patch@ =~= patch_text());
    }
    bytes_equal(method, post.as_slice()) || bytes_equal(method, put.as_slice()) || bytes_equal(
        method,
        patch.as_slice(),
    )
}

/// An outgoing request head as written: request line, the given headers but
/// those the codec writes itself, the framing header, the one connection
/// header, the empty line.
pub open spec fn request_message_text(
    method: Seq<u8>,
    target: Seq<u8>,
    version: Version,
    hs: Seq<(Seq<u8>, Seq<u8>)>,
    te: TransferEncoding,
    ctype: ConnectionType,
) -> Seq<u8> {
    method + seq![32u8] + target + seq![32u8] + version_text(version) + seq![CR, LF] + header_text(
        kept_headers(hs, ctype),
    ) + framing_line(te) + connection_line(ctype) + seq![CR, LF]
}

fn write_request_line(head: &RequestHead, dst: &mut Vec<u8>)
    ensures
        final(dst)@ == old(dst)@ + head.method@ + seq![32u8] + head.target@ + seq![32u8]
            + version_text(head.version) + seq![CR, LF],
{
    append_bytes(dst, head.method.as_slice());
    dst.push(32);
    append_bytes(dst, head.target.as_slice());
    dst.push(32);
    let vt = match head.version {
        Version::Http11 => vec![72u8, 84, 84, 80, 47, 49, 46, 49],
        Version::Http10 => vec![72u8, 84, 84, 80, 47, 49, 46, 48],
    };
    proof {
        assert(vt@ =~= version_text(head.version));
    }
    append_bytes(dst, vt.as_slice());
    dst.push(CR);
    dst.push(LF);
    proof {
        assert(final(dst)@ =~= old(dst)@ + head.method@ + seq![32u8] + head.target@ + seq![32u8]
            + version_text(head.version) + seq![CR, LF]);
    }
}

/// Writes an outgoing request head for a body framed by `te` on a
/// connection with disposition `ctype`.
pub fn encode_request_message(
    head: &RequestHead,
    te: TransferEncoding,
    ctype: ConnectionType,
    dst: &mut Vec<u8>,
)
    ensures
        final(dst)@ == old(dst)@ + request_message_text(
            head.method@,
            head.target@,
            head.version,
            headers_view(head.headers@),
            te,
            ctype,
        ),
{
    write_request_line(head, dst);
    write_kept_lines(dst, &head.headers, ctype);
    write_framing_line(te, dst);
    write_connection_line(ctype, dst);
    dst.push(CR);
    dst.push(LF);
    proof {
        assert(final(dst)@ =~= old(dst)@ + request_message_text(
            head.method@,
            head.target@,
            head.version,
            headers_view(head.headers@),
            te,
            ctype,
        ));
    }
}

pub(crate) proof fn lemma_find_crlf_extend(s: Seq<u8>, t: Seq<u8>, p: int)
    requires
        0 <= p,
    ensures
        find_crlf(s, p) matches Some(e) ==> find_crlf(s + t, p) == Some(e),
        find_crlf(s, p) is None ==> (find_crlf(s + t, p) is None || find_crlf(s + t, p)->Some_0
            >= s.len() - 1),
    decreases s.len() - p,
{
    let u = s + t;
    if p + 1 < s.len() {
        assert(u[p] == s[p] && u[p + 1] == s[p + 1]);
        if !(s[p] == CR && s[p + 1] == LF) {
            lemma_find_crlf_extend(s, t, p + 1);
        }
    } else {
        lemma_find_crlf_bounds(u, p);
    }
}

/// Header lines that the buffered bytes decide read the same when more
/// bytes follow.
pub(crate) proof fn lemma_parse_lines_extend(s: Seq<u8>, t: Seq<u8>, p: int, max_line: nat)
    requires
        0 <= p <= s.len(),
        !(parse_lines(s, p, max_line) is Incomplete),
    ensures
        parse_lines(s + t, p, max_line) == parse_lines(s, p, max_line),
    decreases s.len() - p,
{
    let u = s + t;
    lemma_find_crlf_extend(s, t, p);
    lemma_find_crlf_bounds(s, p);
    lemma_find_crlf_bounds(u, p);
    match find_crlf(s, p) {
        None => {},
        Some(e) => {
            if !(e - p > max_line) && e != p {
                assert(u.subrange(p, e) =~= s.subrange(p, e));
                if split_header(s.subrange(p, e)) is Some {
                    lemma_parse_lines_extend(s, t, e + 2, max_line);
                }
            }
        },
    }
}

} // verus!
