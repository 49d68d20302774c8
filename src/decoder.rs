//! Payload decoder: turns buffered bytes into body chunks according to the
//! framing mode of a message.
use vstd::prelude::*;

use crate::lines::{
    find_crlf, find_crlf_exec, lemma_find_crlf_bounds, lemma_find_crlf_extend,
    lemma_parse_lines_end, lemma_parse_lines_extend, parse_lines, read_header_lines, LinesParse,
};

verus! {

pub const CR: u8 = 13;

pub const LF: u8 = 10;

/// Most hex digits accepted in a chunk-size line; more is a framing error.
pub const MAX_SIZE_DIGITS: usize = 16;

pub const SEMICOLON: u8 = 59;

/// Longest chunk extension accepted (from `;` to the line's end).
pub const MAX_EXTENSION: usize = 4096;

/// Longest trailer line accepted after the last chunk, CRLF excluded.
pub const MAX_TRAILER_LINE: usize = 8192;

/// Most trailer lines accepted after the last chunk.
pub const MAX_TRAILERS: usize = 96;

pub open spec fn is_hex(b: u8) -> bool {
    (48 <= b <= 57) || (97 <= b <= 102) || (65 <= b <= 70)
}

pub open spec fn hex_val(b: u8) -> nat {
    if 48 <= b <= 57 {
        (b - 48) as nat
    } else if 97 <= b <= 102 {
        (b - 87) as nat
    } else {
        (b - 55) as nat
    }
}

/// Number of hex digits at the start of `s`.
pub open spec fn hex_run(s: Seq<u8>) -> nat
    decreases s.len(),
{
    if s.len() > 0 && is_hex(s[0]) {
        1 + hex_run(s.drop_first())
    } else {
        0
    }
}

/// Value of a string of hex digits, most significant first.
pub open spec fn hex_value(s: Seq<u8>) -> nat
    decreases s.len(),
{
    if s.len() == 0 {
        0
    } else {
        hex_value(s.drop_last()) * 16 + hex_val(s.last())
    }
}

pub open spec fn pow16(n: nat) -> nat
    decreases n,
{
    if n == 0 {
        1
    } else {
        16 * pow16((n - 1) as nat)
    }
}

/// What the start of a chunked body says.
pub enum ChunkParse {
    /// More bytes are needed before anything can be decided.
    Incomplete,
    /// The bytes break chunked framing.
    Invalid,
    /// A data chunk, and the number of bytes its framing takes.
    Data { data: Seq<u8>, used: nat },
    /// The terminating zero-size chunk, and the number of bytes it takes.
    Last { used: nat },
}

/// The meaning of the chunk at the start of `s`: `<hex-size>CRLF<data>CRLF`,
/// where the size may be followed by `;` and an extension that is ignored,
/// or at the end of the body `0CRLF`, trailer header lines (read, not
/// interpreted) and an empty line.
pub open spec fn parse_chunk(s: Seq<u8>) -> ChunkParse {
    let n = hex_run(s) as int;
    if n > MAX_SIZE_DIGITS {
        ChunkParse::Invalid
    } else if n == s.len() {
        ChunkParse::Incomplete
    } else if n == 0 {
        ChunkParse::Invalid
    } else if s[n] == SEMICOLON {
        match find_crlf(s, n) {
            None => {
                if s.len() - n > MAX_EXTENSION + 1 {
                    ChunkParse::Invalid
                } else {
                    ChunkParse::Incomplete
                }
            },
            Some(e) => {
                if e - n > MAX_EXTENSION {
                    ChunkParse::Invalid
                } else {
                    chunk_after(s, hex_value(s.take(n)) as int, e + 2)
                }
            },
        }
    } else if s[n] != CR {
        ChunkParse::Invalid
    } else if s.len() < n + 2 {
        ChunkParse::Incomplete
    } else if s[n + 1] != LF {
        ChunkParse::Invalid
    } else {
        chunk_after(s, hex_value(s.take(n)) as int, n + 2)
    }
}

/// The chunk whose size line declared `size` and ended at `start`: its data
/// and CRLF, or for size zero the trailer lines and the empty line.
pub open spec fn chunk_after(s: Seq<u8>, size: int, start: int) -> ChunkParse {
    if size == 0 {
        match parse_lines(s, start, MAX_TRAILER_LINE as nat) {
            LinesParse::Incomplete => ChunkParse::Incomplete,
            LinesParse::Done { headers, end } => {
                if headers.len() > MAX_TRAILERS {
                    ChunkParse::Invalid
                } else {
                    ChunkParse::Last { used: end as nat }
                }
            },
            _ => ChunkParse::Invalid,
        }
    } else if s.len() < start + size + 2 {
        ChunkParse::Incomplete
    } else if s[start + size] != CR || s[start + size + 1] != LF {
        ChunkParse::Invalid
    } else {
        ChunkParse::Data {
            data: s.subrange(start, start + size),
            used: (start + size + 2) as nat,
        }
    }
}

pub proof fn lemma_pow16_mono(a: nat, b: nat)
    requires
        a <= b,
    ensures
        pow16(a) <= pow16(b),
    decreases b,
{
    if a < b {
        lemma_pow16_mono(a, (b - 1) as nat);
    }
}

pub(crate) proof fn lemma_hex_run_at_least(s: Seq<u8>, i: int)
    requires
        0 <= i <= s.len(),
        forall|j: int| 0 <= j < i ==> is_hex(#[trigger] s[j]),
    ensures
        hex_run(s) >= i,
        i == s.len() || !is_hex(s[i]) ==> hex_run(s) == i,
    decreases i,
{
    if i > 0 {
        let t = s.drop_first();
        assert forall|j: int| 0 <= j < i - 1 implies is_hex(#[trigger] t[j]) by {
            assert(t[j] == s[j + 1]);
        }
        lemma_hex_run_at_least(t, i - 1);
    }
}

proof fn lemma_hex_run_props(s: Seq<u8>)
    ensures
        hex_run(s) <= s.len(),
        forall|j: int| 0 <= j < hex_run(s) ==> is_hex(#[trigger] s[j]),
        hex_run(s) < s.len() ==> !is_hex(s[hex_run(s) as int]),
    decreases s.len(),
{
    if s.len() > 0 && is_hex(s[0]) {
        let t = s.drop_first();
        lemma_hex_run_props(t);
        assert forall|j: int| 0 <= j < hex_run(s) implies is_hex(#[trigger] s[j]) by {
            if j > 0 {
                assert(s[j] == t[j - 1]);
            }
        }
    }
}

proof fn lemma_chunk_after_extend(s: Seq<u8>, t: Seq<u8>, size: int, start: int)
    requires
        0 <= size,
        0 <= start <= s.len(),
        !(chunk_after(s, size, start) is Incomplete),
    ensures
        chunk_after(s + t, size, start) == chunk_after(s, size, start),
        chunk_after(s, size, start) matches ChunkParse::Last { used } ==> used <= s.len(),
        chunk_after(s, size, start) matches ChunkParse::Data { used, .. } ==> used <= s.len(),
{
    let u = s + t;
    if size == 0 {
        lemma_parse_lines_extend(s, t, start, MAX_TRAILER_LINE as nat);
        lemma_parse_lines_end(s, start, MAX_TRAILER_LINE as nat);
    } else if s.len() >= start + size + 2 {
        assert(u[start + size] == s[start + size]);
        assert(u[start + size + 1] == s[start + size + 1]);
        assert(u.subrange(start, start + size) =~= s.subrange(start, start + size));
    }
}

/// Decoding a chunk does not depend on how the bytes arrived: once the
/// buffered bytes decide a chunk (or an error), further bytes appended behind
/// them change nothing.
pub proof fn lemma_parse_chunk_extend(s: Seq<u8>, t: Seq<u8>)
    requires
        !(parse_chunk(s) is Incomplete),
    ensures
        parse_chunk(s + t) == parse_chunk(s),
        parse_chunk(s) matches ChunkParse::Last { used } ==> used <= s.len(),
        parse_chunk(s) matches ChunkParse::Data { used, .. } ==> used <= s.len(),
{
    let u = s + t;
    let n = hex_run(s) as int;
    lemma_hex_run_props(s);
    assert forall|j: int| 0 <= j < n implies is_hex(#[trigger] u[j]) by {
        assert(u[j] == s[j]);
    }
    if n > MAX_SIZE_DIGITS {
        lemma_hex_run_at_least(u, n);
    } else {
        assert(n < s.len());
        assert(u[n] == s[n]);
        lemma_hex_run_at_least(u, n);
        assert(u.take(n) =~= s.take(n));
        let size = hex_value(s.take(n)) as int;
        if n > 0 && s[n] == SEMICOLON {
            lemma_find_crlf_extend(s, t, n);
            lemma_find_crlf_bounds(s, n);
            lemma_find_crlf_bounds(u, n);
            if find_crlf(s, n) is Some {
                let e = find_crlf(s, n)->Some_0;
                if e - n <= MAX_EXTENSION {
                    lemma_chunk_after_extend(s, t, size, e + 2);
                }
            }
        } else if n > 0 && s[n] == CR && n + 2 <= s.len() {
            assert(u[n + 1] == s[n + 1]);
            if s[n + 1] == LF {
                lemma_chunk_after_extend(s, t, size, n + 2);
            }
        }
    }
}

fn is_hex_byte(b: u8) -> (r: bool)
    ensures
        r == is_hex(b),
{
    (48 <= b && b <= 57) || (97 <= b && b <= 102) || (65 <= b && b <= 70)
}

fn hex_byte_value(b: u8) -> (r: u64)
    requires
        is_hex(b),
    ensures
        r == hex_val(b),
        r < 16,
{
    if 48 <= b && b <= 57 {
        (b - 48) as u64
    } else if 97 <= b && b <= 102 {
        (b - 87) as u64
    } else {
        (b - 55) as u64
    }
}

/// Executable counterpart of `ChunkParse`, with positions into the buffer.
pub enum ChunkScan {
    Incomplete,
    Invalid,
    /// Chunk data starts at `start`, is `size` bytes long, and its framing
    /// ends two bytes after it.
    Found { start: usize, size: usize },
    /// The last chunk, with its trailer, takes `used` bytes.
    Last { used: usize },
}

/// Reads the chunk at the start of `s` without consuming anything.
pub fn scan_chunk(s: &Vec<u8>) -> (r: ChunkScan)
    ensures
        match r {
            ChunkScan::Incomplete => parse_chunk(s@) is Incomplete,
            ChunkScan::Invalid => parse_chunk(s@) is Invalid,
            ChunkScan::Found { start, size } => {
                &&& start + size + 2 <= s.len()
                &&& size > 0
                &&& parse_chunk(s@) == (ChunkParse::Data {
                    data: s@.subrange(start as int, start + size),
                    used: (start + size + 2) as nat,
                })
            },
            ChunkScan::Last { used } => used <= s.len() && parse_chunk(s@) == (ChunkParse::Last {
                used: used as nat,
            }),
        },
{
    let len = s.len();
    let mut i: usize = 0;
    let mut acc: u64 = 0;
    while i < len && is_hex_byte(s[i])
        invariant
            len == s@.len(),
            i <= len,
            i <= MAX_SIZE_DIGITS,
            forall|j: int| 0 <= j < i ==> is_hex(#[trigger] s@[j]),
            acc == hex_value(s@.take(i as int)),
            acc < pow16(i as nat),
        decreases len - i,
    {
        if i == MAX_SIZE_DIGITS {
            proof {
                lemma_hex_run_at_least(s@, i as int + 1);
            }
            return ChunkScan::Invalid;
        }
        let d = hex_byte_value(s[i]);
        proof {
            assert(s@.take(i as int + 1).drop_last() =~= s@.take(i as int));
            lemma_pow16_mono((i + 1) as nat, 16);
            reveal_with_fuel(pow16, 17);
            assert(acc * 16 + d < pow16(i as nat) * 16) by (nonlinear_arith)
                requires
                    acc < pow16(i as nat),
                    d < 16,
            ;
        }
        acc = acc * 16 + d;
        i = i + 1;
    }
    proof {
        lemma_hex_run_at_least(s@, i as int);
    }
    if i == len {
        return ChunkScan::Incomplete;
    }
    if i == 0 {
        return ChunkScan::Invalid;
    }
    let start: usize;
    if s[i] == SEMICOLON {
        match find_crlf_exec(s, i) {
            None => {
                if len - i > MAX_EXTENSION + 1 {
                    return ChunkScan::Invalid;
                }
                return ChunkScan::Incomplete;
            },
            Some(e) => {
                proof {
                    lemma_find_crlf_bounds(s@, i as int);
                }
                if e - i > MAX_EXTENSION {
                    return ChunkScan::Invalid;
                }
                start = e + 2;
            },
        }
    } else {
        if s[i] != CR {
            return ChunkScan::Invalid;
        }
        if len - i < 2 {
            return ChunkScan::Incomplete;
        }
        if s[i + 1] != LF {
            return ChunkScan::Invalid;
        }
        start = i + 2;
    }
    if acc == 0 {
        return match read_header_lines(s, start, MAX_TRAILER_LINE, MAX_TRAILERS) {
            Ok(None) => ChunkScan::Incomplete,
            Ok(Some((_, used))) => {
                proof {
                    lemma_parse_lines_end(s@, start as int, MAX_TRAILER_LINE as nat);
                }
                ChunkScan::Last { used }
            },
            Err(_) => ChunkScan::Invalid,
        };
    }
    if len - start < 2 || acc > (len - start - 2) as u64 {
        return ChunkScan::Incomplete;
    }
    let size = acc as usize;
    if s[start + size] != CR || s[start + size + 1] != LF {
        return ChunkScan::Invalid;
    }
    ChunkScan::Found { start, size }
}

/// Removes the first `n` bytes of `src` and returns them.
pub fn split_front(src: &mut Vec<u8>, n: usize) -> (front: Vec<u8>)
    requires
        n <= old(src)@.len(),
    ensures
        front@ == old(src)@.take(n as int),
        final(src)@ == old(src)@.skip(n as int),
{
    let mut front = src.split_off(n);
    std::mem::swap(src, &mut front);
    front
}

/// One decoded body event.
pub enum PayloadItem {
    Chunk(Vec<u8>),
    Eof,
}

/// A framing error in a message body.
#[derive(PartialEq, Eq, Structural, Debug, Clone, Copy)]
pub enum ParseError {
    /// Chunked framing is broken: a bad size line or a missing CRLF.
    InvalidChunk,
    /// The buffered head is not a well-formed message head.
    Header,
    /// The connection ended before a whole message was read.
    Incomplete,
    /// A head line is longer, or a head holds more headers, than allowed.
    TooLarge,
    /// The request line names no HTTP/1.0 or HTTP/1.1 version.
    Version,
}

/// Framing mode of a body, with the decoding state it needs.
#[derive(PartialEq, Eq, Structural, Debug, Clone, Copy)]
pub enum Kind {
    /// Fixed length: the bytes still to come.
    Length(u64),
    /// Chunked; `done` once the terminating chunk was read.
    Chunked { done: bool },
    /// Delimited by the end of the connection.
    Eof,
}

/// What one decoding step does: the event it yields, the bytes left behind and
/// the decoder's next state.
pub enum DecodeStep {
    /// More bytes are needed; nothing changes.
    NeedMore,
    /// The bytes break the framing.
    Failed,
    Chunk { data: Seq<u8>, rest: Seq<u8>, kind: Kind },
    End { rest: Seq<u8>, kind: Kind },
}

/// The decoding step for a body in state `kind` with `src` buffered.
pub open spec fn decode_step(kind: Kind, src: Seq<u8>) -> DecodeStep {
    match kind {
        Kind::Length(rem) => {
            if rem == 0 {
                DecodeStep::End { rest: src, kind }
            } else if src.len() == 0 {
                DecodeStep::NeedMore
            } else {
                let n = if rem < src.len() { rem as int } else { src.len() as int };
                DecodeStep::Chunk {
                    data: src.take(n),
                    rest: src.skip(n),
                    kind: Kind::Length((rem - n) as u64),
                }
            }
        },
        Kind::Chunked { done } => {
            if done {
                DecodeStep::End { rest: src, kind }
            } else {
                match parse_chunk(src) {
                    ChunkParse::Incomplete => DecodeStep::NeedMore,
                    ChunkParse::Invalid => DecodeStep::Failed,
                    ChunkParse::Data { data, used } => DecodeStep::Chunk {
                        data,
                        rest: src.skip(used as int),
                        kind,
                    },
                    ChunkParse::Last { used } => DecodeStep::End {
                        rest: src.skip(used as int),
                        kind: Kind::Chunked { done: true },
                    },
                }
            }
        },
        Kind::Eof => {
            if src.len() == 0 {
                DecodeStep::NeedMore
            } else {
                DecodeStep::Chunk { data: src, rest: Seq::empty(), kind }
            }
        },
    }
}

/// The result `r`, next state and remaining bytes are those of step `st`
/// (with the state and bytes unchanged when more bytes are needed).
pub open spec fn step_matches(
    st: DecodeStep,
    r: Result<Option<PayloadItem>, ParseError>,
    old_kind: Kind,
    old_src: Seq<u8>,
    kind: Kind,
    rest: Seq<u8>,
) -> bool {
    match st {
        DecodeStep::NeedMore => {
            &&& r == Ok::<Option<PayloadItem>, ParseError>(None)
            &&& kind == old_kind
            &&& rest == old_src
        },
        DecodeStep::Failed => r == Err::<Option<PayloadItem>, ParseError>(ParseError::InvalidChunk),
        DecodeStep::Chunk { data: d, rest: t, kind: k } => {
            &&& r matches Ok(Some(PayloadItem::Chunk(c)))
            &&& c@ == d
            &&& rest == t
            &&& kind == k
        },
        DecodeStep::End { rest: t, kind: k } => {
            &&& r matches Ok(Some(PayloadItem::Eof))
            &&& rest == t
            &&& kind == k
        },
    }
}

/// A body declared zero bytes long ends at once, without a chunk and without
/// consuming anything.
pub proof fn lemma_empty_body_ends(src: Seq<u8>)
    ensures
        decode_step(Kind::Length(0), src) == (DecodeStep::End { rest: src, kind: Kind::Length(0) }),
{
}

/// Chunked decoding does not depend on how the input is split: a step that
/// the buffered bytes decide yields the same event and state when more bytes
/// follow, and those bytes stay behind it in the buffer.
pub proof fn lemma_chunked_step_extend(done: bool, s: Seq<u8>, t: Seq<u8>)
    requires
        !(decode_step(Kind::Chunked { done }, s) is NeedMore),
    ensures
        match (decode_step(Kind::Chunked { done }, s), decode_step(Kind::Chunked { done }, s + t)) {
            (DecodeStep::Failed, DecodeStep::Failed) => true,
            (
                DecodeStep::Chunk { data: d1, rest: r1, kind: k1 },
                DecodeStep::Chunk { data: d2, rest: r2, kind: k2 },
            ) => d1 == d2 && r2 == r1 + t && k1 == k2,
            (DecodeStep::End { rest: r1, kind: k1 }, DecodeStep::End { rest: r2, kind: k2 }) => r2
                == r1 + t && k1 == k2,
            _ => false,
        },
{
    if !done {
        lemma_parse_chunk_extend(s, t);
        match parse_chunk(s) {
            ChunkParse::Data { data, used } => {
                assert((s + t).skip(used as int) =~= s.skip(used as int) + t);
            },
            ChunkParse::Last { used } => {
                assert((s + t).skip(used as int) =~= s.skip(used as int) + t);
            },
            _ => {},
        }
    }
}

/// Decoder for one message body.
pub struct PayloadDecoder {
    pub kind: Kind,
}

impl PayloadDecoder {
    pub fn length(n: u64) -> (r: PayloadDecoder)
        ensures
            r.kind == Kind::Length(n),
    {
        PayloadDecoder { kind: Kind::Length(n) }
    }

    pub fn chunked() -> (r: PayloadDecoder)
        ensures
            r.kind == (Kind::Chunked { done: false }),
    {
        PayloadDecoder { kind: Kind::Chunked { done: false } }
    }

    pub fn eof() -> (r: PayloadDecoder)
        ensures
            r.kind == Kind::Eof,
    {
        PayloadDecoder { kind: Kind::Eof }
    }

    /// Decodes the next body event from the front of `src`, consuming the
    /// bytes it used. `Ok(None)` means that more bytes are needed; nothing is
    /// consumed then.
    pub fn decode(&mut self, src: &mut Vec<u8>) -> (r: Result<Option<PayloadItem>, ParseError>)
        ensures
            step_matches(
                decode_step(old(self).kind, old(src)@),
                r,
                old(self).kind,
                old(src)@,
                final(self).kind,
                final(src)@,
            ),
    {
        match self.kind {
            Kind::Length(rem) => {
                if rem == 0 {
                    Ok(Some(PayloadItem::Eof))
                } else if src.len() == 0 {
                    Ok(None)
                } else {
                    let n: usize = if rem < src.len() as u64 { rem as usize } else { src.len() };
                    let c = split_front(src, n);
                    self.kind = Kind::Length(rem - n as u64);
                    Ok(Some(PayloadItem::Chunk(c)))
                }
            },
            Kind::Chunked { done } => {
                if done {
                    return Ok(Some(PayloadItem::Eof));
                }
                match scan_chunk(src) {
                    ChunkScan::Incomplete => Ok(None),
                    ChunkScan::Invalid => Err(ParseError::InvalidChunk),
                    ChunkScan::Last { used } => {
                        let _ = split_front(src, used);
                        self.kind = Kind::Chunked { done: true };
                        Ok(Some(PayloadItem::Eof))
                    },
                    ChunkScan::Found { start, size } => {
                        let framed = split_front(src, start + size + 2);
                        {
                            let mut c: Vec<u8> = Vec::new();
                            let end = start + size;
                            let mut k: usize = start;
                            while k < end
                                invariant
                                    end == start + size,
                                    framed@ == old(src)@.take(start + size + 2),
                                    start <= k <= start + size,
                                    start + size + 2 <= old(src)@.len(),
                                    c@ == old(src)@.subrange(start as int, k as int),
                                decreases end - k,
                            {
                                c.push(framed[k]);
                                k = k + 1;
                                proof {
                                    assert(c@ =~= old(src)@.subrange(start as int, k as int));
                                }
                            }
                            Ok(Some(PayloadItem::Chunk(c)))
                        }
                    },
                }
            },
            Kind::Eof => {
                if src.len() == 0 {
                    Ok(None)
                } else {
                    let n = src.len();
                    let c = split_front(src, n);
                    proof {
                        assert(c@ =~= old(src)@);
                        assert(src@ =~= Seq::<u8>::empty());
                    }
                    Ok(Some(PayloadItem::Chunk(c)))
                }
            },
        }
    }
}

} // verus!
