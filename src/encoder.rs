//! Body encoder: writes chunked, fixed-length or close-delimited body bytes.
use vstd::prelude::*;

use crate::decoder::{
    hex_run, hex_val, hex_value, is_hex, lemma_hex_run_at_least, parse_chunk, pow16, ChunkParse,
    CR, LF, MAX_SIZE_DIGITS, decode_step, DecodeStep, Kind,
};

verus! {

/// Lower-case hex digit of `d < 16`.
pub open spec fn hex_digit(d: nat) -> u8 {
    if d < 10 {
        (48 + d) as u8
    } else {
        (87 + d) as u8
    }
}

/// Lower-case hex text of `n`, without leading zeros.
pub open spec fn hex_digits(n: nat) -> Seq<u8>
    decreases n,
{
    if n < 16 {
        seq![hex_digit(n)]
    } else {
        hex_digits(n / 16).push(hex_digit(n % 16))
    }
}

/// Chunked framing of one non-empty piece of body.
pub open spec fn chunk_frame(data: Seq<u8>) -> Seq<u8> {
    hex_digits(data.len()) + seq![CR, LF] + data + seq![CR, LF]
}

/// The terminating chunk of a chunked body.
pub open spec fn last_chunk() -> Seq<u8> {
    seq![48u8, CR, LF, CR, LF]
}

/// How body bytes are framed on the wire.
#[derive(PartialEq, Eq, Structural, Debug, Clone, Copy)]
pub enum TransferEncoding {
    /// Fixed length: the bytes still allowed.
    Length(u64),
    Chunked { eof: bool },
    /// Written as they come; the end of the connection ends the body.
    Eof,
    /// Body of a response to a HEAD request: nothing is ever written.
    Suppressed,
    /// No body, and no framing header: any body byte is an overrun.
    NoBody,
}

/// Writing more body bytes than the declared length allows.
#[derive(PartialEq, Eq, Structural, Debug, Clone, Copy)]
pub struct BodyOverrun;

proof fn lemma_hex_digit(d: nat)
    requires
        d < 16,
    ensures
        is_hex(hex_digit(d)),
        hex_val(hex_digit(d)) == d,
{
}

proof fn lemma_hex_digits(n: nat)
    ensures
        hex_digits(n).len() >= 1,
        forall|j: int| 0 <= j < hex_digits(n).len() ==> is_hex(#[trigger] hex_digits(n)[j]),
        hex_value(hex_digits(n)) == n,
        n < pow16(hex_digits(n).len() as nat),
    decreases n,
{
    if n < 16 {
        assert(seq![hex_digit(n)].drop_last() =~= Seq::<u8>::empty());
        assert(hex_value(Seq::<u8>::empty()) == 0);
        lemma_hex_digit(n);
        reveal_with_fuel(pow16, 2);
    } else {
        lemma_hex_digits(n / 16);
        lemma_hex_digit(n % 16);
        let h = hex_digits(n / 16);
        assert(hex_digits(n).drop_last() =~= h);
        assert forall|j: int| 0 <= j < hex_digits(n).len() implies is_hex(
            #[trigger] hex_digits(n)[j],
        ) by {
            if j < h.len() {
                assert(hex_digits(n)[j] == h[j]);
            }
        }
        let k = h.len() as nat;
        assert(pow16(k + 1) == 16 * pow16(k));
        assert(n < pow16(k + 1)) by (nonlinear_arith)
            requires
                n / 16 < pow16(k),
                pow16(k + 1) == 16 * pow16(k),
        ;
    }
}

proof fn lemma_hex_digits_short(n: nat, k: nat)
    requires
        n < pow16(k),
        k >= 1,
    ensures
        hex_digits(n).len() <= k,
    decreases n,
{
    if n >= 16 {
        assert(k >= 2) by {
            if k == 1 {
                reveal_with_fuel(pow16, 2);
            }
        }
        assert(pow16(k) == 16 * pow16((k - 1) as nat));
        assert(n / 16 < pow16((k - 1) as nat)) by (nonlinear_arith)
            requires
                n < pow16(k),
                pow16(k) == 16 * pow16((k - 1) as nat),
        ;
        lemma_hex_digits_short(n / 16, (k - 1) as nat);
    }
}

/// A framed chunk followed by anything decodes to exactly that chunk, and
/// takes exactly its framing.
pub proof fn lemma_chunk_round_trip(data: Seq<u8>, rest: Seq<u8>)
    requires
        0 < data.len() <= u64::MAX,
    ensures
        parse_chunk(chunk_frame(data) + rest) == (ChunkParse::Data {
            data,
            used: chunk_frame(data).len(),
        }),
{
    let h = hex_digits(data.len());
    let s = chunk_frame(data) + rest;
    lemma_hex_digits(data.len());
    reveal_with_fuel(pow16, 17);
    lemma_hex_digits_short(data.len(), 16);
    let k = h.len() as int;
    assert forall|j: int| 0 <= j < k implies is_hex(#[trigger] s[j]) by {
        assert(s[j] == h[j]);
    }
    assert(s[k] == CR);
    lemma_hex_run_at_least(s, k);
    assert(s.take(k) =~= h);
    let start = k + 2;
    assert(s.subrange(start, start + data.len()) =~= data);
    assert(s[start + data.len()] == CR);
    assert(s[start + data.len() + 1] == LF);
}

/// The terminating chunk followed by anything decodes as the end of the body.
pub proof fn lemma_last_chunk_round_trip(rest: Seq<u8>)
    ensures
        parse_chunk(last_chunk() + rest) == (ChunkParse::Last { used: 5 }),
{
    let s = last_chunk() + rest;
    assert(is_hex(s[0]));
    lemma_hex_run_at_least(s, 1);
    assert(s.take(1).drop_last() =~= Seq::<u8>::empty());
    assert(hex_value(Seq::<u8>::empty()) == 0);
    assert(s.take(1).last() == 48u8);
    assert(hex_value(s.take(1)) == hex_val(48u8));
}

/// A fixed-length body written whole decodes as that body, leaving what
/// follows it in the buffer.
pub proof fn lemma_length_round_trip(data: Seq<u8>, rest: Seq<u8>)
    requires
        0 < data.len() <= u64::MAX,
    ensures
        decode_step(Kind::Length(data.len() as u64), data + rest) == (DecodeStep::Chunk {
            data,
            rest,
            kind: Kind::Length(0),
        }),
{
    assert((data + rest).take(data.len() as int) =~= data);
    assert((data + rest).skip(data.len() as int) =~= rest);
}

/// A close-delimited body decodes as the bytes that arrived.
pub proof fn lemma_eof_round_trip(data: Seq<u8>)
    requires
        data.len() > 0,
    ensures
        decode_step(Kind::Eof, data) == (DecodeStep::Chunk {
            data,
            rest: Seq::empty(),
            kind: Kind::Eof,
        }),
{
}

/// Appends the hex text of `n` to `dst`.
pub fn write_hex(n: u64, dst: &mut Vec<u8>)
    ensures
        final(dst)@ == old(dst)@ + hex_digits(n as nat),
    decreases n,
{
    if n >= 16 {
        write_hex(n / 16, dst);
    }
    let d = n % 16;
    let b: u8 = if d < 10 { 48 + d as u8 } else { 87 + d as u8 };
    dst.push(b);
    proof {
        assert(hex_digits(n as nat) == if n < 16 { seq![hex_digit(n as nat)] } else { hex_digits((n / 16) as nat).push(hex_digit((n % 16) as nat)) });
        assert(final(dst)@ =~= old(dst)@ + hex_digits(n as nat));
    }
}

/// Appends `data` to `dst`.
pub(crate) fn append_bytes(dst: &mut Vec<u8>, data: &[u8])
    ensures
        final(dst)@ == old(dst)@ + data@,
{
    let mut i: usize = 0;
    while i < data.len()
        invariant
            i <= data@.len(),
            dst@ == old(dst)@ + data@.take(i as int),
        decreases data.len() - i,
    {
        dst.push(data[i]);
        i = i + 1;
        proof {
            assert(dst@ =~= old(dst)@ + data@.take(i as int));
        }
    }
    proof {
        assert(data@.take(data@.len() as int) =~= data@);
    }
}

/// Bytes that `encode_chunk` writes for `data` under framing `te`, and the
/// framing afterwards.
pub open spec fn chunk_output(te: TransferEncoding, data: Seq<u8>) -> Seq<u8> {
    match te {
        TransferEncoding::Length(rem) => data,
        TransferEncoding::Chunked { eof } => {
            if eof || data.len() == 0 {
                Seq::empty()
            } else {
                chunk_frame(data)
            }
        },
        TransferEncoding::Eof => data,
        TransferEncoding::Suppressed => Seq::empty(),
        TransferEncoding::NoBody => Seq::empty(),
    }
}

/// What writing one piece of body under framing `te` does: whether it
/// succeeds, the bytes written, and the framing afterwards. Past the
/// declared length, or with no body declared, it fails and writes nothing.
pub open spec fn encode_chunk_spec(te: TransferEncoding, data: Seq<u8>) -> (
    bool,
    Seq<u8>,
    TransferEncoding,
) {
    match te {
        TransferEncoding::Length(rem) => {
            if data.len() > rem {
                (false, Seq::empty(), te)
            } else {
                (true, data, TransferEncoding::Length((rem - data.len()) as u64))
            }
        },
        TransferEncoding::NoBody => (data.len() == 0, Seq::empty(), te),
        _ => (true, chunk_output(te, data), te),
    }
}

/// What ending the body under framing `te` does: the bytes written (the
/// terminating chunk, once, under chunked framing) and the framing afterwards.
pub open spec fn encode_eof_spec(te: TransferEncoding) -> (Seq<u8>, TransferEncoding) {
    match te {
        TransferEncoding::Chunked { eof } => (
            if eof {
                Seq::empty()
            } else {
                last_chunk()
            },
            TransferEncoding::Chunked { eof: true },
        ),
        _ => (Seq::empty(), te),
    }
}

impl TransferEncoding {
    /// Writes one piece of body under this framing. Past the declared length
    /// nothing is written and `BodyOverrun` is returned; an empty piece under
    /// chunked framing writes nothing, since a zero-size chunk would end the
    /// body.
    pub fn encode_chunk(&mut self, data: &[u8], dst: &mut Vec<u8>) -> (r: Result<(), BodyOverrun>)
        ensures
            r is Ok == encode_chunk_spec(*old(self), data@).0,
            final(dst)@ == old(dst)@ + encode_chunk_spec(*old(self), data@).1,
            *final(self) == encode_chunk_spec(*old(self), data@).2,
    {
        match *self {
            TransferEncoding::Length(rem) => {
                if data.len() as u64 > rem {
                    return Err(BodyOverrun);
                }
                append_bytes(dst, data);
                *self = TransferEncoding::Length(rem - data.len() as u64);
                Ok(())
            },
            TransferEncoding::Chunked { eof } => {
                if eof || data.len() == 0 {
                    proof {
                        assert(old(dst)@ + Seq::<u8>::empty() =~= old(dst)@);
                    }
                    return Ok(());
                }
                write_hex(data.len() as u64, dst);
                dst.push(CR);
                dst.push(LF);
                append_bytes(dst, data);
                dst.push(CR);
                dst.push(LF);
                proof {
                    assert(final(dst)@ =~= old(dst)@ + chunk_frame(data@));
                }
                Ok(())
            },
            TransferEncoding::Eof => {
                append_bytes(dst, data);
                Ok(())
            },
            TransferEncoding::NoBody => {
                if data.len() > 0 {
                    return Err(BodyOverrun);
                }
                proof {
                    assert(old(dst)@ + Seq::<u8>::empty() =~= old(dst)@);
                }
                Ok(())
            },
            TransferEncoding::Suppressed => {
                proof {
                    assert(old(dst)@ + Seq::<u8>::empty() =~= old(dst)@);
                }
                Ok(())
            },
        }
    }

    /// Ends the body: under chunked framing writes the terminating chunk once;
    /// under the other framings the end is implicit and nothing is written.
    pub fn encode_eof(&mut self, dst: &mut Vec<u8>)
        ensures
            final(dst)@ == old(dst)@ + encode_eof_spec(*old(self)).0,
            *final(self) == encode_eof_spec(*old(self)).1,
    {
        match *self {
            TransferEncoding::Chunked { eof } => {
                if !eof {
                    dst.push(48);
                    dst.push(CR);
                    dst.push(LF);
                    dst.push(CR);
                    dst.push(LF);
                    proof {
                        assert(final(dst)@ =~= old(dst)@ + last_chunk());
                    }
                }
                *self = TransferEncoding::Chunked { eof: true };
            },
            _ => {},
        }
    }
}

} // verus!
