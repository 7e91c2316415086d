//! The two byte-level building blocks of the object format: the compact
//! operand encoding (one or two bytes per tagged non-negative integer) and
//! the chunk framer (four-byte tag, big-endian length, payload, zero padding
//! to a four-byte boundary).

use vstd::prelude::*;

use crate::diag::{CErrV, CompileError};

verus! {

/// Operand tags of the compact encoding.  The low three bits of the first
/// byte of every encoded operand carry one of these.
#[derive(Clone, Copy, PartialEq, Eq, Structural)]
pub enum Tag {
    U,
    I,
    A,
    X,
    F,
}

/// The numeric value the target machine assigns to each operand tag.
pub open spec fn spec_tag_byte(t: Tag) -> u8 {
    match t {
        Tag::U => 0,
        Tag::I => 1,
        Tag::A => 2,
        Tag::X => 3,
        Tag::F => 5,
    }
}

/// Executable counterpart of [`spec_tag_byte`].
pub fn tag_byte(t: Tag) -> (b: u8)
    ensures
        b == spec_tag_byte(t),
{
    match t {
        Tag::U => 0,
        Tag::I => 1,
        Tag::A => 2,
        Tag::X => 3,
        Tag::F => 5,
    }
}

/// The range of integers the implemented short forms can carry.
pub open spec fn arg_fits(n: int) -> bool {
    0 <= n < 0x800
}

/// The bytes of one encoded operand, for `n` within [`arg_fits`].
///
/// Values below 16 take a single byte holding the value in the high nibble
/// and the tag in the low nibble.  Values up to `0x7FF` take two bytes: the
/// first carries bits 8..=10 of the value in its top three bits, the
/// continuation marker `0x08`, and the tag; the second carries the low eight
/// bits.
pub open spec fn spec_encode_arg(t: Tag, n: int) -> Seq<u8> {
    if n < 16 {
        seq![(16 * n + spec_tag_byte(t)) as u8]
    } else {
        seq![(32 * (n / 256) + 8 + spec_tag_byte(t)) as u8, (n % 256) as u8]
    }
}

/// Packs the pair `(tag, n)` into one or two bytes.
///
/// Fails with `EncodingUnsupported` exactly when `n` is negative or at least
/// `0x800`: wider forms of the target encoding are deliberately not
/// implemented.
pub fn encode_arg(tag: Tag, n: i32) -> (r: Result<Vec<u8>, CompileError>)
    ensures
        match r {
            Ok(v) => arg_fits(n as int) && v@ == spec_encode_arg(tag, n as int),
            Err(e) => !arg_fits(n as int) && e@ == CErrV::EncodingUnsupported(n as int),
        },
{
    let t = tag_byte(tag);
    if n < 0 {
        Err(CompileError::EncodingUnsupported(n as i128))
    } else if n < 16 {
        let b: u8 = 16 * (n as u8) + t;
        let r = vec![b];
        proof {
            assert(r@ =~= spec_encode_arg(tag, n as int));
        }
        Ok(r)
    } else if n < 0x800 {
        let m = n as u32;
        let b0: u8 = (32 * (m / 256) + 8 + (t as u32)) as u8;
        let b1: u8 = (m % 256) as u8;
        let r = vec![b0, b1];
        proof {
            assert(m / 256 < 8);
            assert(r@ =~= spec_encode_arg(tag, n as int));
        }
        Ok(r)
    } else {
        Err(CompileError::EncodingUnsupported(n as i128))
    }
}

/// The single-byte form equals `(n << 4) | tag`: the value sits in the high
/// nibble and the tag in the low nibble.
pub proof fn lemma_arg_short_decode(t: Tag, n: int)
    requires
        0 <= n < 16,
    ensures
        spec_encode_arg(t, n).len() == 1,
        spec_encode_arg(t, n)[0] == ((n as u8) << 4) | spec_tag_byte(t),
{
    let nv = n as u8;
    let tb = spec_tag_byte(t);
    assert(tb <= 5);
    assert(spec_encode_arg(t, n)[0] == (16 * n + tb) as u8);
    assert((16 * n + tb) as u8 == 16 * nv + tb);
    assert((nv << 4) | tb == 16 * nv + tb) by (bit_vector)
        requires
            nv < 16,
            tb <= 5,
    ;
}

/// The two-byte form `[b0, b1]` satisfies: the tag is `b0 & 0x07`, the
/// continuation marker `b0 & 0x08` is set, and the encoded value is
/// recovered by `((b0 & 0xE0) << 3) | b1`.
pub proof fn lemma_arg_two_byte_decode(t: Tag, n: int)
    requires
        16 <= n < 0x800,
    ensures
        spec_encode_arg(t, n).len() == 2,
        spec_encode_arg(t, n)[0] & 0x07 == spec_tag_byte(t),
        spec_encode_arg(t, n)[0] & 0x08 == 0x08,
        ((spec_encode_arg(t, n)[0] as u32) & 0xE0) << 3 | (spec_encode_arg(t, n)[1] as u32)
            == n as u32,
{
    let nv = n as u32;
    let tb = spec_tag_byte(t);
    assert(tb <= 5);
    assert(n / 256 == (nv / 256) as int);
    assert(n % 256 == (nv % 256) as int);
    let b0: u8 = (32 * (n / 256) + 8 + tb) as u8;
    let b1: u8 = (n % 256) as u8;
    assert(spec_encode_arg(t, n)[0] == b0);
    assert(spec_encode_arg(t, n)[1] == b1);
    assert(nv / 256 < 8);
    assert(b0 == 32 * (nv / 256) + 8 + tb);
    assert(b1 == nv % 256);
    assert(b0 & 0x07 == tb && b0 & 0x08 == 0x08 && ((b0 as u32) & 0xE0) << 3 | (b1 as u32)
        == nv) by (bit_vector)
        requires
            16 <= nv < 0x800,
            tb <= 5,
            b0 == 32 * (nv / 256) + 8 + tb,
            b1 == nv % 256,
    ;
}

/// The four bytes of `n` in big-endian order, for `0 <= n < 2^32`.
pub open spec fn spec_be32(n: int) -> Seq<u8> {
    seq![
        (n / 0x1000000 % 256) as u8,
        (n / 0x10000 % 256) as u8,
        (n / 0x100 % 256) as u8,
        (n % 256) as u8,
    ]
}

/// Appends the big-endian bytes of `n` to `dst`.
pub fn push_be32(dst: &mut Vec<u8>, n: u32)
    ensures
        final(dst)@ == old(dst)@ + spec_be32(n as int),
{
    dst.push((n / 0x1000000 % 256) as u8);
    dst.push((n / 0x10000 % 256) as u8);
    dst.push((n / 0x100 % 256) as u8);
    dst.push((n % 256) as u8);
    proof {
        assert(dst@ =~= old(dst)@ + spec_be32(n as int));
    }
}

/// Length `l` rounded up to a multiple of `w`.
pub open spec fn spec_pad_len(l: int, w: int) -> int {
    ((l + w - 1) / w) * w
}

/// Extends `chunk` with zero bytes until its length is a multiple of
/// `word_size`.
pub fn pad_chunk(word_size: usize, chunk: &mut Vec<u8>)
    requires
        word_size > 0,
        old(chunk)@.len() + word_size - 1 <= usize::MAX,
    ensures
        final(chunk)@.len() == spec_pad_len(old(chunk)@.len() as int, word_size as int),
        final(chunk)@ == old(chunk)@ + Seq::new(
            (spec_pad_len(old(chunk)@.len() as int, word_size as int) - old(chunk)@.len()) as nat,
            |i: int| 0u8,
        ),
{
    let len = chunk.len();
    let q = (len + (word_size - 1)) / word_size;
    proof {
        let l = len as int;
        let w = word_size as int;
        vstd::arithmetic::div_mod::lemma_fundamental_div_mod(l + w - 1, w);
        vstd::arithmetic::div_mod::lemma_mod_bound(l + w - 1, w);
        vstd::arithmetic::mul::lemma_mul_is_commutative(w, (l + w - 1) / w);
        assert(q * w == spec_pad_len(l, w));
        assert(l <= q * w <= l + w - 1);
    }
    let new_len = q * word_size;
    chunk.resize(new_len, 0u8);
    proof {
        assert(chunk@ =~= old(chunk)@ + Seq::new(
            (new_len - old(chunk)@.len()) as nat,
            |i: int| 0u8,
        ));
    }
}

/// A framed chunk: the four tag bytes, the big-endian payload length (the
/// padding is not counted), the payload, and zero padding bringing the whole
/// frame to a multiple of four bytes.
pub open spec fn spec_chunk(tag: Seq<u8>, payload: Seq<u8>) -> Seq<u8> {
    let framed = tag + spec_be32(payload.len() as int) + payload;
    framed + Seq::new((spec_pad_len(framed.len() as int, 4) - framed.len()) as nat, |i: int| 0u8)
}

/// Frames `chunk` under the four-byte tag `tag`.
pub fn encode_chunk(tag: [u8; 4], chunk: Vec<u8>) -> (r: Vec<u8>)
    requires
        chunk@.len() + 11 <= u32::MAX,
    ensures
        r@ == spec_chunk(tag@, chunk@),
{
    let mut result: Vec<u8> = Vec::new();
    result.extend_from_slice(tag.as_slice());
    push_be32(&mut result, chunk.len() as u32);
    let mut payload = chunk;
    result.append(&mut payload);
    proof {
        assert(result@ =~= tag@ + spec_be32(chunk@.len() as int) + chunk@);
    }
    pad_chunk(4, &mut result);
    proof {
        assert(result@ =~= spec_chunk(tag@, chunk@));
    }
    result
}

/// The framed chunk of a payload of length `L` is `8 + ((L + 3) & !3)` bytes
/// long, and its recorded length field holds `L` itself.
pub proof fn lemma_chunk_framing(tag: Seq<u8>, payload: Seq<u8>)
    requires
        tag.len() == 4,
        0 <= payload.len() <= u32::MAX,
    ensures
        spec_chunk(tag, payload).len() == 8 + (((payload.len() + 3) as u64) & !3u64),
        spec_chunk(tag, payload).subrange(4, 8) == spec_be32(payload.len() as int),
{
    let l = payload.len() as int;
    let framed = tag + spec_be32(l) + payload;
    assert(framed.len() == 8 + l);
    let s: u64 = (l + 3) as u64;
    assert(s == l + 3);
    assert(s & !3u64 == (s / 4) * 4) by (bit_vector)
        requires
            s <= 0x1_0000_0002u64,
    ;
    assert((8 + l + 3) / 4 == (l + 3) / 4 + 2) by {
        vstd::arithmetic::div_mod::lemma_div_plus_one(l + 3, 4);
        vstd::arithmetic::div_mod::lemma_fundamental_div_mod(8 + l + 3, 4);
        vstd::arithmetic::div_mod::lemma_fundamental_div_mod(l + 3, 4);
        vstd::arithmetic::div_mod::lemma_mod_bound(l + 3, 4);
        vstd::arithmetic::div_mod::lemma_mod_bound(8 + l + 3, 4);
        vstd::arithmetic::div_mod::lemma_fundamental_div_mod_converse(
            8 + l + 3,
            4,
            (l + 3) / 4 + 2,
            (l + 3) % 4,
        );
    }
    assert(spec_pad_len(8 + l, 4) == 8 + ((l + 3) / 4) * 4);
    assert(spec_chunk(tag, payload).len() == spec_pad_len(8 + l, 4));
    assert(spec_chunk(tag, payload).subrange(4, 8) =~= spec_be32(l));
}

} // verus!
