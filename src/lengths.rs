//! Sequence lengths: little-endian 32-bit words, where each saturated word
//! `0xFFFFFFFF` adds its value and asks for one more word.
use vstd::prelude::*;

use crate::error::Error;

verus! {

/// The value of a saturated length word.
pub const SATURATED: u64 = 0xFFFF_FFFF;

/// The four little-endian bytes of `x`.
pub open spec fn le32(x: u32) -> Seq<u8> {
    seq![
        (x & 0xff) as u8,
        ((x >> 8u32) & 0xff) as u8,
        ((x >> 16u32) & 0xff) as u8,
        ((x >> 24u32) & 0xff) as u8,
    ]
}

/// The little-endian 32-bit word that starts at `p`.
pub open spec fn word_at(s: Seq<u8>, p: int) -> u32 {
    (s[p] as u32) | ((s[p + 1] as u32) << 8u32) | ((s[p + 2] as u32) << 16u32) | ((s[p + 3]
        as u32) << 24u32)
}

/// The canonical encoding of the length `l`: as many saturated words as
/// `0xFFFFFFFF` goes into `l`, then the residue.
pub open spec fn length_words(l: nat) -> Seq<u8>
    decreases l,
{
    if l >= 0xFFFF_FFFF {
        seq![0xFFu8, 0xFFu8, 0xFFu8, 0xFFu8] + length_words((l - 0xFFFF_FFFF) as nat)
    } else {
        le32(l as u32)
    }
}

/// Reading a length that starts at `pos`, when `acc` was summed before
/// it: the length and the position after its last word.
pub open spec fn length_decode(s: Seq<u8>, pos: int, acc: nat) -> Result<(u64, int), Error>
    decreases s.len() - pos,
{
    if pos + 4 > s.len() {
        Err(Error::UnexpectedEof)
    } else if acc + word_at(s, pos) > u64::MAX {
        Err(Error::Overflow)
    } else if word_at(s, pos) < 0xFFFF_FFFF {
        Ok(((acc + word_at(s, pos)) as u64, pos + 4))
    } else {
        length_decode(s, pos + 4, (acc + word_at(s, pos)) as nat)
    }
}

/// Read one length from `s`, starting at `pos`.
pub fn read_length(s: &[u8], pos: usize) -> (r: Result<(u64, usize), Error>)
    requires
        pos <= s@.len(),
    ensures
        r matches Ok((v, p)) ==> pos < p <= s@.len(),
        r matches Ok((v, p)) ==> length_decode(s@, pos as int, 0) == Ok::<(u64, int), Error>(
            (v, p as int),
        ),
        r matches Err(e) ==> length_decode(s@, pos as int, 0) == Err::<(u64, int), Error>(e),
{
    let mut p = pos;
    let mut acc: u64 = 0;
    loop
        invariant
            pos <= p <= s@.len(),
            length_decode(s@, pos as int, 0) == length_decode(s@, p as int, acc as nat),
        decreases s@.len() - p,
    {
        if s.len() - p < 4 {
            return Err(Error::UnexpectedEof);
        }
        let w: u32 = (s[p] as u32) | ((s[p + 1] as u32) << 8u32) | ((s[p + 2] as u32) << 16u32)
            | ((s[p + 3] as u32) << 24u32);
        assert(w == word_at(s@, p as int));
        if acc > u64::MAX - w as u64 {
            return Err(Error::Overflow);
        }
        acc = acc + w as u64;
        p = p + 4;
        if w < 0xFFFF_FFFF {
            return Ok((acc, p));
        }
    }
}

/// Append the canonical encoding of the length `l` to `out`.
pub fn write_length(l: u64, out: &mut Vec<u8>)
    ensures
        final(out)@ == old(out)@ + length_words(l as nat),
{
    let mut l = l;
    let ghost total = l;
    while l >= SATURATED
        invariant
            old(out)@ + length_words(total as nat) == out@ + length_words(l as nat),
        decreases l,
    {
        let ghost before = out@;
        out.push(0xFF);
        out.push(0xFF);
        out.push(0xFF);
        out.push(0xFF);
        assert(before + length_words(l as nat) =~= out@ + length_words((l - SATURATED) as nat));
        l = l - SATURATED;
    }
    let w = l as u32;
    let ghost before = out@;
    out.push((w & 0xff) as u8);
    out.push(((w >> 8u32) & 0xff) as u8);
    out.push(((w >> 16u32) & 0xff) as u8);
    out.push(((w >> 24u32) & 0xff) as u8);
    assert(out@ =~= before + length_words(l as nat));
}

proof fn lemma_le32_word(x: u32)
    ensures
        word_at(le32(x), 0) == x,
{
    let b0 = (x & 0xff) as u8;
    let b1 = ((x >> 8u32) & 0xff) as u8;
    let b2 = ((x >> 16u32) & 0xff) as u8;
    let b3 = ((x >> 24u32) & 0xff) as u8;
    assert((b0 as u32) | ((b1 as u32) << 8u32) | ((b2 as u32) << 16u32) | ((b3 as u32) << 24u32)
        == x) by (bit_vector)
        requires
            b0 == (x & 0xff) as u8,
            b1 == ((x >> 8u32) & 0xff) as u8,
            b2 == ((x >> 16u32) & 0xff) as u8,
            b3 == ((x >> 24u32) & 0xff) as u8,
    ;
}

proof fn lemma_length_words_len(l: nat)
    ensures
        length_words(l).len() == 4 * (1 + l / 0xFFFF_FFFF),
    decreases l,
{
    if l >= 0xFFFF_FFFF {
        lemma_length_words_len((l - 0xFFFF_FFFF) as nat);
        assert(1 + (l - 0xFFFF_FFFF) / 0xFFFF_FFFF == l / 0xFFFF_FFFF) by (nonlinear_arith)
            requires
                l >= 0xFFFF_FFFF,
        ;
    } else {
        assert(l / 0xFFFF_FFFF == 0);
    }
}

/// The words of a length, found at `pos` after `acc` was summed, add up
/// to `acc + l`, and end where the words end.
pub proof fn lemma_length_decode_words(s: Seq<u8>, pos: int, l: nat, acc: nat)
    requires
        0 <= pos,
        pos + length_words(l).len() <= s.len(),
        s.subrange(pos, pos + length_words(l).len()) == length_words(l),
        acc + l <= u64::MAX,
    ensures
        length_decode(s, pos, acc) == Ok::<(u64, int), Error>(
            ((acc + l) as u64, pos + length_words(l).len()),
        ),
    decreases l,
{
    let w = length_words(l);
    assert(s[pos] == w[0] && s[pos + 1] == w[1] && s[pos + 2] == w[2] && s[pos + 3] == w[3]) by {
        assert(s.subrange(pos, pos + w.len())[0] == w[0]);
        assert(s.subrange(pos, pos + w.len())[1] == w[1]);
        assert(s.subrange(pos, pos + w.len())[2] == w[2]);
        assert(s.subrange(pos, pos + w.len())[3] == w[3]);
    }
    if l >= 0xFFFF_FFFF {
        let rest = length_words((l - 0xFFFF_FFFF) as nat);
        assert(word_at(s, pos) == 0xFFFF_FFFF) by {
            let f: u8 = 0xFF;
            assert((f as u32) | ((f as u32) << 8u32) | ((f as u32) << 16u32) | ((f as u32)
                << 24u32) == 0xFFFF_FFFFu32) by (bit_vector)
                requires
                    f == 0xFF,
            ;
        }
        assert(s.subrange(pos + 4, pos + 4 + rest.len()) =~= rest) by {
            assert forall|k: int| 0 <= k < rest.len() implies s.subrange(
                pos + 4,
                pos + 4 + rest.len(),
            )[k] == rest[k] by {
                assert(s.subrange(pos, pos + w.len())[4 + k] == w[4 + k]);
            }
        }
        lemma_length_decode_words(s, pos + 4, (l - 0xFFFF_FFFF) as nat, acc + 0xFFFF_FFFF);
    } else {
        lemma_le32_word(l as u32);
        assert(word_at(s, pos) == word_at(w, 0));
    }
}

/// Reading back the encoding of any 64-bit length gives that length,
/// whatever bytes follow it, and the encoding takes
/// `4 * (1 + l / 0xFFFFFFFF)` bytes.
pub proof fn lemma_length_round_trip(l: u64, rest: Seq<u8>)
    ensures
        length_decode(length_words(l as nat) + rest, 0, 0) == Ok::<(u64, int), Error>(
            (l, length_words(l as nat).len() as int),
        ),
        length_words(l as nat).len() == 4 * (1 + l / 0xFFFF_FFFF),
{
    let w = length_words(l as nat);
    let s = w + rest;
    lemma_length_words_len(l as nat);
    assert(s.subrange(0, w.len() as int) =~= w);
    lemma_length_decode_words(s, 0, l as nat, 0);
}

} // verus!
