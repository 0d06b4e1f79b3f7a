//! The 4-bit nucleotide alphabet, and the packing of two codes per byte:
//! the earlier position in the low nibble, the later in the high nibble.
use vstd::prelude::*;

use crate::data::SequenceType;

verus! {

/// The 4-bit code of a nucleotide byte of an archive of type `ty`, or
/// `None` for a byte outside the alphabet. `T` belongs to DNA and `U` to
/// RNA; both take code 1.
pub open spec fn nucleotide_code(c: u8, ty: SequenceType) -> Option<u8> {
    if c == 45 {
        Some(0x0u8)  // '-'

    } else if (c == 84 && ty is Dna) || (c == 85 && ty is Rna) {
        Some(0x1u8)  // 'T' or 'U'

    } else if c == 71 {
        Some(0x2u8)  // 'G'

    } else if c == 75 {
        Some(0x3u8)  // 'K'

    } else if c == 67 {
        Some(0x4u8)  // 'C'

    } else if c == 89 {
        Some(0x5u8)  // 'Y'

    } else if c == 83 {
        Some(0x6u8)  // 'S'

    } else if c == 66 {
        Some(0x7u8)  // 'B'

    } else if c == 65 {
        Some(0x8u8)  // 'A'

    } else if c == 87 {
        Some(0x9u8)  // 'W'

    } else if c == 82 {
        Some(0xAu8)  // 'R'

    } else if c == 68 {
        Some(0xBu8)  // 'D'

    } else if c == 77 {
        Some(0xCu8)  // 'M'

    } else if c == 72 {
        Some(0xDu8)  // 'H'

    } else if c == 86 {
        Some(0xEu8)  // 'V'

    } else if c == 78 {
        Some(0xFu8)  // 'N'

    } else {
        None
    }
}

/// The byte that the 4-bit code `code` stands for in an archive of type
/// `ty`: code 1 is `U` for RNA and `T` otherwise.
pub open spec fn nucleotide_symbol(code: u8, ty: SequenceType) -> u8 {
    let k = code % 16;
    if k == 0 {
        45u8
    } else if k == 1 {
        if ty is Rna {
            85u8
        } else {
            84u8
        }
    } else if k == 2 {
        71u8
    } else if k == 3 {
        75u8
    } else if k == 4 {
        67u8
    } else if k == 5 {
        89u8
    } else if k == 6 {
        83u8
    } else if k == 7 {
        66u8
    } else if k == 8 {
        65u8
    } else if k == 9 {
        87u8
    } else if k == 10 {
        82u8
    } else if k == 11 {
        68u8
    } else if k == 12 {
        77u8
    } else if k == 13 {
        72u8
    } else if k == 14 {
        86u8
    } else {
        78u8
    }
}

/// Whether every byte of `s` belongs to the alphabet of `ty`.
pub open spec fn valid_nucleotides(s: Seq<u8>, ty: SequenceType) -> bool {
    forall|i: int| 0 <= i < s.len() ==> (#[trigger] nucleotide_code(s[i], ty)) is Some
}

/// The code of `c`, or 0 outside the alphabet.
pub open spec fn code_of(c: u8, ty: SequenceType) -> u8 {
    match nucleotide_code(c, ty) {
        Some(k) => k,
        None => 0,
    }
}

/// The codes of the bytes of `s`.
pub open spec fn codes_of(s: Seq<u8>, ty: SequenceType) -> Seq<u8> {
    Seq::new(s.len(), |i: int| code_of(s[i], ty))
}

/// Codes packed two per byte; an odd final code leaves the high nibble
/// of the last byte at zero.
pub open spec fn pack(codes: Seq<u8>) -> Seq<u8> {
    Seq::new(
        ((codes.len() + 1) / 2) as nat,
        |j: int|
            (codes[2 * j] + 16 * (if 2 * j + 1 < codes.len() {
                codes[2 * j + 1]
            } else {
                0u8
            })) as u8,
    )
}

/// The `i`-th 4-bit code of a packed byte stream.
pub open spec fn nibble(bytes: Seq<u8>, i: int) -> u8 {
    if i % 2 == 0 {
        bytes[i / 2] % 16
    } else {
        bytes[i / 2] / 16
    }
}

/// The bytes that `l` codes stand for, read from the packed stream
/// `bytes` from the code at index `from` on.
pub open spec fn unpacked(bytes: Seq<u8>, from: int, l: nat, ty: SequenceType) -> Seq<u8> {
    Seq::new(l, |i: int| nucleotide_symbol(nibble(bytes, from + i), ty))
}

/// The 4-bit code of a nucleotide byte, or `None` outside the alphabet.
pub fn encode_nucleotide(c: u8, ty: SequenceType) -> (r: Option<u8>)
    ensures
        r == nucleotide_code(c, ty),
        r matches Some(k) ==> k < 16,
{
    match c {
        45 => Some(0x0),  // '-'
        84 => if ty == SequenceType::Dna {  // 'T'
            Some(0x1)
        } else {
            None
        },
        85 => if ty == SequenceType::Rna {  // 'U'
            Some(0x1)
        } else {
            None
        },
        71 => Some(0x2),  // 'G'
        75 => Some(0x3),  // 'K'
        67 => Some(0x4),  // 'C'
        89 => Some(0x5),  // 'Y'
        83 => Some(0x6),  // 'S'
        66 => Some(0x7),  // 'B'
        65 => Some(0x8),  // 'A'
        87 => Some(0x9),  // 'W'
        82 => Some(0xA),  // 'R'
        68 => Some(0xB),  // 'D'
        77 => Some(0xC),  // 'M'
        72 => Some(0xD),  // 'H'
        86 => Some(0xE),  // 'V'
        78 => Some(0xF),  // 'N'
        _ => None,
    }
}

/// The byte that a 4-bit code stands for.
pub fn decode_nucleotide(code: u8, ty: SequenceType) -> (r: u8)
    requires
        code < 16,
    ensures
        r == nucleotide_symbol(code, ty),
{
    match code {
        0x0 => 45,  // '-'
        0x1 => if ty == SequenceType::Rna {
            85  // 'U'
        } else {
            84  // 'T'
        },
        0x2 => 71,  // 'G'
        0x3 => 75,  // 'K'
        0x4 => 67,  // 'C'
        0x5 => 89,  // 'Y'
        0x6 => 83,  // 'S'
        0x7 => 66,  // 'B'
        0x8 => 65,  // 'A'
        0x9 => 87,  // 'W'
        0xA => 82,  // 'R'
        0xB => 68,  // 'D'
        0xC => 77,  // 'M'
        0xD => 72,  // 'H'
        0xE => 86,  // 'V'
        _ => 78,  // 'N'
    }
}

/// Every byte of the alphabet is the symbol of its own code.
pub proof fn lemma_symbol_of_code(c: u8, ty: SequenceType)
    requires
        nucleotide_code(c, ty) is Some,
    ensures
        code_of(c, ty) < 16,
        nucleotide_symbol(code_of(c, ty), ty) == c,
{
}

/// Appending two codes to an even run of codes appends one byte.
pub proof fn lemma_pack_pair(x: Seq<u8>, a: u8, b: u8)
    requires
        x.len() % 2 == 0,
    ensures
        pack(x + seq![a, b]) == pack(x).push((a + 16 * b) as u8),
{
    let y = x + seq![a, b];
    assert(y[x.len() as int] == a);
    assert(y[x.len() as int + 1] == b);
    assert forall|j: int| 0 <= j < pack(x).len() implies pack(y)[j] == pack(x)[j] by {
        assert(y[2 * j] == x[2 * j]);
        assert(y[2 * j + 1] == x[2 * j + 1]);
    }
    assert(pack(y) =~= pack(x).push((a + 16 * b) as u8));
}

/// Appending one code to an even run of codes appends the code alone.
pub proof fn lemma_pack_single(x: Seq<u8>, a: u8)
    requires
        x.len() % 2 == 0,
    ensures
        pack(x.push(a)) == pack(x).push(a),
{
    let y = x.push(a);
    assert forall|j: int| 0 <= j < pack(x).len() implies pack(y)[j] == pack(x)[j] by {
        assert(y[2 * j] == x[2 * j]);
        assert(y[2 * j + 1] == x[2 * j + 1]);
    }
    assert(pack(y) =~= pack(x).push(a));
}

/// The codes of a concatenation are the concatenated codes.
pub proof fn lemma_codes_of_concat(a: Seq<u8>, b: Seq<u8>, ty: SequenceType)
    ensures
        codes_of(a + b, ty) == codes_of(a, ty) + codes_of(b, ty),
{
    assert(codes_of(a + b, ty) =~= codes_of(a, ty) + codes_of(b, ty));
}

/// Packing any nucleotide sequence of length `L` takes `(L + 1) / 2`
/// bytes, and unpacking those bytes gives the sequence back.
pub proof fn lemma_pack_round_trip(s: Seq<u8>, ty: SequenceType)
    requires
        valid_nucleotides(s, ty),
    ensures
        pack(codes_of(s, ty)).len() == (s.len() + 1) / 2,
        unpacked(pack(codes_of(s, ty)), 0, s.len(), ty) == s,
{
    let c = codes_of(s, ty);
    let p = pack(c);
    assert forall|i: int| 0 <= i < s.len() implies #[trigger] nibble(p, i) == c[i] by {
        let j = i / 2;
        let lo = c[2 * j];
        let hi = if 2 * j + 1 < c.len() {
            c[2 * j + 1]
        } else {
            0u8
        };
        assert(nucleotide_code(s[2 * j], ty) is Some);
        lemma_symbol_of_code(s[2 * j], ty);
        if 2 * j + 1 < c.len() {
            assert(nucleotide_code(s[2 * j + 1], ty) is Some);
            lemma_symbol_of_code(s[2 * j + 1], ty);
        }
        assert(lo < 16 && hi < 16);
        assert(p[j] == lo + 16 * hi);
        assert((lo + 16 * hi) % 16 == lo && (lo + 16 * hi) / 16 == hi) by (nonlinear_arith)
            requires
                lo < 16,
                hi < 16,
        ;
    }
    assert forall|i: int| 0 <= i < s.len() implies unpacked(p, 0, s.len(), ty)[i] == s[i] by {
        assert(nucleotide_code(s[i], ty) is Some);
        lemma_symbol_of_code(s[i], ty);
        assert(nibble(p, 0 + i) == c[i]);
    }
    assert(unpacked(p, 0, s.len(), ty) =~= s);
}

/// Nothing packs to nothing.
pub proof fn lemma_pack_empty()
    ensures
        pack(Seq::<u8>::empty()) == Seq::<u8>::empty(),
{
    assert(pack(Seq::<u8>::empty()) =~= Seq::<u8>::empty());
}

/// A nucleotide sequence written into the packed column after any other
/// sequences unpacks to itself from its starting code, whatever is
/// written after it.
pub proof fn lemma_packed_column_round_trip(
    before: Seq<u8>,
    x: Seq<u8>,
    after: Seq<u8>,
    ty: SequenceType,
)
    requires
        valid_nucleotides(before + x + after, ty),
    ensures
        unpacked(pack(codes_of(before + x + after, ty)), before.len() as int, x.len(), ty) == x,
{
    let all = before + x + after;
    let c = codes_of(all, ty);
    let p = pack(c);
    assert forall|i: int| 0 <= i < x.len() implies unpacked(p, before.len() as int, x.len(), ty)[i]
        == x[i] by {
        let t = before.len() + i;
        assert(all[t] == x[i]);
        let j = t / 2;
        let lo = c[2 * j];
        let hi = if 2 * j + 1 < c.len() {
            c[2 * j + 1]
        } else {
            0u8
        };
        assert(nucleotide_code(all[2 * j], ty) is Some);
        lemma_symbol_of_code(all[2 * j], ty);
        if 2 * j + 1 < c.len() {
            assert(nucleotide_code(all[2 * j + 1], ty) is Some);
            lemma_symbol_of_code(all[2 * j + 1], ty);
        }
        assert(p[j] == lo + 16 * hi);
        assert((lo + 16 * hi) % 16 == lo && (lo + 16 * hi) / 16 == hi) by (nonlinear_arith)
            requires
                lo < 16,
                hi < 16,
        ;
        assert(nibble(p, t) == c[t]);
        assert(nucleotide_code(all[t], ty) is Some);
        lemma_symbol_of_code(all[t], ty);
    }
    assert(unpacked(p, before.len() as int, x.len(), ty) =~= x);
}

} // verus!
