//! The header of an archive: format descriptor, version, sequence type
//! (version 2 only), flags, name separator, line length and number of
//! sequences.
use vstd::prelude::*;

use crate::data::{Flags, FormatVersion, Header, SequenceType};
use crate::error::Error;
use crate::varint::{lemma_varint_decode_shift, lemma_varint_round_trip, variable_u64, varint, varint_decode, write_variable_length};

verus! {

/// Whether a byte is printable ASCII.
pub open spec fn printable(b: u8) -> bool {
    0x20 <= b <= 0x7E
}

/// Whether a byte is printable ASCII.
pub fn is_printable(b: u8) -> (r: bool)
    ensures
        r == printable(b),
{
    0x20 <= b && b <= 0x7E
}

/// The three bytes that every archive starts with.
pub open spec fn format_descriptor() -> Seq<u8> {
    seq![0x01u8, 0xF9u8, 0xECu8]
}

/// The bytes of a header.
pub open spec fn header_bytes(h: Header) -> Seq<u8> {
    format_descriptor() + seq![h.format_version.spec_byte()] + (if h.format_version is V2 {
        seq![h.sequence_type.spec_byte()]
    } else {
        Seq::<u8>::empty()
    }) + seq![h.flags.0, h.name_separator] + varint(h.line_length as nat) + varint(
        h.number_of_sequences as nat,
    )
}

/// The sequence type that a version 2 header byte stands for.
pub open spec fn sequence_type_of(b: u8) -> SequenceType {
    if b == 0 {
        SequenceType::Dna
    } else if b == 1 {
        SequenceType::Rna
    } else if b == 2 {
        SequenceType::Protein
    } else {
        SequenceType::Text
    }
}

/// Reading a header from the start of `s`: the header and the position
/// after it.
pub open spec fn header_decode(s: Seq<u8>) -> Result<(Header, int), Error> {
    if s.len() < 3 {
        Err(Error::UnexpectedEof)
    } else if s[0] != 0x01 || s[1] != 0xF9 || s[2] != 0xEC {
        Err(Error::BadMagic)
    } else if s.len() < 4 {
        Err(Error::UnexpectedEof)
    } else if s[3] != 1 && s[3] != 2 {
        Err(Error::BadVersion)
    } else if s[3] == 2 && s.len() < 5 {
        Err(Error::UnexpectedEof)
    } else if s[3] == 2 && s[4] > 3 {
        Err(Error::BadHeader)
    } else {
        let p: int = if s[3] == 1 {
            4
        } else {
            5
        };
        if s.len() < p + 2 {
            Err(Error::UnexpectedEof)
        } else if !printable(s[p + 1]) {
            Err(Error::BadHeader)
        } else {
            match varint_decode(s, p + 2) {
                Err(e) => Err(e),
                Ok((ll, q)) => match varint_decode(s, q) {
                    Err(e) => Err(e),
                    Ok((ns, q2)) => Ok(
                        (
                            Header {
                                format_version: if s[3] == 1 {
                                    FormatVersion::V1
                                } else {
                                    FormatVersion::V2
                                },
                                sequence_type: if s[3] == 1 {
                                    SequenceType::Dna
                                } else {
                                    sequence_type_of(s[4])
                                },
                                flags: Flags(s[p]),
                                name_separator: s[p + 1],
                                line_length: ll,
                                number_of_sequences: ns,
                            },
                            q2,
                        ),
                    ),
                },
            }
        }
    }
}

/// Read a header from the start of `s`.
pub fn header(s: &[u8]) -> (r: Result<(Header, usize), Error>)
    ensures
        r matches Ok((h, p)) ==> header_decode(s@) == Ok::<(Header, int), Error>((h, p as int))
            && h.wf() && p <= s@.len(),
        r matches Err(e) ==> header_decode(s@) == Err::<(Header, int), Error>(e),
{
    if s.len() < 3 {
        return Err(Error::UnexpectedEof);
    }
    if s[0] != 0x01 || s[1] != 0xF9 || s[2] != 0xEC {
        return Err(Error::BadMagic);
    }
    if s.len() < 4 {
        return Err(Error::UnexpectedEof);
    }
    let format_version = if s[3] == 1 {
        FormatVersion::V1
    } else if s[3] == 2 {
        FormatVersion::V2
    } else {
        return Err(Error::BadVersion);
    };
    let mut p: usize = 4;
    let sequence_type = match format_version {
        FormatVersion::V1 => SequenceType::Dna,
        FormatVersion::V2 => {
            if s.len() < 5 {
                return Err(Error::UnexpectedEof);
            }
            p = 5;
            match s[4] {
                0 => SequenceType::Dna,
                1 => SequenceType::Rna,
                2 => SequenceType::Protein,
                3 => SequenceType::Text,
                _ => return Err(Error::BadHeader),
            }
        },
    };
    if s.len() < p + 2 {
        return Err(Error::UnexpectedEof);
    }
    let flags = Flags::from_byte(s[p]);
    let name_separator = s[p + 1];
    if !is_printable(name_separator) {
        return Err(Error::BadHeader);
    }
    let (line_length, q) = match variable_u64(s, p + 2) {
        Ok(x) => x,
        Err(e) => return Err(e),
    };
    proof {
        assert(q <= s@.len()) by {
            crate::varint::lemma_varint_decode_bound(s@, (p + 2) as int);
        }
    }
    let (number_of_sequences, q2) = match variable_u64(s, q) {
        Ok(x) => x,
        Err(e) => return Err(e),
    };
    proof {
        crate::varint::lemma_varint_decode_bound(s@, q as int);
    }
    let h = Header::new(
        format_version,
        sequence_type,
        flags,
        name_separator,
        line_length,
        number_of_sequences,
    );
    Ok((h, q2))
}

/// Append the bytes of the header `h` to `out`.
pub fn write_header(h: &Header, out: &mut Vec<u8>)
    ensures
        final(out)@ == old(out)@ + header_bytes(*h),
{
    out.push(0x01);
    out.push(0xF9);
    out.push(0xEC);
    out.push(h.format_version.as_byte());
    match h.format_version {
        FormatVersion::V1 => {},
        FormatVersion::V2 => out.push(h.sequence_type.as_byte()),
    }
    out.push(h.flags.as_byte());
    out.push(h.name_separator);
    write_variable_length(h.line_length, out);
    write_variable_length(h.number_of_sequences, out);
    assert(out@ =~= old(out)@ + header_bytes(*h));
}

/// Reading back the bytes of any header that can be written gives all of
/// its attributes, whatever follows. A version 1 header carries no
/// sequence type: its flags come right after the version byte.
pub proof fn lemma_header_round_trip(h: Header, rest: Seq<u8>)
    requires
        h.wf(),
    ensures
        header_decode(header_bytes(h) + rest) == Ok::<(Header, int), Error>(
            (h, header_bytes(h).len() as int),
        ),
        h.format_version is V1 ==> header_bytes(h)[4] == h.flags.0,
        h.format_version is V2 ==> header_bytes(h)[4] == h.sequence_type.spec_byte(),
{
    let s = header_bytes(h) + rest;
    let pre = format_descriptor() + seq![h.format_version.spec_byte()] + (if h.format_version
        is V2 {
        seq![h.sequence_type.spec_byte()]
    } else {
        Seq::<u8>::empty()
    }) + seq![h.flags.0, h.name_separator];
    let v1 = varint(h.line_length as nat);
    let v2 = varint(h.number_of_sequences as nat);
    assert(header_bytes(h) == pre + v1 + v2);
    let p: int = if h.format_version is V1 {
        4
    } else {
        5
    };
    assert(pre.len() == p + 2);
    assert(s =~= pre + (v1 + (v2 + rest)));
    lemma_varint_decode_shift(pre, v1 + (v2 + rest));
    lemma_varint_round_trip(h.line_length, v2 + rest);
    assert(s =~= (pre + v1) + (v2 + rest));
    lemma_varint_decode_shift(pre + v1, v2 + rest);
    lemma_varint_round_trip(h.number_of_sequences, rest);
    assert(s[p] == h.flags.0);
    assert(s[p + 1] == h.name_separator);
    assert(s[3] == h.format_version.spec_byte());
    if h.format_version is V2 {
        assert(s[4] == h.sequence_type.spec_byte());
    }
    assert(Flags(s[p]) == h.flags);
}

} // verus!
