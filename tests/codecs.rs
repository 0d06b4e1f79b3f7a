use nafcodec::header::write_header;
use nafcodec::lengths::read_length;
use nafcodec::lengths::write_length;
use nafcodec::varint::variable_u64;
use nafcodec::varint::write_variable_length;
use nafcodec::Error;
use nafcodec::Flag;
use nafcodec::Flags;
use nafcodec::FormatVersion;
use nafcodec::Header;
use nafcodec::SequenceType;

fn encoded(n: u64) -> Vec<u8> {
    let mut v = Vec::new();
    write_variable_length(n, &mut v);
    v
}

#[test]
fn variable_length() {
    assert_eq!(encoded(0), [0x00]);
    assert_eq!(encoded(1), [0x01]);
    assert_eq!(encoded(9), [0x09]);
    assert_eq!(encoded(10), [0x0a]);
    assert_eq!(encoded(100), [0x64]);
    assert_eq!(encoded(127), [0x7f]);
    assert_eq!(encoded(128), [0x81, 0x00]);
    assert_eq!(encoded(129), [0x81, 0x01]);
    assert_eq!(encoded(34359738367), [0xff, 0xff, 0xff, 0xff, 0x7f]);
    assert_eq!(encoded(34359738368), [0x81, 0x80, 0x80, 0x80, 0x80, 0x00]);
}

#[test]
fn varint_round_trip_and_length() {
    for &n in &[0u64, 1, 127, 128, 16383, 16384, u32::MAX as u64, u64::MAX] {
        let mut v = encoded(n);
        let len = v.len();
        let expected = if n == 0 { 1 } else { (64 - n.leading_zeros() as usize + 6) / 7 };
        assert_eq!(len, expected);
        v.push(0xAA);
        assert_eq!(variable_u64(&v, 0), Ok((n, len)));
    }
}

#[test]
fn varint_errors() {
    assert_eq!(variable_u64(&[], 0), Err(Error::UnexpectedEof));
    assert_eq!(variable_u64(&[0x81, 0x80], 0), Err(Error::UnexpectedEof));
    // a non-shortest form is still accepted
    assert_eq!(variable_u64(&[0x80, 0x80, 0x05], 0), Ok((5, 3)));
    // 2^64 does not fit
    let too_big = [0x82, 0x80, 0x80, 0x80, 0x80, 0x80, 0x80, 0x80, 0x80, 0x00];
    assert_eq!(variable_u64(&too_big, 0), Err(Error::Overflow));
    assert_eq!(variable_u64(&encoded(u64::MAX), 0), Ok((u64::MAX, 10)));
}

fn length_bytes(l: u64) -> Vec<u8> {
    let mut v = Vec::new();
    write_length(l, &mut v);
    v
}

#[test]
fn length_encoding() {
    assert_eq!(length_bytes(0), [0, 0, 0, 0]);
    assert_eq!(length_bytes(17), [17, 0, 0, 0]);
    assert_eq!(length_bytes(0xFFFF_FFFE), [0xFE, 0xFF, 0xFF, 0xFF]);
    assert_eq!(length_bytes(0xFFFF_FFFF), [0xFF, 0xFF, 0xFF, 0xFF, 0, 0, 0, 0]);
    assert_eq!(length_bytes(0x1_0000_0000), [0xFF, 0xFF, 0xFF, 0xFF, 1, 0, 0, 0]);
}

#[test]
fn length_round_trip_large() {
    for &l in &[0u64, 1, 0xFFFF_FFFE, 0xFFFF_FFFF, 1 << 32, 3 * 0xFFFF_FFFF + 5, 1 << 40] {
        let v = length_bytes(l);
        assert_eq!(v.len() as u64, 4 * (1 + l / 0xFFFF_FFFF));
        assert_eq!(read_length(&v, 0), Ok((l, v.len())));
    }
}

#[test]
fn length_errors() {
    assert_eq!(read_length(&[1, 2, 3], 0), Err(Error::UnexpectedEof));
    assert_eq!(read_length(&[0xFF, 0xFF, 0xFF, 0xFF], 0), Err(Error::UnexpectedEof));
}

#[test]
fn header() {
    const HEADER: [u8; 8] = [0x01, 0xF9, 0xEC, 0x01, 0x3E, 0x20, 0x3C, 0x20];
    let (h, i) = nafcodec::header::header(&HEADER[..]).unwrap();
    assert_eq!(h.name_separator(), b' ');
    assert_eq!(h.line_length(), 60);
    assert_eq!(h.number_of_sequences(), 32);
    assert_eq!(i, HEADER.len());
}

#[test]
fn header_round_trip() {
    let mut flags = Flags::new();
    flags.set(Flag::Id);
    flags.set(Flag::Sequence);
    flags.set(Flag::Length);
    for (v, t) in [
        (FormatVersion::V1, SequenceType::Dna),
        (FormatVersion::V2, SequenceType::Rna),
        (FormatVersion::V2, SequenceType::Protein),
        (FormatVersion::V2, SequenceType::Text),
    ] {
        let h = Header::new(v, t, flags, b'|', 80, 300);
        let mut out = Vec::new();
        write_header(&h, &mut out);
        if v == FormatVersion::V1 {
            assert_eq!(out, [0x01, 0xF9, 0xEC, 0x01, flags.as_byte(), b'|', 80, 0x82, 0x2C]);
        }
        let (back, n) = nafcodec::header::header(&out).unwrap();
        assert_eq!(back, h);
        assert_eq!(n, out.len());
    }
}

#[test]
fn header_errors() {
    assert_eq!(nafcodec::header::header(&[]), Err(Error::UnexpectedEof));
    assert_eq!(nafcodec::header::header(&[0x01, 0xF9, 0xED, 0x01]), Err(Error::BadMagic));
    assert_eq!(nafcodec::header::header(&[0x01, 0xF9, 0xEC, 0x03]), Err(Error::BadVersion));
    assert_eq!(nafcodec::header::header(&[0x01, 0xF9, 0xEC, 0x02, 0x04]), Err(Error::BadHeader));
    assert_eq!(nafcodec::header::header(&[0x01, 0xF9, 0xEC, 0x01, 0x00, 0x07, 0x3C, 0x20]), Err(Error::BadHeader));
    assert_eq!(nafcodec::header::header(&[0x01, 0xF9, 0xEC, 0x01, 0x00, 0x20, 0x3C]), Err(Error::UnexpectedEof));
}

#[test]
fn flags_bits() {
    let mut f = Flags::new();
    assert_eq!(f.as_byte(), 0);
    f.set(Flag::Quality);
    f.set(Flag::Title);
    assert_eq!(f.as_byte(), 0x41);
    assert!(f.test(Flag::Quality) && f.has_quality() && f.has_title());
    assert!(!f.has_sequence() && !f.has_mask() && !f.has_lengths());
    assert!(!f.has_comments() && !f.has_ids() && !f.has_extended_format());
    f.unset(Flag::Quality);
    assert_eq!(f.as_byte(), 0x40);
    let bytes: Vec<u8> = Flag::values().iter().map(|f| f.as_byte()).collect();
    assert_eq!(bytes, [0x01, 0x02, 0x04, 0x08, 0x10, 0x20, 0x40, 0x80]);
}
