use nafcodec::reader::MaskReader;
use nafcodec::Decoder;
use nafcodec::DecoderBuilder;
use nafcodec::Error;
use nafcodec::MaskUnit;
use nafcodec::SequenceType;

fn magicless(data: &[u8]) -> Vec<u8> {
    let mut encoder = zstd::stream::write::Encoder::new(Vec::new(), 0).unwrap();
    encoder.include_magicbytes(false).unwrap();
    std::io::Write::write_all(&mut encoder, data).unwrap();
    encoder.finish().unwrap()
}

fn varint(mut n: u64) -> Vec<u8> {
    let mut groups = vec![(n & 0x7F) as u8];
    n >>= 7;
    while n > 0 {
        groups.push((n & 0x7F) as u8 | 0x80);
        n >>= 7;
    }
    groups.reverse();
    groups
}

fn block(out: &mut Vec<u8>, declared: u64, content: &[u8]) {
    let frame = magicless(content);
    out.extend(varint(declared));
    out.extend(varint(frame.len() as u64));
    out.extend(frame);
}

fn run_bytes(mut n: u64) -> Vec<u8> {
    let mut v = Vec::new();
    while n >= 255 {
        v.push(0xFF);
        n -= 255;
    }
    v.push(n as u8);
    v
}

fn pack(seq: &[u8]) -> Vec<u8> {
    let code = |c: u8| match c {
        b'A' => 8u8,
        b'C' => 4,
        b'G' => 2,
        b'T' => 1,
        _ => 15,
    };
    seq.chunks(2)
        .map(|p| code(p[0]) | if p.len() == 2 { code(p[1]) << 4 } else { 0 })
        .collect()
}

/// One DNA record of 1350 bases and one of 733, with a mask stream over
/// both; the second masked run of the first record goes on into the second.
fn masked_archive() -> Vec<u8> {
    let s1: Vec<u8> = b"ACGT".iter().cycle().take(1350).cloned().collect();
    let s2: Vec<u8> = b"GATC".iter().cycle().take(733).cloned().collect();
    let mut out = vec![0x01, 0xF9, 0xEC, 0x01, 0x2E, b' ', 50, 2];
    block(&mut out, 12, b"test1\0test2\0");
    let mut lengths = Vec::new();
    lengths.extend(1350u32.to_le_bytes());
    lengths.extend(733u32.to_le_bytes());
    block(&mut out, 8, &lengths);
    let mut mask = Vec::new();
    for run in [657u64, 19, 635, 39 + 0, 525, 96, 99, 13] {
        mask.extend(run_bytes(run));
    }
    block(&mut out, mask.len() as u64, &mask);
    let mut all = s1.clone();
    all.extend(&s2);
    block(&mut out, all.len() as u64, &pack(&all));
    out
}

fn is_upper(s: &[u8]) -> bool {
    s.iter().all(|c| c.is_ascii_uppercase())
}

fn is_lower(s: &[u8]) -> bool {
    s.iter().all(|c| c.is_ascii_lowercase())
}

#[test]
fn mask() {
    let archive = masked_archive();
    let mut decoder = Decoder::new(&archive).unwrap();

    assert_eq!(decoder.header().name_separator(), b' ');
    assert_eq!(decoder.header().number_of_sequences(), 2);
    assert_eq!(decoder.header().line_length(), 50);
    assert_eq!(decoder.header().sequence_type(), SequenceType::Dna);

    let r1 = decoder.next().unwrap().unwrap();
    assert_eq!(r1.id.unwrap(), b"test1");
    let seq = r1.sequence.unwrap();
    assert_eq!(seq.len(), 1350);
    assert!(is_upper(&seq[..657]));
    assert!(is_lower(&seq[657..676]));
    assert!(is_upper(&seq[676..1311]));
    assert!(is_lower(&seq[1311..1350]));

    let r2 = decoder.next().unwrap().unwrap();
    assert_eq!(r2.id.unwrap(), b"test2");
    let seq = r2.sequence.unwrap();
    assert!(is_upper(&seq[..525]));
    assert!(is_lower(&seq[525..621]));
    assert!(is_upper(&seq[621..720]));
    assert!(is_lower(&seq[720..733]));

    assert!(decoder.next().is_none());
}

#[test]
fn force_nomask() {
    let archive = masked_archive();
    let mut decoder = DecoderBuilder::new().mask(false).with_bytes(&archive).unwrap();

    assert_eq!(decoder.header().name_separator(), b' ');
    assert_eq!(decoder.header().number_of_sequences(), 2);
    assert_eq!(decoder.header().line_length(), 50);
    assert_eq!(decoder.header().sequence_type(), SequenceType::Dna);

    let r1 = decoder.next().unwrap().unwrap();
    assert_eq!(r1.id.unwrap(), b"test1");
    assert!(is_upper(&r1.sequence.unwrap()));

    let r2 = decoder.next().unwrap().unwrap();
    assert_eq!(r2.id.unwrap(), b"test2");
    assert!(is_upper(&r2.sequence.unwrap()));

    assert!(decoder.next().is_none());
}

#[test]
fn mod_masks() {
    let mut mask = Vec::new();
    for run in [657u64, 19, 635, 39, 725] {
        mask.extend(run_bytes(run));
    }
    let mut mask_reader = MaskReader::new(mask, 2075);
    assert_eq!(mask_reader.next().unwrap().unwrap(), MaskUnit::Unmasked(657));
    assert_eq!(mask_reader.next().unwrap().unwrap(), MaskUnit::Masked(19));
    assert_eq!(mask_reader.next().unwrap().unwrap(), MaskUnit::Unmasked(635));
    assert_eq!(mask_reader.next().unwrap().unwrap(), MaskUnit::Masked(39));
    assert_eq!(mask_reader.next().unwrap().unwrap(), MaskUnit::Unmasked(725));
    assert!(mask_reader.next().is_none());
}

#[test]
fn mask_stops_at_total() {
    let mut reader = MaskReader::new(vec![10, 0, 5, 7], 15);
    assert_eq!(reader.next(), Some(Ok(MaskUnit::Unmasked(10))));
    assert_eq!(reader.next(), Some(Ok(MaskUnit::Masked(0))));
    assert_eq!(reader.next(), Some(Ok(MaskUnit::Unmasked(5))));
    assert_eq!(reader.next(), None);
}

#[test]
fn mod_error_empty() {
    match Decoder::new(b"") {
        Ok(_decoder) => panic!("unexpected success"),
        Err(e) => assert_eq!(e, Error::UnexpectedEof),
    }
}

#[test]
fn mod_skip_sequence() {
    let archive = masked_archive();
    let mut decoder = DecoderBuilder::new().sequence(false).with_bytes(&archive).unwrap();
    let mut n = 0;
    while let Some(record) = decoder.next() {
        assert!(record.unwrap().sequence.is_none());
        n += 1;
    }
    assert_eq!(n, 2);
}

#[test]
fn title_is_read() {
    let mut out = vec![0x01, 0xF9, 0xEC, 0x02, 0x03, 0x40, b' ', 60, 0];
    out.extend(varint(5));
    out.extend(b"hello");
    let decoder = Decoder::new(&out).unwrap();
    assert_eq!(decoder.title().unwrap(), b"hello");
    assert_eq!(decoder.header().sequence_type(), SequenceType::Text);
    out[10] = 0xFF;
    assert_eq!(Decoder::new(&out).err(), Some(Error::Utf8));
}

#[test]
fn missing_length_column() {
    // sequences but no lengths
    let mut out = vec![0x01, 0xF9, 0xEC, 0x02, 0x02, 0x02, b' ', 60, 1];
    block(&mut out, 4, b"MYYK");
    let mut decoder = Decoder::new(&out).unwrap();
    assert_eq!(decoder.next(), Some(Err(Error::MissingField(nafcodec::Flag::Length))));
}

fn dna_archive(ids: &[&str], seqs: &[&[u8]], runs: &[u64]) -> Vec<u8> {
    let mut out = vec![0x01, 0xF9, 0xEC, 0x01, 0x2E, b' ', 60, seqs.len() as u8];
    let mut id_col = Vec::new();
    for id in ids {
        id_col.extend(id.as_bytes());
        id_col.push(0);
    }
    block(&mut out, id_col.len() as u64, &id_col);
    let mut lengths = Vec::new();
    let mut all = Vec::new();
    for s in seqs {
        lengths.extend((s.len() as u32).to_le_bytes());
        all.extend(*s);
    }
    block(&mut out, lengths.len() as u64, &lengths);
    let mut mask = Vec::new();
    for run in runs {
        mask.extend(run_bytes(*run));
    }
    block(&mut out, mask.len() as u64, &mask);
    block(&mut out, all.len() as u64, &pack(&all));
    out
}

#[test]
fn masked_run_across_records() {
    // an empty unmasked run first, then a masked run over the end of the
    // first record and the start of the second
    let archive = dna_archive(&["a", "b"], &[b"ACGTACGT", b"GATC"], &[0, 3, 3, 4, 2]);
    let mut decoder = Decoder::new(&archive).unwrap();
    let r1 = decoder.next().unwrap().unwrap();
    assert_eq!(r1.sequence.unwrap(), b"acgTACgt");
    let r2 = decoder.next().unwrap().unwrap();
    assert_eq!(r2.sequence.unwrap(), b"gaTC");
    assert!(decoder.next().is_none());
}

#[test]
fn mask_shorter_than_sequences() {
    let archive = dna_archive(&["a"], &[b"ACGTACGT"], &[2, 2]);
    assert_eq!(Decoder::new(&archive).err(), Some(Error::UnexpectedEof));
    // without masks the same archive decodes
    let mut decoder = DecoderBuilder::new().mask(false).with_bytes(&archive).unwrap();
    assert_eq!(decoder.next().unwrap().unwrap().sequence.unwrap(), b"ACGTACGT");
}

#[test]
fn mask_stream_cut_short() {
    let mut reader = MaskReader::new(vec![10], 15);
    assert_eq!(reader.next(), Some(Ok(MaskUnit::Unmasked(10))));
    assert_eq!(reader.next(), Some(Err(Error::UnexpectedEof)));
}

#[test]
fn mod_decoder() {
    let mut encoder = nafcodec::EncoderBuilder::new(SequenceType::Protein)
        .id(true)
        .sequence(true)
        .with_memory();
    for i in 0..12 {
        let r = nafcodec::Record {
            id: Some(format!("LuxC{}", i).into_bytes()),
            sequence: Some(b"MKVLAT".repeat(i + 1)),
            ..Default::default()
        };
        encoder.push(&r).unwrap();
    }
    let mut archive = Vec::new();
    encoder.write(&mut archive).unwrap();
    let mut decoder = Decoder::new(&archive).unwrap();
    let records = decoder.records().unwrap();
    assert_eq!(records.len(), 12);
    assert_eq!(records[11].sequence.as_ref().unwrap().len(), 72);
    assert_eq!(decoder.into_inner(), archive);
}
