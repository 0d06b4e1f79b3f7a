use nafcodec::Decoder;
use nafcodec::DecoderBuilder;
use nafcodec::EncoderBuilder;
use nafcodec::Error;
use nafcodec::Flag;
use nafcodec::Flags;
use nafcodec::Record;
use nafcodec::SequenceType;
use nafcodec::SequenceType::Dna;

fn bytes(s: &str) -> Option<Vec<u8>> {
    Some(s.as_bytes().to_vec())
}

fn test_records() -> Vec<Record> {
    vec![
        Record {
            id: bytes("r1"),
            comment: bytes("record 1"),
            sequence: bytes("NGCTCTTAAACCTGCTA"),
            quality: bytes("#8CCCGGGGGGGGGGGG"),
            length: Some(17),
        },
        Record {
            id: bytes("r2"),
            comment: bytes("record 2"),
            sequence: bytes("NTAATAAGCAATGACGGCAGC"),
            quality: bytes("#8AACCFF<FFGGFGE@@@@@"),
            length: Some(21),
        },
    ]
}

fn flags(list: &[Flag]) -> Flags {
    let mut f = Flags::new();
    for x in list {
        f.set(*x);
    }
    f
}

#[test]
fn encode_id() {
    let mut encoder = EncoderBuilder::from_flags(Dna, flags(&[Flag::Id])).with_memory();

    let records = test_records();
    encoder.push(&records[0]).unwrap();
    encoder.push(&records[1]).unwrap();

    let mut buffer = Vec::new();
    encoder.write(&mut buffer).unwrap();

    let mut decoder = Decoder::new(&buffer).unwrap();
    assert!(decoder.header().flags().test(Flag::Id));
    assert!(!decoder.header().flags().test(Flag::Comment));
    assert!(!decoder.header().flags().test(Flag::Sequence));
    assert!(!decoder.header().flags().test(Flag::Quality));

    let r1 = decoder.next().unwrap().unwrap();
    assert_eq!(r1.id, bytes("r1"));
    assert!(r1.comment.is_none());
    assert!(r1.sequence.is_none());
    assert!(r1.quality.is_none());
    assert!(r1.length.is_none());

    let r2 = decoder.next().unwrap().unwrap();
    assert_eq!(r2.id, bytes("r2"));
    assert!(r2.comment.is_none());
    assert!(r2.sequence.is_none());
    assert!(r2.quality.is_none());
    assert!(r2.length.is_none());
}

#[test]
fn encode_id_sequence() {
    let mut encoder =
        EncoderBuilder::from_flags(Dna, flags(&[Flag::Id, Flag::Sequence])).with_memory();

    let records = test_records();
    encoder.push(&records[0]).unwrap();
    encoder.push(&records[1]).unwrap();

    let mut buffer = Vec::new();
    encoder.write(&mut buffer).unwrap();

    let mut decoder = Decoder::new(&buffer).unwrap();
    assert!(decoder.header().flags().test(Flag::Id));
    assert!(!decoder.header().flags().test(Flag::Comment));
    assert!(decoder.header().flags().test(Flag::Sequence));
    assert!(!decoder.header().flags().test(Flag::Quality));

    let r1 = decoder.next().unwrap().unwrap();
    assert_eq!(r1.id, bytes("r1"));
    assert!(r1.comment.is_none());
    assert_eq!(r1.sequence, bytes("NGCTCTTAAACCTGCTA"));
    assert!(r1.quality.is_none());
    assert!(r1.length.is_some());

    let r2 = decoder.next().unwrap().unwrap();
    assert_eq!(r2.id, bytes("r2"));
    assert!(r2.comment.is_none());
    assert_eq!(r2.sequence, bytes("NTAATAAGCAATGACGGCAGC"));
    assert!(r2.quality.is_none());
    assert!(r2.length.is_some());
}

#[test]
fn encode_quality() {
    let mut encoder = EncoderBuilder::new(Dna).quality(true).sequence(false).id(false).with_memory();

    let records = test_records();
    encoder.push(&records[0]).unwrap();
    encoder.push(&records[1]).unwrap();

    let mut buffer = Vec::new();
    encoder.write(&mut buffer).unwrap();

    let mut decoder = Decoder::new(&buffer).unwrap();
    println!("{:?}", decoder.header());
    assert!(!decoder.header().flags().test(Flag::Id));
    assert!(!decoder.header().flags().test(Flag::Comment));
    assert!(!decoder.header().flags().test(Flag::Sequence));
    assert!(decoder.header().flags().test(Flag::Quality));

    let r1 = decoder.next().unwrap().unwrap();
    assert!(r1.id.is_none());
    assert!(r1.comment.is_none());
    assert!(r1.sequence.is_none());
    assert_eq!(r1.quality, bytes("#8CCCGGGGGGGGGGGG"));
    assert!(r1.length.is_some());

    let r2 = decoder.next().unwrap().unwrap();
    assert!(r2.id.is_none());
    assert!(r2.comment.is_none());
    assert!(r2.sequence.is_none());
    assert_eq!(r2.quality, bytes("#8AACCFF<FFGGFGE@@@@@"));
    assert!(r2.length.is_some());
}

#[test]
fn encode_all() {
    let mut encoder = EncoderBuilder::new(Dna)
        .quality(true)
        .sequence(true)
        .id(true)
        .comment(true)
        .with_memory();

    let records = test_records();
    encoder.push(&records[0]).unwrap();
    encoder.push(&records[1]).unwrap();

    let mut buffer = Vec::new();
    encoder.write(&mut buffer).unwrap();

    let mut decoder = Decoder::new(&buffer).unwrap();
    println!("{:?}", decoder.header());
    assert!(decoder.header().flags().test(Flag::Id));
    assert!(decoder.header().flags().test(Flag::Comment));
    assert!(decoder.header().flags().test(Flag::Sequence));
    assert!(decoder.header().flags().test(Flag::Quality));

    let r1 = decoder.next().unwrap().unwrap();
    assert_eq!(r1.id, bytes("r1"));
    assert_eq!(r1.comment, bytes("record 1"));
    assert_eq!(r1.sequence, bytes("NGCTCTTAAACCTGCTA"));
    assert_eq!(r1.quality, bytes("#8CCCGGGGGGGGGGGG"));
    assert!(r1.length.is_some());

    let r2 = decoder.next().unwrap().unwrap();
    assert_eq!(r2.id, bytes("r2"));
    assert_eq!(r2.comment, bytes("record 2"));
    assert_eq!(r2.sequence, bytes("NTAATAAGCAATGACGGCAGC"));
    assert_eq!(r2.quality, bytes("#8AACCFF<FFGGFGE@@@@@"));
    assert!(r2.length.is_some());
}

#[test]
fn encoder_memory() {
    let mut encoder = EncoderBuilder::new(SequenceType::Protein)
        .id(true)
        .comment(true)
        .sequence(true)
        .with_memory();
    let r1 = Record {
        id: bytes("r1"),
        comment: bytes("record 1"),
        sequence: bytes("MYYK"),
        ..Default::default()
    };
    encoder.push(&r1).unwrap();

    let r2 = Record {
        id: bytes("r2"),
        comment: bytes("record 2"),
        sequence: bytes("MTTE"),
        ..Default::default()
    };
    encoder.push(&r2).unwrap();

    let mut archive = Vec::new();
    encoder.write(&mut archive).unwrap();

    let mut decoder = Decoder::new(&archive).unwrap();
    assert_eq!(decoder.remaining(), 2);
    assert_eq!(decoder.sequence_type(), SequenceType::Protein);
    for expected in [&r1, &r2] {
        let r = decoder.next().unwrap().unwrap();
        assert_eq!(r.id, expected.id);
        assert_eq!(r.comment, expected.comment);
        assert_eq!(r.sequence, expected.sequence);
        assert!(r.quality.is_none());
        assert_eq!(r.length, Some(4));
    }
    assert!(decoder.next().is_none());
}

#[test]
fn encoder_tempfile() {
    let mut encoder = EncoderBuilder::new(SequenceType::Dna).id(true).sequence(true).with_memory();
    let r1 = Record {
        id: bytes("r1"),
        comment: bytes("record 1"),
        sequence: bytes("ATTATTGC"),
        ..Default::default()
    };
    encoder.push(&r1).unwrap();

    let r2 = Record {
        id: bytes("r2"),
        comment: bytes("record 2"),
        sequence: bytes("ATATGVBGD"),
        ..Default::default()
    };
    encoder.push(&r2).unwrap();

    let mut archive = Vec::new();
    encoder.write(&mut archive).unwrap();

    let mut decoder = Decoder::new(&archive).unwrap();
    // 8 bases, then 9 with a half-byte carried over: 4 + 5 bytes
    assert_eq!(decoder.seq.as_ref().unwrap().data.len(), 9);
    let a = decoder.next().unwrap().unwrap();
    let b = decoder.next().unwrap().unwrap();
    assert_eq!(a.sequence, bytes("ATTATTGC"));
    assert_eq!(b.sequence, bytes("ATATGVBGD"));
    assert!(decoder.next().is_none());
}

#[test]
fn odd_sequences_in_a_row() {
    let seqs = ["A", "CGT", "N-", "", "ACGTACGTA", "K"];
    let mut encoder = EncoderBuilder::new(SequenceType::Rna).sequence(true).with_memory();
    for s in seqs {
        let rna = s.replace('T', "U");
        let r = Record { sequence: bytes(&rna), ..Default::default() };
        encoder.push(&r).unwrap();
    }
    let mut archive = Vec::new();
    encoder.write(&mut archive).unwrap();
    let mut decoder = Decoder::new(&archive).unwrap();
    let total: usize = seqs.iter().map(|s| s.len()).sum();
    assert_eq!(decoder.seq.as_ref().unwrap().data.len(), (total + 1) / 2);
    for s in seqs {
        let r = decoder.next().unwrap().unwrap();
        assert_eq!(r.sequence, bytes(&s.replace('T', "U")));
    }
}

#[test]
fn empty_archive() {
    let encoder = EncoderBuilder::new(Dna).id(true).sequence(true).with_memory();
    let mut archive = Vec::new();
    encoder.write(&mut archive).unwrap();
    let mut decoder = Decoder::new(&archive).unwrap();
    assert_eq!(decoder.header().number_of_sequences(), 0);
    assert_eq!(decoder.remaining(), 0);
    assert!(decoder.next().is_none());
}

#[test]
fn empty_identifier_and_comment() {
    let mut encoder = EncoderBuilder::new(SequenceType::Text).id(true).comment(true).with_memory();
    let r = Record { id: bytes(""), comment: bytes(""), ..Default::default() };
    encoder.push(&r).unwrap();
    encoder.push(&r).unwrap();
    assert_eq!(encoder.id.as_ref().unwrap().w, vec![0u8, 0u8]);
    let mut archive = Vec::new();
    encoder.write(&mut archive).unwrap();
    let mut decoder = Decoder::new(&archive).unwrap();
    for _ in 0..2 {
        let d = decoder.next().unwrap().unwrap();
        assert_eq!(d.id, bytes(""));
        assert_eq!(d.comment, bytes(""));
    }
}

#[test]
fn invalid_sequence() {
    let mut encoder = EncoderBuilder::new(Dna).id(true).sequence(true).quality(true).with_memory();
    let r = Record {
        id: bytes("x"),
        sequence: bytes("ACXT"),
        quality: bytes("IIII"),
        ..Default::default()
    };
    assert_eq!(encoder.push(&r), Err(Error::InvalidSequence));
    // nothing of the record was written
    assert!(encoder.id.as_ref().unwrap().w.is_empty());
    assert_eq!(encoder.header.number_of_sequences(), 0);
    // U is not DNA
    let r = Record { id: bytes("x"), sequence: bytes("ACU"), quality: bytes("III"), ..Default::default() };
    assert_eq!(encoder.push(&r), Err(Error::InvalidSequence));
    // lowercase is outside the alphabet
    let r = Record { id: bytes("x"), sequence: bytes("acgt"), quality: bytes("IIII"), ..Default::default() };
    assert_eq!(encoder.push(&r), Err(Error::InvalidSequence));
}

#[test]
fn missing_fields_and_lengths() {
    let mut encoder = EncoderBuilder::new(Dna)
        .id(true)
        .comment(true)
        .sequence(true)
        .quality(true)
        .with_memory();
    let full = test_records().remove(0);
    let mut r = full.clone();
    r.id = None;
    assert_eq!(encoder.push(&r), Err(Error::MissingField(Flag::Id)));
    let mut r = full.clone();
    r.comment = None;
    assert_eq!(encoder.push(&r), Err(Error::MissingField(Flag::Comment)));
    let mut r = full.clone();
    r.sequence = None;
    assert_eq!(encoder.push(&r), Err(Error::MissingField(Flag::Sequence)));
    let mut r = full.clone();
    r.quality = None;
    assert_eq!(encoder.push(&r), Err(Error::MissingField(Flag::Quality)));
    let mut r = full.clone();
    r.length = Some(3);
    assert_eq!(encoder.push(&r), Err(Error::InvalidLength));
    let mut r = full.clone();
    r.quality = bytes("#8");
    assert_eq!(encoder.push(&r), Err(Error::InvalidLength));
    // a length that disagrees is reported before a byte outside the alphabet
    let mut r = full.clone();
    r.sequence = bytes("NGCTCTTAAACCTGCTX");
    r.quality = bytes("#8");
    assert_eq!(encoder.push(&r), Err(Error::InvalidLength));
    let mut r = full.clone();
    r.length = None;
    assert_eq!(encoder.push(&r), Ok(()));
    assert_eq!(encoder.push(&full), Ok(()));
    assert_eq!(encoder.header.number_of_sequences(), 2);
    // one length per record, even with both sequence and quality
    assert_eq!(encoder.len.as_ref().unwrap().w, vec![17, 0, 0, 0, 17, 0, 0, 0]);
}

#[test]
fn selective_decode() {
    let mut encoder = EncoderBuilder::new(Dna)
        .quality(true)
        .sequence(true)
        .id(true)
        .comment(true)
        .with_memory();
    for r in test_records() {
        encoder.push(&r).unwrap();
    }
    let mut archive = Vec::new();
    encoder.write(&mut archive).unwrap();

    let mut all = Decoder::new(&archive).unwrap();
    let mut some = DecoderBuilder::new()
        .sequence(false)
        .quality(false)
        .mask(false)
        .with_bytes(&archive)
        .unwrap();
    let mut count = 0;
    while let Some(r) = some.next() {
        let r = r.unwrap();
        let full = all.next().unwrap().unwrap();
        assert!(r.id.is_some() && r.comment.is_some());
        assert!(r.sequence.is_none() && r.quality.is_none());
        assert_eq!(r.id, full.id);
        assert_eq!(r.comment, full.comment);
        assert_eq!(r.length, full.length);
        count += 1;
    }
    assert_eq!(count, 2);
}

#[test]
fn fastq_like_archive() {
    let mut encoder = EncoderBuilder::new(Dna)
        .id(true)
        .comment(true)
        .sequence(true)
        .quality(true)
        .with_memory();
    for i in 0..42 {
        let seq: String = "ACGTN".chars().cycle().skip(i).take(30 + i % 7).collect();
        let qual: String = "#8CG".chars().cycle().take(seq.len()).collect();
        let r = Record {
            id: bytes(&format!("SRR1377138.{}", i + 1)),
            comment: bytes("a comment that should not be included in the SAM output"),
            sequence: bytes(&seq),
            quality: bytes(&qual),
            length: None,
        };
        encoder.push(&r).unwrap();
    }
    let mut archive = Vec::new();
    encoder.write(&mut archive).unwrap();
    let mut decoder = Decoder::new(&archive).unwrap();
    assert_eq!(decoder.header().number_of_sequences(), 42);
    let first = decoder.next().unwrap().unwrap();
    assert_eq!(first.id, bytes("SRR1377138.1"));
    assert!(first.comment.as_ref().unwrap().contains(&b' '));
    assert_eq!(first.sequence.as_ref().unwrap().len(), first.quality.as_ref().unwrap().len());
    let mut n = 1;
    while let Some(r) = decoder.next() {
        r.unwrap();
        n += 1;
    }
    assert_eq!(n, 42);
}

#[test]
fn truncated_archive() {
    let mut encoder = EncoderBuilder::new(SequenceType::Protein).sequence(true).with_memory();
    let long: String = "MKV".repeat(4000);
    for _ in 0..3 {
        let r = Record { sequence: bytes(&long), ..Default::default() };
        encoder.push(&r).unwrap();
    }
    let mut archive = Vec::new();
    encoder.write(&mut archive).unwrap();
    archive.truncate(archive.len() - 4);
    let mut decoder = Decoder::new(&archive).unwrap();
    let mut errors = 0;
    while let Some(r) = decoder.next() {
        if let Err(e) = r {
            assert_eq!(e, Error::UnexpectedEof);
            errors += 1;
        }
    }
    assert!(errors >= 1);
}
