//! The encoder: records are pushed one at a time into per-column buffers,
//! and the archive is assembled once all of them are in.
use vstd::prelude::*;

use crate::data::{Flag, Flags, FormatVersion, Header, Record, SequenceType};
use crate::error::Error;
use crate::frame::{compress, zstd_frame};
use crate::header::{header_bytes, write_header};
use crate::lengths::{length_words, write_length};
use crate::nucleotide::valid_nucleotides;
use crate::storage::{Memory, Storage};
use crate::varint::{varint, write_variable_length};
use crate::writer::{SequenceWriter, WriteCounter};

verus! {

/// A builder to configure and create an [`Encoder`]. Fields are opt-in:
/// only the enabled ones are taken from each record.
#[derive(Debug, Clone, Copy, PartialEq, Eq, Structural)]
pub struct EncoderBuilder {
    pub sequence_type: SequenceType,
    pub id: bool,
    pub comment: bool,
    pub sequence: bool,
    pub quality: bool,
    pub compression_level: i32,
}

impl EncoderBuilder {
    /// A builder for archives of `sequence_type`, with no field enabled and
    /// the default compression level.
    pub fn new(sequence_type: SequenceType) -> (r: EncoderBuilder)
        ensures
            r == (EncoderBuilder {
                sequence_type,
                id: false,
                comment: false,
                sequence: false,
                quality: false,
                compression_level: 0,
            }),
    {
        EncoderBuilder {
            sequence_type,
            id: false,
            comment: false,
            sequence: false,
            quality: false,
            compression_level: 0,
        }
    }

    /// A builder that enables the fields whose flags are set.
    pub fn from_flags(sequence_type: SequenceType, flags: Flags) -> (r: EncoderBuilder)
        ensures
            r == (EncoderBuilder {
                sequence_type,
                id: flags.has(Flag::Id),
                comment: flags.has(Flag::Comment),
                sequence: flags.has(Flag::Sequence),
                quality: flags.has(Flag::Quality),
                compression_level: 0,
            }),
    {
        let mut builder = EncoderBuilder::new(sequence_type);
        builder.id(flags.test(Flag::Id));
        builder.quality(flags.test(Flag::Quality));
        builder.sequence(flags.test(Flag::Sequence));
        builder.comment(flags.test(Flag::Comment));
        builder
    }

    /// Whether to encode the identifier of each record.
    pub fn id(&mut self, id: bool) -> (r: &mut EncoderBuilder)
        ensures
            *r == (EncoderBuilder { id, ..*old(self) }),
            *final(self) == *final(r),
    {
        self.id = id;
        self
    }

    /// Whether to encode the comment of each record.
    pub fn comment(&mut self, comment: bool) -> (r: &mut EncoderBuilder)
        ensures
            *r == (EncoderBuilder { comment, ..*old(self) }),
            *final(self) == *final(r),
    {
        self.comment = comment;
        self
    }

    /// Whether to encode the sequence of each record.
    pub fn sequence(&mut self, sequence: bool) -> (r: &mut EncoderBuilder)
        ensures
            *r == (EncoderBuilder { sequence, ..*old(self) }),
            *final(self) == *final(r),
    {
        self.sequence = sequence;
        self
    }

    /// Whether to encode the quality string of each record.
    pub fn quality(&mut self, quality: bool) -> (r: &mut EncoderBuilder)
        ensures
            *r == (EncoderBuilder { quality, ..*old(self) }),
            *final(self) == *final(r),
    {
        self.quality = quality;
        self
    }

    /// The Zstandard compression level; 0 picks the library default.
    pub fn compression_level(&mut self, level: i32) -> (r: &mut EncoderBuilder)
        ensures
            *r == (EncoderBuilder { compression_level: level, ..*old(self) }),
            *final(self) == *final(r),
    {
        self.compression_level = level;
        self
    }

    /// The header that an encoder of this configuration starts from.
    pub open spec fn spec_header(&self) -> Header {
        Header {
            format_version: if self.sequence_type is Dna {
                FormatVersion::V1
            } else {
                FormatVersion::V2
            },
            sequence_type: self.sequence_type,
            flags: Flags(
                (if self.quality {
                    0x01u8
                } else {
                    0u8
                }) | (if self.sequence {
                    0x02u8
                } else {
                    0u8
                }) | (if self.sequence || self.quality {
                    0x08u8
                } else {
                    0u8
                }) | (if self.comment {
                    0x10u8
                } else {
                    0u8
                }) | (if self.id {
                    0x20u8
                } else {
                    0u8
                }),
            ),
            name_separator: 0x20,
            line_length: 60,
            number_of_sequences: 0,
        }
    }

    /// Create an encoder that stages its blocks in memory.
    pub fn with_memory(&self) -> (r: Encoder<Memory>)
        ensures
            r.wf(),
            r.storage.infallible(),
            r.header == self.spec_header(),
            r.level == self.compression_level,
            r.ids() == Seq::<u8>::empty(),
            r.comments() == Seq::<u8>::empty(),
            r.lengths() == Seq::<u8>::empty(),
            r.sequences() == Seq::<u8>::empty(),
            r.qualities() == Seq::<u8>::empty(),
    {
        self.with_storage(Memory)
    }

    /// Create an encoder that stages its blocks in `storage`.
    pub fn with_storage<S: Storage>(&self, storage: S) -> (r: Encoder<S>)
        ensures
            r.storage == storage,
            r.wf(),
            r.header == self.spec_header(),
            r.level == self.compression_level,
            r.ids() == Seq::<u8>::empty(),
            r.comments() == Seq::<u8>::empty(),
            r.lengths() == Seq::<u8>::empty(),
            r.sequences() == Seq::<u8>::empty(),
            r.qualities() == Seq::<u8>::empty(),
    {
        let format_version = if self.sequence_type == SequenceType::Dna {
            FormatVersion::V1
        } else {
            FormatVersion::V2
        };
        let q: u8 = if self.quality {
            0x01
        } else {
            0
        };
        let s: u8 = if self.sequence {
            0x02
        } else {
            0
        };
        let l: u8 = if self.sequence || self.quality {
            0x08
        } else {
            0
        };
        let c: u8 = if self.comment {
            0x10
        } else {
            0
        };
        let i: u8 = if self.id {
            0x20
        } else {
            0
        };
        let flags = Flags::from_byte(q | s | l | c | i);
        let header = Header::new(format_version, self.sequence_type, flags, 0x20, 60, 0);
        let id = if self.id {
            Some(WriteCounter::new(Vec::new()))
        } else {
            None
        };
        let com = if self.comment {
            Some(WriteCounter::new(Vec::new()))
        } else {
            None
        };
        let len = if self.sequence || self.quality {
            Some(WriteCounter::new(Vec::new()))
        } else {
            None
        };
        let seq = if self.sequence {
            Some(SequenceWriter::new(self.sequence_type))
        } else {
            None
        };
        let qual = if self.quality {
            Some(WriteCounter::new(Vec::new()))
        } else {
            None
        };
        let r = Encoder { header, level: self.compression_level, id, com, len, seq, qual, storage };
        proof {
            let b = q | s | l | c | i;
            assert(b & 0x01 == q && b & 0x02 == s && b & 0x08 == l && b & 0x10 == c && b & 0x20
                == i && b & 0x04 == 0 && b & 0x40 == 0 && b & 0x80 == 0) by (bit_vector)
                requires
                    b == q | s | l | c | i,
                    q == 0 || q == 0x01,
                    s == 0 || s == 0x02,
                    l == 0 || l == 0x08,
                    c == 0 || c == 0x10,
                    i == 0 || i == 0x20,
            ;
            assert(r.sequences() =~= Seq::<u8>::empty()) by {
                if self.sequence {
                    crate::nucleotide::lemma_pack_empty();
                }
            }
        }
        r
    }
}

/// An encoder of archives.
///
/// Blocks can only be written once every record is known, so the encoder
/// keeps each column in a buffer of its own until [`Encoder::write`].
pub struct Encoder<S: Storage> {
    pub header: Header,
    pub level: i32,
    pub id: Option<WriteCounter>,
    pub com: Option<WriteCounter>,
    pub len: Option<WriteCounter>,
    pub seq: Option<SequenceWriter>,
    pub qual: Option<WriteCounter>,
    pub storage: S,
}

/// The length of a record, as the encoder writes it: the record's own
/// length if it has one, else that of its sequence or of its quality.
pub open spec fn record_length(r: Record, sequence: bool) -> nat {
    match r.length {
        Some(l) => l as nat,
        None => if sequence {
            r.sequence->Some_0@.len()
        } else {
            r.quality->Some_0@.len()
        },
    }
}

/// A block: its two lengths, then its frame.
pub open spec fn block(uncompressed: nat, frame: Seq<u8>) -> Seq<u8> {
    varint(uncompressed) + varint(frame.len()) + frame
}

impl<S: Storage> Encoder<S> {
    /// Each column is there exactly when its flag is set, and only the
    /// flags of the five columns can be set.
    pub open spec fn wf(&self) -> bool {
        &&& self.header.wf()
        &&& self.id is Some <==> self.header.flags.has(Flag::Id)
        &&& self.com is Some <==> self.header.flags.has(Flag::Comment)
        &&& self.len is Some <==> self.header.flags.has(Flag::Length)
        &&& self.seq is Some <==> self.header.flags.has(Flag::Sequence)
        &&& self.qual is Some <==> self.header.flags.has(Flag::Quality)
        &&& self.header.flags.has(Flag::Length) <==> (self.header.flags.has(Flag::Sequence)
            || self.header.flags.has(Flag::Quality))
        &&& !self.header.flags.has(Flag::Mask)
        &&& !self.header.flags.has(Flag::Title)
        &&& !self.header.flags.has(Flag::Extended)
        &&& self.id matches Some(w) ==> w.wf() && w.base@ == 0
        &&& self.com matches Some(w) ==> w.wf() && w.base@ == 0
        &&& self.len matches Some(w) ==> w.wf() && w.base@ == 0
        &&& self.qual matches Some(w) ==> w.wf() && w.base@ == 0
        &&& self.seq matches Some(w) ==> w.wf() && w.ty == self.header.sequence_type
    }

    /// The identifier column so far.
    pub open spec fn ids(&self) -> Seq<u8> {
        match self.id {
            Some(w) => w.w@,
            None => Seq::empty(),
        }
    }

    /// The comment column so far.
    pub open spec fn comments(&self) -> Seq<u8> {
        match self.com {
            Some(w) => w.w@,
            None => Seq::empty(),
        }
    }

    /// The length column so far.
    pub open spec fn lengths(&self) -> Seq<u8> {
        match self.len {
            Some(w) => w.w@,
            None => Seq::empty(),
        }
    }

    /// All sequence bytes so far, one sequence after another.
    pub open spec fn sequences(&self) -> Seq<u8> {
        match self.seq {
            Some(w) => w.input@,
            None => Seq::empty(),
        }
    }

    /// The quality column so far.
    pub open spec fn qualities(&self) -> Seq<u8> {
        match self.qual {
            Some(w) => w.w@,
            None => Seq::empty(),
        }
    }

    /// The error that pushing `r` gives, if any: first a missing field, in
    /// column order, then a length that disagrees, then a sequence byte
    /// outside the alphabet, then a count past 64 bits.
    pub open spec fn push_error(&self, r: Record) -> Option<Error> {
        if self.id is Some && r.id is None {
            Some(Error::MissingField(Flag::Id))
        } else if self.com is Some && r.comment is None {
            Some(Error::MissingField(Flag::Comment))
        } else if self.seq is Some && r.sequence is None {
            Some(Error::MissingField(Flag::Sequence))
        } else if self.qual is Some && r.quality is None {
            Some(Error::MissingField(Flag::Quality))
        } else if self.seq is Some && r.length is Some && r.length->Some_0
            != r.sequence->Some_0@.len() {
            Some(Error::InvalidLength)
        } else if self.qual is Some && record_length(r, self.seq is Some)
            != r.quality->Some_0@.len() {
            Some(Error::InvalidLength)
        } else if self.seq is Some && self.header.sequence_type.spec_is_nucleotide()
            && !valid_nucleotides(r.sequence->Some_0@, self.header.sequence_type) {
            Some(Error::InvalidSequence)
        } else if self.header.number_of_sequences == u64::MAX || (self.seq is Some
            && self.seq->Some_0.n + r.sequence->Some_0@.len() > u64::MAX) {
            Some(Error::Overflow)
        } else {
            None
        }
    }

    /// Push a record. Each enabled field is appended to its column: the
    /// identifier and the comment with a NUL after them, the length once,
    /// the sequence and the quality as they are. On error nothing changes.
    pub fn push(&mut self, record: &Record) -> (r: Result<(), Error>)
        requires
            old(self).wf(),
        ensures
            final(self).wf(),
            r == match old(self).push_error(*record) {
                Some(e) => Err::<(), Error>(e),
                None => Ok(()),
            },
            r is Err ==> *final(self) == *old(self),
            r is Ok ==> {
                &&& final(self).header == (Header {
                    number_of_sequences: (old(self).header.number_of_sequences + 1) as u64,
                    ..old(self).header
                })
                &&& final(self).level == old(self).level
                &&& final(self).ids() == if old(self).id is Some {
                    old(self).ids() + record.id->Some_0@.push(0)
                } else {
                    old(self).ids()
                }
                &&& final(self).comments() == if old(self).com is Some {
                    old(self).comments() + record.comment->Some_0@.push(0)
                } else {
                    old(self).comments()
                }
                &&& final(self).lengths() == if old(self).len is Some {
                    old(self).lengths() + length_words(
                        record_length(*record, old(self).seq is Some),
                    )
                } else {
                    old(self).lengths()
                }
                &&& final(self).sequences() == if old(self).seq is Some {
                    old(self).sequences() + record.sequence->Some_0@
                } else {
                    old(self).sequences()
                }
                &&& final(self).qualities() == if old(self).qual is Some {
                    old(self).qualities() + record.quality->Some_0@
                } else {
                    old(self).qualities()
                }
            },
    {
        // check every field before any column is written
        if self.id.is_some() && record.id.is_none() {
            return Err(Error::MissingField(Flag::Id));
        }
        if self.com.is_some() && record.comment.is_none() {
            return Err(Error::MissingField(Flag::Comment));
        }
        if self.seq.is_some() && record.sequence.is_none() {
            return Err(Error::MissingField(Flag::Sequence));
        }
        if self.qual.is_some() && record.quality.is_none() {
            return Err(Error::MissingField(Flag::Quality));
        }
        let mut length: Option<u64> = record.length;
        match (&self.seq, &record.sequence) {
            (Some(_), Some(s)) => {
                let l = s.len() as u64;
                match length {
                    Some(n) => if n != l {
                        return Err(Error::InvalidLength);
                    },
                    None => length = Some(l),
                }
            },
            _ => {},
        }
        match (&self.qual, &record.quality) {
            (Some(_), Some(q)) => {
                let l = q.len() as u64;
                match length {
                    Some(n) => if n != l {
                        return Err(Error::InvalidLength);
                    },
                    None => length = Some(l),
                }
            },
            _ => {},
        }
        match (&self.seq, &record.sequence) {
            (Some(w), Some(s)) => if w.ty.is_nucleotide() && !check_nucleotides(s.as_slice(), w.ty) {
                return Err(Error::InvalidSequence);
            },
            _ => {},
        }
        if self.header.number_of_sequences == u64::MAX {
            return Err(Error::Overflow);
        }
        match (&self.seq, &record.sequence) {
            (Some(w), Some(s)) => if w.n > u64::MAX - s.len() as u64 {
                return Err(Error::Overflow);
            },
            _ => {},
        }
        // write every enabled column
        match (&mut self.id, &record.id) {
            (Some(w), Some(id)) => {
                w.write(id.as_slice());
                w.write(&[0u8]);
                assert(w.w@ =~= old(self).ids() + id@.push(0));
            },
            _ => {},
        }
        match (&mut self.com, &record.comment) {
            (Some(w), Some(com)) => {
                w.write(com.as_slice());
                w.write(&[0u8]);
                assert(w.w@ =~= old(self).comments() + com@.push(0));
            },
            _ => {},
        }
        match (&mut self.len, length) {
            (Some(w), Some(l)) => {
                let mut words: Vec<u8> = Vec::new();
                write_length(l, &mut words);
                w.write(words.as_slice());
            },
            _ => {},
        }
        match (&mut self.seq, &record.sequence) {
            (Some(w), Some(s)) => {
                // the sequence was checked above, so this write succeeds
                let written = w.write(s.as_slice());
                assert(written is Ok);
            },
            _ => {},
        }
        match (&mut self.qual, &record.quality) {
            (Some(w), Some(q)) => {
                w.write(q.as_slice());
            },
            _ => {},
        }
        self.header.number_of_sequences = self.header.number_of_sequences + 1;
        Ok(())
    }

    /// The frame of a column at the level of this encoder.
    pub open spec fn frame_of(&self, content: Seq<u8>) -> Seq<u8> {
        zstd_frame(content, self.level as int)
    }

    /// The block of a column buffer, if the column is there.
    pub open spec fn counter_block(&self, w: Option<WriteCounter>) -> Seq<u8> {
        match w {
            Some(w) => block(w.w@.len(), zstd_frame(w.w@, self.level as int)),
            None => Seq::empty(),
        }
    }

    /// The block of the sequence column, if it is there: it declares the
    /// number of sequence bytes, not the length of the packed content.
    pub open spec fn sequence_block(&self) -> Seq<u8> {
        match self.seq {
            Some(w) => block(w.input@.len(), zstd_frame(w.content(), self.level as int)),
            None => Seq::empty(),
        }
    }

    /// The bytes of the archive: the header, then each present block in
    /// the order identifiers, comments, lengths, sequences, qualities.
    pub open spec fn archive(&self) -> Seq<u8> {
        header_bytes(self.header) + self.counter_block(self.id) + self.counter_block(self.com)
            + self.counter_block(self.len) + self.sequence_block() + self.counter_block(self.qual)
    }

    /// Finish the archive and append it to `file`. Fails with `Io` when
    /// the compression library fails on a block, and with the error of
    /// the storage when it fails.
    pub fn write(self, file: &mut Vec<u8>) -> (r: Result<(), Error>)
        requires
            self.wf(),
        ensures
            r is Ok ==> final(file)@ == old(file)@ + self.archive(),
            self.storage.infallible() ==> r is Ok,
            self.id is None && self.com is None && self.len is None && self.seq is None
                && self.qual is None ==> r is Ok,
            (old(file)@ + header_bytes(self.header)).is_prefix_of(final(file)@),
    {
        let ghost g = self;
        let ghost start = file@;
        let level = self.level;
        write_header(&self.header, file);
        let ghost at0 = file@;
        assert(at0.is_prefix_of(file@)) by {
            assert(file@.subrange(0, at0.len() as int) =~= at0);
        }
        let written = finish_counter(&self.storage, self.id, level, file);
        let ghost at1 = file@;
        if written.is_err() {
            return written;
        }
        let written = finish_counter(&self.storage, self.com, level, file);
        let ghost at2 = file@;
        proof {
            lemma_prefix_trans(at0, at1, at2);
        }
        if written.is_err() {
            return written;
        }
        let written = finish_counter(&self.storage, self.len, level, file);
        let ghost at3 = file@;
        proof {
            lemma_prefix_trans(at0, at2, at3);
        }
        if written.is_err() {
            return written;
        }
        let written = finish_sequence(&self.storage, self.seq, level, file);
        let ghost at4 = file@;
        proof {
            lemma_prefix_trans(at0, at3, at4);
        }
        if written.is_err() {
            return written;
        }
        let written = finish_counter(&self.storage, self.qual, level, file);
        proof {
            lemma_prefix_trans(at0, at4, file@);
        }
        if written.is_err() {
            return written;
        }
        proof {
            assert(at1 == at0 + g.counter_block(g.id));
            assert(at2 == at1 + g.counter_block(g.com));
            assert(at3 == at2 + g.counter_block(g.len));
            assert(at4 == at3 + g.sequence_block());
            assert(file@ == at4 + g.counter_block(g.qual));
            assert(file@ =~= start + g.archive());
        }
        Ok(())
    }
}

/// Compress a column buffer, if the column is there, and append its block
/// to `file`.
fn finish_counter<S: Storage>(storage: &S, w: Option<WriteCounter>, level: i32, file: &mut Vec<u8>) -> (r: Result<(), Error>)
    requires
        w matches Some(w) ==> w.wf() && w.base@ == 0,
    ensures
        old(file)@.is_prefix_of(final(file)@),
        storage.infallible() || w is None ==> r is Ok,
        r is Ok ==> final(file)@ == old(file)@ + match w {
            Some(w) => block(w.w@.len(), zstd_frame(w.w@, level as int)),
            None => Seq::<u8>::empty(),
        },
{
    match w {
        Some(w) => {
            let n = w.len() as u64;
            write_block(storage, w.into_inner(), n, level, file)
        },
        None => {
            assert(file@ =~= file@ + Seq::<u8>::empty());
            assert(file@.subrange(0, file@.len() as int) =~= file@);
            Ok(())
        },
    }
}

/// Finish the sequence column, if it is there, compress it, and append
/// its block to `file`.
fn finish_sequence<S: Storage>(storage: &S, w: Option<SequenceWriter>, level: i32, file: &mut Vec<u8>) -> (r: Result<(), Error>)
    requires
        w matches Some(w) ==> w.wf(),
    ensures
        old(file)@.is_prefix_of(final(file)@),
        storage.infallible() || w is None ==> r is Ok,
        r is Ok ==> final(file)@ == old(file)@ + match w {
            Some(w) => block(w.input@.len(), zstd_frame(w.content(), level as int)),
            None => Seq::<u8>::empty(),
        },
{
    match w {
        Some(w) => {
            let n = w.len();
            write_block(storage, w.into_inner(), n, level, file)
        },
        None => {
            assert(file@ =~= file@ + Seq::<u8>::empty());
            assert(file@.subrange(0, file@.len() as int) =~= file@);
            Ok(())
        },
    }
}

proof fn lemma_prefix_trans(a: Seq<u8>, b: Seq<u8>, c: Seq<u8>)
    requires
        a.is_prefix_of(b),
        b.is_prefix_of(c),
    ensures
        a.is_prefix_of(c),
{
    assert(a =~= c.subrange(0, a.len() as int)) by {
        assert forall|i: int| 0 <= i < a.len() implies a[i] == c[i] by {
            assert(a[i] == b.subrange(0, a.len() as int)[i]);
            assert(b[i] == c.subrange(0, b.len() as int)[i]);
        }
    }
}

/// Whether every byte of `s` is a nucleotide of `ty`.
fn check_nucleotides(s: &[u8], ty: SequenceType) -> (r: bool)
    ensures
        r == valid_nucleotides(s@, ty),
{
    let mut i: usize = 0;
    while i < s.len()
        invariant
            i <= s@.len(),
            forall|j: int| 0 <= j < i ==> (#[trigger] crate::nucleotide::nucleotide_code(s@[j], ty)) is Some,
        decreases s@.len() - i,
    {
        if crate::nucleotide::encode_nucleotide(s[i], ty).is_none() {
            return false;
        }
        i += 1;
    }
    true
}

/// Compress `content`, stage the frame in `storage`, and append the
/// block to `file`. Fails with `Io` when the compression library fails.
fn write_block<S: Storage>(storage: &S, content: Vec<u8>, uncompressed: u64, level: i32, file: &mut Vec<u8>) -> (r: Result<(), Error>)
    ensures
        r is Ok ==> final(file)@ == old(file)@ + block(uncompressed as nat, zstd_frame(content@, level as int)),
        old(file)@.is_prefix_of(final(file)@),
        storage.infallible() ==> r is Ok,
{
    let frame = match compress(content.as_slice(), level) {
        Some(f) => f,
        None => {
            assert(file@.subrange(0, file@.len() as int) =~= file@);
            return Err(Error::Io);
        },
    };
    assert(file@.subrange(0, file@.len() as int) =~= file@);
    let mut buffer = match storage.create_buffer() {
        Ok(b) => b,
        Err(e) => return Err(e),
    };
    match storage.append(&mut buffer, frame.as_slice()) {
        Ok(()) => {},
        Err(e) => return Err(e),
    }
    let n = match storage.buffer_length(&buffer) {
        Ok(n) => n,
        Err(e) => return Err(e),
    };
    let ghost before = file@;
    assert(storage.contents(&buffer) =~= frame@);
    write_variable_length(uncompressed, file);
    write_variable_length(n, file);
    let ghost mid = file@;
    assert(before.is_prefix_of(mid)) by {
        assert(mid.subrange(0, before.len() as int) =~= before);
    }
    let written = storage.write_buffer(buffer, file);
    proof {
        lemma_prefix_trans(before, mid, file@);
    }
    match written {
        Ok(()) => {},
        Err(e) => return Err(e),
    }
    assert(file@ =~= before + block(uncompressed as nat, frame@));
    Ok(())
}

} // verus!
