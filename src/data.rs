//! Common data types of the archive format.
use vstd::prelude::*;

verus! {

/// A single run of the mask stream, with its status.
#[derive(Debug, Clone, Copy, PartialEq, Eq, Structural)]
pub enum MaskUnit {
    Masked(u64),
    Unmasked(u64),
}

/// A single sequence record.
///
/// When the sequence, the quality and the length are all present they
/// agree: both strings have `length` bytes.
#[derive(Debug, Clone, PartialEq, Eq)]
pub struct Record {
    /// The record identifier.
    pub id: Option<Vec<u8>>,
    /// The record comment.
    pub comment: Option<Vec<u8>>,
    /// The record sequence.
    pub sequence: Option<Vec<u8>>,
    /// The record quality string.
    pub quality: Option<Vec<u8>>,
    /// The record sequence length.
    pub length: Option<u64>,
}

impl Default for Record {
    fn default() -> (r: Record)
        ensures
            r.id is None,
            r.comment is None,
            r.sequence is None,
            r.quality is None,
            r.length is None,
    {
        Record { id: None, comment: None, sequence: None, quality: None, length: None }
    }
}

/// The format versions of an archive.
#[derive(Debug, Clone, Copy, PartialEq, Eq, Structural)]
pub enum FormatVersion {
    V1,
    V2,
}

impl FormatVersion {
    /// The byte that stands for the version in a header.
    pub open spec fn spec_byte(self) -> u8 {
        match self {
            FormatVersion::V1 => 1,
            FormatVersion::V2 => 2,
        }
    }

    /// The byte that stands for the version in a header.
    pub fn as_byte(&self) -> (r: u8)
        ensures
            r == self.spec_byte(),
    {
        match self {
            FormatVersion::V1 => 1,
            FormatVersion::V2 => 2,
        }
    }
}

/// The type of sequence stored in an archive.
#[derive(Debug, Clone, Copy, PartialEq, Eq, Structural)]
pub enum SequenceType {
    Dna,
    Rna,
    Protein,
    Text,
}

impl SequenceType {
    /// Whether sequences of this type are stored as packed nucleotides.
    pub open spec fn spec_is_nucleotide(self) -> bool {
        self is Dna || self is Rna
    }

    /// The byte that stands for the type in a version 2 header.
    pub open spec fn spec_byte(self) -> u8 {
        match self {
            SequenceType::Dna => 0,
            SequenceType::Rna => 1,
            SequenceType::Protein => 2,
            SequenceType::Text => 3,
        }
    }

    /// Check whether the sequence type is a nucleotide type.
    pub fn is_nucleotide(&self) -> (r: bool)
        ensures
            r == self.spec_is_nucleotide(),
    {
        match self {
            SequenceType::Dna | SequenceType::Rna => true,
            SequenceType::Protein | SequenceType::Text => false,
        }
    }

    /// The byte that stands for the type in a version 2 header.
    pub fn as_byte(&self) -> (r: u8)
        ensures
            r == self.spec_byte(),
    {
        match self {
            SequenceType::Dna => 0,
            SequenceType::Rna => 1,
            SequenceType::Protein => 2,
            SequenceType::Text => 3,
        }
    }
}

/// A single flag inside the header flags.
#[derive(Debug, Clone, Copy, PartialEq, Eq, Structural)]
pub enum Flag {
    /// Sequence qualities are stored in the archive.
    Quality,
    /// Sequences are stored in the archive.
    Sequence,
    /// Sequence masks are stored in the archive.
    Mask,
    /// Sequence lengths are stored in the archive.
    Length,
    /// Sequence comments are stored in the archive.
    Comment,
    /// Sequence identifiers are stored in the archive.
    Id,
    /// The archive has a title.
    Title,
    /// Reserved for future extension of the format.
    Extended,
}

impl Flag {
    /// The single bit of the flag inside the flags byte.
    pub open spec fn spec_byte(self) -> u8 {
        match self {
            Flag::Quality => 0x01,
            Flag::Sequence => 0x02,
            Flag::Mask => 0x04,
            Flag::Length => 0x08,
            Flag::Comment => 0x10,
            Flag::Id => 0x20,
            Flag::Title => 0x40,
            Flag::Extended => 0x80,
        }
    }

    /// Get all individual flags, from the least significant bit up.
    pub fn values() -> (r: Vec<Flag>)
        ensures
            r@ == seq![
                Flag::Quality,
                Flag::Sequence,
                Flag::Mask,
                Flag::Length,
                Flag::Comment,
                Flag::Id,
                Flag::Title,
                Flag::Extended,
            ],
    {
        vec![
            Flag::Quality,
            Flag::Sequence,
            Flag::Mask,
            Flag::Length,
            Flag::Comment,
            Flag::Id,
            Flag::Title,
            Flag::Extended,
        ]
    }

    /// View the flag as a single byte mask.
    pub fn as_byte(&self) -> (r: u8)
        ensures
            r == self.spec_byte(),
    {
        match self {
            Flag::Quality => 0x01,
            Flag::Sequence => 0x02,
            Flag::Mask => 0x04,
            Flag::Length => 0x08,
            Flag::Comment => 0x10,
            Flag::Id => 0x20,
            Flag::Title => 0x40,
            Flag::Extended => 0x80,
        }
    }
}

/// The flags for the optional content blocks of an archive.
#[derive(Debug, Clone, Copy, PartialEq, Eq, Structural)]
pub struct Flags(pub u8);

impl Flags {
    /// Whether the bit of `flag` is set.
    pub open spec fn has(self, flag: Flag) -> bool {
        self.0 & flag.spec_byte() != 0
    }

    /// Create new flags with all flags unset.
    pub fn new() -> (r: Flags)
        ensures
            r.0 == 0,
    {
        Flags(0)
    }

    /// Create flags from the flags byte of a header.
    pub fn from_byte(byte: u8) -> (r: Flags)
        ensures
            r.0 == byte,
    {
        Flags(byte)
    }

    /// Check if the given flag is set.
    pub fn test(&self, flag: Flag) -> (r: bool)
        ensures
            r == self.has(flag),
    {
        (self.0 & flag.as_byte()) != 0
    }

    /// Set the given flag.
    pub fn set(&mut self, flag: Flag)
        ensures
            final(self).0 == old(self).0 | flag.spec_byte(),
    {
        self.0 = self.0 | flag.as_byte();
    }

    /// Unset the given flag.
    pub fn unset(&mut self, flag: Flag)
        ensures
            final(self).0 == old(self).0 & !flag.spec_byte(),
    {
        self.0 = self.0 & !flag.as_byte();
    }

    /// View the flags as a single byte.
    pub fn as_byte(&self) -> (r: u8)
        ensures
            r == self.0,
    {
        self.0
    }

    /// Whether qualities are stored.
    pub fn has_quality(&self) -> (r: bool)
        ensures
            r == self.has(Flag::Quality),
    {
        self.test(Flag::Quality)
    }

    /// Whether sequences are stored.
    pub fn has_sequence(&self) -> (r: bool)
        ensures
            r == self.has(Flag::Sequence),
    {
        self.test(Flag::Sequence)
    }

    /// Whether masks are stored.
    pub fn has_mask(&self) -> (r: bool)
        ensures
            r == self.has(Flag::Mask),
    {
        self.test(Flag::Mask)
    }

    /// Whether lengths are stored.
    pub fn has_lengths(&self) -> (r: bool)
        ensures
            r == self.has(Flag::Length),
    {
        self.test(Flag::Length)
    }

    /// Whether comments are stored.
    pub fn has_comments(&self) -> (r: bool)
        ensures
            r == self.has(Flag::Comment),
    {
        self.test(Flag::Comment)
    }

    /// Whether identifiers are stored.
    pub fn has_ids(&self) -> (r: bool)
        ensures
            r == self.has(Flag::Id),
    {
        self.test(Flag::Id)
    }

    /// Whether the archive has a title.
    pub fn has_title(&self) -> (r: bool)
        ensures
            r == self.has(Flag::Title),
    {
        self.test(Flag::Title)
    }

    /// Whether the reserved extension bit is set.
    pub fn has_extended_format(&self) -> (r: bool)
        ensures
            r == self.has(Flag::Extended),
    {
        self.test(Flag::Extended)
    }
}

impl Default for Flags {
    fn default() -> (r: Flags)
        ensures
            r.0 == 0,
    {
        Flags(0)
    }
}

impl From<Flag> for Flags {
    fn from(value: Flag) -> (r: Flags) {
        Flags(value.as_byte())
    }
}

impl vstd::std_specs::convert::FromSpecImpl<Flag> for Flags {
    open spec fn obeys_from_spec() -> bool {
        true
    }

    open spec fn from_spec(v: Flag) -> Flags {
        Flags(v.spec_byte())
    }
}

impl From<Flags> for u8 {
    fn from(flags: Flags) -> (r: u8) {
        flags.0
    }
}

impl vstd::std_specs::convert::FromSpecImpl<Flags> for u8 {
    open spec fn obeys_from_spec() -> bool {
        true
    }

    open spec fn from_spec(v: Flags) -> u8 {
        v.0
    }
}

/// The header section of an archive.
///
/// Headers are the only mandatory section of an archive, and hold metadata
/// about the stored sequences and about how to format them.
#[derive(Debug, Clone, Copy, PartialEq, Eq, Structural)]
pub struct Header {
    pub format_version: FormatVersion,
    pub sequence_type: SequenceType,
    pub flags: Flags,
    pub name_separator: u8,
    pub line_length: u64,
    pub number_of_sequences: u64,
}

impl Header {
    /// A header that can be written and read back: its separator is
    /// printable, and a version 1 header holds DNA, the only type it
    /// can declare.
    pub open spec fn wf(self) -> bool {
        crate::header::printable(self.name_separator)
            && (self.format_version is V1 ==> self.sequence_type is Dna)
    }

    /// Build a header from its attributes.
    pub fn new(
        format_version: FormatVersion,
        sequence_type: SequenceType,
        flags: Flags,
        name_separator: u8,
        line_length: u64,
        number_of_sequences: u64,
    ) -> (r: Header)
        ensures
            r.format_version == format_version,
            r.sequence_type == sequence_type,
            r.flags == flags,
            r.name_separator == name_separator,
            r.line_length == line_length,
            r.number_of_sequences == number_of_sequences,
    {
        Header {
            format_version,
            sequence_type,
            flags,
            name_separator,
            line_length,
            number_of_sequences,
        }
    }

    /// Get the flags of the archive header.
    pub fn flags(&self) -> (r: Flags)
        ensures
            r == self.flags,
    {
        self.flags
    }

    /// Get the default line length stored in the archive.
    pub fn line_length(&self) -> (r: u64)
        ensures
            r == self.line_length,
    {
        self.line_length
    }

    /// Get the name separator used in the archive.
    pub fn name_separator(&self) -> (r: u8)
        ensures
            r == self.name_separator,
    {
        self.name_separator
    }

    /// Get the number of sequences stored in the archive.
    pub fn number_of_sequences(&self) -> (r: u64)
        ensures
            r == self.number_of_sequences,
    {
        self.number_of_sequences
    }

    /// Get the type of sequences stored in the archive.
    pub fn sequence_type(&self) -> (r: SequenceType)
        ensures
            r == self.sequence_type,
    {
        self.sequence_type
    }

    /// Get the archive format version.
    pub fn format_version(&self) -> (r: FormatVersion)
        ensures
            r == self.format_version,
    {
        self.format_version
    }
}

impl Default for Header {
    fn default() -> (r: Header)
        ensures
            r.format_version == FormatVersion::V1,
            r.sequence_type == SequenceType::Dna,
            r.flags.0 == 0,
            r.name_separator == 0x20,
            r.line_length == 60,
            r.number_of_sequences == 0,
    {
        Header {
            format_version: FormatVersion::V1,
            sequence_type: SequenceType::Dna,
            flags: Flags(0),
            name_separator: 0x20,
            line_length: 60,
            number_of_sequences: 0,
        }
    }
}

} // verus!
