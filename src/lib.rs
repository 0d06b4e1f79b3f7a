//! A codec for the Nucleotide Archive Format, a compressed columnar
//! container for collections of biological sequences.
pub mod data;
pub mod decoder;
pub mod encoder;
pub mod error;
pub mod frame;
pub mod header;
pub mod ioslice;
pub mod lengths;
pub mod mask;
pub mod nucleotide;
pub mod reader;
pub mod round_trip;
pub mod storage;
pub mod varint;
pub mod writer;

pub use crate::data::Flag;
pub use crate::data::Flags;
pub use crate::data::FormatVersion;
pub use crate::data::Header;
pub use crate::data::MaskUnit;
pub use crate::data::Record;
pub use crate::data::SequenceType;
pub use crate::decoder::Decoder;
pub use crate::decoder::DecoderBuilder;
pub use crate::encoder::Encoder;
pub use crate::encoder::EncoderBuilder;
pub use crate::error::Error;
pub use crate::storage::Memory;
pub use crate::storage::Storage;
