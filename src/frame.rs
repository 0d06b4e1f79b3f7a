//! Zstandard frames without the four magic bytes, which is how every block
//! of an archive is compressed.
use vstd::prelude::*;

verus! {

/// The magicless Zstandard frame that compressing `data` at `level`
/// gives.
pub uninterp spec fn zstd_frame(data: Seq<u8>, level: int) -> Seq<u8>;

/// Relies on `zstd::stream::write::Encoder` with `include_magicbytes(false)`:
/// the frame it writes for `data`, in one `write_all` and `finish`, is
/// determined by the data and the level. Writing into a `Vec` does not
/// fail, and the level is clamped to the range that the library accepts.
#[verifier::external_body]
pub(crate) fn compress(data: &[u8], level: i32) -> (r: Option<Vec<u8>>)
    ensures
        r is Some,
        r matches Some(f) ==> f@ == zstd_frame(data@, level as int),
{
    let mut encoder = zstd::stream::write::Encoder::new(Vec::new(), level).ok()?;
    encoder.include_magicbytes(false).ok()?;
    std::io::Write::write_all(&mut encoder, data).ok()?;
    encoder.finish().ok()
}

/// What decompressing a magicless frame gives: the bytes that could be
/// read, and whether the frame was read to its end without error.
pub uninterp spec fn zstd_decompressed(frame: Seq<u8>) -> (Seq<u8>, bool);

/// Relies on `zstd::stream::read::Decoder` with `include_magicbytes(false)`
/// and `std::io::Read::read_to_end`: the bytes read depend on the frame
/// alone, and a frame made by the encoder decompresses to the data it was
/// made from.
#[verifier::external_body]
pub(crate) fn decompress(frame: &[u8]) -> (r: (Vec<u8>, bool))
    ensures
        r.0@ == zstd_decompressed(frame@).0,
        r.1 == zstd_decompressed(frame@).1,
        forall|d: Seq<u8>, l: int| frame@ == #[trigger] zstd_frame(d, l) ==> r.1 && r.0@ == d,
{
    let mut out = Vec::new();
    let complete = match zstd::stream::read::Decoder::new(frame) {
        Ok(mut decoder) => decoder.include_magicbytes(false).is_ok()
            && std::io::Read::read_to_end(&mut decoder, &mut out).is_ok(),
        Err(_) => false,
    };
    (out, complete)
}

/// Whether `s` is valid UTF-8.
pub uninterp spec fn utf8_valid(s: Seq<u8>) -> bool;

/// Relies on `std::str::from_utf8`: it accepts exactly the valid UTF-8
/// byte strings, the empty one among them.
#[verifier::external_body]
pub(crate) fn is_utf8(s: &[u8]) -> (r: bool)
    ensures
        r == utf8_valid(s@),
        s@.len() == 0 ==> r,
{
    std::str::from_utf8(s).is_ok()
}

} // verus!
