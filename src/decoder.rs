//! The decoder: reads the header, walks the blocks once to find where each
//! one lies, opens a reader over each wanted column, then hands out one
//! record per call.
use std::rc::Rc;

use vstd::prelude::*;

use crate::data::{Flag, Flags, Header, MaskUnit, Record, SequenceType};
use crate::error::Error;
use crate::frame::{decompress, is_utf8, utf8_valid, zstd_decompressed, zstd_frame};
use crate::header::{header_decode, header};
use crate::ioslice::IoSlice;
use crate::mask::{apply_mask, drop_bases, mask_sequence, pending, stream_total};
use crate::reader::{
    cstring_next, length_next, CStringReader, LengthReader, MaskReader, SequenceReader, runs_from,
};
use crate::varint::{lemma_varint_decode_bound, variable_u64, varint_decode};
use crate::writer::append_bytes;

verus! {

/// The order in which blocks follow the header.
pub open spec fn block_order() -> Seq<Flag> {
    seq![Flag::Id, Flag::Comment, Flag::Length, Flag::Mask, Flag::Sequence, Flag::Quality]
}

/// Where the blocks of the kinds `kinds` lie, the first one at `pos`: for
/// each kind whose flag is set, its declared uncompressed length and the
/// range of its frame, cut at the end of `s`.
pub open spec fn block_spans(s: Seq<u8>, pos: int, flags: Flags, kinds: Seq<Flag>) -> Result<
    Seq<Option<(u64, int, int)>>,
    Error,
>
    decreases kinds.len(),
{
    if kinds.len() == 0 {
        Ok(Seq::empty())
    } else if !flags.has(kinds[0]) {
        match block_spans(s, pos, flags, kinds.drop_first()) {
            Ok(rest) => Ok(seq![None] + rest),
            Err(e) => Err(e),
        }
    } else {
        match varint_decode(s, pos) {
            Err(e) => Err(e),
            Ok((u, at1)) => match varint_decode(s, at1) {
                Err(e) => Err(e),
                Ok((c, at2)) => {
                    let end = if at2 + c <= s.len() {
                        at2 + c
                    } else {
                        s.len() as int
                    };
                    match block_spans(s, end, flags, kinds.drop_first()) {
                        Ok(rest) => Ok(seq![Some((u, at2, end))] + rest),
                        Err(e) => Err(e),
                    }
                },
            },
        }
    }
}

/// Where the title lies, when the flags announce one, and the position
/// after it.
pub open spec fn title_span(s: Seq<u8>, pos: int, flags: Flags) -> Result<
    (Option<(int, int)>, int),
    Error,
> {
    if !flags.has(Flag::Title) {
        Ok((None, pos))
    } else {
        match varint_decode(s, pos) {
            Err(e) => Err(e),
            Ok((l, q)) => if q + l > s.len() {
                Err(Error::UnexpectedEof)
            } else if !utf8_valid(s.subrange(q, q + l)) {
                Err(Error::Utf8)
            } else {
                Ok((Some((q, q + l)), q + l))
            },
        }
    }
}

/// The layout of an archive: its header, where its title lies, and where
/// each of its blocks lies, in the order of [`block_order`].
pub open spec fn archive_layout(s: Seq<u8>) -> Result<
    (Header, Option<(int, int)>, Seq<Option<(u64, int, int)>>),
    Error,
> {
    match header_decode(s) {
        Err(e) => Err(e),
        Ok((h, p)) => match title_span(s, p, h.flags) {
            Err(e) => Err(e),
            Ok((t, q)) => match block_spans(s, q, h.flags, block_order()) {
                Err(e) => Err(e),
                Ok(spans) => Ok((h, t, spans)),
            },
        },
    }
}

/// The decompressed content of the block that lies at `span`.
pub open spec fn block_content(s: Seq<u8>, span: (u64, int, int)) -> Seq<u8> {
    zstd_decompressed(s.subrange(span.1, span.2)).0
}

/// The view of an optional byte string.
pub open spec fn opt_view(o: Option<Vec<u8>>) -> Option<Seq<u8>> {
    match o {
        Some(v) => Some(v@),
        None => None,
    }
}

/// The bytes of a string column, if it is there.
pub open spec fn string_data(o: Option<CStringReader>) -> Option<Seq<u8>> {
    match o {
        Some(c) => Some(c.data@),
        None => None,
    }
}

/// The bytes of a sequence column, if it is there.
pub open spec fn sequence_data(o: Option<SequenceReader>) -> Option<Seq<u8>> {
    match o {
        Some(c) => Some(c.data@),
        None => None,
    }
}

/// The builder that decodes every field.
pub open spec fn default_builder() -> DecoderBuilder {
    DecoderBuilder {
        buffer_size: 4096,
        id: true,
        comment: true,
        sequence: true,
        quality: true,
        mask: true,
    }
}

/// A builder to configure and create a [`Decoder`]. Fields are opt-out:
/// by default every field that the archive holds is decoded.
#[derive(Debug, Clone, Copy, PartialEq, Eq, Structural)]
pub struct DecoderBuilder {
    pub buffer_size: usize,
    pub id: bool,
    pub comment: bool,
    pub sequence: bool,
    pub quality: bool,
    pub mask: bool,
}

impl DecoderBuilder {
    /// A builder that decodes every field, reading blocks 4 KiB at a time.
    pub fn new() -> (r: DecoderBuilder)
        ensures
            r == (DecoderBuilder {
                buffer_size: 4096,
                id: true,
                comment: true,
                sequence: true,
                quality: true,
                mask: true,
            }),
    {
        DecoderBuilder {
            buffer_size: 4096,
            id: true,
            comment: true,
            sequence: true,
            quality: true,
            mask: true,
        }
    }

    /// A builder that decodes the fields whose flags are set.
    pub fn from_flags(flags: Flags) -> (r: DecoderBuilder)
        ensures
            r == (DecoderBuilder {
                buffer_size: 4096,
                id: flags.has(Flag::Id),
                comment: flags.has(Flag::Comment),
                sequence: flags.has(Flag::Sequence),
                quality: flags.has(Flag::Quality),
                mask: flags.has(Flag::Mask),
            }),
    {
        let mut builder = DecoderBuilder::new();
        builder.id(flags.test(Flag::Id));
        builder.quality(flags.test(Flag::Quality));
        builder.sequence(flags.test(Flag::Sequence));
        builder.mask(flags.test(Flag::Mask));
        builder.comment(flags.test(Flag::Comment));
        builder
    }

    /// The number of bytes to read from the archive at a time.
    pub fn buffer_size(&mut self, buffer_size: usize) -> (r: &mut DecoderBuilder)
        ensures
            *r == (DecoderBuilder { buffer_size, ..*old(self) }),
            *final(self) == *final(r),
    {
        self.buffer_size = buffer_size;
        self
    }

    /// Whether to decode the identifiers.
    pub fn id(&mut self, id: bool) -> (r: &mut DecoderBuilder)
        ensures
            *r == (DecoderBuilder { id, ..*old(self) }),
            *final(self) == *final(r),
    {
        self.id = id;
        self
    }

    /// Whether to decode the comments.
    pub fn comment(&mut self, comment: bool) -> (r: &mut DecoderBuilder)
        ensures
            *r == (DecoderBuilder { comment, ..*old(self) }),
            *final(self) == *final(r),
    {
        self.comment = comment;
        self
    }

    /// Whether to decode the sequences.
    pub fn sequence(&mut self, sequence: bool) -> (r: &mut DecoderBuilder)
        ensures
            *r == (DecoderBuilder { sequence, ..*old(self) }),
            *final(self) == *final(r),
    {
        self.sequence = sequence;
        self
    }

    /// Whether to decode the quality strings.
    pub fn quality(&mut self, quality: bool) -> (r: &mut DecoderBuilder)
        ensures
            *r == (DecoderBuilder { quality, ..*old(self) }),
            *final(self) == *final(r),
    {
        self.quality = quality;
        self
    }

    /// Whether to lowercase the masked regions of the sequences.
    pub fn mask(&mut self, mask: bool) -> (r: &mut DecoderBuilder)
        ensures
            *r == (DecoderBuilder { mask, ..*old(self) }),
            *final(self) == *final(r),
    {
        self.mask = mask;
        self
    }

    /// Whether the column at index `k` of [`block_order`] is wanted.
    pub open spec fn wants(&self, k: int) -> bool {
        if k == 0 {
            self.id
        } else if k == 1 {
            self.comment
        } else if k == 2 {
            true
        } else if k == 3 {
            self.mask
        } else if k == 4 {
            self.sequence
        } else {
            self.quality
        }
    }

    /// The content of the column at index `k`, when the archive holds it
    /// and it is wanted.
    pub open spec fn column(&self, s: Seq<u8>, spans: Seq<Option<(u64, int, int)>>, k: int) -> Option<
        Seq<u8>,
    > {
        if self.wants(k) && spans[k] is Some {
            Some(block_content(s, spans[k]->Some_0))
        } else {
            None
        }
    }

    /// The runs of the mask column, when it is decoded. They cover the
    /// bases that the sequence block declares.
    pub open spec fn mask_runs(&self, s: Seq<u8>, spans: Seq<Option<(u64, int, int)>>) -> Result<
        Option<Seq<MaskUnit>>,
        Error,
    > {
        match self.column(s, spans, 3) {
            None => Ok(None),
            Some(m) => {
                let total: nat = match spans[4] {
                    Some(span) => span.0 as nat,
                    None => 0,
                };
                match runs_from(m, 0, 0, total, false) {
                    Ok(runs) => Ok(Some(runs)),
                    Err(e) => Err(e),
                }
            },
        }
    }

    /// What creating a decoder over the archive `bytes` gives: the error
    /// of its layout or of its mask column, or a decoder whose wanted
    /// columns hold the decompressed blocks, positioned at the start.
    pub open spec fn opens(&self, bytes: Seq<u8>, r: Result<Decoder, Error>) -> bool {
        &&& (archive_layout(bytes) matches Err(e) ==> r == Err::<Decoder, Error>(e))
        &&& (archive_layout(bytes) matches Ok((h, t, spans)) ==> match self.mask_runs(
                bytes,
                spans,
            ) {
                Err(e) => r == Err::<Decoder, Error>(e),
                Ok(runs) => r matches Ok(d) && {
                    &&& d.wf()
                    &&& d.header == h
                    &&& d.n == 0
                    &&& opt_view(d.title) == match t {
                        Some((a, b)) => Some(bytes.subrange(a, b)),
                        None => None::<Seq<u8>>,
                    }
                    &&& (*d.reader)@ == bytes
                    &&& d.ids matches Some(c) ==> c.pos == 0
                    &&& d.com matches Some(c) ==> c.pos == 0
                    &&& d.len matches Some(c) ==> c.pos == 0
                    &&& d.seq matches Some(c) ==> c.position() == 0 && c.ty == h.sequence_type
                    &&& d.qual matches Some(c) ==> c.position() == 0 && c.ty == SequenceType::Text
                    &&& string_data(d.ids) == self.column(bytes, spans, 0)
                    &&& string_data(d.com) == self.column(bytes, spans, 1)
                    &&& match d.len { Some(c) => Some(c.data@), None => None::<Seq<u8>> } == self.column(bytes, spans, 2)
                    &&& sequence_data(d.seq) == self.column(bytes, spans, 4)
                    &&& sequence_data(d.qual) == self.column(bytes, spans, 5)
                    &&& match d.masks { Some(m) => Some(m@), None => None::<Seq<MaskUnit>> } == runs
                    &&& d.next_mask == 0
                    &&& d.unit == MaskUnit::Unmasked(0)
                    &&& forall|k: int, data: Seq<u8>, level: int|
                        #![trigger spans[k], zstd_frame(data, level)]
                        0 <= k < 6 && self.wants(k) && spans[k] is Some && bytes.subrange(
                            spans[k]->Some_0.1,
                            spans[k]->Some_0.2,
                        ) == zstd_frame(data, level) ==> block_content(bytes, spans[k]->Some_0)
                            == data
                },
            })
    }

    /// Create a decoder over the bytes of an archive.
    pub fn with_bytes(&self, bytes: &[u8]) -> (r: Result<Decoder, Error>)
        ensures
            self.opens(bytes@, r),
    {
        let (header, title, spans) = match read_layout(bytes) {
            Ok(x) => x,
            Err(e) => return Err(e),
        };
        let mut data: Vec<u8> = Vec::new();
        append_bytes(&mut data, bytes);
        let rc = Rc::new(data);
        let ids = match self.open_column(&rc, spans[0], self.id) {
            Some(c) => Some(CStringReader::new(c)),
            None => None,
        };
        let com = match self.open_column(&rc, spans[1], self.comment) {
            Some(c) => Some(CStringReader::new(c)),
            None => None,
        };
        let len = match self.open_column(&rc, spans[2], true) {
            Some(c) => Some(LengthReader::new(c)),
            None => None,
        };
        let seq = match self.open_column(&rc, spans[4], self.sequence) {
            Some(c) => Some(SequenceReader::new(c, header.sequence_type)),
            None => None,
        };
        let qual = match self.open_column(&rc, spans[5], self.quality) {
            Some(c) => Some(SequenceReader::new(c, SequenceType::Text)),
            None => None,
        };
        let total: u64 = match spans[4] {
            Some((u, _, _)) => u,
            None => 0,
        };
        let masks = match self.open_column(&rc, spans[3], self.mask) {
            Some(c) => {
                let mut reader = MaskReader::new(c, total);
                match reader.read_all() {
                    Ok(units) => Some(units),
                    Err(e) => return Err(e),
                }
            },
            None => None,
        };
        Ok(
            Decoder {
                header,
                title,
                reader: rc,
                ids,
                com,
                len,
                seq,
                qual,
                masks,
                next_mask: 0,
                unit: MaskUnit::Unmasked(0),
                n: 0,
            },
        )
    }

    /// Read the frame of a block through a view of the shared archive, and
    /// decompress it, when the block is there and wanted.
    fn open_column(&self, rc: &Rc<Vec<u8>>, span: Option<(u64, usize, usize)>, wanted: bool) -> (r:
        Option<Vec<u8>>)
        requires
            span matches Some((u, a, b)) ==> a <= b <= (**rc)@.len(),
        ensures
            opt_view(r) == if wanted && span is Some {
                Some(zstd_decompressed((**rc)@.subrange(span->Some_0.1 as int, span->Some_0.2 as int)).0)
            } else {
                None::<Seq<u8>>
            },
            wanted && span is Some ==> forall|d: Seq<u8>, l: int|
                (**rc)@.subrange(span->Some_0.1 as int, span->Some_0.2 as int) == #[trigger] zstd_frame(d, l)
                    ==> zstd_decompressed(zstd_frame(d, l)).0 == d,
    {
        if !wanted {
            return None;
        }
        match span {
            None => None,
            Some((_, a, b)) => {
                let mut slice = IoSlice::new(rc.clone(), a as u64, b as u64);
                let step = if self.buffer_size == 0 {
                    1
                } else {
                    self.buffer_size
                };
                let mut frame: Vec<u8> = Vec::new();
                let ghost whole = slice.remaining();
                assert(whole =~= (**rc)@.subrange(a as int, b as int));
                loop
                    invariant
                        slice.wf(),
                        (*slice.reader)@ == (**rc)@,
                        slice.end == b,
                        a <= b <= (**rc)@.len(),
                        slice.pos <= b,
                        whole == (**rc)@.subrange(a as int, b as int),
                        slice.remaining() == (**rc)@.subrange(slice.pos as int, b as int),
                        whole == frame@ + slice.remaining(),
                        step >= 1,
                    ensures
                        frame@ == whole,
                    decreases slice.end - slice.pos,
                {
                    let ghost at0 = slice.pos;
                    let chunk = slice.read(step);
                    if chunk.len() == 0 {
                        assert(slice.pos == at0);
                        assert(slice.remaining() =~= Seq::<u8>::empty());
                        assert(frame@ =~= whole);
                        break;
                    }
                    proof {
                        let data = (**rc)@;
                        assert(chunk@ =~= data.subrange(at0 as int, slice.pos as int));
                        assert(slice.remaining() =~= data.subrange(slice.pos as int, b as int));
                    }
                    append_bytes(&mut frame, chunk.as_slice());
                    proof {
                        let data = (**rc)@;
                        assert(data.subrange(at0 as int, b as int) =~= data.subrange(at0 as int, slice.pos as int) + data.subrange(slice.pos as int, b as int));
                        assert(whole =~= frame@ + slice.remaining());
                    }
                }
                let (content, _complete) = decompress(frame.as_slice());
                Some(content)
            },
        }
    }
}

/// Read a title: its length, then its UTF-8 bytes.
pub fn title(s: &[u8], pos: usize) -> (r: Result<(Vec<u8>, usize), Error>)
    requires
        pos <= s@.len(),
    ensures
        r matches Ok((t, end)) ==> title_span(s@, pos as int, Flags(0x40)) == Ok::<
            (Option<(int, int)>, int),
            Error,
        >((Some((end - t@.len(), end as int)), end as int)) && t@ == s@.subrange(
            end - t@.len(),
            end as int,
        ),
        r matches Err(e) ==> title_span(s@, pos as int, Flags(0x40)) == Err::<
            (Option<(int, int)>, int),
            Error,
        >(e),
{
    assert(Flags(0x40).has(Flag::Title)) by {
        assert(0x40u8 & 0x40u8 != 0) by (bit_vector);
    }
    let (l, q) = match variable_u64(s, pos) {
        Ok(x) => x,
        Err(e) => return Err(e),
    };
    proof {
        lemma_varint_decode_bound(s@, pos as int);
    }
    if l > (s.len() - q) as u64 {
        return Err(Error::UnexpectedEof);
    }
    let end = q + l as usize;
    let t = copy_range(s, q, end);
    if !is_utf8(t.as_slice()) {
        return Err(Error::Utf8);
    }
    Ok((t, end))
}

/// Read the layout of an archive.
fn read_layout(bytes: &[u8]) -> (r: Result<(Header, Option<Vec<u8>>, Vec<Option<(u64, usize, usize)>>), Error>)
    ensures
        r matches Ok((h, t, v)) ==> {
            &&& archive_layout(bytes@) matches Ok((h2, t2, spans)) && h2 == h && spans == spans_view(v@)
                && opt_view(t) == match t2 {
                Some((a, b)) => Some(bytes@.subrange(a, b)),
                None => None::<Seq<u8>>,
            }
            &&& h.wf()
            &&& v@.len() == 6
            &&& forall|k: int| 0 <= k < 6 ==> (#[trigger] v@[k] matches Some((u, a, b)) ==> a <= b <= bytes@.len())
        },
        r matches Err(e) ==> archive_layout(bytes@) == Err::<
            (Header, Option<(int, int)>, Seq<Option<(u64, int, int)>>),
            Error,
        >(e),
{
    let (header, p) = match header(bytes) {
        Ok(x) => x,
        Err(e) => return Err(e),
    };
    let flags = header.flags;
    let mut pos = p;
    let mut text: Option<Vec<u8>> = None;
    if flags.test(Flag::Title) {
        let (t, end) = match title(bytes, p) {
            Ok(x) => x,
            Err(e) => return Err(e),
        };
        text = Some(t);
        pos = end;
    }
    let spans = match read_spans(bytes, pos, flags) {
        Ok(s) => s,
        Err(e) => return Err(e),
    };
    Ok((header, text, spans))
}

/// Copy the bytes `[a, b)` of `s`.
fn copy_range(s: &[u8], a: usize, b: usize) -> (r: Vec<u8>)
    requires
        a <= b <= s@.len(),
    ensures
        r@ == s@.subrange(a as int, b as int),
{
    let mut out: Vec<u8> = Vec::new();
    let mut i = a;
    while i < b
        invariant
            a <= i <= b <= s@.len(),
            out@ == s@.subrange(a as int, i as int),
        decreases b - i,
    {
        out.push(s[i]);
        assert(out@ =~= s@.subrange(a as int, i as int + 1));
        i += 1;
    }
    out
}

/// The view of a list of block spans.
pub open spec fn spans_view(v: Seq<Option<(u64, usize, usize)>>) -> Seq<Option<(u64, int, int)>> {
    Seq::new(
        v.len(),
        |i: int|
            match v[i] {
                Some((u, a, b)) => Some((u, a as int, b as int)),
                None => None,
            },
    )
}

/// Walk the blocks that follow the header and title, the first at `pos`.
fn read_spans(s: &[u8], pos: usize, flags: Flags) -> (r: Result<Vec<Option<(u64, usize, usize)>>, Error>)
    requires
        pos <= s@.len(),
    ensures
        r matches Ok(v) ==> block_spans(s@, pos as int, flags, block_order()) == Ok::<
            Seq<Option<(u64, int, int)>>,
            Error,
        >(spans_view(v@)) && v@.len() == 6 && forall|k: int|
            0 <= k < 6 ==> (#[trigger] v@[k] matches Some((u, a, b)) ==> a <= b <= s@.len()),
        r matches Err(e) ==> block_spans(s@, pos as int, flags, block_order()) == Err::<
            Seq<Option<(u64, int, int)>>,
            Error,
        >(e),
{
    let kinds = vec![Flag::Id, Flag::Comment, Flag::Length, Flag::Mask, Flag::Sequence, Flag::Quality];
    assert(kinds@ == block_order());
    let mut out: Vec<Option<(u64, usize, usize)>> = Vec::new();
    let mut p = pos;
    let mut k: usize = 0;
    proof {
        assert(block_order().skip(0) =~= block_order());
        if let Ok(rest) = block_spans(s@, pos as int, flags, block_order()) {
            assert(spans_view(out@) + rest =~= rest);
        }
    }
    while k < kinds.len()
        invariant
            k <= kinds@.len(),
            kinds@ == block_order(),
            p <= s@.len(),
            out@.len() == k,
            forall|j: int|
                0 <= j < k ==> (#[trigger] out@[j] matches Some((u, a, b)) ==> a <= b <= s@.len()),
            block_spans(s@, pos as int, flags, block_order()) == match block_spans(
                s@,
                p as int,
                flags,
                block_order().skip(k as int),
            ) {
                Ok(rest) => Ok::<Seq<Option<(u64, int, int)>>, Error>(spans_view(out@) + rest),
                Err(e) => Err(e),
            },
        decreases kinds@.len() - k,
    {
        let kind = kinds[k];
        let ghost tail = block_order().skip(k as int);
        assert(tail[0] == kind);
        assert(tail.drop_first() =~= block_order().skip(k + 1));
        if !flags.test(kind) {
            proof {
                if let Ok(rest) = block_spans(s@, p as int, flags, tail.drop_first()) {
                    assert(spans_view(out@.push(None)) + rest =~= spans_view(out@) + (seq![None] + rest));
                }
            }
            out.push(None);
        } else {
            let (u, at1) = match variable_u64(s, p) {
                Ok(x) => x,
                Err(e) => return Err(e),
            };
            proof {
                lemma_varint_decode_bound(s@, p as int);
            }
            let (c, at2) = match variable_u64(s, at1) {
                Ok(x) => x,
                Err(e) => return Err(e),
            };
            proof {
                lemma_varint_decode_bound(s@, at1 as int);
            }
            let end = if c <= (s.len() - at2) as u64 {
                at2 + c as usize
            } else {
                s.len()
            };
            proof {
                if let Ok(rest) = block_spans(s@, end as int, flags, tail.drop_first()) {
                    assert(spans_view(out@.push(Some((u, at2, end)))) + rest =~= spans_view(out@) + (
                    seq![Some((u, at2 as int, end as int))] + rest));
                }
            }
            out.push(Some((u, at2, end)));
            p = end;
        }
        k += 1;
    }
    proof {
        assert(block_order().skip(6) =~= Seq::<Flag>::empty());
        assert(spans_view(out@) + Seq::<Option<(u64, int, int)>>::empty() =~= spans_view(out@));
    }
    Ok(out)
}

/// A decoder of archives. It hands out exactly as many records as the
/// header declares, in the order of the archive.
pub struct Decoder {
    pub header: Header,
    pub title: Option<Vec<u8>>,
    /// The archive, shared with the views that its blocks were read
    /// through.
    pub reader: Rc<Vec<u8>>,
    pub ids: Option<CStringReader>,
    pub com: Option<CStringReader>,
    pub len: Option<LengthReader>,
    pub seq: Option<SequenceReader>,
    pub qual: Option<SequenceReader>,
    /// The runs of the mask column, when masks are applied.
    pub masks: Option<Vec<MaskUnit>>,
    /// The index of the first run of `masks` that is not used yet.
    pub next_mask: usize,
    /// What is left of the run in use.
    pub unit: MaskUnit,
    /// The number of records handed out.
    pub n: u64,
}

/// The one-step result of a string column.
pub open spec fn string_step(c: Option<CStringReader>) -> Result<Option<Seq<u8>>, Error> {
    match c {
        None => Ok(None),
        Some(r) => if r.pos >= r.data@.len() {
            Err(Error::UnexpectedEof)
        } else {
            match cstring_next(r.data@, r.pos as int).0 {
                Ok(v) => Ok(Some(v)),
                Err(e) => Err(e),
            }
        },
    }
}

/// The one-step result of the length column.
pub open spec fn length_step(c: Option<LengthReader>) -> Result<Option<u64>, Error> {
    match c {
        None => Ok(None),
        Some(r) => if r.pos >= r.data@.len() {
            Err(Error::UnexpectedEof)
        } else {
            match length_next(r.data@, r.pos as int).0 {
                Ok(v) => Ok(Some(v)),
                Err(e) => Err(e),
            }
        },
    }
}

/// The one-step result of a sequence column, for a record of length `l`.
pub open spec fn sequence_step(c: Option<SequenceReader>, l: u64) -> Result<Option<Seq<u8>>, Error> {
    match c {
        None => Ok(None),
        Some(r) => if l > r.available() {
            Err(Error::UnexpectedEof)
        } else {
            Ok(Some(r.upcoming(l as nat)))
        },
    }
}

/// A string column once one string is read.
pub open spec fn string_advance(c: Option<CStringReader>) -> Option<CStringReader> {
    match c {
        None => None,
        Some(r) => Some(CStringReader { pos: cstring_next(r.data@, r.pos as int).1 as usize, ..r }),
    }
}

/// The length column once one length is read.
pub open spec fn length_advance(c: Option<LengthReader>) -> Option<LengthReader> {
    match c {
        None => None,
        Some(r) => Some(LengthReader { pos: length_next(r.data@, r.pos as int).1 as usize, ..r }),
    }
}

/// A sequence column once `l` symbols are read.
pub open spec fn sequence_advance(c: Option<SequenceReader>, l: u64) -> Option<SequenceReader> {
    match c {
        None => None,
        Some(r) => Some(r.advanced(l as nat)),
    }
}

/// The fields of a record, as byte strings.
pub open spec fn record_view(r: Record) -> RecordView {
    (opt_view(r.id), opt_view(r.comment), r.length, opt_view(r.sequence), opt_view(r.quality))
}

/// The fields of a decoded record: identifier, comment, length, sequence
/// and quality.
pub type RecordView = (Option<Seq<u8>>, Option<Seq<u8>>, Option<u64>, Option<Seq<u8>>, Option<Seq<u8>>);

impl Decoder {
    pub open spec fn wf(&self) -> bool {
        &&& self.ids matches Some(c) ==> c.wf()
        &&& self.com matches Some(c) ==> c.wf()
        &&& self.len matches Some(c) ==> c.wf()
        &&& self.seq matches Some(c) ==> c.wf()
        &&& self.qual matches Some(c) ==> c.wf()
        &&& self.masks matches Some(m) ==> self.next_mask <= m@.len()
    }

    /// The runs that the next sequence is masked with.
    pub open spec fn pending_runs(&self) -> Seq<MaskUnit> {
        pending(self.unit, self.masks->Some_0@, self.next_mask as int)
    }

    /// The next record, pulled from each column in turn: identifier,
    /// comment, length, sequence, quality, then the mask over the
    /// sequence. The first column that fails gives the error.
    pub open spec fn spec_next(&self) -> Result<RecordView, Error> {
        match string_step(self.ids) {
            Err(e) => Err(e),
            Ok(id) => match string_step(self.com) {
                Err(e) => Err(e),
                Ok(comment) => match length_step(self.len) {
                    Err(e) => Err(e),
                    Ok(length) => if (self.seq is Some || self.qual is Some) && length is None {
                        Err(Error::MissingField(Flag::Length))
                    } else {
                        let l = match length {
                            Some(l) => l,
                            None => 0,
                        };
                        match sequence_step(self.seq, l) {
                            Err(e) => Err(e),
                            Ok(sequence) => match sequence_step(self.qual, l) {
                                Err(e) => Err(e),
                                Ok(quality) => match (sequence, self.masks) {
                                    (Some(sv), Some(m)) => if stream_total(self.pending_runs())
                                        >= sv.len() {
                                        Ok(
                                            (
                                                id,
                                                comment,
                                                length,
                                                Some(apply_mask(sv, self.pending_runs())),
                                                quality,
                                            ),
                                        )
                                    } else {
                                        Err(Error::UnexpectedEof)
                                    },
                                    _ => Ok((id, comment, length, sequence, quality)),
                                },
                            },
                        }
                    },
                },
            },
        }
    }

    /// The length of the next record, 0 when there is none.
    pub open spec fn next_length(&self) -> u64 {
        match length_step(self.len) {
            Ok(Some(l)) => l,
            _ => 0,
        }
    }

    /// The decoder once the next record is read without error; the count
    /// of records is left to the caller.
    pub open spec fn spec_advance(&self) -> Decoder {
        let l = self.next_length();
        let rest = drop_bases(self.pending_runs(), l as int);
        let masking = self.seq is Some && self.masks is Some;
        Decoder {
            ids: string_advance(self.ids),
            com: string_advance(self.com),
            len: length_advance(self.len),
            seq: sequence_advance(self.seq, l),
            qual: sequence_advance(self.qual, l),
            unit: if masking {
                rest[0]
            } else {
                self.unit
            },
            next_mask: if masking {
                (self.masks->Some_0@.len() - (rest.len() - 1)) as usize
            } else {
                self.next_mask
            },
            ..*self
        }
    }

    /// The next record, or `None` once all records that the header
    /// declares were handed out. After an error the decoder stays usable
    /// but what it gives is unspecified.
    pub fn next(&mut self) -> (r: Option<Result<Record, Error>>)
        requires
            old(self).wf(),
        ensures
            final(self).wf(),
            final(self).header == old(self).header,
            old(self).n >= old(self).header.number_of_sequences ==> r is None && final(self).n
                == old(self).n,
            old(self).n < old(self).header.number_of_sequences ==> {
                &&& final(self).n == old(self).n + 1
                &&& old(self).spec_next() is Ok ==> *final(self) == (Decoder {
                    n: (old(self).n + 1) as u64,
                    ..old(self).spec_advance()
                })
                &&& match old(self).spec_next() {
                    Ok((id, comment, length, sequence, quality)) => r matches Some(Ok(rec)) && {
                        &&& opt_view(rec.id) == id
                        &&& opt_view(rec.comment) == comment
                        &&& rec.length == length
                        &&& opt_view(rec.sequence) == sequence
                        &&& opt_view(rec.quality) == quality
                    },
                    Err(e) => r == Some(Err::<Record, Error>(e)),
                }
            },
    {
        if self.n >= self.header.number_of_sequences {
            return None;
        }
        self.n = self.n + 1;
        Some(self.next_record())
    }

    fn next_record(&mut self) -> (r: Result<Record, Error>)
        requires
            old(self).wf(),
        ensures
            final(self).wf(),
            final(self).header == old(self).header,
            final(self).n == old(self).n,
            old(self).spec_next() is Ok ==> *final(self) == old(self).spec_advance(),
            match old(self).spec_next() {
                Ok((id, comment, length, sequence, quality)) => r matches Ok(rec) && {
                    &&& opt_view(rec.id) == id
                    &&& opt_view(rec.comment) == comment
                    &&& rec.length == length
                    &&& opt_view(rec.sequence) == sequence
                    &&& opt_view(rec.quality) == quality
                },
                Err(e) => r == Err::<Record, Error>(e),
            },
    {
        let id = match next_string(&mut self.ids) {
            Ok(x) => x,
            Err(e) => return Err(e),
        };
        let comment = match next_string(&mut self.com) {
            Ok(x) => x,
            Err(e) => return Err(e),
        };
        let length = match &mut self.len {
            None => None,
            Some(c) => match c.next() {
                None => return Err(Error::UnexpectedEof),
                Some(Err(e)) => return Err(e),
                Some(Ok(l)) => Some(l),
            },
        };
        if (self.seq.is_some() || self.qual.is_some()) && length.is_none() {
            return Err(Error::MissingField(Flag::Length));
        }
        let l: u64 = match length {
            Some(l) => l,
            None => 0,
        };
        let mut sequence = match next_sequence(&mut self.seq, l) {
            Ok(x) => x,
            Err(e) => return Err(e),
        };
        let quality = match next_sequence(&mut self.qual, l) {
            Ok(x) => x,
            Err(e) => return Err(e),
        };
        match (&mut sequence, &self.masks) {
            (Some(s), Some(m)) => {
                match mask_sequence(s, self.unit, m, self.next_mask) {
                    Ok((u, k)) => {
                        self.unit = u;
                        self.next_mask = k;
                    },
                    Err(e) => return Err(e),
                }
            },
            _ => {},
        }
        Ok(Record { id, comment, sequence, quality, length })
    }

    /// Create a decoder that decodes every field of the archive `bytes`.
    pub fn new(bytes: &[u8]) -> (r: Result<Decoder, Error>)
        ensures
            default_builder().opens(bytes@, r),
    {
        let builder = DecoderBuilder::new();
        builder.with_bytes(bytes)
    }

    /// The records left to read, each with what [`Decoder::next`] gives
    /// for it, or the first error.
    pub open spec fn spec_records(self) -> Result<Seq<RecordView>, Error>
        decreases self.header.number_of_sequences - self.n,
    {
        if self.n >= self.header.number_of_sequences {
            Ok(Seq::empty())
        } else {
            match self.spec_next() {
                Err(e) => Err(e),
                Ok(v) => match (Decoder { n: (self.n + 1) as u64, ..self.spec_advance() }).spec_records() {
                    Ok(rest) => Ok(seq![v] + rest),
                    Err(e) => Err(e),
                },
            }
        }
    }

    /// Read every record that is left, stopping at the first error.
    pub fn records(&mut self) -> (r: Result<Vec<Record>, Error>)
        requires
            old(self).wf(),
        ensures
            final(self).wf(),
            final(self).header == old(self).header,
            match old(self).spec_records() {
                Ok(vs) => r matches Ok(v) && v@.len() == vs.len() && forall|i: int|
                    0 <= i < vs.len() ==> #[trigger] record_view(v@[i]) == vs[i],
                Err(e) => r == Err::<Vec<Record>, Error>(e),
            },
    {
        let mut out: Vec<Record> = Vec::new();
        let ghost total = self.header.number_of_sequences;
        loop
            invariant
                self.wf(),
                self.header == old(self).header,
                total == self.header.number_of_sequences,
                old(self).spec_records() == match self.spec_records() {
                    Ok(rest) => Ok::<Seq<RecordView>, Error>(out@.map_values(|x: Record| record_view(x)) + rest),
                    Err(e) => Err(e),
                },
            decreases total - self.n,
        {
            let ghost before = *self;
            match self.next() {
                None => {
                    proof {
                        assert(out@.map_values(|x: Record| record_view(x)) + Seq::<RecordView>::empty()
                            =~= out@.map_values(|x: Record| record_view(x)));
                    }
                    return Ok(out);
                },
                Some(Err(e)) => return Err(e),
                Some(Ok(record)) => {
                    proof {
                        let v = before.spec_next()->Ok_0;
                        assert(record_view(record) == v);
                        if let Ok(rest) = self.spec_records() {
                            assert(out@.push(record).map_values(|x: Record| record_view(x)) + rest
                                =~= out@.map_values(|x: Record| record_view(x)) + (seq![v] + rest));
                        }
                    }
                    out.push(record);
                },
            }
        }
    }

    /// The number of records left.
    pub fn remaining(&self) -> (r: u64)
        ensures
            r == if self.n <= self.header.number_of_sequences {
                self.header.number_of_sequences - self.n
            } else {
                0
            },
    {
        if self.n <= self.header.number_of_sequences {
            self.header.number_of_sequences - self.n
        } else {
            0
        }
    }

    /// Get the header of the archive.
    pub fn header(&self) -> (r: &Header)
        ensures
            *r == self.header,
    {
        &self.header
    }

    /// Get the type of sequence of the archive.
    pub fn sequence_type(&self) -> (r: SequenceType)
        ensures
            r == self.header.sequence_type,
    {
        self.header.sequence_type
    }

    /// Get the title of the archive, if it has one.
    pub fn title(&self) -> (r: Option<&Vec<u8>>)
        ensures
            r matches Some(t) ==> self.title == Some(*t),
            r is None <==> self.title is None,
    {
        match &self.title {
            Some(t) => Some(t),
            None => None,
        }
    }

    /// Give back the archive.
    pub fn into_inner(self) -> (r: Vec<u8>)
        ensures
            r@ == (*self.reader)@,
    {
        match Rc::try_unwrap(self.reader) {
            Ok(v) => v,
            Err(rc) => {
                let mut out: Vec<u8> = Vec::new();
                append_bytes(&mut out, rc.as_slice());
                out
            },
        }
    }
}

/// The string column `b` is absent, or reads the same bytes from the same
/// place as `a`.
pub open spec fn same_or_off(a: Option<CStringReader>, b: Option<CStringReader>) -> bool {
    b is None || (a is Some && a->Some_0.data@ == b->Some_0.data@ && a->Some_0.pos
        == b->Some_0.pos)
}

/// The sequence column `b` is absent, or reads the same bytes from the
/// same place as `a`.
pub open spec fn same_or_off_sequence(a: Option<SequenceReader>, b: Option<SequenceReader>) -> bool {
    b is None || (a is Some && a->Some_0.data@ == b->Some_0.data@ && a->Some_0.ty == b->Some_0.ty
        && a->Some_0.byte == b->Some_0.byte && a->Some_0.half == b->Some_0.half)
}

/// `d2` decodes a subset of the fields of `d1`: each of its columns is
/// that of `d1` or is turned off, its lengths are those of `d1`, and when
/// it decodes sequences it masks them as `d1` does.
pub open spec fn subset_of(d2: Decoder, d1: Decoder) -> bool {
    &&& same_or_off(d1.ids, d2.ids)
    &&& same_or_off(d1.com, d2.com)
    &&& (d1.len is Some <==> d2.len is Some)
    &&& d2.len matches Some(l2) ==> l2.data@ == d1.len->Some_0.data@ && l2.pos == d1.len->Some_0.pos
    &&& same_or_off_sequence(d1.seq, d2.seq)
    &&& same_or_off_sequence(d1.qual, d2.qual)
    &&& d2.seq is Some ==> {
        &&& (d1.masks is Some <==> d2.masks is Some)
        &&& d2.masks matches Some(m2) ==> m2@ == d1.masks->Some_0@
        &&& d2.unit == d1.unit
        &&& d2.next_mask == d1.next_mask
    }
}

/// Turning fields off changes no other field. When `d2` decodes a subset
/// of the fields of `d1`, a record that `d1` reads without error is read
/// by `d2` too, with the same fields but for those turned off, which are
/// absent; and after it `d2` still decodes a subset of the fields of
/// `d1`, so the same holds of every record that follows.
pub proof fn lemma_disabled_fields(d1: Decoder, d2: Decoder)
    requires
        subset_of(d2, d1),
        d1.spec_next() is Ok,
    ensures
        ({
            let v1 = d1.spec_next()->Ok_0;
            &&& d2.spec_next() is Ok
            &&& d2.spec_next()->Ok_0 == (
                if d2.ids is None {
                    None
                } else {
                    v1.0
                },
                if d2.com is None {
                    None
                } else {
                    v1.1
                },
                v1.2,
                if d2.seq is None {
                    None
                } else {
                    v1.3
                },
                if d2.qual is None {
                    None
                } else {
                    v1.4
                },
            )
        }),
        subset_of(d2.spec_advance(), d1.spec_advance()),
{
    assert(d2.next_length() == d1.next_length());
    if d2.seq is Some && d2.masks is Some {
        assert(d2.pending_runs() == d1.pending_runs());
    }
}

/// Pull one string from a column, if the column is there.
fn next_string(c: &mut Option<CStringReader>) -> (r: Result<Option<Vec<u8>>, Error>)
    requires
        *old(c) matches Some(x) ==> x.wf(),
    ensures
        *final(c) matches Some(x) ==> x.wf(),
        (*final(c) is Some) == (*old(c) is Some),
        match string_step(*old(c)) {
            Ok(v) => r matches Ok(x) && opt_view(x) == v,
            Err(e) => r == Err::<Option<Vec<u8>>, Error>(e),
        },
        string_step(*old(c)) is Ok ==> *final(c) == string_advance(*old(c)),
{
    match c {
        None => Ok(None),
        Some(reader) => match reader.next() {
            None => Err(Error::UnexpectedEof),
            Some(Err(e)) => Err(e),
            Some(Ok(v)) => Ok(Some(v)),
        },
    }
}

/// Pull one sequence of length `l` from a column, if the column is there.
fn next_sequence(c: &mut Option<SequenceReader>, l: u64) -> (r: Result<Option<Vec<u8>>, Error>)
    requires
        *old(c) matches Some(x) ==> x.wf(),
    ensures
        *final(c) matches Some(x) ==> x.wf(),
        (*final(c) is Some) == (*old(c) is Some),
        match sequence_step(*old(c), l) {
            Ok(v) => r matches Ok(x) && opt_view(x) == v,
            Err(e) => r == Err::<Option<Vec<u8>>, Error>(e),
        },
        sequence_step(*old(c), l) is Ok ==> *final(c) == sequence_advance(*old(c), l),
{
    match c {
        None => Ok(None),
        Some(reader) => match reader.next(l) {
            Err(e) => Err(e),
            Ok(v) => Ok(Some(v)),
        },
    }
}

} // verus!
