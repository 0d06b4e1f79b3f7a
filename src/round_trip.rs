//! What the decoder finds in the bytes that the encoder writes.
use vstd::prelude::*;

use crate::data::{Flag, Flags, Header};
use crate::decoder::{archive_layout, block_order, block_spans, title_span};
use crate::encoder::{block, Encoder};
use crate::error::Error;
use crate::header::{header_bytes, lemma_header_round_trip};
use crate::storage::Storage;
use crate::varint::{lemma_varint_decode_shift, lemma_varint_round_trip, varint, varint_decode};

verus! {

/// The bytes of a list of blocks, each given by its declared length and
/// its frame, absent ones taking no bytes.
pub open spec fn blocks_bytes(list: Seq<Option<(nat, Seq<u8>)>>) -> Seq<u8>
    decreases list.len(),
{
    if list.len() == 0 {
        Seq::empty()
    } else {
        (match list[0] {
            Some((u, f)) => block(u, f),
            None => Seq::empty(),
        }) + blocks_bytes(list.drop_first())
    }
}

/// Where the blocks of `list` lie when the first one starts at `pos`.
pub open spec fn spans_of(pos: int, list: Seq<Option<(nat, Seq<u8>)>>) -> Seq<
    Option<(u64, int, int)>,
>
    decreases list.len(),
{
    if list.len() == 0 {
        Seq::empty()
    } else {
        match list[0] {
            None => seq![None] + spans_of(pos, list.drop_first()),
            Some((u, f)) => {
                let at2 = pos + varint(u).len() + varint(f.len()).len();
                seq![Some((u as u64, at2, at2 + f.len()))] + spans_of(
                    pos + block(u, f).len(),
                    list.drop_first(),
                )
            },
        }
    }
}

/// Whether every declared length and frame length of `list` fits in 64
/// bits.
pub open spec fn fits(list: Seq<Option<(nat, Seq<u8>)>>) -> bool {
    forall|i: int|
        0 <= i < list.len() ==> (#[trigger] list[i] matches Some((u, f)) ==> u <= u64::MAX
            && f.len() <= u64::MAX)
}

proof fn lemma_block_at(s: Seq<u8>, pos: int, u: nat, f: Seq<u8>)
    requires
        0 <= pos,
        pos + block(u, f).len() <= s.len(),
        s.subrange(pos, pos + block(u, f).len()) == block(u, f),
        u <= u64::MAX,
        f.len() <= u64::MAX,
    ensures
        varint_decode(s, pos) == Ok::<(u64, int), Error>((u as u64, pos + varint(u).len())),
        varint_decode(s, pos + varint(u).len()) == Ok::<(u64, int), Error>(
            (f.len() as u64, pos + varint(u).len() + varint(f.len()).len()),
        ),
        s.subrange(
            pos + varint(u).len() + varint(f.len()).len(),
            pos + block(u, f).len(),
        ) == f,
{
    let b = block(u, f);
    let v1 = varint(u);
    let v2 = varint(f.len());
    let rest = s.subrange(pos + b.len(), s.len() as int);
    let pre = s.subrange(0, pos);
    assert(s =~= pre + (v1 + (v2 + f + rest))) by {
        assert(s =~= pre + s.subrange(pos, pos + b.len()) + rest);
    }
    lemma_varint_decode_shift(pre, v1 + (v2 + f + rest));
    lemma_varint_round_trip(u as u64, v2 + f + rest);
    let pre2 = pre + v1;
    assert(s =~= pre2 + (v2 + (f + rest)));
    lemma_varint_decode_shift(pre2, v2 + (f + rest));
    lemma_varint_round_trip(f.len() as u64, f + rest);
    assert(s.subrange(pos + v1.len() + v2.len(), pos + b.len()) =~= f) by {
        assert forall|k: int| 0 <= k < f.len() implies s.subrange(
            pos + v1.len() + v2.len(),
            pos + b.len(),
        )[k] == f[k] by {
            assert(s.subrange(pos, pos + b.len())[v1.len() + v2.len() + k] == b[v1.len() + v2.len()
                + k]);
        }
    }
}

proof fn lemma_block_spans_of(
    s: Seq<u8>,
    pos: int,
    flags: Flags,
    kinds: Seq<Flag>,
    list: Seq<Option<(nat, Seq<u8>)>>,
)
    requires
        kinds.len() == list.len(),
        forall|i: int| 0 <= i < list.len() ==> (flags.has(#[trigger] kinds[i]) <==> list[i] is Some),
        fits(list),
        0 <= pos,
        pos + blocks_bytes(list).len() <= s.len(),
        s.subrange(pos, pos + blocks_bytes(list).len()) == blocks_bytes(list),
    ensures
        block_spans(s, pos, flags, kinds) == Ok::<Seq<Option<(u64, int, int)>>, Error>(
            spans_of(pos, list),
        ),
        spans_of(pos, list).len() == list.len(),
        forall|i: int|
            0 <= i < list.len() ==> (#[trigger] list[i] matches Some((u, f)) ==> s.subrange(
                spans_of(pos, list)[i]->Some_0.1,
                spans_of(pos, list)[i]->Some_0.2,
            ) == f),
        forall|i: int| 0 <= i < list.len() ==> (#[trigger] spans_of(pos, list)[i] is Some <==> list[i] is Some),
    decreases list.len(),
{
    if list.len() > 0 {
        let rest = list.drop_first();
        let krest = kinds.drop_first();
        assert(flags.has(kinds[0]) <==> list[0] is Some);
        assert forall|i: int| 0 <= i < rest.len() implies (flags.has(#[trigger] krest[i])
            <==> rest[i] is Some) by {
            assert(krest[i] == kinds[i + 1]);
            assert(rest[i] == list[i + 1]);
        }
        assert(fits(rest)) by {
            assert forall|i: int| 0 <= i < rest.len() implies (#[trigger] rest[i] matches Some(
                (u, f),
            ) ==> u <= u64::MAX && f.len() <= u64::MAX) by {
                assert(rest[i] == list[i + 1]);
            }
        }
        let first = match list[0] {
            Some((u, f)) => block(u, f),
            None => Seq::<u8>::empty(),
        };
        let bb = blocks_bytes(list);
        assert(bb == first + blocks_bytes(rest));
        let next = pos + first.len();
        assert(s.subrange(next, next + blocks_bytes(rest).len()) =~= blocks_bytes(rest)) by {
            assert forall|k: int| 0 <= k < blocks_bytes(rest).len() implies s.subrange(
                next,
                next + blocks_bytes(rest).len(),
            )[k] == blocks_bytes(rest)[k] by {
                assert(s.subrange(pos, pos + bb.len())[first.len() + k] == bb[first.len() + k]);
            }
        }
        lemma_block_spans_of(s, next, flags, krest, rest);
        let tail = spans_of(next, rest);
        match list[0] {
            None => {
                assert(spans_of(pos, list) == seq![None] + tail);
                assert forall|i: int| 0 <= i < list.len() implies (#[trigger] list[i] matches Some(
                    (u, f),
                ) ==> s.subrange(spans_of(pos, list)[i]->Some_0.1, spans_of(pos, list)[i]->Some_0.2)
                    == f) by {
                    if i > 0 {
                        assert(spans_of(pos, list)[i] == tail[i - 1]);
                        assert(list[i] == rest[i - 1]);
                    }
                }
                assert forall|i: int| 0 <= i < list.len() implies (#[trigger] spans_of(
                    pos,
                    list,
                )[i] is Some <==> list[i] is Some) by {
                    if i > 0 {
                        assert(spans_of(pos, list)[i] == tail[i - 1]);
                        assert(list[i] == rest[i - 1]);
                    }
                }
            },
            Some((u, f)) => {
                assert(list[0] matches Some((u, f)) ==> u <= u64::MAX && f.len() <= u64::MAX);
                assert(s.subrange(pos, pos + block(u, f).len()) =~= block(u, f)) by {
                    assert forall|k: int| 0 <= k < block(u, f).len() implies s.subrange(
                        pos,
                        pos + block(u, f).len(),
                    )[k] == block(u, f)[k] by {
                        assert(s.subrange(pos, pos + bb.len())[k] == bb[k]);
                    }
                }
                lemma_block_at(s, pos, u, f);
                let at2 = pos + varint(u).len() + varint(f.len()).len();
                assert(at2 + f.len() == next);
                assert(spans_of(pos, list) == seq![Some((u as u64, at2, at2 + f.len()))] + tail);
                assert forall|i: int| 0 <= i < list.len() implies (#[trigger] list[i] matches Some(
                    (u2, f2),
                ) ==> s.subrange(spans_of(pos, list)[i]->Some_0.1, spans_of(pos, list)[i]->Some_0.2)
                    == f2) by {
                    if i > 0 {
                        assert(spans_of(pos, list)[i] == tail[i - 1]);
                        assert(list[i] == rest[i - 1]);
                    }
                }
                assert forall|i: int| 0 <= i < list.len() implies (#[trigger] spans_of(
                    pos,
                    list,
                )[i] is Some <==> list[i] is Some) by {
                    if i > 0 {
                        assert(spans_of(pos, list)[i] == tail[i - 1]);
                        assert(list[i] == rest[i - 1]);
                    }
                }
            },
        }
    }
}

impl<S: Storage> Encoder<S> {
    /// The blocks of the archive, in the order of [`block_order`]; the
    /// encoder writes no mask block.
    pub open spec fn block_list(&self) -> Seq<Option<(nat, Seq<u8>)>> {
        seq![
            match self.id {
                Some(w) => Some((w.w@.len(), self.frame_of(w.w@))),
                None => None,
            },
            match self.com {
                Some(w) => Some((w.w@.len(), self.frame_of(w.w@))),
                None => None,
            },
            match self.len {
                Some(w) => Some((w.w@.len(), self.frame_of(w.w@))),
                None => None,
            },
            None,
            match self.seq {
                Some(w) => Some((w.input@.len(), self.frame_of(w.content()))),
                None => None,
            },
            match self.qual {
                Some(w) => Some((w.w@.len(), self.frame_of(w.w@))),
                None => None,
            },
        ]
    }
}

proof fn lemma_archive_blocks<S: Storage>(e: Encoder<S>)
    ensures
        e.archive() == header_bytes(e.header) + blocks_bytes(e.block_list()),
{
    let l0 = e.block_list();
    let l1 = l0.drop_first();
    let l2 = l1.drop_first();
    let l3 = l2.drop_first();
    let l4 = l3.drop_first();
    let l5 = l4.drop_first();
    let l6 = l5.drop_first();
    assert(l6 =~= Seq::<Option<(nat, Seq<u8>)>>::empty());
    assert(blocks_bytes(l6) == Seq::<u8>::empty());
    assert(l5[0] == l0[5]);
    assert(blocks_bytes(l5) =~= e.counter_block(e.qual));
    assert(l4[0] == l0[4]);
    assert(blocks_bytes(l4) == e.sequence_block() + blocks_bytes(l5));
    assert(l3[0] == l0[3]);
    assert(blocks_bytes(l3) =~= blocks_bytes(l4));
    assert(l2[0] == l0[2]);
    assert(blocks_bytes(l2) == e.counter_block(e.len) + blocks_bytes(l3));
    assert(l1[0] == l0[1]);
    assert(blocks_bytes(l1) == e.counter_block(e.com) + blocks_bytes(l2));
    assert(blocks_bytes(l0) == e.counter_block(e.id) + blocks_bytes(l1));
    assert(e.archive() =~= header_bytes(e.header) + blocks_bytes(l0));
}

/// The bytes that an encoder writes read back as its header, with no
/// title, and with one block per column whose frame is the compressed
/// column, at the place where the decoder reads it. This holds whenever
/// the lengths of the blocks fit in 64 bits.
pub proof fn lemma_archive_layout<S: Storage>(e: Encoder<S>)
    requires
        e.wf(),
        fits(e.block_list()),
    ensures
        archive_layout(e.archive()) == Ok::<
            (Header, Option<(int, int)>, Seq<Option<(u64, int, int)>>),
            Error,
        >((e.header, None, spans_of(header_bytes(e.header).len() as int, e.block_list()))),
        forall|k: int|
            0 <= k < 6 ==> (#[trigger] e.block_list()[k] matches Some((u, f)) ==> e.archive().subrange(
                spans_of(header_bytes(e.header).len() as int, e.block_list())[k]->Some_0.1,
                spans_of(header_bytes(e.header).len() as int, e.block_list())[k]->Some_0.2,
            ) == f),
{
    let list = e.block_list();
    let hb = header_bytes(e.header);
    let a = e.archive();
    let bb = blocks_bytes(list);
    lemma_archive_blocks(e);
    lemma_header_round_trip(e.header, bb);
    assert(title_span(a, hb.len() as int, e.header.flags) == Ok::<(Option<(int, int)>, int), Error>(
        (None, hb.len() as int),
    ));
    let kinds = block_order();
    assert forall|i: int| 0 <= i < list.len() implies (e.header.flags.has(#[trigger] kinds[i])
        <==> list[i] is Some) by {}
    assert(a.subrange(hb.len() as int, hb.len() as int + bb.len()) =~= bb);
    lemma_block_spans_of(a, hb.len() as int, e.header.flags, kinds, list);
}

} // verus!
