//! Column readers of the decoder. Each one reads the decompressed bytes of
//! one block and hands out one element per record.
use vstd::prelude::*;

use crate::data::MaskUnit;
use crate::data::SequenceType;
use crate::error::Error;
use crate::lengths::{length_decode, read_length};
use crate::nucleotide::{decode_nucleotide, nibble, unpacked};

verus! {

/// The index of the first NUL byte at or after `i`, or the length of `s`.
pub open spec fn nul_at(s: Seq<u8>, i: int) -> int
    decreases s.len() - i,
{
    if i >= s.len() {
        s.len() as int
    } else if s[i] == 0 {
        i
    } else {
        nul_at(s, i + 1)
    }
}

/// Reading a NUL-terminated string at `pos`: the string, or
/// `UnexpectedEof` when the bytes end before a NUL, and the position
/// after it.
pub open spec fn cstring_next(s: Seq<u8>, pos: int) -> (Result<Seq<u8>, Error>, int) {
    let j = nul_at(s, pos);
    if j < s.len() {
        (Ok(s.subrange(pos, j)), j + 1)
    } else {
        (Err(Error::UnexpectedEof), s.len() as int)
    }
}

/// Reading a length at `pos`: the length or the error, and the position
/// after it.
pub open spec fn length_next(s: Seq<u8>, pos: int) -> (Result<u64, Error>, int) {
    match length_decode(s, pos, 0) {
        Ok((v, p)) => (Ok(v), p),
        Err(e) => (Err(e), s.len() as int),
    }
}

/// Reads NUL-terminated strings, one per record.
pub struct CStringReader {
    pub data: Vec<u8>,
    pub pos: usize,
}

impl CStringReader {
    pub open spec fn wf(&self) -> bool {
        self.pos <= self.data@.len()
    }

    /// Read strings from the bytes of a block.
    pub fn new(data: Vec<u8>) -> (r: CStringReader)
        ensures
            r.wf(),
            r.data@ == data@,
            r.pos == 0,
    {
        CStringReader { data, pos: 0 }
    }

    /// The next string, without its NUL. There is none at the end of the
    /// block, and a string that the block ends before its NUL fails with
    /// `UnexpectedEof`.
    pub fn next(&mut self) -> (r: Option<Result<Vec<u8>, Error>>)
        requires
            old(self).wf(),
        ensures
            final(self).wf(),
            final(self).data == old(self).data,
            old(self).pos == old(self).data@.len() ==> r is None && final(self).pos == old(
                self,
            ).pos,
            old(self).pos < old(self).data@.len() ==> {
                let (v, p) = cstring_next(old(self).data@, old(self).pos as int);
                &&& r matches Some(x) && match (x, v) {
                    (Ok(a), Ok(b)) => a@ == b,
                    (Err(a), Err(b)) => a == b,
                    _ => false,
                }
                &&& final(self).pos == p
            },
    {
        if self.pos == self.data.len() {
            return None;
        }
        let start = self.pos;
        let mut i = self.pos;
        let mut out: Vec<u8> = Vec::new();
        while i < self.data.len() && self.data[i] != 0
            invariant
                start <= i <= self.data@.len(),
                nul_at(self.data@, start as int) == nul_at(self.data@, i as int),
                out@ == self.data@.subrange(start as int, i as int),
            decreases self.data@.len() - i,
        {
            out.push(self.data[i]);
            assert(self.data@.subrange(start as int, i as int + 1) =~= out@);
            i += 1;
        }
        if i == self.data.len() {
            self.pos = i;
            return Some(Err(Error::UnexpectedEof));
        }
        self.pos = i + 1;
        Some(Ok(out))
    }
}

/// Reads record lengths, one per record.
pub struct LengthReader {
    pub data: Vec<u8>,
    pub pos: usize,
}

impl LengthReader {
    pub open spec fn wf(&self) -> bool {
        self.pos <= self.data@.len()
    }

    /// Read lengths from the bytes of a block.
    pub fn new(data: Vec<u8>) -> (r: LengthReader)
        ensures
            r.wf(),
            r.data@ == data@,
            r.pos == 0,
    {
        LengthReader { data, pos: 0 }
    }

    /// The next length. There is none at the end of the block; a length
    /// cut short fails with `UnexpectedEof`, one above 64 bits with
    /// `Overflow`.
    pub fn next(&mut self) -> (r: Option<Result<u64, Error>>)
        requires
            old(self).wf(),
        ensures
            final(self).wf(),
            final(self).data == old(self).data,
            old(self).pos == old(self).data@.len() ==> r is None && final(self).pos == old(
                self,
            ).pos,
            old(self).pos < old(self).data@.len() ==> {
                let (v, p) = length_next(old(self).data@, old(self).pos as int);
                &&& r == Some(v)
                &&& final(self).pos == p
            },
    {
        if self.pos == self.data.len() {
            return None;
        }
        match read_length(self.data.as_slice(), self.pos) {
            Ok((v, p)) => {
                self.pos = p;
                Some(Ok(v))
            },
            Err(e) => {
                self.pos = self.data.len();
                Some(Err(e))
            },
        }
    }
}

/// Reads sequences, or quality strings, of given lengths. Nucleotides come
/// two per byte, and a sequence may start in the high half of a byte whose
/// low half ended the one before.
pub struct SequenceReader {
    pub data: Vec<u8>,
    pub ty: SequenceType,
    /// The index of the next byte.
    pub byte: usize,
    /// Whether the low half of that byte was read already.
    pub half: bool,
}

impl SequenceReader {
    pub open spec fn wf(&self) -> bool {
        &&& self.byte <= self.data@.len()
        &&& self.half ==> self.ty.spec_is_nucleotide() && self.byte < self.data@.len()
    }

    /// The position of the reader, in symbols.
    pub open spec fn position(&self) -> int {
        if self.ty.spec_is_nucleotide() {
            2 * self.byte + if self.half {
                1int
            } else {
                0int
            }
        } else {
            self.byte as int
        }
    }

    /// The number of symbols left.
    pub open spec fn available(&self) -> int {
        if self.ty.spec_is_nucleotide() {
            2 * self.data@.len() - self.position()
        } else {
            self.data@.len() - self.byte
        }
    }

    /// The `l` symbols that follow the position of the reader.
    pub open spec fn upcoming(&self, l: nat) -> Seq<u8> {
        if self.ty.spec_is_nucleotide() {
            unpacked(self.data@, self.position(), l, self.ty)
        } else {
            self.data@.subrange(self.byte as int, self.byte + l)
        }
    }

    /// The reader once `l` more symbols are read.
    pub open spec fn advanced(self, l: nat) -> SequenceReader {
        let p = self.position() + l;
        if self.ty.spec_is_nucleotide() {
            SequenceReader { byte: (p / 2) as usize, half: p % 2 == 1, ..self }
        } else {
            SequenceReader { byte: p as usize, ..self }
        }
    }

    /// Read sequences of type `ty` from the bytes of a block.
    pub fn new(data: Vec<u8>, ty: SequenceType) -> (r: SequenceReader)
        ensures
            r.wf(),
            r.data@ == data@,
            r.ty == ty,
            r.position() == 0,
    {
        SequenceReader { data, ty, byte: 0, half: false }
    }

    /// The next `length` symbols. When fewer are left, fails with
    /// `UnexpectedEof` and leaves the reader as it was.
    pub fn next(&mut self, length: u64) -> (r: Result<Vec<u8>, Error>)
        requires
            old(self).wf(),
        ensures
            final(self).wf(),
            final(self).data == old(self).data,
            final(self).ty == old(self).ty,
            length > old(self).available() ==> r == Err::<Vec<u8>, Error>(Error::UnexpectedEof)
                && *final(self) == *old(self),
            length <= old(self).available() ==> {
                &&& r matches Ok(v) && v@ == old(self).upcoming(length as nat)
                &&& final(self).position() == old(self).position() + length
                &&& *final(self) == old(self).advanced(length as nat)
            },
    {
        let len = self.data.len();
        if !self.ty.is_nucleotide() {
            if length > (len - self.byte) as u64 {
                return Err(Error::UnexpectedEof);
            }
            let l = length as usize;
            let mut out: Vec<u8> = Vec::new();
            let mut i: usize = 0;
            while i < l
                invariant
                    i <= l,
                    len == self.data@.len(),
                    self.byte + l <= self.data@.len(),
                    out@ == self.data@.subrange(self.byte as int, self.byte + i),
                decreases l - i,
            {
                out.push(self.data[self.byte + i]);
                assert(out@ =~= self.data@.subrange(self.byte as int, self.byte + i + 1));
                i += 1;
            }
            self.byte = self.byte + l;
            return Ok(out);
        }
        let avail: u128 = 2 * (len - self.byte) as u128 - if self.half {
            1u128
        } else {
            0u128
        };
        if length as u128 > avail {
            return Err(Error::UnexpectedEof);
        }
        let ghost start = self.position();
        let ghost data = self.data@;
        let mut out: Vec<u8> = Vec::new();
        let mut i: u64 = 0;
        while i < length
            invariant
                self.wf(),
                self.data == old(self).data,
                self.data@ == data,
                len == data.len(),
                self.ty == old(self).ty,
                self.ty.spec_is_nucleotide(),
                i <= length,
                self.position() == start + i,
                start + length <= 2 * data.len(),
                out@ == unpacked(data, start, i as nat, self.ty),
            decreases length - i,
        {
            let b = self.data[self.byte];
            let code = if self.half {
                b / 16
            } else {
                b % 16
            };
            assert(code == nibble(data, self.position()));
            let c = decode_nucleotide(code, self.ty);
            out.push(c);
            assert(out@ =~= unpacked(data, start, (i + 1) as nat, self.ty));
            if self.half {
                self.byte = self.byte + 1;
                self.half = false;
            } else {
                self.half = true;
            }
            i += 1;
            assert(self.half ==> self.byte < self.data@.len());
        }
        Ok(out)
    }
}

/// The index of the first byte at or after `i` that is not `0xFF`, or the
/// length of `s`.
pub open spec fn run_end(s: Seq<u8>, i: int) -> int
    decreases s.len() - i,
{
    if i >= s.len() {
        s.len() as int
    } else if s[i] != 0xFF {
        i
    } else {
        run_end(s, i + 1)
    }
}

/// The length of the mask run that starts at `pos`: 255 for each `0xFF`
/// byte, plus the byte that ends the run, if the stream has one.
pub open spec fn run_value(s: Seq<u8>, pos: int) -> nat {
    let j = run_end(s, pos);
    (255 * (j - pos) + if j < s.len() {
        s[j] as int
    } else {
        0int
    }) as nat
}

/// The position after the mask run that starts at `pos`.
pub open spec fn run_next(s: Seq<u8>, pos: int) -> int {
    let j = run_end(s, pos);
    if j < s.len() {
        j + 1
    } else {
        j
    }
}

/// Reads the runs of the mask stream, which alternate between unmasked and
/// masked and start unmasked. Runs stop once they cover `total` bases.
pub struct MaskReader {
    pub data: Vec<u8>,
    pub pos: usize,
    pub total: u64,
    pub current: u64,
    /// Whether the next run is masked.
    pub mask: bool,
}

impl MaskReader {
    pub open spec fn wf(&self) -> bool {
        self.pos <= self.data@.len()
    }

    /// Read mask runs over `total` bases from the bytes of a block.
    pub fn new(data: Vec<u8>, total: u64) -> (r: MaskReader)
        ensures
            r.wf(),
            r.data@ == data@,
            r.pos == 0,
            r.total == total,
            r.current == 0,
            !r.mask,
    {
        MaskReader { data, pos: 0, total, current: 0, mask: false }
    }

    /// The next run. There is none once the runs cover `total` bases; a
    /// stream that ends before fails with `UnexpectedEof`, and a run whose
    /// end would pass 64 bits with `Overflow`.
    pub fn next(&mut self) -> (r: Option<Result<MaskUnit, Error>>)
        requires
            old(self).wf(),
        ensures
            final(self).wf(),
            final(self).data == old(self).data,
            final(self).total == old(self).total,
            old(self).current >= old(self).total ==> r is None && *final(self) == *old(self),
            old(self).current < old(self).total && old(self).pos == old(self).data@.len() ==> r
                == Some(Err::<MaskUnit, Error>(Error::UnexpectedEof)) && *final(self) == *old(self),
            old(self).current < old(self).total && old(self).pos < old(self).data@.len() ==> {
                let n = run_value(old(self).data@, old(self).pos as int);
                if old(self).current + n > u64::MAX {
                    r == Some(Err::<MaskUnit, Error>(Error::Overflow))
                } else {
                    &&& r == Some(
                        Ok::<MaskUnit, Error>(
                            if old(self).mask {
                                MaskUnit::Masked(n as u64)
                            } else {
                                MaskUnit::Unmasked(n as u64)
                            },
                        ),
                    )
                    &&& final(self).pos == run_next(old(self).data@, old(self).pos as int)
                    &&& final(self).pos > old(self).pos
                    &&& final(self).current == old(self).current + n
                    &&& final(self).mask == !old(self).mask
                }
            },
    {
        if self.current >= self.total {
            return None;
        }
        if self.pos == self.data.len() {
            return Some(Err(Error::UnexpectedEof));
        }
        proof {
            lemma_run_end_range(self.data@, self.pos as int);
        }
        let start = self.pos;
        let mut i = self.pos;
        let mut n: u64 = 0;
        let mut over = false;
        while i < self.data.len() && self.data[i] == 0xFF
            invariant
                start <= i <= self.data@.len(),
                run_end(self.data@, start as int) == run_end(self.data@, i as int),
                !over ==> n == 255 * (i - start),
                over ==> 255 * (i - start) > u64::MAX,
            decreases self.data@.len() - i,
        {
            if !over {
                if n > u64::MAX - 255 {
                    over = true;
                } else {
                    n = n + 255;
                }
            }
            i += 1;
        }
        if i < self.data.len() {
            if !over {
                if n > u64::MAX - self.data[i] as u64 {
                    over = true;
                } else {
                    n = n + self.data[i] as u64;
                }
            }
            i += 1;
        }
        if over || self.current > u64::MAX - n {
            return Some(Err(Error::Overflow));
        }
        self.pos = i;
        self.current = self.current + n;
        if self.mask {
            self.mask = false;
            Some(Ok(MaskUnit::Masked(n)))
        } else {
            self.mask = true;
            Some(Ok(MaskUnit::Unmasked(n)))
        }
    }
}

proof fn lemma_run_end_range(s: Seq<u8>, i: int)
    requires
        0 <= i <= s.len(),
    ensures
        i <= run_end(s, i) <= s.len(),
        i < s.len() ==> i < run_next(s, i),
    decreases s.len() - i,
{
    if i < s.len() && s[i] == 0xFF {
        lemma_run_end_range(s, i + 1);
    }
}

/// All the runs of a mask stream read from `pos` on, when the runs before
/// covered `current` bases and the next one is masked when `masked` holds.
pub open spec fn runs_from(s: Seq<u8>, pos: int, current: nat, total: nat, masked: bool) -> Result<
    Seq<MaskUnit>,
    Error,
>
    decreases s.len() - pos,
    via runs_from_decreases
{
    if current >= total || pos < 0 {
        Ok(Seq::empty())
    } else if pos >= s.len() {
        Err(Error::UnexpectedEof)
    } else if current + run_value(s, pos) > u64::MAX {
        Err(Error::Overflow)
    } else {
        let n = run_value(s, pos) as u64;
        let u = if masked {
            MaskUnit::Masked(n)
        } else {
            MaskUnit::Unmasked(n)
        };
        match runs_from(s, run_next(s, pos), (current + n) as nat, total, !masked) {
            Ok(rest) => Ok(seq![u] + rest),
            Err(e) => Err(e),
        }
    }
}

#[via_fn]
proof fn runs_from_decreases(s: Seq<u8>, pos: int, current: nat, total: nat, masked: bool) {
    if !(current >= total || pos < 0) && pos < s.len() {
        lemma_run_end_range(s, pos);
    }
}

impl MaskReader {
    /// The runs that are left to read.
    pub open spec fn runs(&self) -> Result<Seq<MaskUnit>, Error> {
        runs_from(self.data@, self.pos as int, self.current as nat, self.total as nat, self.mask)
    }

    /// Read all the runs that are left.
    pub fn read_all(&mut self) -> (r: Result<Vec<MaskUnit>, Error>)
        requires
            old(self).wf(),
        ensures
            r matches Ok(v) ==> old(self).runs() == Ok::<Seq<MaskUnit>, Error>(v@),
            r matches Err(e) ==> old(self).runs() == Err::<Seq<MaskUnit>, Error>(e),
    {
        let mut out: Vec<MaskUnit> = Vec::new();
        loop
            invariant
                self.wf(),
                old(self).runs() == match self.runs() {
                    Ok(rest) => Ok::<Seq<MaskUnit>, Error>(out@ + rest),
                    Err(e) => Err(e),
                },
            decreases self.data@.len() - self.pos,
        {
            match self.next() {
                None => {
                    assert(out@ + Seq::<MaskUnit>::empty() =~= out@);
                    return Ok(out);
                },
                Some(Err(e)) => return Err(e),
                Some(Ok(u)) => {
                    proof {
                        if let Ok(rest) = self.runs() {
                            assert(out@.push(u) + rest =~= out@ + (seq![u] + rest));
                        }
                    }
                    out.push(u);
                },
            }
        }
    }
}

proof fn lemma_nul_at(s: Seq<u8>, i: int, j: int)
    requires
        0 <= i <= j < s.len(),
        forall|k: int| i <= k < j ==> s[k] != 0,
        s[j] == 0,
    ensures
        nul_at(s, i) == j,
    decreases j - i,
{
    if i < j {
        lemma_nul_at(s, i + 1, j);
    }
}

/// A field without NUL bytes, written with its NUL after any bytes, reads
/// back as itself, whatever follows; the next field starts right after
/// its NUL.
pub proof fn lemma_cstring_round_trip(before: Seq<u8>, field: Seq<u8>, after: Seq<u8>)
    requires
        forall|i: int| 0 <= i < field.len() ==> field[i] != 0,
    ensures
        cstring_next(before + field.push(0) + after, before.len() as int) == (
            Ok::<Seq<u8>, Error>(field),
            (before.len() + field.len() + 1) as int,
        ),
{
    let s = before + field.push(0) + after;
    let a = before.len() as int;
    assert forall|k: int| a <= k < a + field.len() implies s[k] != 0 by {
        assert(s[k] == field[k - a]);
    }
    assert(s[a + field.len()] == 0);
    lemma_nul_at(s, a, a + field.len());
    assert(s.subrange(a, a + field.len()) =~= field);
}

/// A length written after any bytes reads back as itself, whatever
/// follows; the next length starts right after its last word.
pub proof fn lemma_length_column_round_trip(before: Seq<u8>, l: u64, after: Seq<u8>)
    ensures
        length_next(before + crate::lengths::length_words(l as nat) + after, before.len() as int)
            == (
            Ok::<u64, Error>(l),
            (before.len() + crate::lengths::length_words(l as nat).len()) as int,
        ),
{
    let w = crate::lengths::length_words(l as nat);
    let s = before + w + after;
    assert(s.subrange(before.len() as int, before.len() as int + w.len()) =~= w);
    crate::lengths::lemma_length_decode_words(s, before.len() as int, l as nat, 0);
}

/// The runs of a mask stream alternate, starting with the kind given
/// (unmasked for a whole stream), and stop at the first run that brings
/// the covered bases to the declared total: every run but the last ends
/// below it.
pub proof fn lemma_mask_runs_alternate(
    s: Seq<u8>,
    pos: int,
    current: nat,
    total: nat,
    masked: bool,
)
    requires
        runs_from(s, pos, current, total, masked) is Ok,
    ensures
        ({
            let runs = runs_from(s, pos, current, total, masked)->Ok_0;
            &&& forall|i: int|
                0 <= i < runs.len() ==> (#[trigger] runs[i] is Masked) == (if i % 2 == 0 {
                    masked
                } else {
                    !masked
                })
            &&& runs.len() > 0 ==> current + crate::mask::stream_total(runs.drop_last()) < total
        }),
    decreases s.len() - pos,
{
    if !(current >= total || pos < 0) && pos < s.len() {
        lemma_run_end_range(s, pos);
        let n = run_value(s, pos);
        let next = run_next(s, pos);
        lemma_mask_runs_alternate(s, next, (current + n) as nat, total, !masked);
        let rest = runs_from(s, next, (current + n) as nat, total, !masked)->Ok_0;
        let runs = runs_from(s, pos, current, total, masked)->Ok_0;
        let u = runs[0];
        assert(runs == seq![u] + rest);
        assert forall|i: int| 0 <= i < runs.len() implies (#[trigger] runs[i] is Masked) == (if i
            % 2 == 0 {
            masked
        } else {
            !masked
        }) by {
            if i > 0 {
                assert(runs[i] == rest[i - 1]);
            }
        }
        assert(runs.drop_last().len() > 0 ==> runs.drop_last().drop_first() =~= rest.drop_last());
        if rest.len() == 0 {
            assert(runs.drop_last() =~= Seq::<MaskUnit>::empty());
        } else {
            assert(runs.drop_last()[0] == u);
        }
    }
}

} // verus!
