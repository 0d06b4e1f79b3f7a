//! Column writers of the encoder: a byte counter over a plain column, and
//! the sequence writer that packs nucleotides two per byte.
use vstd::prelude::*;

use crate::data::SequenceType;
use crate::error::Error;
use crate::nucleotide::{
    codes_of, encode_nucleotide, lemma_pack_pair, lemma_pack_single, nucleotide_code, pack,
    valid_nucleotides,
};

verus! {

/// Append the bytes of `s` to `out`.
pub fn append_bytes(out: &mut Vec<u8>, s: &[u8])
    ensures
        final(out)@ == old(out)@ + s@,
{
    let mut i: usize = 0;
    while i < s.len()
        invariant
            i <= s@.len(),
            out@ == old(out)@ + s@.subrange(0, i as int),
        decreases s@.len() - i,
    {
        out.push(s[i]);
        assert(s@.subrange(0, i as int + 1) =~= s@.subrange(0, i as int).push(s@[i as int]));
        i += 1;
    }
    assert(s@.subrange(0, s@.len() as int) =~= s@);
}

/// A column buffer that counts the bytes written through it.
pub struct WriteCounter {
    pub w: Vec<u8>,
    pub n: usize,
    /// The length of the buffer before the first write.
    pub base: Ghost<nat>,
}

impl WriteCounter {
    /// The count is the number of bytes written since creation.
    pub open spec fn wf(&self) -> bool {
        self.base@ + self.n == self.w@.len()
    }

    /// Start counting the bytes written to `w`.
    pub fn new(w: Vec<u8>) -> (r: WriteCounter)
        ensures
            r.wf(),
            r.w@ == w@,
            r.n == 0,
    {
        let ghost base = w@.len();
        WriteCounter { w, n: 0, base: Ghost(base) }
    }

    /// The number of bytes written so far.
    pub fn len(&self) -> (r: usize)
        ensures
            r == self.n,
    {
        self.n
    }

    /// Write all of `buf`.
    pub fn write(&mut self, buf: &[u8])
        requires
            old(self).wf(),
        ensures
            final(self).wf(),
            final(self).w@ == old(self).w@ + buf@,
            final(self).n == old(self).n + buf@.len(),
            final(self).base == old(self).base,
    {
        append_bytes(&mut self.w, buf);
        let total = self.w.len();
        assert(self.n + buf@.len() <= total);
        self.n = self.n + buf.len();
    }

    /// Give back the buffer.
    pub fn into_inner(self) -> (r: Vec<u8>)
        ensures
            r@ == self.w@,
    {
        self.w
    }
}

/// The byte content of a sequence column that was fed `input`: packed
/// codes for a nucleotide type, the bytes themselves otherwise.
pub open spec fn sequence_column(input: Seq<u8>, ty: SequenceType) -> Seq<u8> {
    if ty.spec_is_nucleotide() {
        pack(codes_of(input, ty))
    } else {
        input
    }
}

/// The sequence column writer. Nucleotides are packed two per byte, and an
/// odd final nucleotide of one sequence waits for the first of the next.
pub struct SequenceWriter {
    pub ty: SequenceType,
    pub writer: Vec<u8>,
    pub cache: Option<u8>,
    /// The number of sequence bytes written.
    pub n: u64,
    /// All sequence bytes written so far, one sequence after another.
    pub input: Ghost<Seq<u8>>,
}

impl SequenceWriter {
    /// The packed bytes hold every code but a pending odd one.
    pub open spec fn wf(&self) -> bool {
        &&& self.n == self.input@.len()
        &&& if self.ty.spec_is_nucleotide() {
            &&& valid_nucleotides(self.input@, self.ty)
            &&& match self.cache {
                None => {
                    &&& self.input@.len() % 2 == 0
                    &&& self.writer@ == pack(codes_of(self.input@, self.ty))
                },
                Some(c) => {
                    &&& self.input@.len() % 2 == 1
                    &&& c == codes_of(self.input@, self.ty).last()
                    &&& self.writer@ == pack(codes_of(self.input@, self.ty).drop_last())
                },
            }
        } else {
            &&& self.cache is None
            &&& self.writer@ == self.input@
        }
    }

    /// The column content once the writer is finished.
    pub open spec fn content(&self) -> Seq<u8> {
        sequence_column(self.input@, self.ty)
    }

    /// Create a writer for sequences of type `ty`.
    pub fn new(ty: SequenceType) -> (r: SequenceWriter)
        ensures
            r.wf(),
            r.ty == ty,
            r.input@ == Seq::<u8>::empty(),
    {
        let w = SequenceWriter { ty, writer: Vec::new(), cache: None, n: 0, input: Ghost(Seq::empty()) };
        assert(codes_of(Seq::<u8>::empty(), ty) =~= Seq::<u8>::empty());
        assert(pack(Seq::<u8>::empty()) =~= Seq::<u8>::empty());
        w
    }

    /// Check a sequence and turn it into codes.
    fn encode(&self, s: &[u8]) -> (r: Result<Vec<u8>, Error>)
        requires
            self.ty.spec_is_nucleotide(),
        ensures
            r matches Ok(c) ==> valid_nucleotides(s@, self.ty) && c@ == codes_of(s@, self.ty),
            r is Err ==> !valid_nucleotides(s@, self.ty) && r == Err::<Vec<u8>, Error>(
                Error::InvalidSequence,
            ),
    {
        let mut codes: Vec<u8> = Vec::new();
        let mut i: usize = 0;
        while i < s.len()
            invariant
                i <= s@.len(),
                valid_nucleotides(s@.subrange(0, i as int), self.ty),
                codes@ == codes_of(s@.subrange(0, i as int), self.ty),
            decreases s@.len() - i,
        {
            match encode_nucleotide(s[i], self.ty) {
                Some(k) => {
                    codes.push(k);
                    assert(codes_of(s@.subrange(0, i as int + 1), self.ty) =~= codes_of(
                        s@.subrange(0, i as int),
                        self.ty,
                    ).push(k));
                    assert forall|j: int| 0 <= j < i + 1 implies (#[trigger] nucleotide_code(
                        s@.subrange(0, i as int + 1)[j],
                        self.ty,
                    )) is Some by {
                        if j < i {
                            assert(s@.subrange(0, i as int + 1)[j] == s@.subrange(0, i as int)[j]);
                        }
                    }
                },
                None => {
                    assert(nucleotide_code(s@[i as int], self.ty) is None);
                    return Err(Error::InvalidSequence);
                },
            }
            i += 1;
        }
        assert(s@.subrange(0, s@.len() as int) =~= s@);
        Ok(codes)
    }

    /// Write one sequence. A nucleotide byte outside the alphabet fails
    /// with `InvalidSequence` and leaves the writer as it was.
    pub fn write(&mut self, s: &[u8]) -> (r: Result<(), Error>)
        requires
            old(self).wf(),
            old(self).n + s@.len() <= u64::MAX,
        ensures
            final(self).ty == old(self).ty,
            r is Ok <==> !old(self).ty.spec_is_nucleotide() || valid_nucleotides(s@, old(self).ty),
            r is Err ==> r == Err::<(), Error>(Error::InvalidSequence) && *final(self) == *old(self),
            r is Ok ==> final(self).wf() && final(self).input@ == old(self).input@ + s@,
    {
        if !self.ty.is_nucleotide() {
            append_bytes(&mut self.writer, s);
            self.n = self.n + s.len() as u64;
            self.input = Ghost(self.input@ + s@);
            return Ok(());
        }
        let codes = match self.encode(s) {
            Ok(c) => c,
            Err(e) => return Err(e),
        };
        let ghost ty = self.ty;
        let ghost in0 = self.input@;
        let mut i: usize = 0;
        while i < codes.len()
            invariant
                i <= codes@.len(),
                codes@ == codes_of(s@, ty),
                valid_nucleotides(s@, ty),
                self.ty == ty,
                ty.spec_is_nucleotide(),
                self.n == old(self).n,
                self.input@ == in0 + s@.subrange(0, i as int),
                valid_nucleotides(self.input@, ty),
                match self.cache {
                    None => {
                        &&& self.input@.len() % 2 == 0
                        &&& self.writer@ == pack(codes_of(self.input@, ty))
                    },
                    Some(c) => {
                        &&& self.input@.len() % 2 == 1
                        &&& c == codes_of(self.input@, ty).last()
                        &&& self.writer@ == pack(codes_of(self.input@, ty).drop_last())
                    },
                },
            decreases codes@.len() - i,
        {
            let k = codes[i];
            let ghost next = self.input@.push(s@[i as int]);
            assert(next =~= in0 + s@.subrange(0, i as int + 1));
            assert(codes_of(next, ty) =~= codes_of(self.input@, ty).push(k));
            assert(valid_nucleotides(next, ty)) by {
                assert forall|j: int| 0 <= j < next.len() implies (#[trigger] nucleotide_code(
                    next[j],
                    ty,
                )) is Some by {
                    if j < self.input@.len() {
                        assert(next[j] == self.input@[j]);
                    } else {
                        assert(next[j] == s@[i as int]);
                    }
                }
            }
            match self.cache {
                Some(c) => {
                    let ghost prev = codes_of(self.input@, ty).drop_last();
                    assert(codes_of(next, ty) =~= prev + seq![c, k]);
                    proof {
                        lemma_pack_pair(prev, c, k);
                    }
                    self.writer.push(c + 16 * k);
                    self.cache = None;
                },
                None => {
                    assert(codes_of(next, ty).drop_last() =~= codes_of(self.input@, ty));
                    self.cache = Some(k);
                },
            }
            self.input = Ghost(next);
            i += 1;
        }
        assert(s@.subrange(0, s@.len() as int) =~= s@);
        self.n = self.n + s.len() as u64;
        Ok(())
    }

    /// The number of sequence bytes written so far.
    pub fn len(&self) -> (r: u64)
        ensures
            r == self.n,
    {
        self.n
    }

    /// Finish the column: a pending odd nucleotide takes a byte of its own.
    pub fn into_inner(self) -> (r: Vec<u8>)
        requires
            self.wf(),
        ensures
            r@ == self.content(),
    {
        let mut w = self.writer;
        match self.cache {
            Some(c) => {
                proof {
                    lemma_pack_single(codes_of(self.input@, self.ty).drop_last(), c);
                    assert(codes_of(self.input@, self.ty).drop_last().push(c) =~= codes_of(
                        self.input@,
                        self.ty,
                    ));
                }
                w.push(c);
            },
            None => {},
        }
        w
    }
}

} // verus!
