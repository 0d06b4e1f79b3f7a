//! A bounded view over bytes that several readers share, each with its
//! own position.
use std::rc::Rc;

use vstd::prelude::*;

verus! {

/// Where a seek counts from.
#[derive(Debug, Clone, Copy, PartialEq, Eq, Structural)]
pub enum SeekFrom {
    Start(u64),
    End(i64),
    Current(i64),
}

/// A view of the bytes `[start, end)` of a shared buffer.
pub struct IoSlice {
    pub reader: Rc<Vec<u8>>,
    pub pos: u64,
    pub start: u64,
    pub end: u64,
}

/// `x` brought into `[lo, hi]`.
pub open spec fn clamp(x: int, lo: int, hi: int) -> int {
    if x < lo {
        lo
    } else if x > hi {
        hi
    } else {
        x
    }
}

impl IoSlice {
    pub open spec fn wf(&self) -> bool {
        self.start <= self.pos <= self.end
    }

    /// The bytes of the view that have not been read, as far as the shared
    /// buffer holds them.
    pub open spec fn remaining(&self) -> Seq<u8> {
        let data = (*self.reader)@;
        let hi = if self.end <= data.len() {
            self.end as int
        } else {
            data.len() as int
        };
        if self.pos < hi {
            data.subrange(self.pos as int, hi)
        } else {
            Seq::<u8>::empty()
        }
    }

    /// A view of the bytes `[start, end)` of `reader`, positioned at its
    /// start.
    pub fn new(reader: Rc<Vec<u8>>, start: u64, end: u64) -> (r: IoSlice)
        requires
            start <= end,
        ensures
            r.wf(),
            r.reader == reader,
            r.start == start,
            r.end == end,
            r.pos == start,
    {
        IoSlice { reader, start, end, pos: start }
    }

    /// Read at most `n` bytes from the position on, and move past them.
    pub fn read(&mut self, n: usize) -> (r: Vec<u8>)
        requires
            old(self).wf(),
        ensures
            final(self).wf(),
            final(self).reader == old(self).reader,
            final(self).start == old(self).start,
            final(self).end == old(self).end,
            r@.len() <= n,
            r@.len() <= old(self).remaining().len(),
            r@ == old(self).remaining().take(r@.len() as int),
            r@.len() == n || r@ == old(self).remaining(),
            final(self).pos == old(self).pos + r@.len(),
    {
        let data: &Vec<u8> = &*self.reader;
        let dlen: usize = data.len();
        let len = dlen as u64;
        let hi = if self.end <= len {
            self.end
        } else {
            len
        };
        let mut out: Vec<u8> = Vec::new();
        if self.pos >= hi {
            assert(self.remaining() =~= Seq::<u8>::empty());
            return out;
        }
        let ghost rem = self.remaining();
        let mut i = self.pos;
        while i < hi && out.len() < n
            invariant
                self.pos <= i <= hi,
                hi <= data@.len(),
                dlen == data@.len(),
                hi <= self.end,
                data@ == (*self.reader)@,
                rem == data@.subrange(self.pos as int, hi as int),
                out@ == rem.take(i - self.pos),
                out@.len() == i - self.pos,
                out@.len() <= n,
            decreases hi - i,
        {
            assert(i < data@.len());
            let b = data[i as usize];
            assert(rem[i - self.pos] == b);
            out.push(b);
            assert(out@ =~= rem.take(i + 1 - self.pos));
            i += 1;
        }
        if out.len() < n {
            assert(out@ =~= rem);
        }
        self.pos = i;
        out
    }

    /// Read everything from the position to the end of the view.
    pub fn read_to_end(&mut self) -> (r: Vec<u8>)
        requires
            old(self).wf(),
        ensures
            final(self).wf(),
            final(self).reader == old(self).reader,
            final(self).start == old(self).start,
            final(self).end == old(self).end,
            r@ == old(self).remaining(),
            final(self).pos == old(self).pos + r@.len(),
            final(self).remaining() == Seq::<u8>::empty(),
    {
        let len = self.reader.len();
        let n: usize = if self.end - self.pos <= len as u64 {
            (self.end - self.pos) as usize
        } else {
            len
        };
        let r = self.read(n);
        proof {
            assert(old(self).remaining().len() <= n);
            if r@.len() == n {
                assert(r@ =~= old(self).remaining());
            }
            let data = (*self.reader)@;
            let hi = if self.end <= data.len() {
                self.end as int
            } else {
                data.len() as int
            };
            assert(old(self).pos >= hi || old(self).remaining().len() == hi - old(self).pos);
            assert(self.remaining() =~= Seq::<u8>::empty());
        }
        r
    }

    /// Move the position, within the bounds of the view, and give it
    /// relative to the start of the view.
    pub fn seek(&mut self, pos: SeekFrom) -> (r: u64)
        requires
            old(self).wf(),
        ensures
            final(self).wf(),
            final(self).reader == old(self).reader,
            final(self).start == old(self).start,
            final(self).end == old(self).end,
            final(self).pos == match pos {
                SeekFrom::Start(n) => clamp(old(self).start + n, old(self).start as int, old(self).end as int),
                SeekFrom::End(n) => clamp(old(self).end + n, old(self).start as int, old(self).end as int),
                SeekFrom::Current(n) => clamp(old(self).pos + n, old(self).start as int, old(self).end as int),
            },
            r == final(self).pos - final(self).start,
    {
        let base: i128 = match pos {
            SeekFrom::Start(n) => self.start as i128 + n as i128,
            SeekFrom::End(n) => self.end as i128 + n as i128,
            SeekFrom::Current(n) => self.pos as i128 + n as i128,
        };
        if base < self.start as i128 {
            self.pos = self.start;
        } else if base > self.end as i128 {
            self.pos = self.end;
        } else {
            self.pos = base as u64;
        }
        self.pos - self.start
    }

    /// Move back to the start of the view.
    pub fn rewind(&mut self)
        requires
            old(self).wf(),
        ensures
            final(self).wf(),
            final(self).reader == old(self).reader,
            final(self).start == old(self).start,
            final(self).end == old(self).end,
            final(self).pos == old(self).start,
    {
        self.pos = self.start;
    }

    /// The position relative to the start of the view.
    pub fn stream_position(&self) -> (r: u64)
        requires
            self.wf(),
        ensures
            r == self.pos - self.start,
    {
        self.pos - self.start
    }

    /// The length of the view.
    pub fn stream_len(&self) -> (r: u64)
        requires
            self.wf(),
        ensures
            r == self.end - self.start,
    {
        self.end - self.start
    }
}

} // verus!
