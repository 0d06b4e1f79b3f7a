//! Applying the mask stream to decoded sequences: bases covered by a
//! masked run are lowercased, and a run may go on into the next sequence.
use vstd::prelude::*;

use crate::data::MaskUnit;
use crate::error::Error;

verus! {

/// The number of bases of a run.
pub open spec fn run_len(u: MaskUnit) -> nat {
    match u {
        MaskUnit::Masked(n) => n as nat,
        MaskUnit::Unmasked(n) => n as nat,
    }
}

/// The same kind of run, over `n` bases.
pub open spec fn with_len(u: MaskUnit, n: u64) -> MaskUnit {
    match u {
        MaskUnit::Masked(_) => MaskUnit::Masked(n),
        MaskUnit::Unmasked(_) => MaskUnit::Unmasked(n),
    }
}

/// The number of bases that the runs cover.
pub open spec fn stream_total(runs: Seq<MaskUnit>) -> nat
    decreases runs.len(),
{
    if runs.len() == 0 {
        0
    } else {
        run_len(runs[0]) + stream_total(runs.drop_first())
    }
}

/// Whether the base at offset `t` falls in a masked run.
pub open spec fn covered_masked(runs: Seq<MaskUnit>, t: int) -> bool
    decreases runs.len(),
{
    if runs.len() == 0 {
        false
    } else if t < run_len(runs[0]) {
        runs[0] is Masked
    } else {
        covered_masked(runs.drop_first(), t - run_len(runs[0]))
    }
}

/// The runs left once `m` bases are covered: the run in which the `m`-th
/// base falls keeps what is left of it, possibly nothing.
pub open spec fn drop_bases(runs: Seq<MaskUnit>, m: int) -> Seq<MaskUnit>
    decreases runs.len(),
{
    if runs.len() == 0 {
        runs
    } else if m <= run_len(runs[0]) {
        seq![with_len(runs[0], (run_len(runs[0]) - m) as u64)] + runs.drop_first()
    } else {
        drop_bases(runs.drop_first(), m - run_len(runs[0]))
    }
}

/// The ASCII lowercase of a byte.
pub open spec fn ascii_lower(c: u8) -> u8 {
    if 65 <= c <= 90 {
        (c + 32) as u8
    } else {
        c
    }
}

/// `s` with the bases under masked runs lowercased.
pub open spec fn apply_mask(s: Seq<u8>, runs: Seq<MaskUnit>) -> Seq<u8> {
    Seq::new(s.len(), |i: int| if covered_masked(runs, i) { ascii_lower(s[i]) } else { s[i] })
}

/// The ASCII lowercase of a byte.
pub fn to_ascii_lower(c: u8) -> (r: u8)
    ensures
        r == ascii_lower(c),
{
    if 65 <= c && c <= 90 {
        c + 32
    } else {
        c
    }
}

/// The runs from `unit` on: `unit`, then `units` from index `next`.
pub open spec fn pending(unit: MaskUnit, units: Seq<MaskUnit>, next: int) -> Seq<MaskUnit> {
    seq![unit] + units.subrange(next, units.len() as int)
}

proof fn lemma_pending_step(unit: MaskUnit, units: Seq<MaskUnit>, next: int)
    requires
        0 <= next < units.len(),
    ensures
        pending(unit, units, next).drop_first() == pending(units[next], units, next + 1),
{
    assert(pending(unit, units, next).drop_first() =~= pending(units[next], units, next + 1));
}

/// Mask the sequence `s` with the runs that start with `unit` and go on
/// with `units[next..]`. When they cover fewer bases than `s` has, fails
/// with `UnexpectedEof`; otherwise gives the runs left for what follows.
#[verifier::loop_isolation(false)]
pub fn mask_sequence(s: &mut Vec<u8>, unit: MaskUnit, units: &Vec<MaskUnit>, next: usize) -> (r:
    Result<(MaskUnit, usize), Error>)
    requires
        next <= units@.len(),
    ensures
        stream_total(pending(unit, units@, next as int)) >= old(s)@.len() ==> r is Ok,
        stream_total(pending(unit, units@, next as int)) < old(s)@.len() ==> r == Err::<
            (MaskUnit, usize),
            Error,
        >(Error::UnexpectedEof),
        r matches Ok((u, k)) ==> {
            &&& k <= units@.len()
            &&& final(s)@ == apply_mask(old(s)@, pending(unit, units@, next as int))
            &&& pending(u, units@, k as int) == drop_bases(
                pending(unit, units@, next as int),
                old(s)@.len() as int,
            )
        },
{
    let ghost s0 = old(s)@;
    let ghost u0 = pending(unit, units@, next as int);
    let len = s.len();
    let mut done: usize = 0;
    let mut cur = unit;
    let mut k = next;
    loop
        invariant
            len == s0.len(),
            s@.len() == len,
            done <= len,
            k <= units@.len(),
            stream_total(u0) == done + stream_total(pending(cur, units@, k as int)),
            forall|t: int|
                0 <= t ==> #[trigger] covered_masked(pending(cur, units@, k as int), t)
                    == covered_masked(u0, done + t),
            drop_bases(u0, len as int) == drop_bases(
                pending(cur, units@, k as int),
                len - done,
            ),
            forall|i: int| 0 <= i < done ==> s@[i] == apply_mask(s0, u0)[i],
            forall|i: int| done <= i < len ==> s@[i] == s0[i],
        decreases units@.len() - k,
    {
        let ghost p = pending(cur, units@, k as int);
        let (masked, n) = match cur {
            MaskUnit::Masked(n) => (true, n),
            MaskUnit::Unmasked(n) => (false, n),
        };
        assert(p[0] == cur);
        let rem = len - done;
        let stop = if n < rem as u64 {
            done + n as usize
        } else {
            len
        };
        let mut i = done;
        while i < stop
            invariant
                done <= i <= stop <= len,
                len == s0.len(),
                s@.len() == len,
                stop - done <= n,
                forall|j: int| 0 <= j < i ==> s@[j] == apply_mask(s0, u0)[j],
                forall|j: int| i <= j < len ==> s@[j] == s0[j],
                forall|t: int|
                    0 <= t ==> #[trigger] covered_masked(p, t) == covered_masked(u0, done + t),
                p[0] == cur,
                p.len() >= 1,
                masked <==> cur is Masked,
                n == run_len(cur),
            decreases stop - i,
        {
            assert(covered_masked(p, i - done) == masked);
            assert(covered_masked(u0, i as int) == masked);
            let c = s[i];
            assert(c == s0[i as int]);
            if masked {
                s.set(i, to_ascii_lower(c));
            }
            assert(s@[i as int] == apply_mask(s0, u0)[i as int]);
            i += 1;
        }
        if n >= rem as u64 {
            let left = n - rem as u64;
            proof {
                assert(drop_bases(p, len - done) == seq![with_len(cur, left)] + p.drop_first());
                assert(pending(with_len(cur, left), units@, k as int) =~= seq![with_len(cur, left)]
                    + p.drop_first());
                assert(s@ =~= apply_mask(s0, u0));
                assert(stream_total(p) == n + stream_total(p.drop_first()));
            }
            let u = match cur {
                MaskUnit::Masked(_) => MaskUnit::Masked(left),
                MaskUnit::Unmasked(_) => MaskUnit::Unmasked(left),
            };
            return Ok((u, k));
        }
        if k == units.len() {
            proof {
                assert(p.drop_first() =~= Seq::<MaskUnit>::empty());
                assert(stream_total(p.drop_first()) == 0);
                assert(stream_total(p) == n);
            }
            return Err(Error::UnexpectedEof);
        }
        proof {
            lemma_pending_step(cur, units@, k as int);
            assert forall|t: int| 0 <= t implies #[trigger] covered_masked(
                pending(units@[k as int], units@, k + 1),
                t,
            ) == covered_masked(u0, done + n + t) by {
                assert(covered_masked(p, n + t) == covered_masked(p.drop_first(), t));
            }
        }
        cur = units[k];
        k = k + 1;
        done = done + n as usize;
    }
}

} // verus!
