//! Variable-length integers: base 128, most significant group first, with
//! the top bit of every byte but the last set.
use vstd::prelude::*;

use crate::error::Error;

verus! {

/// `128` to the power `k`.
pub open spec fn pow128(k: nat) -> nat
    decreases k,
{
    if k == 0 {
        1
    } else {
        128 * pow128((k - 1) as nat)
    }
}

/// The 7-bit groups of `n`, most significant first. Every group carries
/// the continuation bit, except the last one when `last` holds.
pub open spec fn varint_groups(n: nat, last: bool) -> Seq<u8>
    decreases n,
{
    let b = ((n % 128) + if last {
        0nat
    } else {
        128nat
    }) as u8;
    if n < 128 {
        seq![b]
    } else {
        varint_groups(n / 128, false).push(b)
    }
}

/// The shortest encoding of `n`.
pub open spec fn varint(n: nat) -> Seq<u8> {
    varint_groups(n, true)
}

/// The value of a run of base-128 digits, taken from the low 7 bits of
/// each byte.
pub open spec fn digits_value(s: Seq<u8>) -> nat
    decreases s.len(),
{
    if s.len() == 0 {
        0
    } else {
        digits_value(s.drop_last()) * 128 + (s.last() % 128) as nat
    }
}

/// The index of the first byte at or after `i` whose top bit is clear, or
/// the length of `s` when there is none.
pub open spec fn terminator(s: Seq<u8>, i: int) -> int
    decreases s.len() - i,
{
    if i >= s.len() {
        s.len() as int
    } else if s[i] < 128 {
        i
    } else {
        terminator(s, i + 1)
    }
}

/// Reading a variable-length integer that starts at `pos`: its value and
/// the position after its last byte.
pub open spec fn varint_decode(s: Seq<u8>, pos: int) -> Result<(u64, int), Error> {
    let j = terminator(s, pos);
    if j >= s.len() {
        Err(Error::UnexpectedEof)
    } else if digits_value(s.subrange(pos, j + 1)) > u64::MAX {
        Err(Error::Overflow)
    } else {
        Ok((digits_value(s.subrange(pos, j + 1)) as u64, j + 1))
    }
}

proof fn lemma_digits_step(s: Seq<u8>, pos: int, i: int)
    requires
        0 <= pos <= i < s.len(),
    ensures
        digits_value(s.subrange(pos, i + 1)) == digits_value(s.subrange(pos, i)) * 128 + (s[i]
            % 128) as nat,
{
    assert(s.subrange(pos, i + 1).drop_last() =~= s.subrange(pos, i));
}

/// Read a variable-length integer from `s`, starting at `pos`.
pub fn variable_u64(s: &[u8], pos: usize) -> (r: Result<(u64, usize), Error>)
    requires
        pos <= s@.len(),
    ensures
        r matches Ok((v, p)) ==> varint_decode(s@, pos as int) == Ok::<(u64, int), Error>(
            (v, p as int),
        ),
        r matches Err(e) ==> varint_decode(s@, pos as int) == Err::<(u64, int), Error>(e),
{
    let mut i = pos;
    let mut acc: u64 = 0;
    let mut over = false;
    while i < s.len() && s[i] >= 128
        invariant
            pos <= i <= s@.len(),
            terminator(s@, pos as int) == terminator(s@, i as int),
            !over ==> acc == digits_value(s@.subrange(pos as int, i as int)),
            over ==> digits_value(s@.subrange(pos as int, i as int)) > u64::MAX,
        decreases s@.len() - i,
    {
        proof {
            lemma_digits_step(s@, pos as int, i as int);
        }
        let d = (s[i] % 128) as u64;
        if !over {
            if acc > (u64::MAX - d) / 128 {
                assert(acc * 128 + d > u64::MAX) by (nonlinear_arith)
                    requires
                        acc > (u64::MAX - d) / 128,
                        d < 128,
                ;
                over = true;
            } else {
                assert(acc * 128 + d <= u64::MAX) by (nonlinear_arith)
                    requires
                        acc <= (u64::MAX - d) / 128,
                        d < 128,
                ;
                acc = acc * 128 + d;
            }
        } else {
            let ghost old_v = digits_value(s@.subrange(pos as int, i as int));
            assert(old_v * 128 + d as nat > u64::MAX) by (nonlinear_arith)
                requires
                    old_v > u64::MAX,
            ;
        }
        i += 1;
    }
    if i == s.len() {
        return Err(Error::UnexpectedEof);
    }
    proof {
        lemma_digits_step(s@, pos as int, i as int);
    }
    let d = (s[i] % 128) as u64;
    if over {
        let ghost old_v = digits_value(s@.subrange(pos as int, i as int));
        assert(old_v * 128 + d as nat > u64::MAX) by (nonlinear_arith)
            requires
                old_v > u64::MAX,
        ;
        return Err(Error::Overflow);
    }
    if acc > (u64::MAX - d) / 128 {
        assert(acc * 128 + d > u64::MAX) by (nonlinear_arith)
            requires
                acc > (u64::MAX - d) / 128,
                d < 128,
        ;
        return Err(Error::Overflow);
    }
    assert(acc * 128 + d <= u64::MAX) by (nonlinear_arith)
        requires
            acc <= (u64::MAX - d) / 128,
            d < 128,
    ;
    Ok((acc * 128 + d, i + 1))
}

fn push_groups(n: u64, last: bool, out: &mut Vec<u8>)
    ensures
        final(out)@ == old(out)@ + varint_groups(n as nat, last),
    decreases n,
{
    let b: u8 = if last {
        (n % 128) as u8
    } else {
        (n % 128) as u8 + 128
    };
    if n >= 128 {
        push_groups(n / 128, false, out);
    }
    out.push(b);
    proof {
        let ghost o = old(out)@;
        if n >= 128 {
            assert(o + varint_groups(n as nat / 128, false).push(b) =~= (o + varint_groups(
                n as nat / 128,
                false,
            )).push(b));
        } else {
            assert(o.push(b) =~= o + seq![b]);
        }
    }
}

/// Append the shortest encoding of `n` to `out`.
pub fn write_variable_length(n: u64, out: &mut Vec<u8>)
    ensures
        final(out)@ == old(out)@ + varint(n as nat),
{
    push_groups(n, true, out);
}

proof fn lemma_groups_shape(n: nat, last: bool)
    ensures
        varint_groups(n, last).len() >= 1,
        forall|k: int|
            0 <= k < varint_groups(n, last).len() - 1 ==> varint_groups(n, last)[k] >= 128,
        varint_groups(n, last).last() >= 128 <==> !last,
        digits_value(varint_groups(n, last)) == n,
        n < pow128(varint_groups(n, last).len()),
        n >= 128 ==> pow128((varint_groups(n, last).len() - 1) as nat) <= n,
    decreases n,
{
    let g = varint_groups(n, last);
    if n >= 128 {
        let h = varint_groups(n / 128, false);
        lemma_groups_shape(n / 128, false);
        assert(g.drop_last() =~= h);
        assert(g.last() % 128 == n % 128);
        assert(digits_value(g) == (n / 128) * 128 + n % 128);
        assert((n / 128) * 128 + n % 128 == n) by (nonlinear_arith);
        assert(h.len() >= 1);
        let p = pow128((h.len() - 1) as nat);
        assert(pow128(h.len()) == 128 * p);
        assert(pow128(g.len()) == 128 * pow128(h.len()));
        assert(n < pow128(g.len())) by (nonlinear_arith)
            requires
                n / 128 < pow128(h.len()),
                pow128(g.len()) == 128 * pow128(h.len()),
        ;
        if n / 128 >= 128 {
            assert(p <= n / 128);
        } else {
            assert(h.len() == 1);
            assert(p == 1);
        }
        assert(pow128((g.len() - 1) as nat) <= n) by (nonlinear_arith)
            requires
                pow128((g.len() - 1) as nat) == 128 * p,
                p <= n / 128,
        ;
    } else {
        assert(g.drop_last() =~= Seq::<u8>::empty());
        assert(g.last() % 128 == n % 128);
        assert(digits_value(Seq::<u8>::empty()) == 0);
        assert(n % 128 == n);
        assert(digits_value(g) == n);
        assert(pow128(1) == 128 * pow128(0));
    }
}

proof fn lemma_terminator_at(s: Seq<u8>, i: int, j: int)
    requires
        0 <= i <= j < s.len(),
        forall|k: int| i <= k < j ==> s[k] >= 128,
        s[j] < 128,
    ensures
        terminator(s, i) == j,
    decreases j - i,
{
    if i < j {
        lemma_terminator_at(s, i + 1, j);
    }
}

/// Reading back the encoding of any 64-bit integer gives that integer,
/// whatever bytes follow it. The encoding takes one byte per base-128
/// digit: `k` bytes with `n < 128^k`, and `128^(k-1) <= n` unless `n` is
/// below 128, where it takes a single byte.
pub proof fn lemma_varint_round_trip(n: u64, rest: Seq<u8>)
    ensures
        varint_decode(varint(n as nat) + rest, 0) == Ok::<(u64, int), Error>(
            (n, varint(n as nat).len() as int),
        ),
        varint(n as nat).len() >= 1,
        n < pow128(varint(n as nat).len()),
        n < 128 ==> varint(n as nat).len() == 1,
        n >= 128 ==> pow128((varint(n as nat).len() - 1) as nat) <= n,
{
    let g = varint(n as nat);
    let s = g + rest;
    lemma_groups_shape(n as nat, true);
    assert forall|k: int| 0 <= k < g.len() - 1 implies s[k] >= 128 by {
        assert(s[k] == g[k]);
    }
    assert(s[g.len() - 1] == g.last());
    lemma_terminator_at(s, 0, g.len() - 1);
    assert(s.subrange(0, g.len() as int) =~= g);
}

proof fn lemma_terminator_shift(a: Seq<u8>, b: Seq<u8>, i: int)
    requires
        0 <= i <= b.len(),
    ensures
        terminator(a + b, a.len() + i) == a.len() + terminator(b, i),
    decreases b.len() - i,
{
    if i < b.len() {
        assert((a + b)[a.len() + i] == b[i]);
        lemma_terminator_shift(a, b, i + 1);
    }
}

/// A variable-length integer reads the same after any prefix.
pub proof fn lemma_varint_decode_shift(a: Seq<u8>, b: Seq<u8>)
    ensures
        varint_decode(a + b, a.len() as int) == match varint_decode(b, 0) {
            Ok((v, p)) => Ok::<(u64, int), Error>((v, p + a.len())),
            Err(e) => Err(e),
        },
{
    lemma_terminator_shift(a, b, 0);
    lemma_terminator_range(b, 0);
    let j = terminator(b, 0);
    if j < b.len() {
        assert((a + b).subrange(a.len() as int, a.len() + j + 1) =~= b.subrange(0, j + 1));
    }
}

/// A variable-length integer that reads successfully ends inside `s`.
pub proof fn lemma_varint_decode_bound(s: Seq<u8>, pos: int)
    requires
        0 <= pos <= s.len(),
    ensures
        varint_decode(s, pos) matches Ok((v, p)) ==> pos < p <= s.len(),
{
    lemma_terminator_range(s, pos);
}

proof fn lemma_terminator_range(s: Seq<u8>, i: int)
    requires
        0 <= i <= s.len(),
    ensures
        i <= terminator(s, i) <= s.len(),
    decreases s.len() - i,
{
    if i < s.len() && s[i] >= 128 {
        lemma_terminator_range(s, i + 1);
    }
}

} // verus!
