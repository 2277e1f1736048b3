//! Comparisons on 32-bit TCP sequence numbers under wrapping (mod 2^32)
//! arithmetic. These are the only permitted comparisons between sequence
//! numbers; all arithmetic on them uses wrapping add/sub.

use vstd::prelude::*;

verus! {

/// `lhs` precedes `rhs` on the sequence ring, by the RFC 1323 half-space
/// rule: `(lhs - rhs) mod 2^32 > 2^31`, i.e. `lhs` lies in the "earlier"
/// half of the ring as seen from `rhs`.
pub open spec fn spec_wrapping_lt(lhs: u32, rhs: u32) -> bool {
    lhs.wrapping_sub(rhs) > 0x8000_0000u32
}

/// Strict open interval `(start, end)` on the sequence ring.
pub open spec fn spec_in_between_wrapped(start: u32, x: u32, end: u32) -> bool {
    spec_wrapping_lt(start, x) && spec_wrapping_lt(x, end)
}

#[verifier::when_used_as_spec(spec_wrapping_lt)]
pub fn wrapping_lt(lhs: u32, rhs: u32) -> (r: bool)
    ensures
        r == spec_wrapping_lt(lhs, rhs),
{
    lhs.wrapping_sub(rhs) > 0x8000_0000u32
}

#[verifier::when_used_as_spec(spec_in_between_wrapped)]
pub fn in_between_wrapped(start: u32, x: u32, end: u32) -> (r: bool)
    ensures
        r == spec_in_between_wrapped(start, x, end),
{
    wrapping_lt(start, x) && wrapping_lt(x, end)
}

/// `wrapping_lt` is antisymmetric: two sequence numbers never each precede
/// the other on the ring.
pub proof fn lemma_wrapping_lt_antisymmetric(a: u32, b: u32)
    ensures
        !(spec_wrapping_lt(a, b) && spec_wrapping_lt(b, a)),
{
}

/// On any pair less than 2^31 apart, `wrapping_lt` agrees with the ordinary
/// `<` on the underlying integers.
pub proof fn lemma_wrapping_lt_consistent_with_lt(a: u32, b: u32)
    requires
        a <= b ==> b - a < 0x8000_0000,
        b <= a ==> a - b < 0x8000_0000,
    ensures
        spec_wrapping_lt(a, b) == (a < b),
{
}

/// Shifting both arguments by the same constant (mod 2^32) leaves
/// `wrapping_lt` unchanged.
pub proof fn lemma_wrapping_lt_shift_invariant(a: u32, b: u32, k: u32)
    ensures
        spec_wrapping_lt(a.wrapping_add(k), b.wrapping_add(k)) == spec_wrapping_lt(a, b),
{
}

/// `in_between_wrapped(start, x, end)` is invariant under adding the same
/// constant (mod 2^32) to all three arguments.
pub proof fn lemma_in_between_wrapped_shift_invariant(start: u32, x: u32, end: u32, k: u32)
    ensures
        spec_in_between_wrapped(start.wrapping_add(k), x.wrapping_add(k), end.wrapping_add(k))
            == spec_in_between_wrapped(start, x, end),
{
    lemma_wrapping_lt_shift_invariant(start, x, k);
    lemma_wrapping_lt_shift_invariant(x, end, k);
}

/// `wrapping_lt` in terms of the forward distance `b - a` on the ring.
pub proof fn lemma_wrapping_lt_dist(a: u32, b: u32)
    ensures
        spec_wrapping_lt(a, b) == (a != b && b.wrapping_sub(a) < 0x8000_0000),
{
}

/// Walking `k` forward from `x` extends the forward distance from `a` by
/// `k`, as long as the total stays on one turn of the ring.
pub proof fn lemma_dist_add_chain(a: u32, x: u32, k: u32)
    requires
        x.wrapping_sub(a) + k <= u32::MAX,
    ensures
        x.wrapping_add(k).wrapping_sub(a) == x.wrapping_sub(a) + k,
{
}

/// A midpoint `b` between `a` and `x` splits the forward distance.
pub proof fn lemma_dist_sub(a: u32, b: u32, x: u32)
    requires
        b.wrapping_sub(a) <= x.wrapping_sub(a),
    ensures
        x.wrapping_sub(b) == x.wrapping_sub(a) - b.wrapping_sub(a),
{
}

/// Within a half-ring window based at `base`, `wrapping_lt` agrees with the
/// order of the forward distances from `base`.
pub proof fn lemma_ring_lt(base: u32, a: u32, b: u32)
    requires
        a.wrapping_sub(base) < 0x8000_0000,
        b.wrapping_sub(base) < 0x8000_0000,
    ensures
        spec_wrapping_lt(a, b) == (a.wrapping_sub(base) < b.wrapping_sub(base)),
{
}

/// Going past `b` from `x` wraps: the forward distance from `b` comes out on
/// the far side of the ring.
pub proof fn lemma_dist_sub_wrap(a: u32, b: u32, x: u32)
    requires
        x.wrapping_sub(a) < b.wrapping_sub(a),
    ensures
        x.wrapping_sub(b) == 0x1_0000_0000 - (b.wrapping_sub(a) - x.wrapping_sub(a)),
{
}

/// Stepping the base back by one lengthens the forward distance by one.
pub proof fn lemma_dist_pred(base: u32, x: u32)
    requires
        x.wrapping_sub(base) < u32::MAX,
    ensures
        x.wrapping_sub(base.wrapping_sub(1)) == x.wrapping_sub(base) + 1,
{
}

/// Equal forward distances from one base mean equal points.
pub proof fn lemma_dist_inj(base: u32, x: u32, y: u32)
    requires
        x.wrapping_sub(base) == y.wrapping_sub(base),
    ensures
        x == y,
{
}

/// `base` advanced by an unbounded count of steps, reduced to the ring.
pub open spec fn wadd_nat(base: u32, n: nat) -> u32 {
    ((base + n) % 0x1_0000_0000) as u32
}

/// Advancing by zero steps stays put.
pub proof fn lemma_wadd_nat_zero(base: u32)
    ensures
        wadd_nat(base, 0) == base,
{
    vstd::arithmetic::div_mod::lemma_small_mod(base as nat, 0x1_0000_0000);
}

/// Advancing by `x` steps and then `k` more lands where advancing by
/// `x + k` does.
pub proof fn lemma_wadd_nat_step(base: u32, x: nat, k: u32)
    ensures
        wadd_nat(base, x).wrapping_add(k) == wadd_nat(base, (x + k) as nat),
{
    let m = 0x1_0000_0000int;
    let y = (base + x) % m;
    vstd::arithmetic::div_mod::lemma_mod_bound(base + x, m);
    vstd::arithmetic::div_mod::lemma_add_mod_noop(base + x, k as int, m);
    vstd::arithmetic::div_mod::lemma_small_mod(k as nat, m as nat);
    if y + k <= u32::MAX {
        vstd::arithmetic::div_mod::lemma_small_mod((y + k) as nat, m as nat);
    } else {
        vstd::arithmetic::div_mod::lemma_mod_sub_multiples_vanish(y + k, m);
        vstd::arithmetic::div_mod::lemma_small_mod((y + k - m) as nat, m as nat);
    }
}

} // verus!
