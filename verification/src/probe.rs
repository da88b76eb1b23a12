//! The order in which slots are tried.
//!
//! A probe starts at the slot a hash selects and moves by one slot, then by
//! two, then by three, and so on, wrapping around at the end of the table.
//! When the number of slots is a power of two this order reaches every slot
//! exactly once before it repeats.

use vstd::arithmetic::div_mod::{
    lemma_add_mod_noop, lemma_fundamental_div_mod, lemma_mod_bound, lemma_mod_equivalence,
    lemma_mod_multiples_basic, lemma_mod_twice, lemma_small_mod,
};
use vstd::arithmetic::power2::{
    is_pow2, is_pow2_equiv, lemma2_to64, lemma_pow2, lemma_pow2_pos, lemma_pow2_strictly_increases,
    lemma_pow2_unfold, pow2,
};
use vstd::bits::lemma_usize_low_bits_mask_is_mod;
use vstd::prelude::*;
use vstd::relations::injective_on;
use vstd::set_lib::{lemma_int_range, lemma_map_size, lemma_subset_equality, set_int_range};

verus! {

/// The distance covered by `n` moves: `1 + 2 + ... + n`.
pub open spec fn distance(n: nat) -> nat
    decreases n,
{
    if n == 0 {
        0
    } else {
        distance((n - 1) as nat) + n
    }
}

/// The slot that a probe for `hash` visits after `n` moves in a table of `slots` slots.
pub open spec fn probe_slot(hash: int, n: nat, slots: int) -> int {
    (hash + distance(n)) % slots
}

/// A position in a probe sequence.
pub struct Probe {
    /// The slot to look at.
    pub i: usize,
    /// The number of moves made so far.
    pub len: usize,
}

impl Probe {
    /// Begins the probe sequence of `hash` in a table whose slot count is `mask + 1`.
    pub fn start(hash: usize, mask: usize) -> (probe: Probe)
        requires
            mask < usize::MAX,
            is_pow2(mask + 1),
        ensures
            probe.len == 0,
            probe.i == probe_slot(hash as int, 0, mask + 1),
            probe.i <= mask,
    {
        proof {
            lemma_mask_is_mod(hash, mask);
            lemma_mod_bound(hash as int, mask + 1);
        }
        Probe { i: hash & mask, len: 0 }
    }

    /// Moves on to the next slot of the sequence.
    pub fn next(&mut self, mask: usize)
        requires
            mask < usize::MAX,
            is_pow2(mask + 1),
            old(self).i + old(self).len + 1 <= usize::MAX,
        ensures
            final(self).len == old(self).len + 1,
            final(self).i == (old(self).i + final(self).len) % (mask + 1),
            final(self).i <= mask,
            forall|hash: int|
                old(self).i == #[trigger] probe_slot(hash, old(self).len as nat, mask + 1)
                    ==> final(self).i == probe_slot(hash, final(self).len as nat, mask + 1),
    {
        self.len = self.len + 1;
        let sum: usize = self.i + self.len;
        proof {
            lemma_mask_is_mod(sum, mask);
            lemma_mod_bound(sum as int, mask + 1);
            assert forall|hash: int|
                old(self).i == #[trigger] probe_slot(hash, old(self).len as nat, mask + 1)
                implies (sum as int) % (mask + 1) == probe_slot(hash, self.len as nat, mask + 1) by {
                let before = hash + distance(old(self).len as nat);
                assert(distance(self.len as nat) == distance(old(self).len as nat) + self.len);
                lemma_add_mod_noop(before, self.len as int, mask + 1);
                lemma_add_mod_noop(before % (mask + 1), self.len as int, mask + 1);
                lemma_mod_twice(before, mask + 1);
            }
        }
        self.i = sum & mask;
    }
}

/// `probes` is five times the binary logarithm of the mask, rounded down.
pub open spec fn is_limit(mask: usize, probes: usize) -> bool {
    if mask == 0 {
        probes == 0
    } else {
        probes % 5 == 0 && pow2((probes / 5) as nat) <= mask < pow2((probes / 5 + 1) as nat)
    }
}

/// The number of probes after which a table with this mask counts as crowded.
pub fn limit(mask: usize) -> (probes: usize)
    ensures
        is_limit(mask, probes),
{
    let mut rest: usize = mask;
    let mut log: usize = 0;
    proof {
        lemma2_to64();
        assert(pow2(1) == 2);
    }
    while rest > 1
        invariant
            log + rest <= mask,
            mask == 0 ==> log == 0,
            mask > 0 ==> rest > 0,
            rest * pow2(log as nat) <= mask,
            mask < (rest + 1) * pow2(log as nat),
            log <= 64,
            mask > 0 ==> pow2(log as nat) <= mask,
        decreases rest,
    {
        proof {
            let p = pow2(log as nat) as int;
            let half = (rest / 2) as int;
            lemma_pow2_unfold((log + 1) as nat);
            lemma_pow2_pos(log as nat);
            assert(half * (2 * p) <= mask) by (nonlinear_arith)
                requires
                    2 * half <= rest,
                    rest * p <= mask,
                    p > 0,
            ;
            assert(mask < (half + 1) * (2 * p)) by (nonlinear_arith)
                requires
                    rest + 1 <= 2 * half + 2,
                    mask < (rest + 1) * p,
                    p > 0,
            ;
            assert(2 * p <= mask) by (nonlinear_arith)
                requires
                    half >= 1,
                    half * (2 * p) <= mask,
                    p > 0,
            ;
            if log == 64 {
                lemma2_to64();
            }
        }
        rest = rest / 2;
        log = log + 1;
    }
    proof {
        lemma_pow2_unfold((log + 1) as nat);
        assert(rest * pow2(log as nat) == pow2(log as nat) || rest == 0) by (nonlinear_arith)
            requires
                rest <= 1,
        ;
        assert((rest + 1) * pow2(log as nat) == 2 * pow2(log as nat) || rest == 0) by (nonlinear_arith)
            requires
                rest <= 1,
        ;
    }
    5 * log
}

/// Masking with one less than a power of two is taking the remainder.
proof fn lemma_mask_is_mod(x: usize, mask: usize)
    requires
        mask < usize::MAX,
        is_pow2(mask + 1),
    ensures
        x & mask == (x as int) % (mask + 1),
{
    let slots = mask + 1;
    is_pow2_equiv(slots);
    let k = choose|k: nat| vstd::arithmetic::power::pow(2, k) == slots;
    lemma_pow2(k);
    if k >= usize::BITS {
        lemma2_to64();
        if k > usize::BITS {
            lemma_pow2_strictly_increases(usize::BITS as nat, k);
        }
    }
    lemma_usize_low_bits_mask_is_mod(x, k);
}

/// Twice the distance after `n` moves is `n * (n + 1)`.
proof fn lemma_distance(n: nat)
    ensures
        2 * distance(n) == n * (n + 1),
    decreases n,
{
    if n == 0 {
        assert(n * (n + 1) == 0) by (nonlinear_arith)
            requires
                n == 0,
        ;
    } else {
        let m = (n - 1) as nat;
        lemma_distance(m);
        assert(m * (m + 1) + 2 * n == n * (n + 1)) by (nonlinear_arith)
            requires
                n == m + 1,
        ;
    }
}

/// A power of two that divides a product with an odd factor divides the other factor.
proof fn lemma_odd_factor(a: int, b: int, e: nat)
    requires
        a % 2 == 1,
        (a * b) % (pow2(e) as int) == 0,
    ensures
        b % (pow2(e) as int) == 0,
    decreases e,
{
    lemma_pow2_pos(e);
    if e == 0 {
        lemma2_to64();
    } else {
        let half = pow2((e - 1) as nat) as int;
        lemma_pow2_unfold(e);
        lemma_pow2_pos((e - 1) as nat);
        let q = (a * b) / (2 * half);
        lemma_fundamental_div_mod(a * b, 2 * half);
        let c = a / 2;
        let d = b / 2;
        let r = b % 2;
        assert(a == 2 * c + 1);
        assert(b == 2 * d + r);
        assert(a * b == 2 * (c * b + d) + r) by (nonlinear_arith)
            requires
                a == 2 * c + 1,
                b == 2 * d + r,
        ;
        assert((2 * half) * q == 2 * (half * q)) by (nonlinear_arith);
        assert(r == 0);
        assert(a * b == 2 * (a * d)) by (nonlinear_arith)
            requires
                b == 2 * d,
        ;
        assert(a * d == half * q);
        assert((a * d) % half == 0) by {
            assert(half * q == q * half) by (nonlinear_arith);
            lemma_mod_multiples_basic(q, half);
        }
        lemma_odd_factor(a, d, (e - 1) as nat);
        lemma_fundamental_div_mod(d, half);
        let p = d / half;
        assert(b == p * (2 * half)) by (nonlinear_arith)
            requires
                b == 2 * d,
                d == half * p,
        ;
        lemma_mod_multiples_basic(p, 2 * half);
    }
}

/// Within the first `slots` positions of a probe sequence no slot comes up twice.
pub proof fn lemma_probe_never_repeats(hash: int, m: nat, n: nat, slots: int)
    requires
        is_pow2(slots),
        m < n < slots,
    ensures
        probe_slot(hash, m, slots) != probe_slot(hash, n, slots),
{
    is_pow2_equiv(slots);
    let k = choose|k: nat| vstd::arithmetic::power::pow(2, k) == slots;
    lemma_pow2(k);
    lemma_pow2_unfold(k + 1);
    lemma_distance(m);
    lemma_distance(n);
    if probe_slot(hash, m, slots) == probe_slot(hash, n, slots) {
        let gap = distance(n) - distance(m);
        lemma_mod_equivalence(hash + distance(n), hash + distance(m), slots);
        assert(gap % slots == 0);
        lemma_fundamental_div_mod(gap, slots);
        let q = gap / slots;
        let low: int = n - m;
        let high: int = n as int + m + 1;
        assert(n * (n + 1) - m * (m + 1) == low * high) by (nonlinear_arith)
            requires
                low == n - m,
                high == n + m + 1,
        ;
        assert(low * high == q * (2 * slots)) by (nonlinear_arith)
            requires
                low * high == 2 * gap,
                gap == slots * q,
        ;
        lemma_mod_multiples_basic(q, 2 * slots);
        if low % 2 == 1 {
            lemma_odd_factor(low, high, k + 1);
            lemma_small_mod(high as nat, (2 * slots) as nat);
        } else {
            assert(high % 2 == 1);
            assert(high * low == low * high) by (nonlinear_arith);
            lemma_odd_factor(high, low, k + 1);
            lemma_small_mod(low as nat, (2 * slots) as nat);
        }
    }
}

/// Every slot comes up within the first `slots` positions of every probe sequence.
pub proof fn lemma_probe_reaches_every_slot(hash: int, slot: int, slots: int)
    requires
        is_pow2(slots),
        0 <= slot < slots,
    ensures
        exists|n: nat| n < slots && #[trigger] probe_slot(hash, n, slots) == slot,
{
    let positions = set_int_range(0, slots);
    let visit = |n: int| probe_slot(hash, n as nat, slots);
    let visited = positions.map(visit);
    lemma_int_range(0, slots);
    assert(injective_on(visit, positions)) by {
        assert forall|a: int, b: int|
            positions.contains(a) && positions.contains(b) && #[trigger] visit(a)
                == #[trigger] visit(b) implies a == b by {
            if a < b {
                lemma_probe_never_repeats(hash, a as nat, b as nat, slots);
            } else if b < a {
                lemma_probe_never_repeats(hash, b as nat, a as nat, slots);
            }
        }
    }
    lemma_map_size(positions, visited, visit);
    assert(visited.subset_of(positions)) by {
        assert forall|s: int| visited.contains(s) implies positions.contains(s) by {
            let n = choose|n: int| positions.contains(n) && s == visit(n);
            lemma_mod_bound(hash + distance(n as nat), slots);
        }
    }
    lemma_subset_equality(visited, positions);
    assert(visited.contains(slot));
    let n = choose|n: int| positions.contains(n) && slot == visit(n);
    assert(probe_slot(hash, n as nat, slots) == slot);
}

/// Probing starts at the remainder of the hash and moves on by one slot more
/// each time.
pub proof fn law_probe_slot(hash: int, n: nat, slots: int)
    requires
        slots > 0,
    ensures
        probe_slot(hash, 0, slots) == hash % slots,
        probe_slot(hash, n + 1, slots) == (probe_slot(hash, n, slots) + n + 1) % slots,
{
    lemma_add_mod_noop(hash + distance(n), (n + 1) as int, slots);
    lemma_add_mod_noop((hash + distance(n)) % slots, (n + 1) as int, slots);
    lemma_mod_twice(hash + distance(n), slots);
}

/// A probe is where the order of the slots says, from its start on.
pub proof fn law_probe(hash: usize, mask: usize, start: Probe, probe: &mut Probe)
    requires
        call_ensures(Probe::start, (hash, mask), start),
        call_ensures(Probe::next, (probe, mask), ()),
    ensures
        start.len == 0,
        start.i as int == hash as int % (mask + 1),
        final(probe).len == old(probe).len + 1,
        final(probe).i as int == (old(probe).i + old(probe).len + 1) % (mask + 1),
{
    law_probe_slot(hash as int, 0, mask + 1);
}

/// The limit is five times the binary logarithm of the mask.
pub proof fn law_limit(mask: usize, probes: usize)
    requires
        call_ensures(limit, (mask,), probes),
    ensures
        mask == 0 ==> probes == 0,
        mask > 0 ==> exists|log: nat|
            probes == 5 * log && #[trigger] pow2(log) <= mask && mask < 2 * pow2(log),
{
    if mask > 0 {
        let log = (probes / 5) as nat;
        lemma_pow2_unfold((log + 1) as nat);
        assert(probes == 5 * log && pow2(log) <= mask && mask < 2 * pow2(log));
    }
}

} // verus!
