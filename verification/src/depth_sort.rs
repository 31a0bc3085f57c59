//! Depth ordering of binned splats. Each entry of a tile's list is one
//! 64-bit key holding the splat's depth in the high half and its index in
//! the low half, so plain ascending key order is ascending depth with ties
//! broken by ascending splat index — a deterministic order that does not
//! depend on any backend sort's stability.

use vstd::prelude::*;

verus! {

/// Number of values of the low (splat index) half of a key.
pub const KEY_RADIX: u64 = 4294967296;

/// Sort key: depth in the high 32 bits, splat index in the low 32 bits.
pub open spec fn spec_bin_key(depth: int, splat: int) -> int {
    depth * KEY_RADIX + splat
}

/// Build the sort key of one binned splat.
pub fn bin_key(depth: u32, splat: u32) -> (k: u64)
    ensures
        k == spec_bin_key(depth as int, splat as int),
{
    proof {
        assert((depth as int) * (KEY_RADIX as int) <= 0xffff_ffff_0000_0000) by (nonlinear_arith)
            requires
                depth <= 0xffff_ffffu64,
        ;
    }
    (depth as u64) * KEY_RADIX + (splat as u64)
}

/// Depth half of a key.
pub fn key_depth(k: u64) -> (d: u32)
    ensures
        d == k as int / KEY_RADIX as int,
{
    (k / KEY_RADIX) as u32
}

/// Splat-index half of a key.
pub fn key_splat(k: u64) -> (s: u32)
    ensures
        s == k as int % KEY_RADIX as int,
{
    (k % KEY_RADIX) as u32
}

/// Key order is exactly depth order with ties broken by splat index, and
/// distinct (depth, splat) pairs give distinct keys.
pub proof fn lemma_key_order(d1: int, s1: int, d2: int, s2: int)
    requires
        0 <= d1 < KEY_RADIX,
        0 <= s1 < KEY_RADIX,
        0 <= d2 < KEY_RADIX,
        0 <= s2 < KEY_RADIX,
    ensures
        spec_bin_key(d1, s1) < spec_bin_key(d2, s2) <==> (d1 < d2 || (d1 == d2 && s1 < s2)),
        spec_bin_key(d1, s1) == spec_bin_key(d2, s2) <==> (d1 == d2 && s1 == s2),
{
    assert((d1 * KEY_RADIX + s1 < d2 * KEY_RADIX + s2 <==> (d1 < d2 || (d1 == d2 && s1 < s2)))
        && (d1 * KEY_RADIX + s1 == d2 * KEY_RADIX + s2 <==> (d1 == d2 && s1 == s2)))
        by (nonlinear_arith)
        requires
            0 <= d1 < KEY_RADIX,
            0 <= s1 < KEY_RADIX,
            0 <= d2 < KEY_RADIX,
            0 <= s2 < KEY_RADIX,
    ;
}

/// Keys recover their halves: building and splitting a key are inverse.
pub proof fn lemma_key_halves(depth: int, splat: int)
    requires
        0 <= depth < KEY_RADIX,
        0 <= splat < KEY_RADIX,
    ensures
        spec_bin_key(depth, splat) / KEY_RADIX as int == depth,
        spec_bin_key(depth, splat) % KEY_RADIX as int == splat,
{
    vstd::arithmetic::div_mod::lemma_fundamental_div_mod_converse(
        spec_bin_key(depth, splat),
        KEY_RADIX as int,
        depth,
        splat,
    );
}

/// Ascending order on a key sequence.
pub open spec fn sorted(s: Seq<u64>) -> bool {
    forall|i: int, j: int| 0 <= i < j < s.len() ==> s[i] <= s[j]
}

/// Sort one tile's keys ascending: nearest depth first, ties by splat index.
/// The result holds exactly the keys that came in.
pub fn sort_keys(v: &mut Vec<u64>)
    ensures
        sorted(final(v)@),
        final(v)@.to_multiset() == old(v)@.to_multiset(),
        final(v)@.len() == old(v)@.len(),
{
    broadcast use vstd::seq_lib::to_multiset_update;
    broadcast use vstd::seq_lib::group_to_multiset_ensures;
    broadcast use vstd::multiset::group_multiset_axioms;

    let n: usize = v.len();
    let mut i: usize = 1;
    while i < n
        invariant
            1 <= i,
            n == 0 || i <= n,
            v@.len() == n,
            n == old(v)@.len(),
            v@.to_multiset() == old(v)@.to_multiset(),
            forall|a: int, b: int| 0 <= a < b < i ==> v@[a] <= v@[b],
        decreases n - i,
    {
        let mut j: usize = i;
        while j > 0 && v[j - 1] > v[j]
            invariant
                j <= i < n,
                v@.len() == n,
                n == old(v)@.len(),
                v@.to_multiset() == old(v)@.to_multiset(),
                forall|a: int, b: int| 0 <= a < b <= i && b != j ==> v@[a] <= v@[b],
            decreases j,
        {
            let x: u64 = v[j - 1];
            let y: u64 = v[j];
            let ghost before = v@;
            v.set(j - 1, y);
            v.set(j, x);
            proof {
                let ghost mid = before.update(j as int - 1, y);
                vstd::seq_lib::to_multiset_update(before, j as int - 1, y);
                assert(mid.to_multiset() == before.to_multiset().insert(y).remove(x));
                vstd::seq_lib::to_multiset_update(mid, j as int, x);
                assert(v@ == mid.update(j as int, x));
                assert(mid[j as int] == y);
                assert(v@.to_multiset() == mid.to_multiset().insert(x).remove(y));
                assert(before.contains(x)) by {
                    assert(before[j as int - 1] == x);
                }
                before.to_multiset_ensures();
                assert(before.to_multiset().count(x) > 0);
                assert(v@.to_multiset() =~= before.to_multiset());
            }
            j = j - 1;
        }
        proof {
            assert forall|a: int, b: int| 0 <= a < b < i + 1 implies v@[a] <= v@[b] by {
                if b == j {
                    assert(j > 0);
                    assert(v@[j as int - 1] <= v@[j as int]);
                    if a < j as int - 1 {
                        assert(v@[a] <= v@[j as int - 1]);
                    }
                }
            }
        }
        i = i + 1;
    }
}

/// Two ascending arrangements of the same keys are the same sequence: the
/// per-tile order the sorter produces is the unique one, whatever algorithm
/// arranged it.
pub proof fn lemma_sorted_keys_unique(x: Seq<u64>, y: Seq<u64>)
    requires
        sorted(x),
        sorted(y),
        x.to_multiset() == y.to_multiset(),
    ensures
        x == y,
{
    let leq = |a: u64, b: u64| a <= b;
    assert(vstd::relations::sorted_by(x, leq));
    assert(vstd::relations::sorted_by(y, leq));
    assert(vstd::relations::total_ordering(leq));
    vstd::seq_lib::lemma_sorted_unique(x, y, leq);
    assert(x =~= y);
}

} // verus!
