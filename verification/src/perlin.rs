//! The integer backbone of the lattice noise generator.
//!
//! A noise field owns three shuffled permutation tables of the numbers
//! `0..256`. A lattice point hashes to a table slot by masking each integer
//! coordinate to its low eight bits and folding the three table entries
//! together with exclusive-or, which again lands below 256. The tables are
//! proved to be permutations and the fold is proved to stay in range, so
//! every noise lookup indexes its value arrays safely.

use vstd::prelude::*;

verus! {

use vstd::assert_multisets_equal;
use vstd::seq_lib::group_to_multiset_ensures;
use crate::utils::{lcg_next, lcg_output, lcg_state_after, rand_u32, RandState};

/// Number of entries in one permutation table.
pub const POINT_COUNT: usize = 256;

/// The numbers `0, 1, ..., n-1` in order.
pub open spec fn identity_table(n: int) -> Seq<u32> {
    Seq::new(n as nat, |i: int| i as u32)
}

/// How many values the general stream hands out while shuffling a table of
/// `len` entries: one per slot except the first.
pub open spec fn shuffle_draws(len: int) -> nat {
    if len <= 1 {
        0
    } else {
        (len - 1) as nat
    }
}

/// The table that the shuffle leaves behind, walking slot `i` down to slot 1:
/// each slot swaps with a slot drawn from the general stream, at or below it.
pub open spec fn shuffled_from(s: Seq<u32>, state: u32, i: int) -> Seq<u32>
    decreases i,
{
    if i < 1 {
        s
    } else {
        let j = lcg_output(state) as int % i;
        shuffled_from(s.update(i, s[j]).update(j, s[i]), lcg_next(state), i - 1)
    }
}

/// Exchanging two entries of a table leaves its contents unchanged.
proof fn lemma_swap_preserves_multiset(s: Seq<u32>, i: int, j: int)
    requires
        0 <= i < s.len(),
        0 <= j < s.len(),
        i != j,
    ensures
        s.update(i, s[j]).update(j, s[i]).to_multiset() == s.to_multiset(),
{
    broadcast use group_to_multiset_ensures;

    let a = s[i];
    let b = s[j];
    let mid = s.update(i, b);
    assert(mid[j] == b);
    assert(mid.to_multiset() == s.to_multiset().insert(b).remove(a));
    assert(mid.update(j, a).to_multiset() == mid.to_multiset().insert(a).remove(b));
    assert(s.contains(a));
    assert(s.contains(b));
    assert_multisets_equal!(mid.update(j, a).to_multiset(), s.to_multiset());
}

/// Shuffles the table in place. The result holds exactly the entries it
/// started with, in an order drawn from the general random stream: each slot,
/// taken from the last downward, swaps with a drawn slot at or below it.
pub fn permute(values: &mut Vec<u32>, state: &mut RandState)
    ensures
        final(values)@ == shuffled_from(
            old(values)@,
            old(state).next_rand,
            old(values)@.len() - 1,
        ),
        final(values)@.len() == old(values)@.len(),
        final(values)@.to_multiset() == old(values)@.to_multiset(),
        final(state).next_rand == lcg_state_after(
            old(state).next_rand,
            shuffle_draws(old(values)@.len() as int),
        ),
        final(state).deterministic_next_rand == old(state).deterministic_next_rand,
{
    let ghost orig = values@;
    let ghost seed = state.next_rand;
    if values.len() > 1 {
        let mut i: usize = values.len() - 1;
        while i >= 1
            invariant
                i <= orig.len() - 1,
                values@.len() == orig.len(),
                values@.to_multiset() == orig.to_multiset(),
                shuffled_from(values@, state.next_rand, i as int) == shuffled_from(
                    orig,
                    seed,
                    orig.len() - 1,
                ),
                state.next_rand == lcg_state_after(seed, (orig.len() - 1 - i) as nat),
                state.deterministic_next_rand == old(state).deterministic_next_rand,
            decreases i,
        {
            let ghost state_at_entry = state.next_rand;
            let r = rand_u32(state);
            let j = (r as usize) % i;
            let a = values[i];
            let b = values[j];
            let ghost before = values@;
            values.set(i, b);
            values.set(j, a);
            proof {
                lemma_swap_preserves_multiset(before, i as int, j as int);
                assert(values@ == before.update(i as int, before[j as int]).update(
                    j as int,
                    before[i as int],
                ));
                assert(shuffled_from(before, state_at_entry, i as int) == shuffled_from(
                    values@,
                    state.next_rand,
                    i as int - 1,
                ));
                assert(lcg_state_after(seed, (orig.len() - 1 - i + 1) as nat) == state.next_rand);
            }
            i = i - 1;
        }
    }
}

/// Builds one permutation table: the numbers `0..256`, shuffled. The result
/// is proved a permutation of the identity table, so every entry lies below
/// 256.
pub fn perlin_generate_perm(state: &mut RandState) -> (perm: Vec<u32>)
    ensures
        perm@.len() == POINT_COUNT,
        perm@ == shuffled_from(
            identity_table(POINT_COUNT as int),
            old(state).next_rand,
            POINT_COUNT - 1,
        ),
        perm@.to_multiset() == identity_table(POINT_COUNT as int).to_multiset(),
        forall|t: int| 0 <= t < perm@.len() ==> #[trigger] perm@[t] < POINT_COUNT,
        final(state).next_rand == lcg_state_after(
            old(state).next_rand,
            shuffle_draws(POINT_COUNT as int),
        ),
        final(state).deterministic_next_rand == old(state).deterministic_next_rand,
{
    let mut values: Vec<u32> = Vec::new();
    let mut i: usize = 0;
    while i < POINT_COUNT
        invariant
            i <= POINT_COUNT,
            values@ =~= identity_table(i as int),
        decreases POINT_COUNT - i,
    {
        values.push(i as u32);
        proof {
            assert(values@ =~= identity_table(i + 1));
        }
        i = i + 1;
    }
    permute(&mut values, state);
    proof {
        broadcast use group_to_multiset_ensures;

        let ident = identity_table(POINT_COUNT as int);
        assert forall|t: int| 0 <= t < values@.len() implies #[trigger] values@[t]
            < POINT_COUNT by {
            assert(values@.contains(values@[t]));
            assert(values@.to_multiset().count(values@[t]) > 0);
            assert(ident.to_multiset().count(values@[t]) > 0);
            assert(ident.contains(values@[t]));
            let w = choose|w: int| 0 <= w < ident.len() && ident[w] == values@[t];
            assert(ident[w] == w as u32);
        }
    }
    values
}

/// Hashes a lattice point to a table slot: each coordinate masked to its low
/// eight bits selects one entry per table, and the three entries fold
/// together with exclusive-or. With permutation tables the result is again
/// below 256, so it indexes the noise values safely.
pub fn lattice_index(
    perm_x: &Vec<u32>,
    perm_y: &Vec<u32>,
    perm_z: &Vec<u32>,
    i: i32,
    j: i32,
    k: i32,
) -> (r: usize)
    requires
        perm_x@.len() == POINT_COUNT,
        perm_y@.len() == POINT_COUNT,
        perm_z@.len() == POINT_COUNT,
        forall|t: int| 0 <= t < perm_x@.len() ==> #[trigger] perm_x@[t] < POINT_COUNT,
        forall|t: int| 0 <= t < perm_y@.len() ==> #[trigger] perm_y@[t] < POINT_COUNT,
        forall|t: int| 0 <= t < perm_z@.len() ==> #[trigger] perm_z@[t] < POINT_COUNT,
    ensures
        r < POINT_COUNT,
        r == (perm_x@[(i & 255) as int] ^ perm_y@[(j & 255) as int] ^ perm_z@[(k & 255) as int])
            as usize,
{
    proof {
        assert(0 <= (i & 255) < 256) by (bit_vector);
        assert(0 <= (j & 255) < 256) by (bit_vector);
        assert(0 <= (k & 255) < 256) by (bit_vector);
    }
    let xi = (i & 255) as usize;
    let yi = (j & 255) as usize;
    let zi = (k & 255) as usize;
    let a = perm_x[xi];
    let b = perm_y[yi];
    let c = perm_z[zi];
    proof {
        assert((a ^ b ^ c) < 256) by (bit_vector)
            requires
                a < 256,
                b < 256,
                c < 256,
        ;
    }
    (a ^ b ^ c) as usize
}

} // verus!
