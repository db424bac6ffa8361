use vstd::prelude::*;

use crate::engine::rng::{lcg_draw, lcg_iterate, lcg_next};

verus! {

/// Most modes a driven bank holds.
pub const MAX_MODES: usize = 64;

/// Generator seed of the per-mode pan draws at note-on.
pub const SPEC_SEED: u32 = 0x2545f491;

/// Generator seed of a bank's per-mode gain shimmer.
pub const NOISE_SEED: u32 = 0x51f15eed;

/// How a driven bank is fed, which sets its injection normalization: strikes inject a fixed
/// impulse share, broadband sustained drive (breath) scales with the mode's decay, tonal
/// sustained drive (serial ring-through) injects the plain bandwidth.
#[derive(Debug, Clone, Copy, PartialEq, Eq, Structural)]
pub enum Injection {
    Strike,
    Noise,
    Tonal,
}

/// One table mode that made it into a bank at note-on.
#[derive(Debug, Clone, Copy, PartialEq, Eq, Structural)]
pub struct ModeDraw {
    /// One-based position of the mode in the material table; it drives the pick-position
    /// comb and the pan side.
    pub index: usize,
    /// Whether the mode pans to the right (odd table position) or the left.
    pub odd: bool,
    /// The mode's 24-bit uniform pan draw.
    pub draw: u32,
}

/// Zero-based table positions of the audible modes, in table order.
pub open spec fn audible_positions(audible: Seq<bool>) -> Seq<int>
    decreases audible.len(),
{
    if audible.len() == 0 {
        Seq::empty()
    } else {
        let rest = audible_positions(audible.drop_last());
        if audible.last() {
            rest.push(audible.len() - 1)
        } else {
            rest
        }
    }
}

/// Only audible modes are kept, in table order: every listed position is in range, flagged
/// audible, and larger than the one before.
pub proof fn lemma_audible_positions_in_order(audible: Seq<bool>)
    ensures
        forall|k: int|
            0 <= k < audible_positions(audible).len() ==> {
                &&& 0 <= #[trigger] audible_positions(audible)[k] < audible.len()
                &&& audible[audible_positions(audible)[k]]
            },
        forall|j: int, k: int|
            0 <= j < k < audible_positions(audible).len() ==> audible_positions(audible)[j]
                < audible_positions(audible)[k],
    decreases audible.len(),
{
    if audible.len() > 0 {
        let shorter = audible.drop_last();
        lemma_audible_positions_in_order(shorter);
        let rest = audible_positions(shorter);
        let all = audible_positions(audible);
        assert forall|k: int| 0 <= k < rest.len() implies all[k] == rest[k] && audible[rest[k]]
            == shorter[rest[k]] by {
            assert(0 <= rest[k] < shorter.len());
        }
        if audible.last() {
            assert(all[rest.len() as int] == audible.len() - 1);
        }
    }
}

/// No audible mode is skipped: every audible table position is listed, and the list is exactly
/// as long as the number of audible positions.
pub proof fn lemma_audible_positions_complete(audible: Seq<bool>)
    ensures
        forall|p: int|
            0 <= p < audible.len() && #[trigger] audible[p] ==> exists|k: int|
                0 <= k < audible_positions(audible).len() && audible_positions(audible)[k] == p,
        audible_positions(audible).len() == audible.filter(|flag: bool| flag).len(),
    decreases audible.len(),
{
    reveal_with_fuel(Seq::filter, 1);
    if audible.len() > 0 {
        let shorter = audible.drop_last();
        lemma_audible_positions_complete(shorter);
        let rest = audible_positions(shorter);
        let all = audible_positions(audible);
        assert forall|p: int| 0 <= p < audible.len() && #[trigger] audible[p] implies exists|k: int|
            0 <= k < all.len() && all[k] == p by {
            if p == audible.len() - 1 {
                assert(all[rest.len() as int] == p);
            } else {
                assert(shorter[p]);
                let k = choose|k: int| 0 <= k < rest.len() && rest[k] == p;
                assert(all[k] == p);
            }
        }
    }
}

/// The number of modes a bank keeps from `found` audible ones.
pub open spec fn kept_count(found: nat) -> nat {
    if found < MAX_MODES {
        found
    } else {
        MAX_MODES as nat
    }
}

proof fn lemma_positions_step(audible: Seq<bool>, p: int)
    requires
        0 <= p < audible.len(),
    ensures
        audible_positions(audible.take(p + 1)) == if audible[p] {
            audible_positions(audible.take(p)).push(p)
        } else {
            audible_positions(audible.take(p))
        },
{
    assert(audible.take(p + 1).drop_last() =~= audible.take(p));
}

proof fn lemma_positions_prefix(audible: Seq<bool>, i: int)
    requires
        0 <= i <= audible.len(),
    ensures
        audible_positions(audible.take(i)).len() <= audible_positions(audible).len(),
        forall|k: int|
            0 <= k < audible_positions(audible.take(i)).len() ==> audible_positions(
                audible.take(i),
            )[k] == audible_positions(audible)[k],
    decreases audible.len(),
{
    if i == audible.len() {
        assert(audible.take(i) =~= audible);
    } else {
        let shorter = audible.drop_last();
        assert(audible.take(i) =~= shorter.take(i));
        lemma_positions_prefix(shorter, i);
    }
}

/// Mode selection at note-on: walks the material table, whose per-mode audibility (the mode
/// frequency falls within the audible band) is given in table order, and keeps the audible
/// modes in order until the bank is full. Each kept mode advances the pan generator from
/// `SPEC_SEED` once and takes the draw of the new state.
pub fn select_modes(audible: &Vec<bool>) -> (modes: Vec<ModeDraw>)
    ensures
        modes.len() == kept_count(audible_positions(audible@).len()),
        modes.len() <= MAX_MODES,
        modes.len() < MAX_MODES ==> modes.len() == audible@.filter(|flag: bool| flag).len(),
        forall|k: int|
            0 <= k < modes.len() ==> {
                &&& modes[k].index == audible_positions(audible@)[k] + 1
                &&& modes[k].odd == ((audible_positions(audible@)[k] + 1) % 2 == 1)
                &&& modes[k].draw == lcg_iterate(SPEC_SEED, (k + 1) as nat) / 256
            },
{
    let mut modes: Vec<ModeDraw> = Vec::new();
    let mut seed = SPEC_SEED;
    let mut position: usize = 0;
    while position < audible.len() && modes.len() < MAX_MODES
        invariant
            position <= audible.len(),
            modes.len() <= MAX_MODES,
            modes.len() == kept_count(audible_positions(audible@.take(position as int)).len()),
            modes.len() < MAX_MODES ==> modes.len() == audible_positions(
                audible@.take(position as int),
            ).len(),
            seed == lcg_iterate(SPEC_SEED, modes.len() as nat),
            forall|k: int|
                0 <= k < modes.len() ==> {
                    &&& modes[k].index == audible_positions(audible@.take(position as int))[k] + 1
                    &&& modes[k].odd == ((audible_positions(audible@.take(position as int))[k] + 1)
                        % 2 == 1)
                    &&& modes[k].draw == lcg_iterate(SPEC_SEED, (k + 1) as nat) / 256
                },
        decreases audible.len() - position,
    {
        proof {
            lemma_positions_step(audible@, position as int);
        }
        let index = position + 1;
        if audible[position] {
            seed = lcg_next(seed);
            let draw = lcg_draw(seed);
            modes.push(ModeDraw { index, odd: index % 2 == 1, draw });
        }
        position = index;
    }
    proof {
        lemma_audible_positions_complete(audible@);
        lemma_positions_prefix(audible@, position as int);
        if position == audible.len() {
            assert(audible@.take(position as int) =~= audible@);
        }
    }
    modes
}

/// Whether bank-B mode `b` is already taken by a bank-A mode before `a`.
pub open spec fn claimed(pairs: Seq<Option<usize>>, a: int, b: int) -> bool {
    exists|i: int| 0 <= i < a && pairs[i] == Some(b as usize)
}

/// Whether bank-B mode `b` may pair with bank-A mode `a`: within reach and not yet taken.
pub open spec fn eligible(
    distances: Seq<Vec<u32>>,
    pairs: Seq<Option<usize>>,
    reach: u32,
    a: int,
    b: int,
) -> bool {
    &&& 0 <= b < distances[a]@.len()
    &&& distances[a]@[b] <= reach
    &&& !claimed(pairs, a, b)
}

/// The partner of bank-A mode `a`: the eligible bank-B mode at the least distance, the first
/// such in bank order; none when no bank-B mode is eligible.
pub open spec fn nearest_partner(
    distances: Seq<Vec<u32>>,
    pairs: Seq<Option<usize>>,
    reach: u32,
    a: int,
    choice: Option<usize>,
) -> bool {
    match choice {
        None => forall|c: int| !eligible(distances, pairs, reach, a, c),
        Some(b) => {
            &&& eligible(distances, pairs, reach, a, b as int)
            &&& forall|c: int|
                eligible(distances, pairs, reach, a, c) ==> distances[a]@[b as int]
                    <= distances[a]@[c]
            &&& forall|c: int|
                0 <= c < b && eligible(distances, pairs, reach, a, c) ==> distances[a]@[c]
                    > distances[a]@[b as int]
        },
    }
}

/// Coupling pairs of the eigensplit: bank-A modes in order each take the nearest bank-B mode
/// within `reach` that no earlier bank-A mode took. `distances[a][b]` is the ordering key of
/// the frequency distance between mode `a` of bank A and mode `b` of bank B (for a
/// non-negative float its bit pattern, which orders as the value does).
pub fn pair_modes(distances: &Vec<Vec<u32>>, b_count: usize, reach: u32) -> (pairs: Vec<
    Option<usize>,
>)
    requires
        forall|a: int| 0 <= a < distances.len() ==> #[trigger] distances[a]@.len() == b_count,
    ensures
        pairs.len() == distances.len(),
        forall|a: int|
            0 <= a < pairs.len() ==> nearest_partner(distances@, pairs@, reach, a, #[trigger] pairs[a]),
{
    let mut used: Vec<bool> = Vec::new();
    let mut fill: usize = 0;
    while fill < b_count
        invariant
            fill <= b_count,
            used.len() == fill,
            forall|b: int| 0 <= b < fill ==> !used[b],
        decreases b_count - fill,
    {
        used.push(false);
        fill = fill + 1;
    }
    let mut pairs: Vec<Option<usize>> = Vec::new();
    let mut a: usize = 0;
    while a < distances.len()
        invariant
            a <= distances.len(),
            pairs.len() == a,
            used.len() == b_count,
            forall|i: int| 0 <= i < distances.len() ==> #[trigger] distances[i]@.len() == b_count,
            forall|b: int| 0 <= b < b_count ==> used[b] == claimed(pairs@, a as int, b),
            forall|i: int|
                0 <= i < a ==> nearest_partner(distances@, pairs@, reach, i, #[trigger] pairs[i]),
        decreases distances.len() - a,
    {
        let row = &distances[a];
        let mut best: Option<usize> = None;
        let mut best_distance: u32 = 0;
        let mut b: usize = 0;
        while b < b_count
            invariant
                b <= b_count,
                row@.len() == b_count,
                row == distances@[a as int],
                used.len() == b_count,
                a < distances.len(),
                forall|c: int| 0 <= c < b_count ==> used[c] == claimed(pairs@, a as int, c),
                match best {
                    None => forall|c: int|
                        0 <= c < b ==> !eligible(distances@, pairs@, reach, a as int, c),
                    Some(chosen) => {
                        &&& chosen < b
                        &&& best_distance == row@[chosen as int]
                        &&& eligible(distances@, pairs@, reach, a as int, chosen as int)
                        &&& forall|c: int|
                            0 <= c < b && eligible(distances@, pairs@, reach, a as int, c)
                                ==> best_distance <= row@[c]
                        &&& forall|c: int|
                            0 <= c < chosen && eligible(distances@, pairs@, reach, a as int, c)
                                ==> row@[c] > best_distance
                    },
                },
            decreases b_count - b,
        {
            let distance = row[b];
            if !used[b] && distance <= reach {
                let closer = match best {
                    None => true,
                    Some(_) => distance < best_distance,
                };
                if closer {
                    best = Some(b);
                    best_distance = distance;
                }
            }
            b = b + 1;
        }
        let ghost before = pairs@;
        pairs.push(best);
        proof {
            lemma_claimed_prefix(before, pairs@, a as int);
            assert forall|i: int| 0 <= i < a implies nearest_partner(
                distances@,
                pairs@,
                reach,
                i,
                #[trigger] pairs[i],
            ) by {
                assert(pairs@[i] == before[i]);
                lemma_claimed_prefix(before, pairs@, i);
                assert forall|c: int| #[trigger] eligible(distances@, pairs@, reach, i, c) == eligible(distances@, before, reach, i, c) by {
                    assert(claimed(pairs@, i, c) == claimed(before, i, c));
                }
                assert(nearest_partner(distances@, before, reach, i, before[i]));
            }
            assert forall|c: int| #[trigger] eligible(distances@, pairs@, reach, a as int, c) == eligible(distances@, before, reach, a as int, c) by {
                assert(claimed(pairs@, a as int, c) == claimed(before, a as int, c));
            }
            assert(nearest_partner(distances@, pairs@, reach, a as int, pairs@[a as int]));
        }
        match best {
            Some(chosen) => {
                used.set(chosen, true);
            },
            None => {},
        }
        proof {
            assert forall|c: int| 0 <= c < b_count implies used[c] == claimed(
                pairs@,
                a + 1,
                c,
            ) by {
                assert(claimed(pairs@, a as int, c) == claimed(before, a as int, c));
                if best == Some(c as usize) {
                    assert(pairs@[a as int] == Some(c as usize));
                } else {
                    if claimed(pairs@, a + 1, c) {
                        let w = choose|w: int| 0 <= w < a + 1 && pairs@[w] == Some(c as usize);
                        assert(w != a);
                        assert(claimed(pairs@, a as int, c));
                    }
                    if claimed(pairs@, a as int, c) {
                        let w = choose|w: int| 0 <= w < a && pairs@[w] == Some(c as usize);
                        assert(claimed(pairs@, a + 1, c));
                    }
                }
            }
        }
        a = a + 1;
    }
    pairs
}

proof fn lemma_claimed_prefix(before: Seq<Option<usize>>, after: Seq<Option<usize>>, upto: int)
    requires
        0 <= upto <= before.len(),
        upto <= after.len(),
        forall|w: int| 0 <= w < upto ==> after[w] == before[w],
    ensures
        forall|c: int| #[trigger] claimed(after, upto, c) == claimed(before, upto, c),
{
    assert forall|c: int| #[trigger] claimed(after, upto, c) == claimed(before, upto, c) by {
        if claimed(before, upto, c) {
            let w = choose|w: int| 0 <= w < upto && before[w] == Some(c as usize);
            assert(after[w] == before[w]);
        }
        if claimed(after, upto, c) {
            let w = choose|w: int| 0 <= w < upto && after[w] == Some(c as usize);
            assert(after[w] == before[w]);
        }
    }
}

/// The coupling pairs form a matching: no bank-B mode partners two bank-A modes.
pub proof fn lemma_pairs_are_disjoint(
    distances: Seq<Vec<u32>>,
    pairs: Seq<Option<usize>>,
    reach: u32,
    i: int,
    j: int,
)
    requires
        forall|a: int|
            0 <= a < pairs.len() ==> nearest_partner(distances, pairs, reach, a, #[trigger] pairs[a]),
        0 <= i < j < pairs.len(),
        pairs[i] is Some,
    ensures
        pairs[j] != pairs[i],
{
    let b = pairs[i]->0;
    assert(claimed(pairs, j, b as int));
    assert(nearest_partner(distances, pairs, reach, j, pairs[j]));
}

} // verus!
