//! Target selection: given the creeps in range of a turret and a strategy,
//! pick the bounded number of best-scoring targets.
//!
//! Scores are order keys: callers hand in each creep's distance, health
//! and speed as `u64` keys whose order matches the world-space quantities.
//! A strategy turns those keys into a score where *smaller is better*, the
//! score is packed above the creep's identity into one `u128`, and a
//! [`TopN`](crate::top_n::TopN) buffer keeps the smallest packed values, so
//! ties are broken deterministically by identity.
use vstd::prelude::*;

use crate::top_n::TopN;
use crate::top_n::bounded_insert;
use crate::top_n::insert_sorted;

verus! {

/// How a turret ranks the creeps in its range.
#[derive(Clone, Copy, PartialEq, Eq, Structural, Debug)]
pub enum Strategy {
    Closest,
    Furthest,
    Weakest,
    Strongest,
    Slowest,
    Fastest,
}

/// One candidate creep, reduced to its identity and the order keys of the
/// quantities the strategies rank by.
#[derive(Clone, Copy, PartialEq, Eq, Structural, Debug)]
pub struct CreepInfo {
    pub id: u64,
    pub distance: u64,
    pub health: u64,
    pub speed: u64,
}

/// One more than `u64::MAX`: the weight of the score half of a packed
/// value.
pub const PACK_BASE: u128 = 0x1_0000_0000_0000_0000;

/// The score of `c` under `strategy`; smaller is better. Preferring the
/// largest key is expressed by complementing it, which reverses the order.
pub open spec fn spec_score(strategy: Strategy, c: CreepInfo) -> u64 {
    match strategy {
        Strategy::Closest => c.distance,
        Strategy::Furthest => (u64::MAX - c.distance) as u64,
        Strategy::Weakest => c.health,
        Strategy::Strongest => (u64::MAX - c.health) as u64,
        Strategy::Slowest => c.speed,
        Strategy::Fastest => (u64::MAX - c.speed) as u64,
    }
}

/// The score packed above the identity: the packed order is score first,
/// identity second.
pub open spec fn spec_pack(score: u64, id: u64) -> u128 {
    (score * PACK_BASE + id) as u128
}

/// The packed value of `c` under `strategy`.
pub open spec fn packed_score(strategy: Strategy, c: CreepInfo) -> u128 {
    spec_pack(spec_score(strategy, c), c.id)
}

/// The identity half of a packed value.
pub open spec fn spec_unpack_id(v: u128) -> u64 {
    (v % PACK_BASE) as u64
}

/// The packed order is lexicographic: by score, then by identity.
pub proof fn lemma_pack_order(s1: u64, i1: u64, s2: u64, i2: u64)
    ensures
        spec_pack(s1, i1) <= spec_pack(s2, i2) <==> (s1 < s2 || (s1 == s2 && i1 <= i2)),
        spec_unpack_id(spec_pack(s1, i1)) == i1,
{
    let b = PACK_BASE as int;
    assert((s1 * b + i1 <= u128::MAX) && (s2 * b + i2 <= u128::MAX) && (s1 * b + i1 <= s2 * b + i2
        <==> (s1 < s2 || (s1 == s2 && i1 <= i2))) && ((s1 * b + i1) % b == i1))
        by (nonlinear_arith)
        requires
            s1 <= u64::MAX && i1 <= u64::MAX && s2 <= u64::MAX && i2 <= u64::MAX,
            b == 0x1_0000_0000_0000_0000,
    {}
    assert(spec_pack(s1, i1) == s1 * b + i1);
    assert(spec_pack(s2, i2) == s2 * b + i2);
    assert(spec_unpack_id(spec_pack(s1, i1)) == (spec_pack(s1, i1) % PACK_BASE) as u64);
}

/// The identities below a sequence of packed values.
pub open spec fn ids_of(s: Seq<u128>) -> Seq<u64> {
    Seq::new(s.len(), |k: int| spec_unpack_id(s[k]))
}

/// The contents of the selection buffer after offering every creep of
/// `creeps`, in order: each one within `range` is inserted with its packed
/// score, and only the `n` smallest packed values survive.
pub open spec fn select_scores(creeps: Seq<CreepInfo>, strategy: Strategy, range: u64, n: nat) -> Seq<u128>
    decreases creeps.len(),
{
    if creeps.len() == 0 {
        Seq::empty()
    } else {
        let prev = select_scores(creeps.drop_last(), strategy, range, n);
        let c = creeps.last();
        if c.distance <= range {
            bounded_insert(prev, packed_score(strategy, c), n)
        } else {
            prev
        }
    }
}

/// How many of the creeps are within `range`.
pub open spec fn count_in_range(creeps: Seq<CreepInfo>, range: u64) -> int
    decreases creeps.len(),
{
    if creeps.len() == 0 {
        0
    } else {
        count_in_range(creeps.drop_last(), range) + if creeps.last().distance <= range {
            1int
        } else {
            0int
        }
    }
}

/// The selection keeps as many creeps as are within range, capped at the
/// bound `n` — a turret never acquires more targets than its type allows.
pub proof fn lemma_selection_len(creeps: Seq<CreepInfo>, strategy: Strategy, range: u64, n: nat)
    ensures
        select_scores(creeps, strategy, range, n).len() == if count_in_range(creeps, range) > n {
            n as int
        } else {
            count_in_range(creeps, range)
        },
    decreases creeps.len(),
{
    if creeps.len() > 0 {
        let prefix = creeps.drop_last();
        lemma_selection_len(prefix, strategy, range, n);
        if creeps.last().distance <= range {
            crate::top_n::lemma_bounded_insert_len(
                select_scores(prefix, strategy, range, n),
                packed_score(strategy, creeps.last()),
                n,
            );
        }
    }
}

/// Everything selected comes from a creep within range: each kept packed
/// value is the packed score of some candidate whose distance key is
/// within the range key.
pub proof fn lemma_selection_sound(
    creeps: Seq<CreepInfo>,
    strategy: Strategy,
    range: u64,
    n: nat,
    k: int,
)
    requires
        0 <= k < select_scores(creeps, strategy, range, n).len(),
    ensures
        exists|i: int|
            0 <= i < creeps.len() && creeps[i].distance <= range && select_scores(
                creeps,
                strategy,
                range,
                n,
            )[k] == packed_score(strategy, creeps[i]),
    decreases creeps.len(),
{
    let sel = select_scores(creeps, strategy, range, n);
    let prefix = creeps.drop_last();
    let prev = select_scores(prefix, strategy, range, n);
    let c = creeps.last();
    assert(forall|i: int| 0 <= i < prefix.len() ==> prefix[i] == creeps[i]);
    if c.distance <= range {
        let pc = packed_score(strategy, c);
        crate::top_n::lemma_bounded_insert_membership(prev, pc, n, k);
        if sel[k] == pc {
            assert(creeps[creeps.len() - 1].distance <= range && sel[k] == packed_score(
                strategy,
                creeps[creeps.len() - 1],
            ));
        } else {
            let j = choose|j: int| 0 <= j < prev.len() && prev[j] == sel[k];
            lemma_selection_sound(prefix, strategy, range, n, j);
        }
    } else {
        lemma_selection_sound(prefix, strategy, range, n, k);
    }
}

/// Single-target selection is exact: when any creep is within range, a
/// selection bounded to one creep keeps exactly one packed value, it is the
/// packed value of some creep within range, and no creep within range has a
/// smaller one — so the kept creep scores best under the strategy, with
/// ties broken by the lowest identity. With nothing in range, nothing is
/// selected.
pub proof fn lemma_top_one_is_best(creeps: Seq<CreepInfo>, strategy: Strategy, range: u64)
    ensures
        ({
            let sel = select_scores(creeps, strategy, range, 1);
            &&& ((exists|i: int| 0 <= i < creeps.len() && creeps[i].distance <= range) <==> sel.len() == 1)
            &&& (!(exists|i: int| 0 <= i < creeps.len() && creeps[i].distance <= range) ==> sel.len() == 0)
            &&& (forall|i: int|
                0 <= i < creeps.len() && creeps[i].distance <= range ==> sel.len() == 1 && sel[0]
                    <= packed_score(strategy, creeps[i]))
            &&& (sel.len() == 1 ==> exists|i: int|
                0 <= i < creeps.len() && creeps[i].distance <= range && sel[0] == packed_score(
                    strategy,
                    creeps[i],
                ))
        }),
    decreases creeps.len(),
{
    let sel = select_scores(creeps, strategy, range, 1);
    if creeps.len() == 0 {
        assert(sel.len() == 0);
    } else {
        let prefix = creeps.drop_last();
        let prev = select_scores(prefix, strategy, range, 1);
        lemma_top_one_is_best(prefix, strategy, range);
        let c = creeps.last();
        let pc = packed_score(strategy, c);
        assert(forall|i: int| 0 <= i < prefix.len() ==> prefix[i] == creeps[i]);
        if c.distance <= range {
            assert(sel == bounded_insert(prev, pc, 1));
            if prev.len() == 0 {
                assert(insert_sorted(prev, pc) =~= seq![pc]);
                assert(sel =~= seq![pc]);
                assert(sel[0] == packed_score(strategy, creeps[creeps.len() - 1]));
                assert forall|i: int|
                    0 <= i < creeps.len() && creeps[i].distance <= range implies sel.len() == 1
                    && sel[0] <= packed_score(strategy, creeps[i]) by {
                    if i < creeps.len() - 1 {
                        assert(prefix[i].distance <= range);
                        assert(prev.len() == 1);
                        assert(false);
                    }
                }
            } else {
                assert(prev.len() == 1);
                let q = prev[0];
                if pc <= q {
                    assert(insert_sorted(prev, pc) =~= seq![pc] + prev);
                    assert(insert_sorted(prev, pc).len() == 2);
                    assert(sel =~= (seq![pc] + prev).drop_last());
                    assert(sel =~= seq![pc]);
                    assert(sel[0] == packed_score(strategy, creeps[creeps.len() - 1]));
                } else {
                    assert(prev.skip(1).len() == 0);
                    assert(insert_sorted(prev.skip(1), pc) =~= seq![pc]);
                    assert(insert_sorted(prev, pc) =~= seq![q] + insert_sorted(prev.skip(1), pc));
                    assert(insert_sorted(prev, pc).len() == 2);
                    assert(sel =~= (seq![q] + insert_sorted(prev.skip(1), pc)).drop_last());
                    assert(sel =~= seq![q]);
                    let w = choose|i: int|
                        0 <= i < prefix.len() && prefix[i].distance <= range && prev[0]
                            == packed_score(strategy, prefix[i]);
                    assert(creeps[w].distance <= range && sel[0] == packed_score(strategy, creeps[w]));
                }
                assert forall|i: int|
                    0 <= i < creeps.len() && creeps[i].distance <= range implies sel.len() == 1
                    && sel[0] <= packed_score(strategy, creeps[i]) by {
                    if i < creeps.len() - 1 {
                        assert(prefix[i].distance <= range);
                        assert(prev[0] <= packed_score(strategy, prefix[i]));
                    }
                }
            }
        } else {
            assert(sel == prev);
            assert forall|i: int|
                0 <= i < creeps.len() && creeps[i].distance <= range implies sel.len() == 1
                && sel[0] <= packed_score(strategy, creeps[i]) by {
                assert(i < creeps.len() - 1);
                assert(prefix[i].distance <= range);
            }
            if exists|i: int| 0 <= i < creeps.len() && creeps[i].distance <= range {
                let w = choose|i: int| 0 <= i < creeps.len() && creeps[i].distance <= range;
                assert(w < creeps.len() - 1);
                assert(prefix[w].distance <= range);
            }
            if sel.len() == 1 {
                let w = choose|i: int|
                    0 <= i < prefix.len() && prefix[i].distance <= range && sel[0] == packed_score(
                        strategy,
                        prefix[i],
                    );
                assert(creeps[w].distance <= range && sel[0] == packed_score(strategy, creeps[w]));
            }
        }
    }
}

/// The strategy actually used: `Closest` when none is set.
pub open spec fn effective_strategy(strategy: Option<Strategy>) -> Strategy {
    match strategy {
        Some(s) => s,
        None => Strategy::Closest,
    }
}

/// The score of `c` under `strategy`, as executable code.
pub fn score_of(strategy: Strategy, c: &CreepInfo) -> (r: u64)
    ensures
        r == spec_score(strategy, *c),
{
    match strategy {
        Strategy::Closest => c.distance,
        Strategy::Furthest => u64::MAX - c.distance,
        Strategy::Weakest => c.health,
        Strategy::Strongest => u64::MAX - c.health,
        Strategy::Slowest => c.speed,
        Strategy::Fastest => u64::MAX - c.speed,
    }
}

/// The packed value of score and identity.
pub fn pack_score(score: u64, id: u64) -> (r: u128)
    ensures
        r == spec_pack(score, id),
{
    proof {
        lemma_pack_order(score, id, score, id);
    }
    (score as u128) * PACK_BASE + (id as u128)
}

/// The identities of the at most `n` creeps within `turret_range` that the
/// given strategy ranks best, ties broken by identity; `Closest` is used
/// when no strategy is set. The result lists identities in ascending packed
/// order, which for a distance strategy means best first.
pub fn find_top_creeps_within_range(
    creeps: &Vec<CreepInfo>,
    turret_range: u64,
    strategy: Option<Strategy>,
    n: usize,
) -> (r: Vec<u64>)
    ensures
        r@ == ids_of(select_scores(creeps@, effective_strategy(strategy), turret_range, n as nat)),
{
    let strat = match strategy {
        Some(s) => s,
        None => Strategy::Closest,
    };
    let mut best = TopN::new(n);
    let mut i: usize = 0;
    while i < creeps.len()
        invariant
            i <= creeps@.len(),
            best.wf(),
            best.spec_max_size() == n,
            best@ == select_scores(creeps@.take(i as int), strat, turret_range, n as nat),
            strat == effective_strategy(strategy),
        decreases creeps@.len() - i,
    {
        proof {
            assert(creeps@.take(i + 1).drop_last() =~= creeps@.take(i as int));
            assert(creeps@.take(i + 1).last() == creeps@[i as int]);
        }
        let c = creeps[i];
        if c.distance <= turret_range {
            let score = score_of(strat, &c);
            best.insert(pack_score(score, c.id));
        }
        i = i + 1;
    }
    assert(creeps@.take(creeps@.len() as int) =~= creeps@);
    let sel = best.get();
    let mut r: Vec<u64> = Vec::new();
    let mut k: usize = 0;
    while k < sel.len()
        invariant
            k <= sel@.len(),
            r@ =~= ids_of(sel@).take(k as int),
        decreases sel@.len() - k,
    {
        r.push((sel[k] % PACK_BASE) as u64);
        assert(r@ =~= ids_of(sel@).take(k + 1));
        k = k + 1;
    }
    assert(r@ =~= ids_of(sel@));
    r
}

} // verus!
