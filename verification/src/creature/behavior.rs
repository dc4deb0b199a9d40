//! What creatures decide: which food to head for, which food they eat, which of
//! them reproduce, and which are culled when a generation ends.
//!
//! Distances and fitness values are floating-point numbers in the simulation;
//! the functions here take them as order keys: unsigned integers that compare
//! exactly as the values they stand for.

use crate::chance::random_ratio;
use crate::creature::genetics::Generation;
use vstd::prelude::*;

verus! {

/// At most this many creatures reproduce in one step.
pub const MAX_REPRODUCTIONS: usize = 5;

/// At most this many creatures are culled when a generation ends.
pub const CULL_BATCH: usize = 5;

/// Creature `a` ranks before creature `b`: its fitness is higher, or equal with
/// `a` coming first.
pub open spec fn ranks_before(keys: Seq<u32>, a: usize, b: usize) -> bool {
    keys[a as int] > keys[b as int] || (keys[a as int] == keys[b as int] && a < b)
}

/// `ranking` lists each creature exactly once, best fitness first, creatures of
/// equal fitness in the order they are listed.
pub open spec fn is_fitness_ranking(keys: Seq<u32>, ranking: Seq<usize>) -> bool {
    &&& ranking.len() == keys.len()
    &&& forall|i: int| 0 <= i < ranking.len() ==> #[trigger] ranking[i] < keys.len()
    &&& forall|k: usize| k < keys.len() ==> ranking.contains(k)
    &&& forall|i: int, j: int|
        0 <= i < j < ranking.len() ==> ranks_before(keys, #[trigger] ranking[i], #[trigger] ranking[j])
}

/// Ranks the creatures by fitness, best first; creatures of equal fitness keep
/// their order.
pub fn rank_by_fitness(fitness_keys: &Vec<u32>) -> (ranking: Vec<usize>)
    ensures
        is_fitness_ranking(fitness_keys@, ranking@),
{
    let n = fitness_keys.len();
    let mut ranking: Vec<usize> = Vec::new();
    let mut idx: usize = 0;
    while idx < n
        invariant
            n == fitness_keys@.len(),
            idx <= n,
            ranking@.len() == idx,
            forall|i: int| 0 <= i < ranking@.len() ==> #[trigger] ranking@[i] < idx,
            forall|k: usize| k < idx ==> ranking@.contains(k),
            forall|i: int, j: int|
                0 <= i < j < ranking@.len() ==> ranks_before(
                    fitness_keys@,
                    #[trigger] ranking@[i],
                    #[trigger] ranking@[j],
                ),
        decreases n - idx,
    {
        let key = fitness_keys[idx];
        let mut p: usize = 0;
        while p < ranking.len() && fitness_keys[ranking[p]] >= key
            invariant
                n == fitness_keys@.len(),
                idx < n,
                key == fitness_keys@[idx as int],
                p <= ranking@.len(),
                forall|i: int| 0 <= i < ranking@.len() ==> #[trigger] ranking@[i] < idx,
                forall|q: int| 0 <= q < p ==> fitness_keys@[#[trigger] ranking@[q] as int] >= key,
            decreases ranking.len() - p,
        {
            p += 1;
        }
        let ghost old_ranking = ranking@;
        ranking.insert(p, idx);
        proof {
            assert(ranking@ == old_ranking.insert(p as int, idx));
            assert forall|i: int| 0 <= i < ranking@.len() implies #[trigger] ranking@[i] < idx + 1 by {
                if i < p {
                    assert(ranking@[i] == old_ranking[i]);
                } else if i > p {
                    assert(ranking@[i] == old_ranking[i - 1]);
                }
            }
            assert forall|k: usize| k < idx + 1 implies ranking@.contains(k) by {
                if k == idx {
                    assert(ranking@[p as int] == idx);
                } else {
                    assert(old_ranking.contains(k));
                    let j = choose|j: int| 0 <= j < old_ranking.len() && old_ranking[j] == k;
                    if j < p {
                        assert(ranking@[j] == k);
                    } else {
                        assert(ranking@[j + 1] == k);
                    }
                }
            }
            // Every creature after the insertion point has a lower key.
            assert forall|q: int| p <= q < old_ranking.len() implies fitness_keys@[
                #[trigger] old_ranking[q] as int] < key by {
                if q > p {
                    assert(ranks_before(fitness_keys@, old_ranking[p as int], old_ranking[q]));
                }
            }
            assert forall|i: int, j: int| 0 <= i < j < ranking@.len() implies ranks_before(
                fitness_keys@,
                #[trigger] ranking@[i],
                #[trigger] ranking@[j],
            ) by {
                if j < p {
                    assert(ranking@[i] == old_ranking[i]);
                    assert(ranking@[j] == old_ranking[j]);
                } else if j == p {
                    assert(ranking@[i] == old_ranking[i]);
                } else if i == p {
                    assert(ranking@[j] == old_ranking[j - 1]);
                } else if i < p {
                    assert(ranking@[i] == old_ranking[i]);
                    assert(ranking@[j] == old_ranking[j - 1]);
                } else {
                    assert(ranking@[i] == old_ranking[i - 1]);
                    assert(ranking@[j] == old_ranking[j - 1]);
                }
            }
        }
        idx += 1;
    }
    ranking
}

/// How many creatures a generation of `n` keeps out of the cull: nine tenths of
/// the population, rounded down.
pub open spec fn elite_count(n: nat) -> nat {
    (9 * n / 10) as nat
}

/// The creatures culled from a ranking: those ranked from `elite_count`
/// onwards, at most `CULL_BATCH` of them.
pub open spec fn culled_from(ranking: Seq<usize>) -> Seq<usize> {
    let start = elite_count(ranking.len());
    let end = if start + CULL_BATCH < ranking.len() {
        start + CULL_BATCH
    } else {
        ranking.len() as int
    };
    ranking.subrange(start as int, end)
}

/// What ending a generation decides.
pub struct GenerationReport {
    /// The number of the generation that starts.
    pub generation: u32,
    /// How many creatures were alive when the generation ended.
    pub total_creatures: usize,
    /// The creatures, best fitness first.
    pub ranking: Vec<usize>,
    /// The creatures to remove, in ranking order.
    pub culled: Vec<usize>,
}

fn elite_count_of(n: usize) -> (e: usize)
    ensures
        e == elite_count(n as nat),
{
    let ceil_tenth: usize = n / 10 + if n % 10 != 0 {
        1
    } else {
        0
    };
    assert(n - ceil_tenth == 9 * n / 10) by (nonlinear_arith)
        requires
            ceil_tenth == n / 10 + if n % 10 != 0 {
                1int
            } else {
                0int
            },
            n >= 0,
    ;
    n - ceil_tenth
}

/// Ends a generation: ranks the creatures by fitness, culls at most
/// `CULL_BATCH` of those ranked after the best nine tenths, and advances the
/// generation counter.
pub fn evolution_generation(generation: &mut Generation, fitness_keys: &Vec<u32>) -> (report: GenerationReport)
    requires
        old(generation).0 < u32::MAX,
    ensures
        final(generation).0 == old(generation).0 + 1,
        report.generation == final(generation).0,
        report.total_creatures == fitness_keys@.len(),
        is_fitness_ranking(fitness_keys@, report.ranking@),
        report.culled@ == culled_from(report.ranking@),
{
    let ranking = rank_by_fitness(fitness_keys);
    let total_creatures = ranking.len();
    let elite = elite_count_of(total_creatures);
    let end: usize = if total_creatures - elite > CULL_BATCH {
        elite + CULL_BATCH
    } else {
        total_creatures
    };
    let mut culled: Vec<usize> = Vec::new();
    let mut i: usize = elite;
    while i < end
        invariant
            elite <= i <= end <= ranking@.len(),
            culled@ == ranking@.subrange(elite as int, i as int),
        decreases end - i,
    {
        culled.push(ranking[i]);
        i += 1;
        assert(culled@ =~= ranking@.subrange(elite as int, i as int));
    }
    generation.0 = generation.0 + 1;
    GenerationReport { generation: generation.0, total_creatures, ranking, culled }
}

proof fn lemma_rankings_agree_at(keys: Seq<u32>, r1: Seq<usize>, r2: Seq<usize>, i: int)
    requires
        is_fitness_ranking(keys, r1),
        is_fitness_ranking(keys, r2),
        0 <= i < r1.len(),
        forall|j: int| 0 <= j < i ==> r1[j] == r2[j],
    ensures
        r1[i] == r2[i],
{
    let a = r1[i];
    let b = r2[i];
    if a != b {
        assert(r2.contains(a));
        let j = choose|j: int| 0 <= j < r2.len() && r2[j] == a;
        assert(r1.contains(b));
        let k = choose|k: int| 0 <= k < r1.len() && r1[k] == b;
        if j < i {
            assert(r1[j] == a);
            assert(ranks_before(keys, r1[j], r1[i]));
        } else if k < i {
            assert(r2[k] == b);
            assert(ranks_before(keys, r2[k], r2[i]));
        } else {
            assert(ranks_before(keys, r2[i], r2[j]));
            assert(ranks_before(keys, r1[i], r1[k]));
        }
    }
}

proof fn lemma_rankings_agree_below(keys: Seq<u32>, r1: Seq<usize>, r2: Seq<usize>, i: int)
    requires
        is_fitness_ranking(keys, r1),
        is_fitness_ranking(keys, r2),
        0 <= i <= r1.len(),
    ensures
        forall|j: int| 0 <= j < i ==> r1[j] == r2[j],
    decreases i,
{
    if i > 0 {
        lemma_rankings_agree_below(keys, r1, r2, i - 1);
        lemma_rankings_agree_at(keys, r1, r2, i - 1);
    }
}

/// Law: the keys determine the ranking; no two different rankings both list
/// every creature once, best first, ties in the order listed.
pub proof fn law_ranking_is_unique(keys: Seq<u32>, r1: Seq<usize>, r2: Seq<usize>)
    requires
        is_fitness_ranking(keys, r1),
        is_fitness_ranking(keys, r2),
    ensures
        r1 == r2,
{
    lemma_rankings_agree_below(keys, r1, r2, r1.len() as int);
    assert(r1 =~= r2);
}

/// Law: the cull spares the best: at most `CULL_BATCH` creatures are culled,
/// each ranks below every creature of the best nine tenths, and with two or
/// more creatures the best one is never culled.
pub proof fn law_cull_spares_the_best(keys: Seq<u32>, ranking: Seq<usize>)
    requires
        is_fitness_ranking(keys, ranking),
    ensures
        culled_from(ranking).len() <= CULL_BATCH,
        elite_count(ranking.len()) + culled_from(ranking).len() <= ranking.len(),
        forall|i: int, j: int|
            0 <= i < elite_count(ranking.len()) && 0 <= j < culled_from(ranking).len() ==> ranks_before(
                keys,
                ranking[i],
                culled_from(ranking)[j],
            ),
        ranking.len() >= 2 ==> !culled_from(ranking).contains(ranking[0]),
{
    let e = elite_count(ranking.len());
    let c = culled_from(ranking);
    assert forall|i: int, j: int| 0 <= i < e && 0 <= j < c.len() implies ranks_before(
        keys,
        ranking[i],
        c[j],
    ) by {
        assert(c[j] == ranking[e + j]);
    }
    if ranking.len() >= 2 {
        assert(e >= 1);
        if c.contains(ranking[0]) {
            let j = choose|j: int| 0 <= j < c.len() && c[j] == ranking[0];
            assert(ranks_before(keys, ranking[0], c[j]));
        }
    }
}

/// The food to head for: among the foods closer than the creature's vision
/// reaches, the nearest one, the first of equally near ones; `None` when no food
/// is in sight.
pub open spec fn nearest_in_sight(distance_keys: Seq<u32>, vision_key: u32) -> Option<usize>
    decreases distance_keys.len(),
{
    if distance_keys.len() == 0 {
        None
    } else {
        let last = (distance_keys.len() - 1) as usize;
        let d = distance_keys.last();
        match nearest_in_sight(distance_keys.drop_last(), vision_key) {
            Some(best) => if d < vision_key && d < distance_keys[best as int] {
                Some(last)
            } else {
                Some(best)
            },
            None => if d < vision_key {
                Some(last)
            } else {
                None
            },
        }
    }
}

/// Picks the food a creature heads for, given the distance to each food and the
/// reach of its vision (as order keys): the nearest food strictly within
/// sight, the first one when several are equally near, or `None` when no food
/// is in sight.
pub fn update_creature_behavior(distance_keys: &Vec<u32>, vision_key: u32) -> (target: Option<usize>)
    ensures
        target == nearest_in_sight(distance_keys@, vision_key),
        target matches Some(i) ==> {
            &&& i < distance_keys@.len()
            &&& distance_keys@[i as int] < vision_key
            &&& forall|j: int|
                0 <= j < distance_keys@.len() && distance_keys@[j] < vision_key ==> distance_keys@[i as int]
                    <= distance_keys@[j]
            &&& forall|j: int|
                0 <= j < i && distance_keys@[j] < vision_key ==> distance_keys@[i as int]
                    < distance_keys@[j]
        },
        target is None ==> forall|j: int|
            0 <= j < distance_keys@.len() ==> distance_keys@[j] >= vision_key,
{
    let mut nearest: Option<usize> = None;
    let mut i: usize = 0;
    while i < distance_keys.len()
        invariant
            i <= distance_keys@.len(),
            nearest == nearest_in_sight(distance_keys@.take(i as int), vision_key),
        decreases distance_keys.len() - i,
    {
        let d = distance_keys[i];
        assert(distance_keys@.take(i + 1).drop_last() =~= distance_keys@.take(i as int));
        match nearest {
            Some(best) => {
                proof {
                    law_nearest_in_sight(distance_keys@.take(i as int), vision_key);
                    assert(distance_keys@.take(i + 1)[best as int] == distance_keys@[best as int]);
                }
                if d < vision_key && d < distance_keys[best] {
                    nearest = Some(i);
                }
            },
            None => {
                if d < vision_key {
                    nearest = Some(i);
                }
            },
        }
        i += 1;
    }
    proof {
        assert(distance_keys@.take(distance_keys@.len() as int) =~= distance_keys@);
        law_nearest_in_sight(distance_keys@, vision_key);
    }
    nearest
}

/// Law: the food a creature heads for is in sight, no food in sight is nearer,
/// and no earlier food is as near; with no food in sight there is no target.
pub proof fn law_nearest_in_sight(distance_keys: Seq<u32>, vision_key: u32)
    requires
        distance_keys.len() <= usize::MAX,
    ensures
        nearest_in_sight(distance_keys, vision_key) matches Some(i) ==> {
            &&& i < distance_keys.len()
            &&& distance_keys[i as int] < vision_key
            &&& forall|j: int|
                0 <= j < distance_keys.len() && distance_keys[j] < vision_key ==> distance_keys[i as int]
                    <= distance_keys[j]
            &&& forall|j: int|
                0 <= j < i && distance_keys[j] < vision_key ==> distance_keys[i as int] < distance_keys[j]
        },
        nearest_in_sight(distance_keys, vision_key) is None ==> forall|j: int|
            0 <= j < distance_keys.len() ==> distance_keys[j] >= vision_key,
    decreases distance_keys.len(),
{
    if distance_keys.len() > 0 {
        let prev = distance_keys.drop_last();
        law_nearest_in_sight(prev, vision_key);
        assert forall|j: int| 0 <= j < prev.len() implies prev[j] == distance_keys[j] by {}
        let last = distance_keys.len() - 1;
        assert(distance_keys.last() == distance_keys[last]);
        match nearest_in_sight(prev, vision_key) {
            Some(best) => {
                assert(prev[best as int] == distance_keys[best as int]);
                assert forall|j: int| 0 <= j < last && distance_keys[j] < vision_key implies distance_keys[best as int]
                    <= distance_keys[j] by {
                    assert(prev[j] == distance_keys[j]);
                }
            },
            None => {
                assert forall|j: int| 0 <= j < last implies distance_keys[j] >= vision_key by {
                    assert(prev[j] == distance_keys[j]);
                }
            },
        }
    }
}

/// The creatures whose eligibility and luck both hold, in order, among the
/// first `n`.
pub open spec fn lucky_candidates(eligible: Seq<bool>, lucky: Seq<bool>, n: int) -> Seq<usize>
    decreases n,
{
    if n <= 0 {
        Seq::empty()
    } else {
        let prev = lucky_candidates(eligible, lucky, n - 1);
        if eligible[n - 1] && lucky[n - 1] {
            prev.push((n - 1) as usize)
        } else {
            prev
        }
    }
}

/// The creatures that reproduce: the first `MAX_REPRODUCTIONS` of those that are
/// both eligible and lucky.
pub open spec fn reproducer_choice(eligible: Seq<bool>, lucky: Seq<bool>) -> Seq<usize> {
    let c = lucky_candidates(eligible, lucky, eligible.len() as int);
    if c.len() > MAX_REPRODUCTIONS {
        c.subrange(0, MAX_REPRODUCTIONS as int)
    } else {
        c
    }
}

/// Chooses the creatures that reproduce, given for each creature whether it is
/// eligible (enough energy and fitness) and whether its chance came up: the
/// first `MAX_REPRODUCTIONS` creatures, in order, for which both hold.
pub fn choose_reproducers(eligible: &Vec<bool>, lucky: &Vec<bool>) -> (chosen: Vec<usize>)
    requires
        eligible@.len() == lucky@.len(),
    ensures
        chosen@ == reproducer_choice(eligible@, lucky@),
{
    let mut chosen: Vec<usize> = Vec::new();
    let mut i: usize = 0;
    while i < eligible.len()
        invariant
            eligible@.len() == lucky@.len(),
            i <= eligible@.len(),
            chosen@ == lucky_candidates(eligible@, lucky@, i as int),
        decreases eligible.len() - i,
    {
        if eligible[i] && lucky[i] {
            chosen.push(i);
        }
        i += 1;
    }
    chosen.truncate(MAX_REPRODUCTIONS);
    chosen
}

/// Law: the creatures that reproduce are at most `MAX_REPRODUCTIONS`, listed in
/// increasing order, and each of them is eligible and lucky.
pub proof fn law_reproducers_are_eligible(eligible: Seq<bool>, lucky: Seq<bool>)
    requires
        eligible.len() == lucky.len(),
        eligible.len() <= usize::MAX,
    ensures
        reproducer_choice(eligible, lucky).len() <= MAX_REPRODUCTIONS,
        forall|i: int|
            0 <= i < reproducer_choice(eligible, lucky).len() ==> {
                let k = #[trigger] reproducer_choice(eligible, lucky)[i];
                k < eligible.len() && eligible[k as int] && lucky[k as int]
            },
        forall|i: int, j: int|
            0 <= i < j < reproducer_choice(eligible, lucky).len() ==> reproducer_choice(eligible, lucky)[i]
                < reproducer_choice(eligible, lucky)[j],
{
    lemma_lucky_candidates(eligible, lucky, eligible.len() as int);
}

proof fn lemma_lucky_candidates(eligible: Seq<bool>, lucky: Seq<bool>, n: int)
    requires
        0 <= n <= eligible.len(),
        eligible.len() == lucky.len(),
        eligible.len() <= usize::MAX,
    ensures
        forall|i: int|
            0 <= i < lucky_candidates(eligible, lucky, n).len() ==> {
                let k = #[trigger] lucky_candidates(eligible, lucky, n)[i];
                k < n && eligible[k as int] && lucky[k as int]
            },
        forall|i: int, j: int|
            0 <= i < j < lucky_candidates(eligible, lucky, n).len() ==> lucky_candidates(
                eligible,
                lucky,
                n,
            )[i] < lucky_candidates(eligible, lucky, n)[j],
    decreases n,
{
    if n > 0 {
        lemma_lucky_candidates(eligible, lucky, n - 1);
        let prev = lucky_candidates(eligible, lucky, n - 1);
        let cur = lucky_candidates(eligible, lucky, n);
        assert forall|i: int| 0 <= i < prev.len() implies cur[i] == prev[i] by {}
        assert forall|i: int| 0 <= i < cur.len() implies {
            let k = #[trigger] cur[i];
            k < n && eligible[k as int] && lucky[k as int]
        } by {
            if i < prev.len() {
                assert(cur[i] == prev[i]);
            }
        }
        assert forall|i: int, j: int| 0 <= i < j < cur.len() implies cur[i] < cur[j] by {
            assert(cur[i] == prev[i]);
            if j < prev.len() {
                assert(cur[j] == prev[j]);
            }
        }
    }
}

/// The chance an eligible creature has to reproduce in one step, as numerator
/// and denominator: one in five.
pub fn reproduction_odds() -> (odds: (u32, u32))
    ensures
        odds == (1u32, 5u32),
{
    (1, 5)
}

/// Chooses the creatures that reproduce, given which are eligible: each
/// eligible creature gets a `reproduction_odds` chance (one in five), and the
/// first `MAX_REPRODUCTIONS` lucky ones, in order, reproduce.
pub fn reproduction_system(eligible: &Vec<bool>) -> (chosen: Vec<usize>)
    ensures
        exists|lucky: Seq<bool>|
            {
                &&& lucky.len() == eligible@.len()
                &&& forall|i: int| 0 <= i < lucky.len() && !eligible@[i] ==> !(#[trigger] lucky[i])
                &&& chosen@ == reproducer_choice(eligible@, lucky)
            },
        chosen@.len() <= MAX_REPRODUCTIONS,
        forall|i: int|
            0 <= i < chosen@.len() ==> #[trigger] chosen@[i] < eligible@.len() && eligible@[chosen@[i] as int],
        forall|i: int, j: int| 0 <= i < j < chosen@.len() ==> chosen@[i] < chosen@[j],
{
    let (numerator, denominator) = reproduction_odds();
    let mut lucky: Vec<bool> = Vec::new();
    let mut i: usize = 0;
    while i < eligible.len()
        invariant
            numerator == 1,
            denominator == 5,
            i <= eligible@.len(),
            lucky@.len() == i,
            forall|j: int| 0 <= j < i && !eligible@[j] ==> !(#[trigger] lucky@[j]),
        decreases eligible.len() - i,
    {
        if eligible[i] {
            lucky.push(random_ratio(numerator, denominator));
        } else {
            lucky.push(false);
        }
        i += 1;
    }
    let chosen = choose_reproducers(eligible, &lucky);
    proof {
        law_reproducers_are_eligible(eligible@, lucky@);
    }
    chosen
}

/// The foods, among the first `n`, that a row marks as within reach, in order.
pub open spec fn foods_in_reach(row: Seq<bool>, n: int) -> Seq<usize>
    decreases n,
{
    if n <= 0 {
        Seq::empty()
    } else {
        let prev = foods_in_reach(row, n - 1);
        if row[n - 1] {
            prev.push((n - 1) as usize)
        } else {
            prev
        }
    }
}

/// The foods eaten by the first `m` creatures, creature by creature, each
/// creature's foods in order; a food in reach of several creatures is eaten by
/// each of them.
pub open spec fn eaten_by_first(rows: Seq<Vec<bool>>, m: int) -> Seq<usize>
    decreases m,
{
    if m <= 0 {
        Seq::empty()
    } else {
        eaten_by_first(rows, m - 1) + foods_in_reach(rows[m - 1]@, rows[m - 1]@.len() as int)
    }
}

/// What eating decides in one step.
pub struct FoodPickups {
    /// For each creature, how many foods it eats.
    pub meals: Vec<usize>,
    /// The foods eaten, creature by creature, in order; a food eaten by several
    /// creatures appears once for each.
    pub eaten: Vec<usize>,
}

/// Decides who eats what, given for each creature and each food whether the food
/// is within the creature's pickup radius: every creature eats every food in
/// reach.
pub fn check_food_collisions(in_reach: &Vec<Vec<bool>>) -> (pickups: FoodPickups)
    ensures
        pickups.meals@.len() == in_reach@.len(),
        forall|i: int|
            0 <= i < in_reach@.len() ==> #[trigger] pickups.meals@[i] == foods_in_reach(
                in_reach@[i]@,
                in_reach@[i]@.len() as int,
            ).len(),
        pickups.eaten@ == eaten_by_first(in_reach@, in_reach@.len() as int),
        pickups_match(in_reach@, pickups.meals@, pickups.eaten@),
{
    let mut meals: Vec<usize> = Vec::new();
    let mut eaten: Vec<usize> = Vec::new();
    let mut i: usize = 0;
    while i < in_reach.len()
        invariant
            i <= in_reach@.len(),
            meals@.len() == i,
            forall|k: int|
                0 <= k < i ==> #[trigger] meals@[k] == foods_in_reach(
                    in_reach@[k]@,
                    in_reach@[k]@.len() as int,
                ).len(),
            eaten@ == eaten_by_first(in_reach@, i as int),
        decreases in_reach.len() - i,
    {
        let row = &in_reach[i];
        let ghost before = eaten@;
        let mut count: usize = 0;
        let mut j: usize = 0;
        while j < row.len()
            invariant
                j <= row@.len(),
                count as int == foods_in_reach(row@, j as int).len(),
                count <= j,
                eaten@ == before + foods_in_reach(row@, j as int),
            decreases row.len() - j,
        {
            if row[j] {
                eaten.push(j);
                count += 1;
                assert(eaten@ =~= before + foods_in_reach(row@, j + 1));
            }
            j += 1;
        }
        meals.push(count);
        i += 1;
    }
    proof {
        assert forall|i: int| 0 <= i < in_reach@.len() implies (#[trigger] in_reach@[i])@.len()
            <= usize::MAX by {
            assert(in_reach@[i].len() == in_reach@[i]@.len());
        }
        law_food_pickups(in_reach@);
        assert(meals@ =~= Seq::new(
            in_reach@.len(),
            |i: int| foods_in_reach(in_reach@[i]@, in_reach@[i]@.len() as int).len() as usize,
        ));
    }
    FoodPickups { meals, eaten }
}

/// How many foods a row marks as within reach.
pub open spec fn count_in_reach(row: Seq<bool>) -> nat {
    row.filter(|b: bool| b).len()
}

/// Where a creature's foods start in the eaten list: the meals of the
/// creatures before it, added up.
pub open spec fn meal_offset(meals: Seq<usize>, i: int) -> int
    decreases i,
{
    if i <= 0 {
        0
    } else {
        meal_offset(meals, i - 1) + meals[i - 1]
    }
}

/// The foods creature `i` eats: its stretch of the eaten list.
pub open spec fn meal_of(meals: Seq<usize>, eaten: Seq<usize>, i: int) -> Seq<usize> {
    eaten.subrange(meal_offset(meals, i), meal_offset(meals, i) + meals[i])
}

/// The meals and the eaten list are right for `rows`: each creature eats as
/// many foods as its row marks within reach; the eaten list is the creatures'
/// stretches one after the other; a creature's stretch holds exactly the foods
/// in its reach, each once, in increasing order.
pub open spec fn pickups_match(rows: Seq<Vec<bool>>, meals: Seq<usize>, eaten: Seq<usize>) -> bool {
    &&& meals.len() == rows.len()
    &&& eaten.len() == meal_offset(meals, rows.len() as int)
    &&& forall|i: int| 0 <= i < rows.len() ==> #[trigger] meals[i] == count_in_reach(rows[i]@)
    &&& forall|i: int, j: int|
        0 <= i < rows.len() && 0 <= j < rows[i]@.len() ==> (rows[i]@[j] <==> #[trigger] meal_of(
            meals,
            eaten,
            i,
        ).contains(j as usize))
    &&& forall|i: int, k: int|
        0 <= i < rows.len() && 0 <= k < meals[i] ==> #[trigger] meal_of(meals, eaten, i)[k]
            < rows[i]@.len()
    &&& forall|i: int, k1: int, k2: int|
        0 <= i < rows.len() && 0 <= k1 < k2 < meals[i] ==> #[trigger] meal_of(meals, eaten, i)[k1]
            < #[trigger] meal_of(meals, eaten, i)[k2]
}

proof fn lemma_count_step(s: Seq<bool>)
    requires
        s.len() > 0,
    ensures
        count_in_reach(s) == count_in_reach(s.drop_last()) + if s.last() {
            1nat
        } else {
            0nat
        },
{
    reveal_with_fuel(Seq::filter, 1);
}

proof fn lemma_foods_in_reach_exact(row: Seq<bool>, n: int)
    requires
        0 <= n <= row.len(),
        row.len() <= usize::MAX,
    ensures
        foods_in_reach(row, n).len() == count_in_reach(row.take(n)),
        forall|j: int| 0 <= j < n ==> (row[j] <==> foods_in_reach(row, n).contains(j as usize)),
        forall|k: int|
            0 <= k < foods_in_reach(row, n).len() ==> #[trigger] foods_in_reach(row, n)[k] < n,
        forall|k1: int, k2: int|
            0 <= k1 < k2 < foods_in_reach(row, n).len() ==> #[trigger] foods_in_reach(row, n)[k1]
                < #[trigger] foods_in_reach(row, n)[k2],
    decreases n,
{
    if n == 0 {
        assert(row.take(0).filter(|b: bool| b) =~= Seq::<bool>::empty()) by {
            reveal_with_fuel(Seq::filter, 1);
        }
    } else {
        lemma_foods_in_reach_exact(row, n - 1);
        lemma_foods_in_reach(row, n);
        let prev = foods_in_reach(row, n - 1);
        let cur = foods_in_reach(row, n);
        assert(row.take(n).drop_last() =~= row.take(n - 1));
        lemma_count_step(row.take(n));
        assert forall|j: int| 0 <= j < n implies (row[j] <==> cur.contains(j as usize)) by {
            if j < n - 1 {
                if prev.contains(j as usize) {
                    let k = choose|k: int| 0 <= k < prev.len() && prev[k] == j as usize;
                    assert(cur[k] == j as usize);
                }
                if cur.contains(j as usize) {
                    let k = choose|k: int| 0 <= k < cur.len() && cur[k] == j as usize;
                    if k < prev.len() {
                        assert(prev[k] == cur[k]);
                    }
                }
            } else {
                if row[j] {
                    assert(cur[prev.len() as int] == j as usize);
                }
                if cur.contains(j as usize) {
                    let k = choose|k: int| 0 <= k < cur.len() && cur[k] == j as usize;
                    if k < prev.len() {
                        assert(prev[k] == cur[k]);
                    }
                }
            }
        }
        assert forall|k: int| 0 <= k < cur.len() implies #[trigger] cur[k] < n by {}
        assert forall|k1: int, k2: int| 0 <= k1 < k2 < cur.len() implies #[trigger] cur[k1]
            < #[trigger] cur[k2] by {
            assert(cur[k1] == prev[k1]);
            if k2 < prev.len() {
                assert(cur[k2] == prev[k2]);
            }
        }
    }
}

proof fn lemma_meal_offset_monotone(meals: Seq<usize>, i: int, m: int)
    requires
        0 <= i <= m,
    ensures
        meal_offset(meals, i) <= meal_offset(meals, m),
    decreases m - i,
{
    if i < m {
        lemma_meal_offset_monotone(meals, i, m - 1);
    }
}

proof fn lemma_eaten_segments(rows: Seq<Vec<bool>>, meals: Seq<usize>, m: int)
    requires
        0 <= m <= rows.len(),
        meals.len() == rows.len(),
        forall|k: int|
            0 <= k < rows.len() ==> #[trigger] meals[k] == foods_in_reach(
                rows[k]@,
                rows[k]@.len() as int,
            ).len(),
    ensures
        eaten_by_first(rows, m).len() == meal_offset(meals, m),
        forall|i: int|
            0 <= i < m ==> #[trigger] meal_of(meals, eaten_by_first(rows, m), i) == foods_in_reach(
                rows[i]@,
                rows[i]@.len() as int,
            ),
    decreases m,
{
    if m > 0 {
        lemma_eaten_segments(rows, meals, m - 1);
        let prev = eaten_by_first(rows, m - 1);
        let cur = eaten_by_first(rows, m);
        assert forall|i: int| 0 <= i < m implies #[trigger] meal_of(meals, cur, i) == foods_in_reach(
            rows[i]@,
            rows[i]@.len() as int,
        ) by {
            if i < m - 1 {
                lemma_meal_offset_monotone(meals, i + 1, m - 1);
                lemma_meal_offset_monotone(meals, 0, i);
                assert(cur == prev + foods_in_reach(rows[m - 1]@, rows[m - 1]@.len() as int));
                assert(meal_offset(meals, i + 1) == meal_offset(meals, i) + meals[i]);
                assert(meal_of(meals, prev, i) == foods_in_reach(rows[i]@, rows[i]@.len() as int));
                assert forall|k: int| 0 <= k < prev.len() implies cur[k] == prev[k] by {}
                assert(meal_of(meals, cur, i) =~= meal_of(meals, prev, i));
            } else {
                assert(meal_of(meals, cur, i) =~= foods_in_reach(rows[i]@, rows[i]@.len() as int));
            }
        }
    }
}

/// Law: the pickups that `check_food_collisions` decides are right: each
/// creature eats exactly as many foods as are within its reach, its stretch of
/// the eaten list holds exactly those foods, once each, in increasing order, and
/// the eaten list is nothing but the stretches one after the other.
pub proof fn law_food_pickups(rows: Seq<Vec<bool>>)
    requires
        forall|i: int| 0 <= i < rows.len() ==> (#[trigger] rows[i])@.len() <= usize::MAX,
    ensures
        pickups_match(
            rows,
            Seq::new(
                rows.len(),
                |i: int| foods_in_reach(rows[i]@, rows[i]@.len() as int).len() as usize,
            ),
            eaten_by_first(rows, rows.len() as int),
        ),
{
    let meals = Seq::new(
        rows.len(),
        |i: int| foods_in_reach(rows[i]@, rows[i]@.len() as int).len() as usize,
    );
    let eaten = eaten_by_first(rows, rows.len() as int);
    assert forall|k: int| 0 <= k < rows.len() implies #[trigger] meals[k] == foods_in_reach(
        rows[k]@,
        rows[k]@.len() as int,
    ).len() by {
        lemma_foods_in_reach(rows[k]@, rows[k]@.len() as int);
        lemma_foods_in_reach_exact(rows[k]@, rows[k]@.len() as int);
        assert(foods_in_reach(rows[k]@, rows[k]@.len() as int).len() <= rows[k]@.len()) by {
            assert(rows[k]@.take(rows[k]@.len() as int) =~= rows[k]@);
            rows[k]@.lemma_filter_len(|b: bool| b);
        }
    }
    lemma_eaten_segments(rows, meals, rows.len() as int);
    assert forall|i: int| 0 <= i < rows.len() implies #[trigger] meals[i] == count_in_reach(rows[i]@) by {
        lemma_foods_in_reach_exact(rows[i]@, rows[i]@.len() as int);
        assert(rows[i]@.take(rows[i]@.len() as int) =~= rows[i]@);
    }
    assert forall|i: int, j: int| 0 <= i < rows.len() && 0 <= j < rows[i]@.len() implies (rows[i]@[j]
        <==> #[trigger] meal_of(meals, eaten, i).contains(j as usize)) by {
        lemma_foods_in_reach_exact(rows[i]@, rows[i]@.len() as int);
        assert(meal_of(meals, eaten, i) == foods_in_reach(rows[i]@, rows[i]@.len() as int));
    }
    assert forall|i: int, k: int| 0 <= i < rows.len() && 0 <= k < meals[i] implies #[trigger] meal_of(
        meals,
        eaten,
        i,
    )[k] < rows[i]@.len() by {
        lemma_foods_in_reach_exact(rows[i]@, rows[i]@.len() as int);
        assert(meal_of(meals, eaten, i) == foods_in_reach(rows[i]@, rows[i]@.len() as int));
    }
    assert forall|i: int, k1: int, k2: int| 0 <= i < rows.len() && 0 <= k1 < k2 < meals[i] implies #[trigger] meal_of(
        meals,
        eaten,
        i,
    )[k1] < #[trigger] meal_of(meals, eaten, i)[k2] by {
        lemma_foods_in_reach_exact(rows[i]@, rows[i]@.len() as int);
        assert(meal_of(meals, eaten, i) == foods_in_reach(rows[i]@, rows[i]@.len() as int));
    }
}

/// Law: every food eaten was within reach of a creature, and as many foods are
/// eaten in all as the creatures' meals add up to.
pub proof fn law_eaten_food_was_in_reach(rows: Seq<Vec<bool>>, m: int)
    requires
        0 <= m <= rows.len(),
        forall|i: int| 0 <= i < rows.len() ==> (#[trigger] rows[i])@.len() <= usize::MAX,
    ensures
        forall|k: int|
            0 <= k < eaten_by_first(rows, m).len() ==> exists|i: int|
                0 <= i < m && (#[trigger] eaten_by_first(rows, m)[k]) < rows[i]@.len() && rows[i]@[eaten_by_first(
                    rows,
                    m,
                )[k] as int],
        eaten_by_first(rows, m).len() == total_meals(rows, m),
    decreases m,
{
    if m > 0 {
        law_eaten_food_was_in_reach(rows, m - 1);
        let prev = eaten_by_first(rows, m - 1);
        let row = rows[m - 1]@;
        let mine = foods_in_reach(row, row.len() as int);
        lemma_foods_in_reach(row, row.len() as int);
        let cur = eaten_by_first(rows, m);
        assert forall|k: int| 0 <= k < cur.len() implies exists|i: int|
            0 <= i < m && (#[trigger] cur[k]) < rows[i]@.len() && rows[i]@[cur[k] as int] by {
            if k < prev.len() {
                assert(cur[k] == prev[k]);
                let i = choose|i: int|
                    0 <= i < m - 1 && (#[trigger] prev[k]) < rows[i]@.len() && rows[i]@[prev[k] as int];
            } else {
                assert(cur[k] == mine[k - prev.len()]);
            }
        }
    }
}

/// The number of foods the first `m` creatures eat, adding up their meals.
pub open spec fn total_meals(rows: Seq<Vec<bool>>, m: int) -> nat
    decreases m,
{
    if m <= 0 {
        0
    } else {
        total_meals(rows, m - 1) + foods_in_reach(rows[m - 1]@, rows[m - 1]@.len() as int).len()
    }
}

proof fn lemma_foods_in_reach(row: Seq<bool>, n: int)
    requires
        0 <= n <= row.len(),
        row.len() <= usize::MAX,
    ensures
        forall|k: int|
            0 <= k < foods_in_reach(row, n).len() ==> (#[trigger] foods_in_reach(row, n)[k]) < n
                && row[foods_in_reach(row, n)[k] as int],
    decreases n,
{
    if n > 0 {
        lemma_foods_in_reach(row, n - 1);
        let prev = foods_in_reach(row, n - 1);
        let cur = foods_in_reach(row, n);
        assert forall|k: int| 0 <= k < cur.len() implies (#[trigger] cur[k]) < n && row[cur[k] as int] by {
            if k < prev.len() {
                assert(cur[k] == prev[k]);
            }
        }
    }
}

} // verus!
