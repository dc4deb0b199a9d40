use ants::creature::behavior::{
    check_food_collisions, choose_reproducers, evolution_generation, rank_by_fitness,
    reproduction_odds, reproduction_system, update_creature_behavior, CULL_BATCH, MAX_REPRODUCTIONS,
};
use ants::creature::genetics::Generation;

#[test]
fn nearest_food_in_sight() {
    assert_eq!(update_creature_behavior(&vec![50, 20, 30], 40), Some(1));
    assert_eq!(update_creature_behavior(&vec![50, 60], 40), None);
    assert_eq!(update_creature_behavior(&vec![], 40), None);
}

#[test]
fn nearest_food_ties_go_to_the_first() {
    assert_eq!(update_creature_behavior(&vec![45, 10, 10, 12], 40), Some(1));
}

#[test]
fn food_at_the_edge_of_sight_is_not_seen() {
    assert_eq!(update_creature_behavior(&vec![40, 41], 40), None);
    assert_eq!(update_creature_behavior(&vec![40, 39], 40), Some(1));
}

#[test]
fn float_keys_keep_the_order_of_distances() {
    let key = |d: f32| d.to_bits();
    let distances = [12.5f32, 3.25, 70.0, 3.5];
    let keys: Vec<u32> = distances.iter().map(|d| key(*d)).collect();
    assert_eq!(update_creature_behavior(&keys, key(50.0)), Some(1));
    assert_eq!(update_creature_behavior(&keys, key(3.0)), None);
}

#[test]
fn food_pickups_per_creature() {
    let in_reach = vec![vec![true, false, true], vec![false, false, false], vec![true, true, false]];
    let p = check_food_collisions(&in_reach);
    assert_eq!(p.meals, vec![2, 0, 2]);
    assert_eq!(p.eaten, vec![0, 2, 0, 1]);
    assert_eq!(p.eaten.len(), p.meals.iter().sum::<usize>());
}

#[test]
fn food_pickups_without_creatures_or_food() {
    let p = check_food_collisions(&vec![]);
    assert!(p.meals.is_empty() && p.eaten.is_empty());
    let p = check_food_collisions(&vec![vec![], vec![]]);
    assert_eq!(p.meals, vec![0, 0]);
    assert!(p.eaten.is_empty());
}

#[test]
fn reproducers_are_the_first_eligible_and_lucky() {
    let eligible = vec![true, false, true, true, true, true, true, true];
    let lucky = vec![true, true, false, true, true, true, true, true];
    assert_eq!(choose_reproducers(&eligible, &lucky), vec![0, 3, 4, 5, 6]);
    assert_eq!(choose_reproducers(&vec![false, true], &vec![true, true]), vec![1]);
    assert!(choose_reproducers(&vec![], &vec![]).is_empty());
}

#[test]
fn ineligible_creatures_never_reproduce() {
    let eligible = vec![false; 50];
    for _ in 0..20 {
        assert!(reproduction_system(&eligible).is_empty());
    }
}

#[test]
fn reproduction_is_a_matter_of_chance() {
    let eligible = vec![true; 2000];
    let mut all_first = true;
    for _ in 0..3 {
        let chosen = reproduction_system(&eligible);
        assert_eq!(chosen.len(), MAX_REPRODUCTIONS);
        for w in chosen.windows(2) {
            assert!(w[0] < w[1]);
        }
        if chosen != vec![0, 1, 2, 3, 4] {
            all_first = false;
        }
    }
    assert!(!all_first);
}

#[test]
fn ranking_is_best_first_and_stable() {
    assert_eq!(rank_by_fitness(&vec![10, 30, 20, 30, 10]), vec![1, 3, 2, 0, 4]);
    assert!(rank_by_fitness(&vec![]).is_empty());
    assert_eq!(rank_by_fitness(&vec![7]), vec![0]);
}

#[test]
fn ranking_by_float_keys_matches_a_stable_sort() {
    let fitness = [0.0f32, 20.0, 10.0, 20.0, 30.0, 0.0, 10.0];
    let keys: Vec<u32> = fitness.iter().map(|f| f.to_bits() | 0x8000_0000).collect();
    let mut expected: Vec<usize> = (0..fitness.len()).collect();
    expected.sort_by(|a, b| fitness[*b].partial_cmp(&fitness[*a]).unwrap());
    assert_eq!(rank_by_fitness(&keys), expected);
}

#[test]
fn generation_culls_the_bottom_tenth() {
    let mut generation = Generation::first();
    let keys: Vec<u32> = (0..20).map(|i| 100 + i).collect();
    let report = evolution_generation(&mut generation, &keys);
    assert_eq!(generation.0, 2);
    assert_eq!(report.generation, 2);
    assert_eq!(report.total_creatures, 20);
    assert_eq!(report.ranking[0], 19);
    assert_eq!(report.culled, vec![1, 0]);
}

#[test]
fn generation_culls_at_most_a_batch() {
    let mut generation = Generation(7);
    let keys = vec![5u32; 100];
    let report = evolution_generation(&mut generation, &keys);
    assert_eq!(generation.0, 8);
    assert_eq!(report.culled.len(), CULL_BATCH);
    assert_eq!(report.culled, vec![90, 91, 92, 93, 94]);
}

#[test]
fn generation_of_nine_culls_one() {
    let mut generation = Generation(1);
    let report = evolution_generation(&mut generation, &vec![3, 1, 2, 9, 9, 4, 0, 8, 7]);
    assert_eq!(report.ranking, vec![3, 4, 7, 8, 5, 0, 2, 1, 6]);
    assert_eq!(report.culled, vec![6]);
}

#[test]
fn elite_count_agrees_with_the_float_rule() {
    for n in 0usize..301 {
        let mut generation = Generation(1);
        let keys: Vec<u32> = (0..n as u32).rev().collect();
        let report = evolution_generation(&mut generation, &keys);
        let elite = (n as f32 * 0.9) as usize;
        let end = (elite + 5).min(n);
        let expected: Vec<usize> = (elite..end).collect();
        assert_eq!(report.culled, expected);
    }
}

#[test]
fn single_creature_generation_culls_it() {
    let mut generation = Generation(1);
    let report = evolution_generation(&mut generation, &vec![42]);
    assert_eq!(report.culled, vec![0]);
}

#[test]
fn empty_generation_still_advances() {
    let mut generation = Generation(3);
    let report = evolution_generation(&mut generation, &vec![]);
    assert_eq!(generation.0, 4);
    assert_eq!(report.total_creatures, 0);
    assert!(report.ranking.is_empty() && report.culled.is_empty());
}

#[test]
fn reproduction_odds_are_one_in_five() {
    assert_eq!(reproduction_odds(), (1, 5));
}
