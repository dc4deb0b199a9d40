use ants::gui::{settings_toggle, SimSettings, SimStatistics, ToggleKeys, HISTORY_LIMIT};

fn keys(menu: bool, creatures: bool, food: bool, obstacles: bool) -> ToggleKeys {
    ToggleKeys { menu, creatures, food, obstacles }
}

#[test]
fn default_settings_show_everything_but_the_menu() {
    let s = SimSettings::default();
    assert!(s.is_show_creatures && s.is_show_food && s.is_show_obstacles);
    assert!(!s.is_show_menu && !s.show_graphs);
}

#[test]
fn toggles_flip_and_report_visibility() {
    let mut s = SimSettings::default();
    let u = settings_toggle(&mut s, keys(true, true, false, true));
    assert!(s.is_show_menu);
    assert!(!s.is_show_creatures);
    assert!(s.is_show_food);
    assert!(!s.is_show_obstacles);
    assert_eq!(u.creatures, Some(false));
    assert_eq!(u.food, None);
    assert_eq!(u.obstacles, Some(false));
}

#[test]
fn toggling_twice_restores_the_settings() {
    let start = SimSettings::default();
    let mut s = start;
    let k = keys(true, false, true, true);
    settings_toggle(&mut s, k);
    assert_ne!(s, start);
    let u = settings_toggle(&mut s, k);
    assert_eq!(s, start);
    assert_eq!(u.food, Some(true));
}

#[test]
fn no_keys_change_nothing() {
    let mut s = SimSettings::default();
    let u = settings_toggle(&mut s, keys(false, false, false, false));
    assert_eq!(s, SimSettings::default());
    assert_eq!((u.creatures, u.food, u.obstacles), (None, None, None));
}

#[test]
fn stats_record_counts_and_averages() {
    let mut stats: SimStatistics<f32> = SimStatistics::default();
    stats.update_sim_stats(10, 4, 15, 1.5, 40.0, 12.0);
    assert_eq!((stats.num_creatures, stats.num_food, stats.num_obstacles), (10, 4, 15));
    assert_eq!(stats.speed_history, vec![1.5]);
    assert_eq!(stats.vision_history, vec![40.0]);
    assert_eq!(stats.fitness_history, vec![12.0]);
}

#[test]
fn stats_without_creatures_keep_the_history() {
    let mut stats: SimStatistics<f32> = SimStatistics::default();
    stats.update_sim_stats(3, 1, 1, 2.0, 30.0, 5.0);
    stats.update_sim_stats(0, 7, 2, f32::NAN, f32::NAN, f32::NAN);
    assert_eq!(stats.num_creatures, 0);
    assert_eq!(stats.num_food, 7);
    assert_eq!(stats.speed_history, vec![2.0]);
}

#[test]
fn history_keeps_the_latest_hundred() {
    let mut stats: SimStatistics<u32> = SimStatistics::default();
    for i in 0..250u32 {
        stats.update_sim_stats(1, 0, 0, i, i + 1000, i + 2000);
        assert!(stats.speed_history.len() <= HISTORY_LIMIT);
        assert_eq!(stats.speed_history.len(), stats.vision_history.len());
        assert_eq!(stats.speed_history.len(), stats.fitness_history.len());
    }
    let expected: Vec<u32> = (150..250).collect();
    assert_eq!(stats.speed_history, expected);
    assert_eq!(stats.vision_history[0], 1150);
    assert_eq!(stats.fitness_history[99], 2249);
}
