use ants::map::{
    generate_obstacles, place_obstacles, MapGrid, FREE_CELL_TRIES, MAP_HEIGHT, MAP_WIDTH,
};

fn in_map(c: (i32, i32)) -> bool {
    -MAP_WIDTH / 2 <= c.0 && c.0 < MAP_WIDTH / 2 && -MAP_HEIGHT / 2 <= c.1 && c.1 < MAP_HEIGHT / 2
}

#[test]
fn new_grid_is_empty() {
    let grid = MapGrid::new();
    assert!(!grid.is_occupied(0, 0));
    assert!(!grid.is_occupied(-30, -20));
    let grid = MapGrid::default();
    assert!(!grid.is_occupied(29, 19));
}

#[test]
fn mark_then_query_touches_one_cell() {
    let mut grid = MapGrid::new();
    grid.mark_occupied(3, -4);
    assert!(grid.is_occupied(3, -4));
    assert!(!grid.is_occupied(-4, 3));
    assert!(!grid.is_occupied(3, -3));
    assert!(!grid.is_occupied(4, -4));
    grid.mark_occupied(3, -4);
    assert!(grid.is_occupied(3, -4));
}

#[test]
fn extreme_cells_do_not_collide() {
    let mut grid = MapGrid::new();
    grid.mark_occupied(i32::MIN, i32::MAX);
    assert!(grid.is_occupied(i32::MIN, i32::MAX));
    assert!(!grid.is_occupied(i32::MIN + 1, i32::MIN));
    assert!(!grid.is_occupied(i32::MAX, i32::MAX));
    grid.mark_occupied(0, -1);
    assert!(!grid.is_occupied(-1, i32::MAX));
}

#[test]
fn pick_free_cell_takes_first_free_draw() {
    let mut grid = MapGrid::new();
    grid.mark_occupied(1, 1);
    grid.mark_occupied(2, 2);
    assert_eq!(grid.pick_free_cell(&vec![(1, 1), (2, 2), (5, 6), (7, 8)]), Some((5, 6)));
    assert_eq!(grid.pick_free_cell(&vec![(1, 1), (2, 2)]), None);
    assert_eq!(grid.pick_free_cell(&vec![]), None);
}

#[test]
fn pick_free_cell_stops_after_the_tries() {
    let mut grid = MapGrid::new();
    grid.mark_occupied(0, 0);
    let mut draws = vec![(0, 0); FREE_CELL_TRIES as usize];
    draws.push((1, 1));
    assert_eq!(grid.pick_free_cell(&draws), None);
    draws[FREE_CELL_TRIES as usize - 1] = (2, 2);
    assert_eq!(grid.pick_free_cell(&draws), Some((2, 2)));
}

#[test]
fn random_free_cell_is_free_and_in_map() {
    let mut grid = MapGrid::new();
    for x in -30..30 {
        grid.mark_occupied(x, 0);
    }
    for _ in 0..200 {
        let c = grid.get_random_free_cell().expect("most cells are free");
        assert!(in_map(c));
        assert!(!grid.is_occupied(c.0, c.1));
    }
}

#[test]
fn random_free_cell_on_a_full_map_is_none() {
    let mut grid = MapGrid::new();
    for x in -30..30 {
        for z in -20..20 {
            grid.mark_occupied(x, z);
        }
    }
    assert_eq!(grid.get_random_free_cell(), None);
}

#[test]
fn random_draws_cover_the_map() {
    let grid = MapGrid::new();
    let mut min_x = i32::MAX;
    let mut max_x = i32::MIN;
    for _ in 0..2000 {
        let c = grid.get_random_free_cell().unwrap();
        min_x = min_x.min(c.0);
        max_x = max_x.max(c.0);
    }
    assert_eq!(min_x, -30);
    assert_eq!(max_x, 29);
}

#[test]
fn place_obstacles_skips_taken_cells() {
    let mut grid = MapGrid::new();
    grid.mark_occupied(0, 0);
    let draws = vec![(0, 0), (1, 1), (1, 1), (2, 2), (3, 3), (4, 4)];
    let placed = place_obstacles(&mut grid, &draws, 3);
    assert_eq!(placed, vec![(1, 1), (2, 2), (3, 3)]);
    assert!(grid.is_occupied(1, 1));
    assert!(grid.is_occupied(3, 3));
    assert!(!grid.is_occupied(4, 4));
}

#[test]
fn place_obstacles_with_too_few_draws() {
    let mut grid = MapGrid::new();
    let placed = place_obstacles(&mut grid, &vec![(5, 5), (5, 5)], 4);
    assert_eq!(placed, vec![(5, 5)]);
    let placed = place_obstacles(&mut grid, &vec![(6, 6)], 0);
    assert!(placed.is_empty());
    assert!(!grid.is_occupied(6, 6));
}

#[test]
fn generate_obstacles_places_distinct_free_cells() {
    let mut grid = MapGrid::new();
    grid.mark_occupied(0, 0);
    let placed = generate_obstacles(&mut grid, 15);
    assert_eq!(placed.len(), 15);
    for (i, c) in placed.iter().enumerate() {
        assert!(in_map(*c));
        assert_ne!(*c, (0, 0));
        assert!(grid.is_occupied(c.0, c.1));
        for d in &placed[i + 1..] {
            assert_ne!(c, d);
        }
    }
}

#[test]
fn generate_obstacles_can_fill_the_map() {
    let mut grid = MapGrid::new();
    let placed = generate_obstacles(&mut grid, 2400);
    assert_eq!(placed.len(), 2400);
    assert_eq!(grid.get_random_free_cell(), None);
}
