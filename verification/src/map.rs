//! The map: a grid of cells, some of them occupied by obstacles, on which
//! obstacles and food are placed at random free cells.

use crate::chance::random_in_range;
use std::collections::HashSet;
use vstd::prelude::*;

verus! {

broadcast use vstd::std_specs::hash::group_hash_axioms;

/// Width of the map in cells: x runs over `-30..30`.
pub const MAP_WIDTH: i32 = 60;

/// Height of the map in cells: z runs over `-20..20`.
pub const MAP_HEIGHT: i32 = 40;

/// How many cells `get_random_free_cell` draws before it gives up.
pub const FREE_CELL_TRIES: u32 = 100;

/// A cell is inside the map when `-30 <= x < 30` and `-20 <= z < 20`.
pub open spec fn in_map(c: (i32, i32)) -> bool {
    &&& -(MAP_WIDTH / 2) <= c.0 < MAP_WIDTH / 2
    &&& -(MAP_HEIGHT / 2) <= c.1 < MAP_HEIGHT / 2
}

/// The set of cells that a sequence holds.
pub open spec fn cells(s: Seq<(i32, i32)>) -> Set<(i32, i32)> {
    Set::new(|c: (i32, i32)| s.contains(c))
}

/// The integer under which a cell is stored: distinct cells get distinct keys.
pub open spec fn cell_key(x: i32, z: i32) -> int {
    x as int * 0x1_0000_0000 + (z as int + 0x8000_0000)
}

/// The first draw that is not occupied, drawing in order.
pub open spec fn first_free(occupied: Set<(i32, i32)>, draws: Seq<(i32, i32)>) -> Option<(i32, i32)>
    decreases draws.len(),
{
    if draws.len() == 0 {
        None
    } else {
        match first_free(occupied, draws.drop_last()) {
            Some(c) => Some(c),
            None => if !occupied.contains(draws.last()) {
                Some(draws.last())
            } else {
                None
            },
        }
    }
}

/// The cells on which obstacles land when the draws are taken in order: a draw
/// is placed when fewer than `count` have been placed and it is neither
/// occupied nor already placed.
pub open spec fn placements(occupied: Set<(i32, i32)>, draws: Seq<(i32, i32)>, count: nat) -> Seq<(i32, i32)>
    decreases draws.len(),
{
    if draws.len() == 0 {
        Seq::empty()
    } else {
        let prev = placements(occupied, draws.drop_last(), count);
        let c = draws.last();
        if prev.len() < count && !occupied.contains(c) && !prev.contains(c) {
            prev.push(c)
        } else {
            prev
        }
    }
}

/// Once a free cell has been found, later draws do not change it.
proof fn lemma_first_free_stable(occupied: Set<(i32, i32)>, draws: Seq<(i32, i32)>, k: int, m: int)
    requires
        0 <= k <= m <= draws.len(),
        first_free(occupied, draws.take(k)) is Some,
    ensures
        first_free(occupied, draws.take(m)) == first_free(occupied, draws.take(k)),
    decreases m - k,
{
    if m > k {
        lemma_first_free_stable(occupied, draws, k, m - 1);
        assert(draws.take(m).drop_last() =~= draws.take(m - 1));
    }
}

proof fn lemma_cells_push(s: Seq<(i32, i32)>, c: (i32, i32))
    ensures
        cells(s.push(c)) == cells(s).insert(c),
{
    assert forall|d: (i32, i32)| cells(s.push(c)).contains(d) <==> cells(s).insert(c).contains(d) by {
        if s.contains(d) {
            let j = choose|j: int| 0 <= j < s.len() && s[j] == d;
            assert(s.push(c)[j] == d);
        }
        if d == c {
            assert(s.push(c)[s.len() as int] == c);
        }
        if s.push(c).contains(d) && d != c {
            let j = choose|j: int| 0 <= j < s.push(c).len() && s.push(c)[j] == d;
            assert(s[j] == d);
        }
    }
    assert(cells(s.push(c)) =~= cells(s).insert(c));
}

proof fn lemma_cell_key_range(x: i32, z: i32)
    ensures
        i64::MIN <= cell_key(x, z) <= i64::MAX,
{
}

proof fn lemma_cell_key_injective(a: (i32, i32), b: (i32, i32))
    ensures
        cell_key(a.0, a.1) == cell_key(b.0, b.1) ==> a == b,
{
    if cell_key(a.0, a.1) == cell_key(b.0, b.1) {
        assert(a.0 == b.0) by (nonlinear_arith)
            requires
                a.0 as int * 0x1_0000_0000 + (a.1 as int + 0x8000_0000) == b.0 as int * 0x1_0000_0000
                    + (b.1 as int + 0x8000_0000),
                -0x8000_0000 <= a.1 < 0x8000_0000,
                -0x8000_0000 <= b.1 < 0x8000_0000,
        ;
    }
}

fn key_of(x: i32, z: i32) -> (k: i64)
    ensures
        k as int == cell_key(x, z),
{
    proof {
        lemma_cell_key_range(x, z);
    }
    (x as i64) * 0x1_0000_0000i64 + ((z as i64) + 0x8000_0000i64)
}

/// The grid of the map and the cells that obstacles occupy.
pub struct MapGrid {
    occupied: HashSet<i64>,
}

impl View for MapGrid {
    type V = Set<(i32, i32)>;

    /// The occupied cells.
    closed spec fn view(&self) -> Set<(i32, i32)> {
        Set::new(|c: (i32, i32)| self.occupied@.contains(cell_key(c.0, c.1) as i64))
    }
}

impl MapGrid {
    /// An empty grid: no cell is occupied.
    pub fn new() -> (grid: Self)
        ensures
            grid@ == Set::<(i32, i32)>::empty(),
    {
        let grid = MapGrid { occupied: HashSet::new() };
        assert(grid@ =~= Set::<(i32, i32)>::empty());
        grid
    }

    /// Whether an obstacle occupies cell `(x, z)`.
    pub fn is_occupied(&self, x: i32, z: i32) -> (r: bool)
        ensures
            r == self@.contains((x, z)),
    {
        let k = key_of(x, z);
        self.occupied.contains(&k)
    }

    /// Marks cell `(x, z)` as occupied; no other cell changes.
    pub fn mark_occupied(&mut self, x: i32, z: i32)
        ensures
            final(self)@ == old(self)@.insert((x, z)),
    {
        let k = key_of(x, z);
        self.occupied.insert(k);
        proof {
            assert forall|c: (i32, i32)| #[trigger] self@.contains(c) == old(self)@.insert((x, z)).contains(c) by {
                lemma_cell_key_range(c.0, c.1);
                lemma_cell_key_injective(c, (x, z));
            }
            assert(self@ =~= old(self)@.insert((x, z)));
        }
    }

    /// The first free cell among the first `FREE_CELL_TRIES` draws, or `None`
    /// when each of them is occupied.
    pub fn pick_free_cell(&self, draws: &Vec<(i32, i32)>) -> (r: Option<(i32, i32)>)
        ensures
            r == first_free(
                self@,
                draws@.take(
                    if draws@.len() < FREE_CELL_TRIES {
                        draws@.len() as int
                    } else {
                        FREE_CELL_TRIES as int
                    },
                ),
            ),
    {
        let limit: usize = if draws.len() < FREE_CELL_TRIES as usize {
            draws.len()
        } else {
            FREE_CELL_TRIES as usize
        };
        assert(limit as int == if draws@.len() < FREE_CELL_TRIES {
            draws@.len() as int
        } else {
            FREE_CELL_TRIES as int
        });
        let mut i: usize = 0;
        while i < limit
            invariant
                limit <= draws@.len(),
                limit as int == if draws@.len() < FREE_CELL_TRIES {
                    draws@.len() as int
                } else {
                    FREE_CELL_TRIES as int
                },
                i <= limit,
                first_free(self@, draws@.take(i as int)) is None,
            decreases limit - i,
        {
            let c = draws[i];
            assert(draws@.take(i + 1).drop_last() =~= draws@.take(i as int));
            if !self.is_occupied(c.0, c.1) {
                proof {
                    assert(draws@.take(i + 1).last() == c);
                    assert(first_free(self@, draws@.take(i + 1)) == Some(c));
                    lemma_first_free_stable(self@, draws@, i + 1, limit as int);
                }
                return Some(c);
            }
            i += 1;
        }
        None
    }

    /// Draws up to `FREE_CELL_TRIES` random cells of the map and returns the
    /// first that is free, or `None` when all of them were occupied.
    pub fn get_random_free_cell(&self) -> (r: Option<(i32, i32)>)
        ensures
            r matches Some(c) ==> in_map(c) && !self@.contains(c),
            exists|d: Seq<(i32, i32)>|
                {
                    &&& d.len() <= FREE_CELL_TRIES
                    &&& forall|i: int| 0 <= i < d.len() ==> in_map(#[trigger] d[i])
                    &&& r == first_free(self@, d)
                    &&& r is None ==> d.len() == FREE_CELL_TRIES
                },
    {
        let ghost mut draws: Seq<(i32, i32)> = Seq::empty();
        let mut tries: u32 = 0;
        while tries < FREE_CELL_TRIES
            invariant
                tries <= FREE_CELL_TRIES,
                draws.len() == tries,
                forall|i: int| 0 <= i < draws.len() ==> in_map(#[trigger] draws[i]),
                first_free(self@, draws) is None,
            decreases FREE_CELL_TRIES - tries,
        {
            let x = random_in_range(-MAP_WIDTH / 2, MAP_WIDTH / 2);
            let z = random_in_range(-MAP_HEIGHT / 2, MAP_HEIGHT / 2);
            proof {
                let prev = draws;
                draws = draws.push((x, z));
                assert(draws.drop_last() =~= prev);
            }
            if !self.is_occupied(x, z) {
                return Some((x, z));
            }
            tries += 1;
        }
        None
    }
}

impl Default for MapGrid {
    /// An empty grid.
    fn default() -> (grid: Self)
        ensures
            grid@ == Set::<(i32, i32)>::empty(),
    {
        MapGrid::new()
    }
}

/// Law: marking a cell makes it occupied and leaves every other cell as it was.
pub proof fn law_mark_then_query(before: Set<(i32, i32)>, x: i32, z: i32, a: i32, b: i32)
    ensures
        before.insert((x, z)).contains((x, z)),
        (a, b) != (x, z) ==> before.insert((x, z)).contains((a, b)) == before.contains((a, b)),
{
}

/// Law: a cell that `first_free` finds is one of the draws and is not occupied;
/// when it finds none, every draw was occupied.
pub proof fn law_first_free_is_free(occupied: Set<(i32, i32)>, draws: Seq<(i32, i32)>)
    ensures
        first_free(occupied, draws) matches Some(c) ==> draws.contains(c) && !occupied.contains(c),
        first_free(occupied, draws) is None ==> forall|i: int|
            0 <= i < draws.len() ==> occupied.contains(#[trigger] draws[i]),
    decreases draws.len(),
{
    if draws.len() > 0 {
        let prev = draws.drop_last();
        law_first_free_is_free(occupied, prev);
        match first_free(occupied, prev) {
            Some(c) => {
                let j = choose|j: int| 0 <= j < prev.len() && prev[j] == c;
                assert(draws[j] == c);
            },
            None => {
                assert forall|i: int| 0 <= i < draws.len() - 1 implies occupied.contains(
                    #[trigger] draws[i],
                ) by {
                    assert(draws[i] == prev[i]);
                }
                assert(draws[draws.len() - 1] == draws.last());
            },
        }
    }
}

/// Law: the obstacles placed from a series of draws are at most `count`, pairwise
/// distinct, none of them on a cell that was occupied before, and each one of
/// the draws.
pub proof fn law_placements_are_fresh(occupied: Set<(i32, i32)>, draws: Seq<(i32, i32)>, count: nat)
    ensures
        placements(occupied, draws, count).len() <= count,
        forall|i: int, j: int|
            0 <= i < j < placements(occupied, draws, count).len() ==> placements(
                occupied,
                draws,
                count,
            )[i] != placements(occupied, draws, count)[j],
        forall|i: int|
            0 <= i < placements(occupied, draws, count).len() ==> !occupied.contains(
                #[trigger] placements(occupied, draws, count)[i],
            ) && draws.contains(placements(occupied, draws, count)[i]),
    decreases draws.len(),
{
    if draws.len() > 0 {
        let prev_draws = draws.drop_last();
        law_placements_are_fresh(occupied, prev_draws, count);
        let prev = placements(occupied, prev_draws, count);
        let p = placements(occupied, draws, count);
        assert forall|i: int| 0 <= i < p.len() implies !occupied.contains(#[trigger] p[i])
            && draws.contains(p[i]) by {
            if i < prev.len() {
                assert(p[i] == prev[i]);
                let j = choose|j: int| 0 <= j < prev_draws.len() && prev_draws[j] == prev[i];
                assert(draws[j] == prev_draws[j]);
            } else {
                assert(p[i] == draws.last());
                assert(draws[draws.len() - 1] == draws.last());
            }
        }
        assert forall|i: int, j: int| 0 <= i < j < p.len() implies p[i] != p[j] by {
            if j >= prev.len() {
                assert(p[j] == draws.last());
                assert(p[i] == prev[i]);
                assert(!prev.contains(draws.last()));
            } else {
                assert(p[i] == prev[i]);
                assert(p[j] == prev[j]);
            }
        }
    }
}

/// Places `num_obstacles` obstacles, taking the given draws in order: a draw is
/// placed when it is free (neither occupied before nor placed already) and
/// fewer than `num_obstacles` are placed. Returns the placed cells in order;
/// each of them is now occupied.
pub fn place_obstacles(grid: &mut MapGrid, draws: &Vec<(i32, i32)>, num_obstacles: usize) -> (placed: Vec<(i32, i32)>)
    ensures
        placed@ == placements(old(grid)@, draws@, num_obstacles as nat),
        final(grid)@ == old(grid)@.union(cells(placed@)),
{
    let ghost before = grid@;
    let mut placed: Vec<(i32, i32)> = Vec::new();
    let mut i: usize = 0;
    while i < draws.len()
        invariant
            i <= draws@.len(),
            placed@ == placements(before, draws@.take(i as int), num_obstacles as nat),
            grid@ == before.union(cells(placed@)),
        decreases draws.len() - i,
    {
        let c = draws[i];
        assert(draws@.take(i + 1).drop_last() =~= draws@.take(i as int));
        assert(draws@.take(i + 1).last() == c);
        let ghost prev = placed@;
        if placed.len() < num_obstacles && !grid.is_occupied(c.0, c.1) {
            grid.mark_occupied(c.0, c.1);
            placed.push(c);
            proof {
                lemma_cells_push(prev, c);
                assert(grid@ =~= before.union(cells(placed@)));
            }
        }
        i += 1;
    }
    assert(draws@.take(draws@.len() as int) =~= draws@);
    placed
}

/// Places `num_obstacles` obstacles on random free cells of the map, drawing
/// cells until that many are placed (a draw on an occupied cell is drawn
/// again). Returns the placed cells in order; each of them is now occupied.
/// When the map has fewer free cells than `num_obstacles` the drawing goes on
/// until `u64::MAX` cells have been drawn, and fewer obstacles are placed.
pub fn generate_obstacles(grid: &mut MapGrid, num_obstacles: usize) -> (placed: Vec<(i32, i32)>)
    ensures
        exists|d: Seq<(i32, i32)>|
            {
                &&& forall|i: int| 0 <= i < d.len() ==> in_map(#[trigger] d[i])
                &&& placed@ == placements(old(grid)@, d, num_obstacles as nat)
                &&& placed@.len() == num_obstacles || d.len() == u64::MAX
            },
        final(grid)@ == old(grid)@.union(cells(placed@)),
        placed@.len() <= num_obstacles,
        forall|i: int|
            0 <= i < placed@.len() ==> in_map(#[trigger] placed@[i]) && !old(grid)@.contains(placed@[i]),
        forall|i: int, j: int| 0 <= i < j < placed@.len() ==> placed@[i] != placed@[j],
{
    let ghost before = grid@;
    let ghost mut draws: Seq<(i32, i32)> = Seq::empty();
    let mut placed: Vec<(i32, i32)> = Vec::new();
    let mut attempts: u64 = 0;
    while placed.len() < num_obstacles && attempts < u64::MAX
        invariant
            forall|i: int| 0 <= i < draws.len() ==> in_map(#[trigger] draws[i]),
            draws.len() == attempts,
            placed@ == placements(before, draws, num_obstacles as nat),
            grid@ == before.union(cells(placed@)),
        decreases u64::MAX - attempts,
    {
        let x = random_in_range(-MAP_WIDTH / 2, MAP_WIDTH / 2);
        let z = random_in_range(-MAP_HEIGHT / 2, MAP_HEIGHT / 2);
        let c = (x, z);
        let ghost prev = placed@;
        proof {
            let old_draws = draws;
            draws = draws.push(c);
            assert(draws.drop_last() =~= old_draws);
        }
        if !grid.is_occupied(x, z) {
            grid.mark_occupied(x, z);
            placed.push(c);
            proof {
                lemma_cells_push(prev, c);
                assert(grid@ =~= before.union(cells(placed@)));
            }
        }
        attempts += 1;
    }
    proof {
        law_placements_are_fresh(before, draws, num_obstacles as nat);
        assert forall|i: int| 0 <= i < placed@.len() implies in_map(#[trigger] placed@[i]) by {
            let j = choose|j: int| 0 <= j < draws.len() && draws[j] == placed@[i];
        }
    }
    placed
}

} // verus!
