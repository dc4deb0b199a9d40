//! The user interface's state: which kinds of entities are shown, whether the
//! menu is open, and the statistics window with the recent averages of the
//! population's traits.

use vstd::prelude::*;

verus! {

/// How many past averages each history keeps.
pub const HISTORY_LIMIT: usize = 100;

/// What the user chose to show.
#[derive(Clone, Copy, Debug, PartialEq, Eq)]
pub struct SimSettings {
    pub is_show_creatures: bool,
    pub is_show_food: bool,
    pub is_show_obstacles: bool,
    pub is_show_menu: bool,
    pub show_graphs: bool,
}

impl Default for SimSettings {
    /// Creatures, food and obstacles shown; menu and graphs hidden.
    fn default() -> (s: Self)
        ensures
            s.is_show_creatures,
            s.is_show_food,
            s.is_show_obstacles,
            !s.is_show_menu,
            !s.show_graphs,
    {
        SimSettings {
            is_show_creatures: true,
            is_show_food: true,
            is_show_obstacles: true,
            is_show_menu: false,
            show_graphs: false,
        }
    }
}

/// The keys pressed in this frame: Tab, C, F and O.
#[derive(Clone, Copy, Debug, PartialEq, Eq)]
pub struct ToggleKeys {
    pub menu: bool,
    pub creatures: bool,
    pub food: bool,
    pub obstacles: bool,
}

/// For each kind of entity, the visibility to give all entities of that kind,
/// or `None` to leave them as they are.
#[derive(Clone, Copy, Debug, PartialEq, Eq)]
pub struct VisibilityUpdate {
    pub creatures: Option<bool>,
    pub food: Option<bool>,
    pub obstacles: Option<bool>,
}

/// The settings after the toggle keys: each pressed key flips its setting.
pub open spec fn toggled(s: SimSettings, keys: ToggleKeys) -> SimSettings {
    SimSettings {
        is_show_creatures: if keys.creatures {
            !s.is_show_creatures
        } else {
            s.is_show_creatures
        },
        is_show_food: if keys.food {
            !s.is_show_food
        } else {
            s.is_show_food
        },
        is_show_obstacles: if keys.obstacles {
            !s.is_show_obstacles
        } else {
            s.is_show_obstacles
        },
        is_show_menu: if keys.menu {
            !s.is_show_menu
        } else {
            s.is_show_menu
        },
        show_graphs: s.show_graphs,
    }
}

/// Applies the toggle keys of one frame: Tab opens or closes the menu, C, F and
/// O show or hide creatures, food and obstacles. For each kind whose key was
/// pressed, every entity of that kind is given the new visibility.
pub fn settings_toggle(settings: &mut SimSettings, keys: ToggleKeys) -> (update: VisibilityUpdate)
    ensures
        *final(settings) == toggled(*old(settings), keys),
        final(settings).is_show_menu == (old(settings).is_show_menu != keys.menu),
        final(settings).is_show_creatures == (old(settings).is_show_creatures != keys.creatures),
        final(settings).is_show_food == (old(settings).is_show_food != keys.food),
        final(settings).is_show_obstacles == (old(settings).is_show_obstacles != keys.obstacles),
        final(settings).show_graphs == old(settings).show_graphs,
        update.creatures == if keys.creatures {
            Some(final(settings).is_show_creatures)
        } else {
            None::<bool>
        },
        update.food == if keys.food {
            Some(final(settings).is_show_food)
        } else {
            None::<bool>
        },
        update.obstacles == if keys.obstacles {
            Some(final(settings).is_show_obstacles)
        } else {
            None::<bool>
        },
{
    if keys.menu {
        settings.is_show_menu = !settings.is_show_menu;
    }
    let mut update = VisibilityUpdate { creatures: None, food: None, obstacles: None };
    if keys.creatures {
        settings.is_show_creatures = !settings.is_show_creatures;
        update.creatures = Some(settings.is_show_creatures);
    }
    if keys.food {
        settings.is_show_food = !settings.is_show_food;
        update.food = Some(settings.is_show_food);
    }
    if keys.obstacles {
        settings.is_show_obstacles = !settings.is_show_obstacles;
        update.obstacles = Some(settings.is_show_obstacles);
    }
    update
}

/// Law: each setting flips exactly when its own key is pressed, whatever the
/// other keys; the graphs setting never changes.
pub proof fn law_toggle_flips_own_setting(s: SimSettings, keys: ToggleKeys)
    ensures
        toggled(s, keys).is_show_menu == (s.is_show_menu != keys.menu),
        toggled(s, keys).is_show_creatures == (s.is_show_creatures != keys.creatures),
        toggled(s, keys).is_show_food == (s.is_show_food != keys.food),
        toggled(s, keys).is_show_obstacles == (s.is_show_obstacles != keys.obstacles),
        toggled(s, keys).show_graphs == s.show_graphs,
{
}

/// Law: pressing the same keys twice gives back the settings one started from.
pub proof fn law_toggle_twice(s: SimSettings, keys: ToggleKeys)
    ensures
        toggled(toggled(s, keys), keys) == s,
{
}

/// The counts of entities and the recent averages of the creatures' speed,
/// vision and fitness.
pub struct SimStatistics<T> {
    pub num_creatures: usize,
    pub num_food: usize,
    pub num_obstacles: usize,
    pub speed_history: Vec<T>,
    pub vision_history: Vec<T>,
    pub fitness_history: Vec<T>,
}

impl<T> Default for SimStatistics<T> {
    /// No entities counted, empty histories.
    fn default() -> (s: Self)
        ensures
            s.num_creatures == 0,
            s.num_food == 0,
            s.num_obstacles == 0,
            s.speed_history@ == Seq::<T>::empty(),
            s.vision_history@ == Seq::<T>::empty(),
            s.fitness_history@ == Seq::<T>::empty(),
    {
        SimStatistics {
            num_creatures: 0,
            num_food: 0,
            num_obstacles: 0,
            speed_history: Vec::new(),
            vision_history: Vec::new(),
            fitness_history: Vec::new(),
        }
    }
}

/// A history after one more value: the value is appended, and when that makes
/// the speed history longer than `HISTORY_LIMIT` (`trim`), the oldest value goes.
pub open spec fn recorded<T>(history: Seq<T>, value: T, trim: bool) -> Seq<T> {
    if trim {
        history.push(value).drop_first()
    } else {
        history.push(value)
    }
}

/// A history filled from empty with `values`, one at a time.
pub open spec fn history_of<T>(values: Seq<T>) -> Seq<T>
    decreases values.len(),
{
    if values.len() == 0 {
        Seq::empty()
    } else {
        let prev = history_of(values.drop_last());
        recorded(prev, values.last(), prev.len() + 1 > HISTORY_LIMIT)
    }
}

/// The last `HISTORY_LIMIT` values of a sequence, or all of them when fewer.
pub open spec fn latest<T>(values: Seq<T>) -> Seq<T> {
    if values.len() > HISTORY_LIMIT {
        values.subrange(values.len() - HISTORY_LIMIT, values.len() as int)
    } else {
        values
    }
}

impl<T> SimStatistics<T> {
    /// Records this frame's counts and, when there are creatures, the averages
    /// of their speed, vision and fitness; the histories keep the last
    /// `HISTORY_LIMIT` averages.
    pub fn update_sim_stats(
        &mut self,
        num_creatures: usize,
        num_food: usize,
        num_obstacles: usize,
        avg_speed: T,
        avg_vision: T,
        avg_fitness: T,
    )
        ensures
            final(self).num_creatures == num_creatures,
            final(self).num_food == num_food,
            final(self).num_obstacles == num_obstacles,
            num_creatures > 0 ==> {
                let trim = old(self).speed_history@.len() + 1 > HISTORY_LIMIT;
                &&& final(self).speed_history@ == recorded(old(self).speed_history@, avg_speed, trim)
                &&& final(self).vision_history@ == recorded(old(self).vision_history@, avg_vision, trim)
                &&& final(self).fitness_history@ == recorded(
                    old(self).fitness_history@,
                    avg_fitness,
                    trim,
                )
            },
            num_creatures == 0 ==> {
                &&& final(self).speed_history@ == old(self).speed_history@
                &&& final(self).vision_history@ == old(self).vision_history@
                &&& final(self).fitness_history@ == old(self).fitness_history@
            },
    {
        self.num_creatures = num_creatures;
        self.num_food = num_food;
        self.num_obstacles = num_obstacles;
        if num_creatures > 0 {
            self.speed_history.push(avg_speed);
            self.vision_history.push(avg_vision);
            self.fitness_history.push(avg_fitness);
            if self.speed_history.len() > HISTORY_LIMIT {
                self.speed_history.remove(0);
                self.vision_history.remove(0);
                self.fitness_history.remove(0);
            }
        }
    }
}

/// Law: histories that are equally long and within `HISTORY_LIMIT` stay so after
/// a record.
pub proof fn law_histories_stay_aligned<T>(
    speed: Seq<T>,
    vision: Seq<T>,
    fitness: Seq<T>,
    s: T,
    v: T,
    f: T,
)
    requires
        speed.len() == vision.len(),
        speed.len() == fitness.len(),
        speed.len() <= HISTORY_LIMIT,
    ensures
        ({
            let trim = speed.len() + 1 > HISTORY_LIMIT;
            &&& recorded(speed, s, trim).len() == recorded(vision, v, trim).len()
            &&& recorded(speed, s, trim).len() == recorded(fitness, f, trim).len()
            &&& recorded(speed, s, trim).len() <= HISTORY_LIMIT
        }),
{
}

/// Law: a history filled value by value holds exactly the last `HISTORY_LIMIT`
/// values recorded, oldest first.
pub proof fn law_history_keeps_latest<T>(values: Seq<T>)
    ensures
        history_of(values) == latest(values),
    decreases values.len(),
{
    if values.len() > 0 {
        let prev = values.drop_last();
        law_history_keeps_latest(prev);
        let h = history_of(prev);
        let last = values.last();
        if prev.len() >= HISTORY_LIMIT {
            assert(h.push(last).drop_first() =~= latest(values));
        } else {
            assert(h.push(last) =~= latest(values));
        }
    }
}

} // verus!
