//! The enemy navigator: agents that roam the maze at fixed speed and choose
//! a new heading at cell boundaries, biased by a turn preference.
//!
//! An enemy decides its heading when it enters a grid cell it has not yet
//! decided in, or when its next move would run into a solid cell. The
//! candidates are tried in a fixed priority order — the preferred turn
//! first, then straight ahead, then the other turn, then reverse — and a
//! candidate is valid only if its destination cell is traversable. A
//! destination outside the grid counts as blocked, never as an error. An
//! animation timer alternates the sprite between two texture keys at a
//! fixed interval, independently of navigation.

use vstd::prelude::*;
use crate::caster::{
    block_fp, grid_index, lemma_index_bounds_coord, lemma_neg_coord_neg_index, MAX_BLOCK_SIZE,
};
use crate::fixed::FP_ONE;
use crate::maze::{cell_at, cell_open, lemma_open_cell_interior, maze_cols, maze_rows, maze_view,
    maze_wf, Maze, OPEN_CELL};
use vstd::pervasive::VecAdditionalExecFns;

verus! {

/// Which turn an enemy tries first at an ambiguous junction.
#[derive(Clone, Copy, PartialEq, Eq, Structural, Debug)]
pub enum TurnPreference {
    Left,
    Right,
}

/// A cardinal movement heading on the grid. The screen's y axis grows
/// downward: `South` is toward larger row indices, `East` toward larger
/// column indices.
#[derive(Clone, Copy, PartialEq, Eq, Structural, Debug)]
pub enum Heading {
    North,
    East,
    South,
    West,
}

/// Column step of a heading.
pub open spec fn heading_dx(h: Heading) -> int {
    match h {
        Heading::East => 1,
        Heading::West => -1,
        _ => 0,
    }
}

/// Row step of a heading.
pub open spec fn heading_dy(h: Heading) -> int {
    match h {
        Heading::South => 1,
        Heading::North => -1,
        _ => 0,
    }
}

/// The heading one quarter turn to the left (counterclockwise on screen,
/// where y grows downward).
pub open spec fn left_of(h: Heading) -> Heading {
    match h {
        Heading::East => Heading::North,
        Heading::North => Heading::West,
        Heading::West => Heading::South,
        Heading::South => Heading::East,
    }
}

/// The heading one quarter turn to the right (clockwise on screen).
pub open spec fn right_of(h: Heading) -> Heading {
    match h {
        Heading::East => Heading::South,
        Heading::South => Heading::West,
        Heading::West => Heading::North,
        Heading::North => Heading::East,
    }
}

/// The opposite heading.
pub open spec fn reverse_of(h: Heading) -> Heading {
    match h {
        Heading::East => Heading::West,
        Heading::West => Heading::East,
        Heading::North => Heading::South,
        Heading::South => Heading::North,
    }
}

/// The turn tried first under a preference.
pub open spec fn first_turn(h: Heading, p: TurnPreference) -> Heading {
    match p {
        TurnPreference::Right => right_of(h),
        TurnPreference::Left => left_of(h),
    }
}

/// The turn tried after straight ahead.
pub open spec fn second_turn(h: Heading, p: TurnPreference) -> Heading {
    match p {
        TurnPreference::Right => left_of(h),
        TurnPreference::Left => right_of(h),
    }
}

/// The cell one step toward `h` from `(row, col)` is in bounds and
/// traversable.
pub open spec fn neighbor_open_spec(m: Seq<Seq<char>>, row: int, col: int, h: Heading) -> bool {
    cell_open(m, row + heading_dy(h), col + heading_dx(h))
}

/// The heading chosen when a decision is due in cell `(row, col)`: the
/// first open candidate in preference order, or reverse at a dead end.
pub open spec fn choose_heading_spec(
    m: Seq<Seq<char>>,
    row: int,
    col: int,
    h: Heading,
    p: TurnPreference,
) -> Heading {
    if neighbor_open_spec(m, row, col, first_turn(h, p)) {
        first_turn(h, p)
    } else if neighbor_open_spec(m, row, col, h) {
        h
    } else if neighbor_open_spec(m, row, col, second_turn(h, p)) {
        second_turn(h, p)
    } else {
        reverse_of(h)
    }
}

/// At a four-way junction with every neighbor open, the navigator turns
/// toward its preference — not straight ahead and not the other way.
pub proof fn lemma_junction_prefers_turn(
    m: Seq<Seq<char>>,
    row: int,
    col: int,
    h: Heading,
    p: TurnPreference,
)
    requires
        neighbor_open_spec(m, row, col, Heading::North),
        neighbor_open_spec(m, row, col, Heading::East),
        neighbor_open_spec(m, row, col, Heading::South),
        neighbor_open_spec(m, row, col, Heading::West),
    ensures
        choose_heading_spec(m, row, col, h, p) == first_turn(h, p),
{
}

/// Tests whether the neighbor cell toward `h` is traversable.
pub fn neighbor_open(maze: &Maze, row: usize, col: usize, h: Heading) -> (b: bool)
    requires
        maze_wf(maze_view(maze)),
        cell_open(maze_view(maze), row as int, col as int),
    ensures
        b == neighbor_open_spec(maze_view(maze), row as int, col as int, h),
{
    proof {
        lemma_open_cell_interior(maze_view(maze), row as int, col as int);
    }
    let r2: usize = match h {
        Heading::North => row - 1,
        Heading::South => row + 1,
        _ => row,
    };
    let c2: usize = match h {
        Heading::East => col + 1,
        Heading::West => col - 1,
        _ => col,
    };
    cell_at(maze, r2, c2) == OPEN_CELL
}

/// Chooses the heading for a decision in cell `(row, col)`.
pub fn choose_heading(
    maze: &Maze,
    row: usize,
    col: usize,
    h: Heading,
    p: TurnPreference,
) -> (r: Heading)
    requires
        maze_wf(maze_view(maze)),
        cell_open(maze_view(maze), row as int, col as int),
    ensures
        r == choose_heading_spec(maze_view(maze), row as int, col as int, h, p),
{
    let c1 = match p {
        TurnPreference::Right => match h {
            Heading::East => Heading::South,
            Heading::South => Heading::West,
            Heading::West => Heading::North,
            Heading::North => Heading::East,
        },
        TurnPreference::Left => match h {
            Heading::East => Heading::North,
            Heading::North => Heading::West,
            Heading::West => Heading::South,
            Heading::South => Heading::East,
        },
    };
    assert(c1 == first_turn(h, p));
    if neighbor_open(maze, row, col, c1) {
        return c1;
    }
    if neighbor_open(maze, row, col, h) {
        return h;
    }
    let c2 = match p {
        TurnPreference::Right => match h {
            Heading::East => Heading::North,
            Heading::North => Heading::West,
            Heading::West => Heading::South,
            Heading::South => Heading::East,
        },
        TurnPreference::Left => match h {
            Heading::East => Heading::South,
            Heading::South => Heading::West,
            Heading::West => Heading::North,
            Heading::North => Heading::East,
        },
    };
    assert(c2 == second_turn(h, p));
    if neighbor_open(maze, row, col, c2) {
        return c2;
    }
    match h {
        Heading::East => Heading::West,
        Heading::West => Heading::East,
        Heading::North => Heading::South,
        Heading::South => Heading::North,
    }
}

/// How long one animation frame is shown, in fixed-point seconds
/// (0.4 s, rounded to the fixed-point grid).
pub const ANIM_INTERVAL_FP: i64 = 409;

/// The texture key of the first animation frame.
pub const ANIM_FRAME_A: char = 'e';

/// The texture key of the second animation frame.
pub const ANIM_FRAME_B: char = 'f';

/// Upper bound on an enemy's speed in world units per second. This is a
/// machine limit, not a gameplay rule: it keeps `speed * delta_time` far
/// from 64-bit overflow while admitting speeds three orders of magnitude
/// above any real level's.
pub const MAX_ENEMY_SPEED: i64 = 0x10_0000;

/// Upper bound on one tick's delta time, in fixed-point seconds. This is a
/// machine limit, not a gameplay rule: it keeps `speed * delta_time` far
/// from 64-bit overflow while admitting a single tick of over four months.
pub const MAX_TICK_FP: i64 = 0x4_0000_0000;

/// An autonomous agent roaming the maze.
#[derive(Clone, Copy, Debug)]
pub struct Enemy {
    pub pos_x: i64,
    pub pos_y: i64,
    pub texture_key: char,
    pub heading: Heading,
    pub preference: TurnPreference,
    pub speed: i64,
    pub animation_timer: i64,
    pub decided_row: usize,
    pub decided_col: usize,
}

/// The animation timer after one tick: it accumulates and resets when a
/// frame flip is due.
pub open spec fn anim_timer_after(timer: int, dt: int) -> int {
    if timer + dt > ANIM_INTERVAL_FP {
        0
    } else {
        timer + dt
    }
}

/// The texture key after one tick: it flips between the two frames when
/// the timer runs over the interval.
pub open spec fn anim_key_after(key: char, timer: int, dt: int) -> char {
    if timer + dt > ANIM_INTERVAL_FP {
        if key == ANIM_FRAME_A {
            ANIM_FRAME_B
        } else {
            ANIM_FRAME_A
        }
    } else {
        key
    }
}

/// The x coordinate proposed by moving `step` toward `h`.
pub open spec fn proposed_x(x: int, step: int, h: Heading) -> int {
    match h {
        Heading::East => x + step,
        Heading::West => x - step,
        _ => x,
    }
}

/// The y coordinate proposed by moving `step` toward `h`.
pub open spec fn proposed_y(y: int, step: int, h: Heading) -> int {
    match h {
        Heading::South => y + step,
        Heading::North => y - step,
        _ => y,
    }
}

/// The fixed-point coordinate pair `(x, y)` lies over a traversable cell.
pub open spec fn pos_cell_open(m: Seq<Seq<char>>, x: int, y: int, block_size: int) -> bool {
    cell_open(m, grid_index(y, block_size), grid_index(x, block_size))
}

/// An enemy in a consistent state: standing over a traversable cell, with
/// its speed and animation timer in range.
pub open spec fn enemy_wf(e: Enemy, m: Seq<Seq<char>>, block_size: int) -> bool {
    &&& pos_cell_open(m, e.pos_x as int, e.pos_y as int, block_size)
    &&& 0 <= e.speed <= MAX_ENEMY_SPEED
    &&& 0 <= e.animation_timer <= ANIM_INTERVAL_FP
}

/// One navigation tick: decide a heading if due, move if the destination
/// cell is open, advance the animation.
pub open spec fn enemy_step_spec(e: Enemy, m: Seq<Seq<char>>, block_size: int, dt: int) -> Enemy {
    let row = grid_index(e.pos_y as int, block_size);
    let col = grid_index(e.pos_x as int, block_size);
    let step = e.speed * dt;
    let blocked_ahead = !pos_cell_open(
        m,
        proposed_x(e.pos_x as int, step, e.heading),
        proposed_y(e.pos_y as int, step, e.heading),
        block_size,
    );
    let need = row != e.decided_row as int || col != e.decided_col as int || blocked_ahead;
    let h2 = if need {
        choose_heading_spec(m, row, col, e.heading, e.preference)
    } else {
        e.heading
    };
    let nx = proposed_x(e.pos_x as int, step, h2);
    let ny = proposed_y(e.pos_y as int, step, h2);
    let moved = pos_cell_open(m, nx, ny, block_size);
    Enemy {
        pos_x: if moved {
            nx as i64
        } else {
            e.pos_x
        },
        pos_y: if moved {
            ny as i64
        } else {
            e.pos_y
        },
        texture_key: anim_key_after(e.texture_key, e.animation_timer as int, dt),
        heading: h2,
        preference: e.preference,
        speed: e.speed,
        animation_timer: anim_timer_after(e.animation_timer as int, dt) as i64,
        decided_row: row as usize,
        decided_col: col as usize,
    }
}

/// One navigation tick keeps an enemy well-formed: whichever heading is
/// chosen, the enemy moves only onto a traversable cell, and the animation
/// timer stays within its interval.
pub proof fn lemma_enemy_step_preserves_wf(e: Enemy, m: Seq<Seq<char>>, block_size: int, dt: int)
    requires
        maze_wf(m),
        1 <= block_size <= MAX_BLOCK_SIZE as int,
        enemy_wf(e, m, block_size),
        0 <= dt <= MAX_TICK_FP,
    ensures
        enemy_wf(enemy_step_spec(e, m, block_size, dt), m, block_size),
{
    let s = enemy_step_spec(e, m, block_size, dt);
    let step = e.speed * dt;
    let row = grid_index(e.pos_y as int, block_size);
    let col = grid_index(e.pos_x as int, block_size);
    let blocked_ahead = !pos_cell_open(
        m,
        proposed_x(e.pos_x as int, step, e.heading),
        proposed_y(e.pos_y as int, step, e.heading),
        block_size,
    );
    let need = row != e.decided_row as int || col != e.decided_col as int || blocked_ahead;
    let h2 = if need {
        choose_heading_spec(m, row, col, e.heading, e.preference)
    } else {
        e.heading
    };
    let nx = proposed_x(e.pos_x as int, step, h2);
    let ny = proposed_y(e.pos_y as int, step, h2);
    if pos_cell_open(m, nx, ny, block_size) {
        lemma_index_bounds_coord(nx, block_size, m[0].len() as int);
        lemma_index_bounds_coord(ny, block_size, m.len() as int);
        assert(m[0].len() * (block_size * (FP_ONE as int)) <= 0x40_0000_0000) by (nonlinear_arith)
            requires
                0 <= m[0].len() <= 4096,
                0 <= block_size * (FP_ONE as int) <= 0x400_0000,
        ;
        assert(m.len() * (block_size * (FP_ONE as int)) <= 0x40_0000_0000) by (nonlinear_arith)
            requires
                0 <= m.len() <= 4096,
                0 <= block_size * (FP_ONE as int) <= 0x400_0000,
        ;
        assert(s.pos_x as int == nx);
        assert(s.pos_y as int == ny);
    }
}

/// An enemy after a whole run of ticks, one per entry of `dts`.
pub open spec fn enemy_run_spec(e: Enemy, m: Seq<Seq<char>>, block_size: int, dts: Seq<int>) -> Enemy
    decreases dts.len(),
{
    if dts.len() == 0 {
        e
    } else {
        enemy_step_spec(enemy_run_spec(e, m, block_size, dts.drop_last()), m, block_size, dts.last())
    }
}

/// Across any sequence of ticks in a well-formed (fully enclosed) maze, a
/// well-formed enemy stays well-formed: it never occupies a cell that is
/// not traversable and its position never leaves the maze bounds.
pub proof fn lemma_enemy_run_stays_wf(e: Enemy, m: Seq<Seq<char>>, block_size: int, dts: Seq<int>)
    requires
        maze_wf(m),
        1 <= block_size <= MAX_BLOCK_SIZE as int,
        enemy_wf(e, m, block_size),
        forall|i: int| 0 <= i < dts.len() ==> 0 <= #[trigger] dts[i] <= MAX_TICK_FP,
    ensures
        enemy_wf(enemy_run_spec(e, m, block_size, dts), m, block_size),
    decreases dts.len(),
{
    if dts.len() > 0 {
        lemma_enemy_run_stays_wf(e, m, block_size, dts.drop_last());
        lemma_enemy_step_preserves_wf(
            enemy_run_spec(e, m, block_size, dts.drop_last()),
            m,
            block_size,
            dts.last(),
        );
    }
}

/// Tests whether the fixed-point point `(x, y)` lies over a traversable
/// cell; anything off the grid counts as blocked.
pub fn probe_open(maze: &Maze, x: i64, y: i64, block_size: usize) -> (b: bool)
    requires
        maze_wf(maze_view(maze)),
        1 <= block_size <= MAX_BLOCK_SIZE,
    ensures
        b == pos_cell_open(maze_view(maze), x as int, y as int, block_size as int),
{
    let ghost m = maze_view(maze);
    let ghost bs = block_size as int;
    if x < 0 || y < 0 {
        proof {
            if x < 0 {
                lemma_neg_coord_neg_index(x as int, bs);
            } else {
                lemma_neg_coord_neg_index(y as int, bs);
            }
        }
        return false;
    }
    let bf: u64 = ((block_size as i64) * FP_ONE) as u64;
    let col64: u64 = (x as u64) / bf;
    let row64: u64 = (y as u64) / bf;
    let rows = maze_rows(maze);
    let cols = maze_cols(maze, 0);
    if row64 >= rows as u64 || col64 >= cols as u64 {
        return false;
    }
    let row: usize = row64 as usize;
    let col: usize = col64 as usize;
    cell_at(maze, row, col) == OPEN_CELL
}

impl Enemy {
    /// Spawns an enemy at a fixed-point position, facing east, showing the
    /// first animation frame. Its first tick forces a heading decision.
    pub fn new(x: i64, y: i64, preference: TurnPreference, speed: i64) -> (e: Enemy)
        ensures
            e == (Enemy {
                pos_x: x,
                pos_y: y,
                texture_key: ANIM_FRAME_A,
                heading: Heading::East,
                preference,
                speed,
                animation_timer: 0,
                decided_row: usize::MAX,
                decided_col: usize::MAX,
            }),
    {
        Enemy {
            pos_x: x,
            pos_y: y,
            texture_key: ANIM_FRAME_A,
            heading: Heading::East,
            preference,
            speed,
            animation_timer: 0,
            decided_row: usize::MAX,
            decided_col: usize::MAX,
        }
    }

    /// Advances this enemy by one tick of `delta_time` fixed-point seconds:
    /// decides a heading when entering an undecided cell or when blocked,
    /// moves only onto a traversable cell, and advances the animation.
    /// A well-formed enemy stays well-formed: it never leaves the open
    /// cells of the maze.
    pub fn update(&mut self, delta_time: i64, maze: &Maze, block_size: usize)
        requires
            maze_wf(maze_view(maze)),
            1 <= block_size <= MAX_BLOCK_SIZE,
            enemy_wf(*old(self), maze_view(maze), block_size as int),
            0 <= delta_time <= MAX_TICK_FP,
        ensures
            *final(self) == enemy_step_spec(
                *old(self),
                maze_view(maze),
                block_size as int,
                delta_time as int,
            ),
            enemy_wf(*final(self), maze_view(maze), block_size as int),
    {
        let ghost m = maze_view(maze);
        let ghost bs = block_size as int;
        let bf: u64 = ((block_size as i64) * FP_ONE) as u64;
        proof {
            lemma_index_bounds_coord(self.pos_x as int, bs, m[0].len() as int);
            lemma_index_bounds_coord(self.pos_y as int, bs, m.len() as int);
            assert(m[0].len() * block_fp(bs) <= 0x40_0000_0000) by (nonlinear_arith)
                requires 0 <= m[0].len() <= 4096, 0 <= block_fp(bs) <= 0x400_0000;
            assert(m.len() * block_fp(bs) <= 0x40_0000_0000) by (nonlinear_arith)
                requires 0 <= m.len() <= 4096, 0 <= block_fp(bs) <= 0x400_0000;
            assert(0 <= self.speed as int * (delta_time as int) <= 0x40_0000_0000_0000)
                by (nonlinear_arith)
                requires
                    0 <= self.speed as int <= 0x10_0000,
                    0 <= delta_time as int <= 0x4_0000_0000,
            ;
        }
        let col: usize = ((self.pos_x as u64) / bf) as usize;
        let row: usize = ((self.pos_y as u64) / bf) as usize;
        let step: i64 = self.speed * delta_time;
        let ahead_x: i64 = match self.heading {
            Heading::East => self.pos_x + step,
            Heading::West => self.pos_x - step,
            _ => self.pos_x,
        };
        let ahead_y: i64 = match self.heading {
            Heading::South => self.pos_y + step,
            Heading::North => self.pos_y - step,
            _ => self.pos_y,
        };
        let need = row != self.decided_row || col != self.decided_col || !probe_open(
            maze,
            ahead_x,
            ahead_y,
            block_size,
        );
        let h2 = if need {
            choose_heading(maze, row, col, self.heading, self.preference)
        } else {
            self.heading
        };
        let nx: i64 = match h2 {
            Heading::East => self.pos_x + step,
            Heading::West => self.pos_x - step,
            _ => self.pos_x,
        };
        let ny: i64 = match h2 {
            Heading::South => self.pos_y + step,
            Heading::North => self.pos_y - step,
            _ => self.pos_y,
        };
        if probe_open(maze, nx, ny, block_size) {
            self.pos_x = nx;
            self.pos_y = ny;
        }
        self.heading = h2;
        self.decided_row = row;
        self.decided_col = col;
        let t = self.animation_timer + delta_time;
        if t > ANIM_INTERVAL_FP {
            self.animation_timer = 0;
            self.texture_key = if self.texture_key == ANIM_FRAME_A {
                ANIM_FRAME_B
            } else {
                ANIM_FRAME_A
            };
        } else {
            self.animation_timer = t;
        }
    }
}

/// Advances every enemy by one tick.
pub fn update_enemies(enemies: &mut Vec<Enemy>, delta_time: i64, maze: &Maze, block_size: usize)
    requires
        maze_wf(maze_view(maze)),
        1 <= block_size <= MAX_BLOCK_SIZE,
        0 <= delta_time <= MAX_TICK_FP,
        forall|i: int|
            0 <= i < old(enemies)@.len() ==> enemy_wf(
                #[trigger] old(enemies)@[i],
                maze_view(maze),
                block_size as int,
            ),
    ensures
        final(enemies)@.len() == old(enemies)@.len(),
        forall|i: int|
            0 <= i < old(enemies)@.len() ==> #[trigger] final(enemies)@[i] == enemy_step_spec(
                old(enemies)@[i],
                maze_view(maze),
                block_size as int,
                delta_time as int,
            ),
        forall|i: int|
            0 <= i < old(enemies)@.len() ==> enemy_wf(
                #[trigger] final(enemies)@[i],
                maze_view(maze),
                block_size as int,
            ),
{
    let n = enemies.len();
    let mut i: usize = 0;
    while i < n
        invariant
            maze_wf(maze_view(maze)),
            1 <= block_size <= MAX_BLOCK_SIZE,
            0 <= delta_time <= MAX_TICK_FP,
            i <= n,
            n == enemies@.len(),
            n == old(enemies)@.len(),
            forall|t: int|
                i <= t < n ==> #[trigger] enemies@[t] == old(enemies)@[t] && enemy_wf(
                    old(enemies)@[t],
                    maze_view(maze),
                    block_size as int,
                ),
            forall|t: int|
                0 <= t < i ==> #[trigger] enemies@[t] == enemy_step_spec(
                    old(enemies)@[t],
                    maze_view(maze),
                    block_size as int,
                    delta_time as int,
                ) && enemy_wf(enemies@[t], maze_view(maze), block_size as int),
        decreases n - i,
    {
        let mut e = enemies[i];
        e.update(delta_time, maze, block_size);
        let ghost pre = enemies@;
        enemies.set(i, e);
        proof {
            assert forall|t: int| i as int + 1 <= t < n implies #[trigger] enemies@[t] == old(
                enemies,
            )@[t] by {
                assert(enemies@[t] == pre[t]);
            }
            assert forall|t: int| 0 <= t < i as int implies #[trigger] enemies@[t] == enemy_step_spec(
                old(enemies)@[t],
                maze_view(maze),
                block_size as int,
                delta_time as int,
            ) by {
                assert(enemies@[t] == pre[t]);
            }
        }
        i = i + 1;
    }
}

} // verus!
