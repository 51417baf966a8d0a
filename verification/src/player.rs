//! The player: pose, per-frame input processing, collectable pickup and
//! enemy collision.
//!
//! Input is handed in as a per-frame snapshot of plain values: the total
//! rotation of the frame and the heading's direction vector after that
//! rotation, both fixed-point, plus the movement keys. Movement lands only
//! on a traversable cell; stepping onto the goal cell while the goal is
//! unlocked wins the game.

use vstd::prelude::*;
use crate::caster::{grid_index, MAX_BLOCK_SIZE};
use crate::enemy::Enemy;
use crate::fixed::FP_ONE;
use crate::maze::{cell_at, maze_cols, maze_rows, maze_view, maze_wf, Maze, GOAL_CELL, OPEN_CELL};
use crate::caster::lemma_neg_coord_neg_index;

verus! {

/// Position (fixed-point world units), heading angle and field of view
/// (fixed-point radians).
pub struct Player {
    pub pos_x: i64,
    pub pos_y: i64,
    pub a: i64,
    pub fov: i64,
}

/// Distance moved per frame while a movement key is held, in world units.
pub const MOVE_SPEED: i64 = 8;

/// Pickup radius around the player, fixed-point world units.
pub const PICKUP_RADIUS_FP: i64 = 35 * FP_ONE;

/// Collision radius around an enemy, fixed-point world units.
pub const COLLISION_RADIUS_FP: i64 = 25 * FP_ONE;

/// Magnitude cap on any world coordinate the distance tests accept.
pub const POS_LIMIT: i64 = 0x40_0000_0000;

/// Magnitude cap on the player's heading angle.
pub const PLAYER_ANGLE_LIMIT: i64 = 0x2000_0000_0000;

/// A coordinate the distance tests accept.
pub open spec fn coord_ok(v: int) -> bool {
    -POS_LIMIT <= v <= POS_LIMIT
}

/// One frame's input, already reduced to plain values by the caller:
/// the frame's total rotation (keys and pointer, fixed-point radians) and
/// the unit direction vector of the heading after that rotation.
pub struct InputSnapshot {
    pub rotation_delta: i64,
    pub dir_x: i64,
    pub dir_y: i64,
    pub move_forward: bool,
    pub move_backward: bool,
}

/// The snapshot's values are in range.
pub open spec fn input_ok(inp: InputSnapshot) -> bool {
    &&& -FP_ONE <= inp.dir_x <= FP_ONE
    &&& -FP_ONE <= inp.dir_y <= FP_ONE
    &&& -PLAYER_ANGLE_LIMIT <= inp.rotation_delta <= PLAYER_ANGLE_LIMIT
}

/// Whether any movement key is held.
pub open spec fn wants_move(inp: InputSnapshot) -> bool {
    inp.move_forward || inp.move_backward
}

/// The x coordinate the player asks to move to: forward adds a step along
/// the heading, backward subtracts one.
pub open spec fn next_x_spec(p: Player, inp: InputSnapshot) -> int {
    p.pos_x + (if inp.move_forward {
        MOVE_SPEED * inp.dir_x
    } else {
        0
    }) - (if inp.move_backward {
        MOVE_SPEED * inp.dir_x
    } else {
        0
    })
}

/// The y coordinate the player asks to move to.
pub open spec fn next_y_spec(p: Player, inp: InputSnapshot) -> int {
    p.pos_y + (if inp.move_forward {
        MOVE_SPEED * inp.dir_y
    } else {
        0
    }) - (if inp.move_backward {
        MOVE_SPEED * inp.dir_y
    } else {
        0
    })
}

/// The fixed-point point `(x, y)` falls on the grid.
pub open spec fn pos_in_grid(m: Seq<Seq<char>>, x: int, y: int, block_size: int) -> bool {
    &&& 0 <= grid_index(y, block_size) < m.len()
    &&& 0 <= grid_index(x, block_size) < m[0].len()
}

/// The character of the cell the fixed-point point `(x, y)` falls in.
pub open spec fn pos_char(m: Seq<Seq<char>>, x: int, y: int, block_size: int) -> char {
    m[grid_index(y, block_size)][grid_index(x, block_size)]
}

/// The move wins the game: a movement key is held, the destination is on
/// the grid, the goal is unlocked and the destination cell is the goal.
pub open spec fn move_wins(
    m: Seq<Seq<char>>,
    p: Player,
    inp: InputSnapshot,
    block_size: int,
    goal_unlocked: bool,
) -> bool {
    &&& wants_move(inp)
    &&& pos_in_grid(m, next_x_spec(p, inp), next_y_spec(p, inp), block_size)
    &&& goal_unlocked
    &&& pos_char(m, next_x_spec(p, inp), next_y_spec(p, inp), block_size) == GOAL_CELL
}

/// The move lands: a movement key is held, the game is not won by it, the
/// destination is on the grid and its cell is traversable.
pub open spec fn move_lands(
    m: Seq<Seq<char>>,
    p: Player,
    inp: InputSnapshot,
    block_size: int,
    goal_unlocked: bool,
) -> bool {
    &&& wants_move(inp)
    &&& pos_in_grid(m, next_x_spec(p, inp), next_y_spec(p, inp), block_size)
    &&& !move_wins(m, p, inp, block_size, goal_unlocked)
    &&& pos_char(m, next_x_spec(p, inp), next_y_spec(p, inp), block_size) == OPEN_CELL
}

/// Reads the cell a fixed-point point falls in, or nothing when the point
/// is off the grid.
pub fn probe_cell(maze: &Maze, x: i64, y: i64, block_size: usize) -> (r: Option<char>)
    requires
        maze_wf(maze_view(maze)),
        1 <= block_size <= MAX_BLOCK_SIZE,
    ensures
        pos_in_grid(maze_view(maze), x as int, y as int, block_size as int) ==> r == Some(
            pos_char(maze_view(maze), x as int, y as int, block_size as int),
        ),
        !pos_in_grid(maze_view(maze), x as int, y as int, block_size as int) ==> r is None,
{
    let ghost bs = block_size as int;
    if x < 0 || y < 0 {
        proof {
            if x < 0 {
                lemma_neg_coord_neg_index(x as int, bs);
            } else {
                lemma_neg_coord_neg_index(y as int, bs);
            }
        }
        return None;
    }
    let bf: u64 = ((block_size as i64) * FP_ONE) as u64;
    let col64: u64 = (x as u64) / bf;
    let row64: u64 = (y as u64) / bf;
    let rows = maze_rows(maze);
    let cols = maze_cols(maze, 0);
    if row64 >= rows as u64 || col64 >= cols as u64 {
        return None;
    }
    Some(cell_at(maze, row64 as usize, col64 as usize))
}

/// Applies one frame of input to the player: turns by the frame's rotation,
/// then tries one step along the (already rotated) heading. The step lands
/// only on a traversable cell; an off-grid or solid destination leaves the
/// position unchanged. Returns whether the step reached the unlocked goal.
pub fn process_events(
    player: &mut Player,
    maze: &Maze,
    block_size: usize,
    input: &InputSnapshot,
    goal_unlocked: bool,
) -> (won: bool)
    requires
        maze_wf(maze_view(maze)),
        1 <= block_size <= MAX_BLOCK_SIZE,
        input_ok(*input),
        coord_ok(old(player).pos_x as int),
        coord_ok(old(player).pos_y as int),
        -PLAYER_ANGLE_LIMIT <= old(player).a <= PLAYER_ANGLE_LIMIT,
    ensures
        final(player).a == old(player).a + input.rotation_delta,
        final(player).fov == old(player).fov,
        won == move_wins(maze_view(maze), *old(player), *input, block_size as int, goal_unlocked),
        move_lands(maze_view(maze), *old(player), *input, block_size as int, goal_unlocked)
            ==> final(player).pos_x == next_x_spec(*old(player), *input) && final(player).pos_y
            == next_y_spec(*old(player), *input),
        !move_lands(maze_view(maze), *old(player), *input, block_size as int, goal_unlocked)
            ==> final(player).pos_x == old(player).pos_x && final(player).pos_y == old(
            player,
        ).pos_y,
{
    player.a = player.a + input.rotation_delta;
    let mut nx = player.pos_x;
    let mut ny = player.pos_y;
    let mut moved = false;
    if input.move_forward {
        nx = nx + MOVE_SPEED * input.dir_x;
        ny = ny + MOVE_SPEED * input.dir_y;
        moved = true;
    }
    if input.move_backward {
        nx = nx - MOVE_SPEED * input.dir_x;
        ny = ny - MOVE_SPEED * input.dir_y;
        moved = true;
    }
    if moved {
        match probe_cell(maze, nx, ny, block_size) {
            Some(c) => {
                if goal_unlocked && c == GOAL_CELL {
                    return true;
                }
                if c == OPEN_CELL {
                    player.pos_x = nx;
                    player.pos_y = ny;
                }
            },
            None => {},
        }
    }
    false
}

/// A collectable item: position (fixed-point world units) and texture key.
#[derive(Clone, Copy, Debug)]
pub struct Collectable {
    pub pos_x: i64,
    pub pos_y: i64,
    pub texture_key: char,
}

impl Collectable {
    /// Places a collectable.
    pub fn new(x: i64, y: i64, texture_key: char) -> (c: Collectable)
        ensures
            c == (Collectable { pos_x: x, pos_y: y, texture_key }),
    {
        Collectable { pos_x: x, pos_y: y, texture_key }
    }
}

/// The collectable lies strictly within the pickup radius of `(px, py)`.
pub open spec fn within_pickup(px: int, py: int, c: Collectable) -> bool {
    (c.pos_x - px) * (c.pos_x - px) + (c.pos_y - py) * (c.pos_y - py) < PICKUP_RADIUS_FP
        * PICKUP_RADIUS_FP
}

/// The enemy lies strictly within the collision radius of `(px, py)`.
pub open spec fn within_collision(px: int, py: int, e: Enemy) -> bool {
    (e.pos_x - px) * (e.pos_x - px) + (e.pos_y - py) * (e.pos_y - py) < COLLISION_RADIUS_FP
        * COLLISION_RADIUS_FP
}

/// The collectables that survive one pickup pass: those not within the
/// pickup radius, in their original order.
pub open spec fn kept_after_pickup(cs: Seq<Collectable>, px: int, py: int) -> Seq<Collectable>
    decreases cs.len(),
{
    if cs.len() == 0 {
        Seq::empty()
    } else {
        let rest = kept_after_pickup(cs.drop_last(), px, py);
        if within_pickup(px, py, cs.last()) {
            rest
        } else {
            rest.push(cs.last())
        }
    }
}

/// How many collectables one pickup pass removes.
pub open spec fn picked_count(cs: Seq<Collectable>, px: int, py: int) -> nat
    decreases cs.len(),
{
    if cs.len() == 0 {
        0
    } else {
        picked_count(cs.drop_last(), px, py) + if within_pickup(px, py, cs.last()) {
            1nat
        } else {
            0nat
        }
    }
}

/// Pickup is idempotent: nothing that survives a pass is within the pickup
/// radius, so a second pass over the survivors removes nothing and scores
/// nothing.
pub proof fn lemma_pickup_idempotent(cs: Seq<Collectable>, px: int, py: int)
    ensures
        picked_count(kept_after_pickup(cs, px, py), px, py) == 0,
        kept_after_pickup(kept_after_pickup(cs, px, py), px, py) == kept_after_pickup(cs, px, py),
    decreases cs.len(),
{
    if cs.len() > 0 {
        lemma_pickup_idempotent(cs.drop_last(), px, py);
        let rest = kept_after_pickup(cs.drop_last(), px, py);
        if !within_pickup(px, py, cs.last()) {
            let whole = rest.push(cs.last());
            assert(whole.drop_last() =~= rest);
            assert(whole.last() == cs.last());
        }
    }
}

/// Tests one collectable against the pickup radius.
fn is_within_pickup(px: i64, py: i64, c: &Collectable) -> (b: bool)
    requires
        coord_ok(px as int),
        coord_ok(py as int),
        coord_ok(c.pos_x as int),
        coord_ok(c.pos_y as int),
    ensures
        b == within_pickup(px as int, py as int, *c),
{
    let dx: i128 = (c.pos_x as i128) - (px as i128);
    let dy: i128 = (c.pos_y as i128) - (py as i128);
    proof {
        assert(0 <= dx as int * (dx as int) <= 0x4000_0000_0000_0000_0000 && 0 <= dy as int * (
        dy as int) <= 0x4000_0000_0000_0000_0000) by (nonlinear_arith)
            requires
                -0x80_0000_0000 <= dx as int <= 0x80_0000_0000,
                -0x80_0000_0000 <= dy as int <= 0x80_0000_0000,
        ;
        assert(dx as int * (dx as int) == (c.pos_x as int - px as int) * (c.pos_x as int
            - px as int) && dy as int * (dy as int) == (c.pos_y as int - py as int) * (
        c.pos_y as int - py as int)) by (nonlinear_arith)
            requires
                dx as int == c.pos_x as int - px as int,
                dy as int == c.pos_y as int - py as int,
        ;
        assert(0 <= PICKUP_RADIUS_FP as int * (PICKUP_RADIUS_FP as int)
            <= 0x1_0000_0000_0000_0000) by (nonlinear_arith)
            requires 0 <= PICKUP_RADIUS_FP as int <= 0x1_0000_0000;
    }
    dx * dx + dy * dy < (PICKUP_RADIUS_FP as i128) * (PICKUP_RADIUS_FP as i128)
}

/// Tests one enemy against the collision radius.
fn is_within_collision(px: i64, py: i64, e: &Enemy) -> (b: bool)
    requires
        coord_ok(px as int),
        coord_ok(py as int),
        coord_ok(e.pos_x as int),
        coord_ok(e.pos_y as int),
    ensures
        b == within_collision(px as int, py as int, *e),
{
    let dx: i128 = (e.pos_x as i128) - (px as i128);
    let dy: i128 = (e.pos_y as i128) - (py as i128);
    proof {
        assert(0 <= dx as int * (dx as int) <= 0x4000_0000_0000_0000_0000 && 0 <= dy as int * (
        dy as int) <= 0x4000_0000_0000_0000_0000) by (nonlinear_arith)
            requires
                -0x80_0000_0000 <= dx as int <= 0x80_0000_0000,
                -0x80_0000_0000 <= dy as int <= 0x80_0000_0000,
        ;
        assert(dx as int * (dx as int) == (e.pos_x as int - px as int) * (e.pos_x as int
            - px as int) && dy as int * (dy as int) == (e.pos_y as int - py as int) * (
        e.pos_y as int - py as int)) by (nonlinear_arith)
            requires
                dx as int == e.pos_x as int - px as int,
                dy as int == e.pos_y as int - py as int,
        ;
        assert(0 <= COLLISION_RADIUS_FP as int * (COLLISION_RADIUS_FP as int)
            <= 0x1_0000_0000_0000_0000) by (nonlinear_arith)
            requires 0 <= COLLISION_RADIUS_FP as int <= 0x1_0000_0000;
    }
    dx * dx + dy * dy < (COLLISION_RADIUS_FP as i128) * (COLLISION_RADIUS_FP as i128)
}

/// Removes every collectable within the pickup radius of the player and
/// adds one point per removed item. Each item is considered once, in
/// order: an item picked up is gone, so no item is ever counted twice.
pub fn process_pickups(player: &Player, collectables: &mut Vec<Collectable>, score: &mut u32)
    requires
        coord_ok(player.pos_x as int),
        coord_ok(player.pos_y as int),
        forall|i: int|
            0 <= i < old(collectables)@.len() ==> coord_ok(
                #[trigger] old(collectables)@[i].pos_x as int,
            ) && coord_ok(old(collectables)@[i].pos_y as int),
        *old(score) + old(collectables)@.len() <= u32::MAX,
    ensures
        final(collectables)@ == kept_after_pickup(
            old(collectables)@,
            player.pos_x as int,
            player.pos_y as int,
        ),
        *final(score) == *old(score) + picked_count(
            old(collectables)@,
            player.pos_x as int,
            player.pos_y as int,
        ),
{
    let ghost px = player.pos_x as int;
    let ghost py = player.pos_y as int;
    let n = collectables.len();
    let mut kept: Vec<Collectable> = Vec::new();
    let mut i: usize = 0;
    while i < n
        invariant
            i <= n,
            n == collectables@.len(),
            collectables@ == old(collectables)@,
            px == player.pos_x as int,
            py == player.pos_y as int,
            coord_ok(px),
            coord_ok(py),
            forall|t: int|
                0 <= t < n ==> coord_ok(#[trigger] collectables@[t].pos_x as int) && coord_ok(
                    collectables@[t].pos_y as int,
                ),
            *old(score) + n <= u32::MAX,
            kept@ == kept_after_pickup(collectables@.subrange(0, i as int), px, py),
            *score == *old(score) + picked_count(collectables@.subrange(0, i as int), px, py),
            kept@.len() + picked_count(collectables@.subrange(0, i as int), px, py) == i,
        decreases n - i,
    {
        let c = collectables[i];
        proof {
            assert(collectables@.subrange(0, i as int + 1).drop_last() =~= collectables@.subrange(
                0,
                i as int,
            ));
            assert(collectables@.subrange(0, i as int + 1).last() == collectables@[i as int]);
        }
        if is_within_pickup(player.pos_x, player.pos_y, &c) {
            *score = *score + 1;
        } else {
            kept.push(c);
        }
        i = i + 1;
    }
    proof {
        assert(collectables@.subrange(0, n as int) =~= collectables@);
    }
    *collectables = kept;
}

/// Tests whether any enemy is within the collision radius of the player.
pub fn check_enemy_collision(player: &Player, enemies: &Vec<Enemy>) -> (hit: bool)
    requires
        coord_ok(player.pos_x as int),
        coord_ok(player.pos_y as int),
        forall|i: int|
            0 <= i < enemies@.len() ==> coord_ok(#[trigger] enemies@[i].pos_x as int) && coord_ok(
                enemies@[i].pos_y as int,
            ),
    ensures
        hit == exists|i: int|
            0 <= i < enemies@.len() && within_collision(
                player.pos_x as int,
                player.pos_y as int,
                #[trigger] enemies@[i],
            ),
{
    let n = enemies.len();
    let mut i: usize = 0;
    while i < n
        invariant
            i <= n,
            n == enemies@.len(),
            coord_ok(player.pos_x as int),
            coord_ok(player.pos_y as int),
            forall|t: int|
                0 <= t < n ==> coord_ok(#[trigger] enemies@[t].pos_x as int) && coord_ok(
                    enemies@[t].pos_y as int,
                ),
            forall|t: int|
                0 <= t < i ==> !within_collision(
                    player.pos_x as int,
                    player.pos_y as int,
                    #[trigger] enemies@[t],
                ),
        decreases n - i,
    {
        let e = enemies[i];
        if is_within_collision(player.pos_x, player.pos_y, &e) {
            return true;
        }
        i = i + 1;
    }
    false
}

} // verus!
