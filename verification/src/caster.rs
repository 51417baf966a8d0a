//! The ray caster: walks a ray through the maze until it meets a solid cell.
//!
//! A ray starts at the player's position and advances by its direction
//! vector once per step. The direction is a fixed-point vector handed in by
//! the caller (for a unit vector one step is one world unit, so the step
//! count is the distance in world units). In a well-formed maze the walk
//! always terminates: the grid index changes by at most one per step, so the
//! ray must stand on a solid boundary cell before it could leave the grid.

use vstd::prelude::*;
use crate::fixed::FP_ONE;
use crate::framebuffer::{Color, Framebuffer, TEX_SIZE};
use crate::maze::{
    cell_at, cell_open, lemma_open_cell_interior, maze_cols, maze_rows, maze_view, maze_wf, Maze,
    OPEN_CELL,
};
use crate::player::Player;
use vstd::arithmetic::div_mod::{
    lemma_div_denominator, lemma_div_multiples_vanish, lemma_div_pos_is_pos,
    lemma_fundamental_div_mod, lemma_mod_bound, lemma_multiply_divide_lt,
};
use vstd::arithmetic::mul::lemma_mul_strict_inequality;

verus! {

/// Upper bound on the cell size in world units.
pub const MAX_BLOCK_SIZE: usize = 65536;

/// The result of one ray cast: distance traveled (fixed-point world units,
/// a whole number of steps), the character of the solid cell that was hit,
/// and the texture column for that impact point.
pub struct Intersect {
    pub distance: i64,
    pub impact: char,
    pub tx: usize,
}

/// The fixed-point width of one grid cell.
pub open spec fn block_fp(block_size: int) -> int {
    block_size * FP_ONE
}

/// One coordinate of the ray after `k` steps.
pub open spec fn ray_coord(o: int, d: int, k: int) -> int {
    o + k * d
}

/// The grid index a fixed-point coordinate falls in.
pub open spec fn grid_index(coord: int, block_size: int) -> int {
    coord / (block_size * FP_ONE)
}

/// An admissible ray direction: no component jumps a whole cell per step,
/// and the vector is not zero.
pub open spec fn ray_dir_ok(dx: int, dy: int, block_size: int) -> bool {
    &&& -block_fp(block_size) <= dx <= block_fp(block_size)
    &&& -block_fp(block_size) <= dy <= block_fp(block_size)
    &&& (dx != 0 || dy != 0)
}

/// After `k` steps the ray stands over a traversable cell.
pub open spec fn ray_open_at(
    m: Seq<Seq<char>>,
    ox: int,
    oy: int,
    dx: int,
    dy: int,
    block_size: int,
    k: int,
) -> bool {
    cell_open(
        m,
        grid_index(ray_coord(oy, dy, k), block_size),
        grid_index(ray_coord(ox, dx, k), block_size),
    )
}

/// After `k` steps both fixed-point coordinates still lie on the grid.
pub open spec fn ray_in_grid_at(
    m: Seq<Seq<char>>,
    ox: int,
    oy: int,
    dx: int,
    dy: int,
    block_size: int,
    k: int,
) -> bool {
    &&& 0 <= ray_coord(ox, dx, k) < m[0].len() * block_fp(block_size)
    &&& 0 <= ray_coord(oy, dy, k) < m.len() * block_fp(block_size)
}

/// The character under the ray after `k` steps.
pub open spec fn ray_cell(
    m: Seq<Seq<char>>,
    ox: int,
    oy: int,
    dx: int,
    dy: int,
    block_size: int,
    k: int,
) -> char {
    m[grid_index(ray_coord(oy, dy, k), block_size)][grid_index(ray_coord(ox, dx, k), block_size)]
}

/// The ray's first impact is at step `k`: every earlier step stood over an
/// open cell, and at `k` it stands on the grid over a solid cell.
pub open spec fn ray_hits_at(
    m: Seq<Seq<char>>,
    ox: int,
    oy: int,
    dx: int,
    dy: int,
    block_size: int,
    k: int,
) -> bool {
    &&& forall|j: int| 0 <= j < k ==> ray_open_at(m, ox, oy, dx, dy, block_size, j)
    &&& ray_in_grid_at(m, ox, oy, dx, dy, block_size, k)
    &&& ray_cell(m, ox, oy, dx, dy, block_size, k) != OPEN_CELL
}

/// The texture column of an impact at fixed-point coordinate `x`: the
/// world-unit offset into the cell, scaled to the texture width.
pub open spec fn tx_spec(x: int, block_size: int) -> int {
    ((x / (FP_ONE as int)) % block_size) * (TEX_SIZE as int) / block_size
}

/// The pixel buffer (row-major, `width * height`) after plotting the ray's
/// first `k` traversed points in white; writes off the buffer are ignored.
pub open spec fn traced_seq(
    s: Seq<Color>,
    width: int,
    height: int,
    ox: int,
    oy: int,
    dx: int,
    dy: int,
    k: int,
) -> Seq<Color>
    decreases k,
{
    if k <= 0 {
        s
    } else {
        let prev = traced_seq(s, width, height, ox, oy, dx, dy, k - 1);
        let px = ray_coord(ox, dx, k - 1) / (FP_ONE as int);
        let py = ray_coord(oy, dy, k - 1) / (FP_ONE as int);
        if 0 <= px < width && 0 <= py < height {
            prev.update(py * width + px, Color { r: 255, g: 255, b: 255, a: 255 })
        } else {
            prev
        }
    }
}

/// A traversed point's screen pixel lies in the point's own grid cell:
/// dividing a coordinate by the fixed-point scale and then by the cell
/// size gives its grid index.
pub proof fn lemma_pixel_cell(coord: int, block_size: int)
    requires
        0 <= coord,
        1 <= block_size,
    ensures
        (coord / (FP_ONE as int)) / block_size == grid_index(coord, block_size),
{
    lemma_div_denominator(coord, FP_ONE as int, block_size);
    assert(coord / ((FP_ONE as int) * block_size) == coord / (block_size * (FP_ONE as int)))
        by (nonlinear_arith);
}

/// What one slot of the buffer holds after a trace: its previous color, or
/// white because some traversed point of the ray maps to that very slot.
pub proof fn lemma_traced_seq_effect(
    s: Seq<Color>,
    width: int,
    height: int,
    ox: int,
    oy: int,
    dx: int,
    dy: int,
    k: int,
    idx: int,
)
    requires
        0 <= idx < s.len(),
        s.len() == width * height,
        0 < width,
        0 < height,
    ensures
        traced_seq(s, width, height, ox, oy, dx, dy, k).len() == s.len(),
        traced_seq(s, width, height, ox, oy, dx, dy, k)[idx] == s[idx] || (traced_seq(
            s,
            width,
            height,
            ox,
            oy,
            dx,
            dy,
            k,
        )[idx] == (Color { r: 255, g: 255, b: 255, a: 255 }) && exists|j: int|
            #![auto]
            0 <= j < k && 0 <= ray_coord(ox, dx, j) / (FP_ONE as int) < width && 0 <= ray_coord(
                oy,
                dy,
                j,
            ) / (FP_ONE as int) < height && idx == (ray_coord(oy, dy, j) / (FP_ONE as int)) * width
                + ray_coord(ox, dx, j) / (FP_ONE as int)),
    decreases
            (if 0 <= k {
                k
            } else {
                0
            }),
{
    if k > 0 {
        lemma_traced_seq_effect(s, width, height, ox, oy, dx, dy, k - 1, idx);
        let prev = traced_seq(s, width, height, ox, oy, dx, dy, k - 1);
        let px = ray_coord(ox, dx, k - 1) / (FP_ONE as int);
        let py = ray_coord(oy, dy, k - 1) / (FP_ONE as int);
        let cur = traced_seq(s, width, height, ox, oy, dx, dy, k);
        if 0 <= px < width && 0 <= py < height {
            assert(0 <= py * width + px < width * height) by (nonlinear_arith)
                requires 0 <= px < width, 0 <= py < height;
        }
        assert(cur == (if 0 <= px < width && 0 <= py < height {
            prev.update(py * width + px, Color { r: 255, g: 255, b: 255, a: 255 })
        } else {
            prev
        }));
        if 0 <= px < width && 0 <= py < height && idx == py * width + px {
            assert(cur[idx] == (Color { r: 255, g: 255, b: 255, a: 255 }));
            assert(0 <= k - 1 < k && 0 <= ray_coord(ox, dx, k - 1) / (FP_ONE as int) < width && 0
                <= ray_coord(oy, dy, k - 1) / (FP_ONE as int) < height && idx == (ray_coord(
                oy,
                dy,
                k - 1,
            ) / (FP_ONE as int)) * width + ray_coord(ox, dx, k - 1) / (FP_ONE as int));
        } else {
            assert(cur[idx] == prev[idx]);
            if prev[idx] != s[idx] {
                let jw = choose|j: int|
                    #![auto]
                    0 <= j < k - 1 && 0 <= ray_coord(ox, dx, j) / (FP_ONE as int) < width && 0
                        <= ray_coord(oy, dy, j) / (FP_ONE as int) < height && idx == (ray_coord(
                        oy,
                        dy,
                        j,
                    ) / (FP_ONE as int)) * width + ray_coord(ox, dx, j) / (FP_ONE as int);
                assert(0 <= jw < k && 0 <= ray_coord(ox, dx, jw) / (FP_ONE as int) < width && 0
                    <= ray_coord(oy, dy, jw) / (FP_ONE as int) < height && idx == (ray_coord(
                    oy,
                    dy,
                    jw,
                ) / (FP_ONE as int)) * width + ray_coord(ox, dx, jw) / (FP_ONE as int));
            }
        }
    }
}

/// A ray has at most one first impact: the step count in [`ray_hits_at`]
/// pins the caster's result as a function of its inputs.
pub proof fn lemma_first_hit_unique(
    m: Seq<Seq<char>>,
    ox: int,
    oy: int,
    dx: int,
    dy: int,
    block_size: int,
    k1: int,
    k2: int,
)
    requires
        0 <= k1,
        0 <= k2,
        ray_hits_at(m, ox, oy, dx, dy, block_size, k1),
        ray_hits_at(m, ox, oy, dx, dy, block_size, k2),
    ensures
        k1 == k2,
{
    if k1 < k2 {
        assert(ray_open_at(m, ox, oy, dx, dy, block_size, k1));
    }
    if k2 < k1 {
        assert(ray_open_at(m, ox, oy, dx, dy, block_size, k2));
    }
}

/// A coordinate inside the grid sits in a grid cell index within bounds.
pub proof fn lemma_coord_index_bounds(coord: int, block_size: int, dim: int)
    requires
        1 <= block_size,
        0 <= coord < dim * block_fp(block_size),
    ensures
        0 <= grid_index(coord, block_size) < dim,
{
    let bf = block_size * (FP_ONE as int);
    lemma_div_pos_is_pos(coord, bf);
    assert(bf * dim == dim * bf) by (nonlinear_arith);
    lemma_multiply_divide_lt(coord, bf, dim);
}

/// Conversely, a cell index within bounds pins the coordinate inside the
/// grid.
pub proof fn lemma_index_bounds_coord(coord: int, block_size: int, dim: int)
    requires
        1 <= block_size,
        0 <= grid_index(coord, block_size),
        grid_index(coord, block_size) < dim,
    ensures
        0 <= coord < dim * block_fp(block_size),
{
    let bf = block_size * (FP_ONE as int);
    lemma_fundamental_div_mod(coord, bf);
    lemma_mod_bound(coord, bf);
    assert(coord == bf * (coord / bf) + coord % bf);
    assert(bf * (coord / bf) >= 0) by (nonlinear_arith)
        requires bf > 0, coord / bf >= 0;
    assert(bf * (coord / bf) <= bf * (dim - 1)) by (nonlinear_arith)
        requires bf > 0, coord / bf <= dim - 1;
    assert(bf * (dim - 1) + bf == dim * bf) by (nonlinear_arith);
}

/// A negative coordinate falls in a negative grid index, so a bounds check
/// on the index rejects it.
pub proof fn lemma_neg_coord_neg_index(coord: int, block_size: int)
    requires
        1 <= block_size,
        coord < 0,
    ensures
        grid_index(coord, block_size) < 0,
{
    let bf = block_size * (FP_ONE as int);
    lemma_fundamental_div_mod(coord, bf);
    lemma_mod_bound(coord, bf);
    let q = coord / bf;
    assert(q < 0) by (nonlinear_arith)
        requires coord == bf * q + coord % bf, 0 <= coord % bf < bf, coord < 0, bf > 0;
}

/// Stepping from an interior cell never leaves the grid: each direction
/// component moves less than one cell width.
proof fn lemma_step_stays_in_grid(coord: int, d: int, block_size: int, dim: int)
    requires
        1 <= block_size,
        -block_fp(block_size) <= d <= block_fp(block_size),
        0 <= coord,
        1 <= grid_index(coord, block_size) <= dim - 2,
    ensures
        0 <= coord + d < dim * block_fp(block_size),
{
    let bf = block_size * (FP_ONE as int);
    lemma_fundamental_div_mod(coord, bf);
    lemma_mod_bound(coord, bf);
    let q = coord / bf;
    assert(bf * 1 <= bf * q) by (nonlinear_arith)
        requires 1 <= bf, 1 <= q;
    assert(bf * q <= bf * (dim - 2)) by (nonlinear_arith)
        requires 1 <= bf, q <= dim - 2;
    assert(bf * (dim - 2) + bf + bf == dim * bf) by (nonlinear_arith);
}

/// Casts one ray from the player's position along `(dir_x, dir_y)`,
/// stepping until it stands over a solid cell. Returns the accumulated
/// distance (steps, in fixed-point world units), the impact character and
/// the texture column. An origin already inside a solid cell (which a
/// validated maze never produces by construction) hits immediately at
/// distance zero. When `draw` is set, the traversed points are plotted
/// into the framebuffer in white (the 2D overlay's ray fan), exactly as
/// [`traced_seq`] states; otherwise the pixels are untouched.
pub fn cast_ray(
    fb: &mut Framebuffer,
    maze: &Maze,
    player: &Player,
    dir_x: i64,
    dir_y: i64,
    block_size: usize,
    draw: bool,
) -> (hit: Intersect)
    requires
        old(fb).wf(),
        maze_wf(maze_view(maze)),
        1 <= block_size <= MAX_BLOCK_SIZE,
        ray_dir_ok(dir_x as int, dir_y as int, block_size as int),
        ray_in_grid_at(
            maze_view(maze),
            player.pos_x as int,
            player.pos_y as int,
            dir_x as int,
            dir_y as int,
            block_size as int,
            0,
        ),
    ensures
        final(fb).wf(),
        final(fb).width == old(fb).width,
        final(fb).height == old(fb).height,
        final(fb).background == old(fb).background,
        final(fb).current_color == (Color { r: 255, g: 255, b: 255, a: 255 }),
        !draw ==> final(fb).pixels@ == old(fb).pixels@,
        draw ==> final(fb).pixels@ == traced_seq(
            old(fb).pixels@,
            old(fb).width as int,
            old(fb).height as int,
            player.pos_x as int,
            player.pos_y as int,
            dir_x as int,
            dir_y as int,
            (hit.distance as int) / (FP_ONE as int),
        ),
        0 <= hit.distance <= 0x4_0000_0000_0000,
        (hit.distance as int) % (FP_ONE as int) == 0,
        ray_hits_at(
            maze_view(maze),
            player.pos_x as int,
            player.pos_y as int,
            dir_x as int,
            dir_y as int,
            block_size as int,
            (hit.distance as int) / (FP_ONE as int),
        ),
        hit.impact == ray_cell(
            maze_view(maze),
            player.pos_x as int,
            player.pos_y as int,
            dir_x as int,
            dir_y as int,
            block_size as int,
            (hit.distance as int) / (FP_ONE as int),
        ),
        hit.impact != OPEN_CELL,
        hit.tx == tx_spec(
            ray_coord(player.pos_x as int, dir_x as int, (hit.distance as int) / (FP_ONE as int)),
            block_size as int,
        ),
        hit.tx < TEX_SIZE,
{
    let ghost m = maze_view(maze);
    let ghost ox = player.pos_x as int;
    let ghost oy = player.pos_y as int;
    let ghost dxg = dir_x as int;
    let ghost dyg = dir_y as int;
    let ghost bs = block_size as int;

    fb.set_current_color(Color::new(255, 255, 255, 255));

    let rows = maze_rows(maze);
    let cols = maze_cols(maze, 0);
    let bf: i64 = (block_size as i64) * FP_ONE;

    let mut k: i64 = 0;
    let mut x: i64 = player.pos_x;
    let mut y: i64 = player.pos_y;

    loop
        invariant
            fb.wf(),
            fb.width == old(fb).width,
            fb.height == old(fb).height,
            fb.background == old(fb).background,
            fb.current_color == (Color { r: 255, g: 255, b: 255, a: 255 }),
            !draw ==> fb.pixels@ == old(fb).pixels@,
            draw ==> fb.pixels@ == traced_seq(
                old(fb).pixels@,
                old(fb).width as int,
                old(fb).height as int,
                ox,
                oy,
                dxg,
                dyg,
                k as int,
            ),
            m == maze_view(maze),
            maze_wf(m),
            rows == m.len(),
            cols == m[0].len(),
            1 <= block_size <= MAX_BLOCK_SIZE,
            bs == block_size as int,
            bf == block_fp(bs),
            ray_dir_ok(dxg, dyg, bs),
            dxg == dir_x as int,
            dyg == dir_y as int,
            ox == player.pos_x as int,
            oy == player.pos_y as int,
            0 <= k <= 0x100_0000_0000,
            x == ray_coord(ox, dxg, k as int),
            y == ray_coord(oy, dyg, k as int),
            forall|j: int| 0 <= j < k ==> ray_open_at(m, ox, oy, dxg, dyg, bs, j),
            ray_in_grid_at(m, ox, oy, dxg, dyg, bs, 0),
            ray_in_grid_at(m, ox, oy, dxg, dyg, bs, k as int),
        decreases 0x100_0000_0000 - k,
    {
        proof {
            lemma_coord_index_bounds(x as int, bs, cols as int);
            lemma_coord_index_bounds(y as int, bs, rows as int);
        }
        let ux = x as u64;
        let uy = y as u64;
        let ubf = bf as u64;
        let ix = (ux / ubf) as usize;
        let iy = (uy / ubf) as usize;
        let c = cell_at(maze, iy, ix);
        if c != OPEN_CELL {
            let hit_off: u64 = (ux / (FP_ONE as u64)) % (block_size as u64);
            proof {
                lemma_div_pos_is_pos(x as int, FP_ONE as int);
                lemma_mod_bound((x as int) / (FP_ONE as int), bs);
                lemma_mul_strict_inequality(hit_off as int, bs, TEX_SIZE as int);
                lemma_multiply_divide_lt(hit_off as int * TEX_SIZE, bs, TEX_SIZE as int);
                lemma_div_pos_is_pos(hit_off as int * TEX_SIZE, bs);
                lemma_div_multiples_vanish(k as int, FP_ONE as int);
            }
            let tx = ((hit_off * (TEX_SIZE as u64)) / (block_size as u64)) as usize;
            proof {
                assert(k as int * (FP_ONE as int) <= 0x100_0000_0000 * 1024) by (nonlinear_arith)
                    requires 0 <= k as int <= 0x100_0000_0000;
            }
            return Intersect { distance: k * FP_ONE, impact: c, tx };
        }
        if draw {
            fb.set_pixel(x / FP_ONE, y / FP_ONE);
        }
        proof {
            if draw {
                assert(fb.pixels@ == traced_seq(
                    old(fb).pixels@,
                    old(fb).width as int,
                    old(fb).height as int,
                    ox,
                    oy,
                    dxg,
                    dyg,
                    k as int + 1,
                ));
            }
            lemma_open_cell_interior(m, iy as int, ix as int);
            // the open cell is interior, so the next step stays on the grid
            lemma_step_stays_in_grid(x as int, dxg, bs, cols as int);
            lemma_step_stays_in_grid(y as int, dyg, bs, rows as int);
            assert(cols as int * (bf as int) <= 0x40_0000_0000 && rows as int * (bf as int)
                <= 0x40_0000_0000) by (nonlinear_arith)
                requires
                    0 <= cols as int <= 4096,
                    0 <= rows as int <= 4096,
                    0 <= bf as int <= 0x400_0000,
            ;
            // progress: the step count is bounded by the grid extent
            if dxg >= 1 {
                assert(k as int <= k as int * dxg) by (nonlinear_arith)
                    requires 0 <= k as int, 1 <= dxg;
            } else if dxg <= -1 {
                assert(k as int <= -(k as int * dxg)) by (nonlinear_arith)
                    requires 0 <= k as int, dxg <= -1;
            } else if dyg >= 1 {
                assert(k as int <= k as int * dyg) by (nonlinear_arith)
                    requires 0 <= k as int, 1 <= dyg;
            } else {
                assert(k as int <= -(k as int * dyg)) by (nonlinear_arith)
                    requires 0 <= k as int, dyg <= -1;
            }
            assert(k < 0x100_0000_0000);
            assert((k as int + 1) * dxg == k as int * dxg + dxg) by (nonlinear_arith);
            assert((k as int + 1) * dyg == k as int * dyg + dyg) by (nonlinear_arith);
        }
        x = x + dir_x;
        y = y + dir_y;
        k = k + 1;
    }
}

} // verus!
