//! The projector: perspective-correct wall stakes, the lit floor plane,
//! billboard sprites, and the 2D debug overlay.
//!
//! For each screen column a ray is cast, its distance is fish-eye
//! corrected by the cosine of the column's angular offset, and a vertical
//! stake of texture samples is drawn, shaded by the flashlight model. The
//! cosine and the ray direction are fixed-point values the caller derives
//! from the column angle ([`column_angle`] gives the angle formula).

use vstd::prelude::*;
use crate::caster::{
    cast_ray, grid_index, lemma_first_hit_unique, ray_cell, ray_coord, ray_dir_ok, ray_hits_at,
    tx_spec, MAX_BLOCK_SIZE,
};
use crate::enemy::Enemy;
use crate::fixed::{isqrt, sqrt_floor, wrap_angle, wrap_spec, FP_ONE, PI_FP};
use crate::player::Collectable;
use crate::framebuffer::{Color, Framebuffer, TextureSet, TEX_SIZE};
use crate::lighting::{
    center_dist_spec, center_distance, final_brightness, final_brightness_spec, shade_color,
    shade_color_spec, MAX_LIGHT_RADIUS,
};
use crate::maze::{cell_at, cell_open, maze_cols, maze_rows, maze_view, maze_wf, Maze};
use crate::player::Player;
use vstd::arithmetic::div_mod::{
    lemma_div_is_ordered, lemma_div_is_ordered_by_denominator, lemma_div_multiples_vanish,
    lemma_div_pos_is_pos, lemma_fundamental_div_mod, lemma_multiply_divide_lt,
};
use vstd::arithmetic::mul::lemma_mul_inequality;

verus! {

/// The visual scale constant relating world cell size to apparent wall
/// height (a tunable parameter; this is the reference value).
pub const WALL_SCALE: i64 = 100;

/// Upper bound on a corrected distance the projector accepts.
pub const MAX_DISTANCE_FP: i64 = 0x4_0000_0000_0000;

/// Upper bound on a field of view the projector accepts, fixed-point
/// radians.
pub const MAX_FOV_FP: i64 = 0x10000;

/// The ray angle of screen column `i` out of `width`: the left edge of the
/// field of view plus the column's share of it.
pub fn column_angle(heading: i64, fov: i64, i: usize, width: usize) -> (a: i64)
    requires
        1 <= width <= 8192,
        i < width,
        0 <= fov <= MAX_FOV_FP,
        -0x2000_0000_0000 <= heading <= 0x2000_0000_0000,
    ensures
        a == heading - fov / 2 + fov * (i as int) / (width as int),
{
    proof {
        assert(0 <= fov as int * (i as int) <= 0x10000 * 8192) by (nonlinear_arith)
            requires 0 <= fov as int <= 0x10000, 0 <= i as int <= 8192;
        lemma_div_pos_is_pos(fov as int * (i as int), width as int);
        lemma_div_is_ordered(fov as int * (i as int), (0x10000 * 8192) as int, width as int);
    }
    let share: i64 = (((fov * (i as i64)) as u64) / (width as u64)) as i64;
    let half_fov: i64 = ((fov as u64) / 2) as i64;
    heading - half_fov + share
}

/// The fish-eye corrected distance: the raw ray distance scaled by the
/// cosine of the ray's angular offset from the view direction. A ray cast
/// exactly along the heading has cosine one and keeps its distance.
pub fn corrected_distance(d: i64, cos_diff: i64) -> (dc: i64)
    requires
        0 <= d <= MAX_DISTANCE_FP,
        0 <= cos_diff <= FP_ONE,
    ensures
        dc == d as int * (cos_diff as int) / (FP_ONE as int),
        cos_diff == FP_ONE ==> dc == d,
        0 <= dc <= d,
{
    proof {
        assert(0 <= d as int * (cos_diff as int) <= 0x4_0000_0000_0000 * 1024)
            by (nonlinear_arith)
            requires 0 <= d as int <= 0x4_0000_0000_0000, 0 <= cos_diff as int <= 1024;
        lemma_div_pos_is_pos(d as int * (cos_diff as int), FP_ONE as int);
        assert(d as int * (cos_diff as int) <= d as int * 1024) by (nonlinear_arith)
            requires 0 <= d as int, cos_diff as int <= 1024;
        lemma_div_is_ordered(d as int * (cos_diff as int), d as int * 1024, FP_ONE as int);
        assert(d as int * 1024 / 1024 == d as int) by (nonlinear_arith);
        if cos_diff == FP_ONE {
            assert(d as int * (cos_diff as int) == d as int * 1024) by (nonlinear_arith)
                requires cos_diff as int == 1024;
        }
    }
    (((d as u64) * (cos_diff as u64)) / (FP_ONE as u64)) as i64
}

/// Half the projected stake height for a half-screen of `hh` pixels at
/// corrected distance `dc`; a degenerate distance under one fixed-point
/// unit is clamped to one, which yields an oversized stake that the screen
/// bounds clip.
pub open spec fn stake_half_spec(height: int, dc: int) -> int {
    (height / 2) * WALL_SCALE * (FP_ONE as int) / (if dc < 1 {
        1
    } else {
        dc
    }) / 2
}

/// The first screen row of the stake in a column at corrected distance
/// `dc`, clamped to the screen.
pub open spec fn column_top_spec(height: int, dc: int) -> int {
    let raw = height / 2 - stake_half_spec(height, dc);
    if raw > 0 {
        raw
    } else {
        0
    }
}

/// One past the last screen row of the stake, clamped to the screen.
pub open spec fn column_bottom_spec(height: int, dc: int) -> int {
    let raw = height / 2 + stake_half_spec(height, dc);
    if raw < height {
        raw
    } else {
        height
    }
}

/// The texture row sampled at screen row `y` of a stake spanning
/// `[top_raw, top_raw + 2 * half)`.
pub open spec fn texture_row_spec(y: int, top_raw: int, half: int) -> int {
    (y - top_raw) * (TEX_SIZE as int) / (2 * half)
}

/// The color written at `(i, y)` for a wall stake: the texture sample at
/// the impact's column and the row's vertical position, shaded by the
/// flashlight model at the corrected distance.
pub open spec fn wall_pixel_spec(
    ts: TextureSet,
    impact: char,
    tx: int,
    dc: int,
    i: int,
    y: int,
    width: int,
    height: int,
    radius: int,
) -> Color {
    let half = stake_half_spec(height, dc);
    let ty = texture_row_spec(y, height / 2 - half, half);
    shade_color_spec(
        ts.sample(impact, tx, ty),
        final_brightness_spec(center_dist_spec(i, y, width / 2, height / 2), radius, dc),
    )
}

/// Computes half the projected stake height.
fn stake_half(height: usize, dc: i64) -> (half: i64)
    requires
        1 <= height <= 8192,
        0 <= dc <= MAX_DISTANCE_FP,
    ensures
        half == stake_half_spec(height as int, dc as int),
        0 <= half <= 0x1000_0000,
{
    let hh: i64 = (height / 2) as i64;
    let dcc: i64 = if dc < 1 {
        1
    } else {
        dc
    };
    let num: i64 = hh * WALL_SCALE * FP_ONE;
    proof {
        lemma_div_pos_is_pos(num as int, dcc as int);
        lemma_div_is_ordered_by_denominator(num as int, 1, dcc as int);
        lemma_div_pos_is_pos(num as int / (dcc as int), 2);
        lemma_div_is_ordered(num as int / (dcc as int), num as int, 2);
    }
    let sh: i64 = (((num as u64) / (dcc as u64)) / 2) as i64;
    sh
}

/// Computes the texture row for screen row `y` of a stake.
fn texture_row(y: usize, top_raw: i64, half: i64) -> (ty: u32)
    requires
        1 <= half <= 0x1000_0000,
        top_raw as int <= (y as int) < top_raw as int + 2 * (half as int),
        y <= 8192,
    ensures
        ty == texture_row_spec(y as int, top_raw as int, half as int),
        ty < TEX_SIZE as u32,
{
    let diff: i64 = (y as i64) - top_raw;
    let span: i64 = 2 * half;
    proof {
        assert(diff as int * (TEX_SIZE as int) < span as int * (TEX_SIZE as int))
            by (nonlinear_arith)
            requires 0 <= (diff as int) && (diff as int) < span as int, 0 < TEX_SIZE as int;
        lemma_multiply_divide_lt(diff as int * (TEX_SIZE as int), span as int, TEX_SIZE as int);
        lemma_div_pos_is_pos(diff as int * (TEX_SIZE as int), span as int);
        assert(0 <= diff as int * (TEX_SIZE as int) <= 0x2000_0000 * 128) by (nonlinear_arith)
            requires 0 <= diff as int <= 0x2000_0000, TEX_SIZE as int == 128;
    }
    let num: i64 = diff * (TEX_SIZE as i64);
    (((num as u64) / (span as u64))) as u32
}

/// Draws one vertical wall stake into column `i`: every row between the
/// stake's clamped top and bottom receives its texture sample under the
/// flashlight model; every other pixel of the buffer is untouched.
pub fn render_wall_column(
    fb: &mut Framebuffer,
    textures: &TextureSet,
    i: usize,
    impact: char,
    tx: usize,
    dc: i64,
    flashlight_radius: i64,
)
    requires
        old(fb).wf(),
        textures.wf(),
        i < old(fb).width,
        tx < TEX_SIZE,
        0 <= dc <= MAX_DISTANCE_FP,
        0 < flashlight_radius <= MAX_LIGHT_RADIUS,
    ensures
        final(fb).wf(),
        final(fb).width == old(fb).width,
        final(fb).height == old(fb).height,
        final(fb).background == old(fb).background,
        forall|x: int, y: int|
            old(fb).in_bounds(x, y) && !(x == i as int && column_top_spec(
                old(fb).height as int,
                dc as int,
            ) <= y < column_bottom_spec(old(fb).height as int, dc as int)) ==> final(fb).pixel(
                x,
                y,
            ) == old(fb).pixel(x, y),
        forall|y: int|
            column_top_spec(old(fb).height as int, dc as int) <= y < column_bottom_spec(
                old(fb).height as int,
                dc as int,
            ) ==> final(fb).pixel(i as int, y) == wall_pixel_spec(
                *textures,
                impact,
                tx as int,
                dc as int,
                i as int,
                y,
                old(fb).width as int,
                old(fb).height as int,
                flashlight_radius as int,
            ),
{
    let ghost h0 = old(fb).height as int;
    let h = fb.height;
    let hh: i64 = (h / 2) as i64;
    let half = stake_half(h, dc);
    let top_raw: i64 = hh - half;
    let top: usize = if top_raw > 0 {
        top_raw as usize
    } else {
        0
    };
    let bot_raw: i64 = hh + half;
    let bottom: usize = if bot_raw < h as i64 {
        bot_raw as usize
    } else {
        h
    };
    let cx: i64 = (fb.width / 2) as i64;
    let cy: i64 = hh;
    let mut y = top;
    while y < bottom
        invariant
            fb.wf(),
            fb.width == old(fb).width,
            fb.height == old(fb).height,
            fb.background == old(fb).background,
            textures.wf(),
            i < fb.width,
            tx < TEX_SIZE,
            0 <= dc <= MAX_DISTANCE_FP,
            0 < flashlight_radius <= MAX_LIGHT_RADIUS,
            h == fb.height,
            h0 == h as int,
            hh == h as int / 2,
            half == stake_half_spec(h as int, dc as int),
            0 <= half <= 0x1000_0000,
            top_raw == hh - half,
            top as int == column_top_spec(h as int, dc as int),
            bottom as int == column_bottom_spec(h as int, dc as int),
            bottom <= h,
            top <= y <= bottom,
            cx == fb.width as int / 2,
            cy == h as int / 2,
            forall|x: int, y2: int|
                old(fb).in_bounds(x, y2) && !(x == i as int && top as int <= y2 < y as int)
                    ==> fb.pixel(x, y2) == old(fb).pixel(x, y2),
            forall|y2: int|
                top as int <= y2 < y as int ==> fb.pixel(i as int, y2) == wall_pixel_spec(
                    *textures,
                    impact,
                    tx as int,
                    dc as int,
                    i as int,
                    y2,
                    old(fb).width as int,
                    old(fb).height as int,
                    flashlight_radius as int,
                ),
        decreases bottom - y,
    {
        let ty = texture_row(y, top_raw, half);
        let color = textures.get_pixel_color(impact, tx as u32, ty);
        let r = center_distance(i as i64, y as i64, cx, cy);
        let b = final_brightness(r, flashlight_radius, dc);
        let shaded = shade_color(color, b);
        let ghost before = *fb;
        fb.set_current_color(shaded);
        fb.set_pixel(i as i64, y as i64);
        proof {
            before.lemma_index_in_range(i as int, y as int);
            assert(fb.pixel(i as int, y as int) == shaded);
            assert(shaded == wall_pixel_spec(
                *textures,
                impact,
                tx as int,
                dc as int,
                i as int,
                y as int,
                old(fb).width as int,
                old(fb).height as int,
                flashlight_radius as int,
            ));
            assert forall|x: int, y2: int|
                old(fb).in_bounds(x, y2) && !(x == i as int && top as int <= y2 < y as int
                    + 1) implies fb.pixel(x, y2) == old(fb).pixel(x, y2) by {
                before.lemma_index_in_range(x, y2);
                if before.pixel_index(x, y2) == before.pixel_index(i as int, y as int) {
                    before.lemma_index_injective(x, y2, i as int, y as int);
                }
                assert(fb.pixel(x, y2) == before.pixel(x, y2));
                assert(before.pixel(x, y2) == old(fb).pixel(x, y2));
            }
            assert forall|y2: int| top as int <= y2 < y as int + 1 implies fb.pixel(i as int, y2)
                == wall_pixel_spec(
                *textures,
                impact,
                tx as int,
                dc as int,
                i as int,
                y2,
                old(fb).width as int,
                old(fb).height as int,
                flashlight_radius as int,
            ) by {
                if y2 < y as int {
                    before.lemma_index_in_range(i as int, y2);
                    if before.pixel_index(i as int, y2) == before.pixel_index(i as int, y as int) {
                        before.lemma_index_injective(i as int, y2, i as int, y as int);
                    }
                    assert(fb.pixel(i as int, y2) == before.pixel(i as int, y2));
                }
            }
        }
        y = y + 1;
    }
}

/// One ray of the per-column fan: the direction vector of the column's
/// angle and the cosine of its offset from the view direction, fixed-point.
#[derive(Clone, Copy, Debug)]
pub struct ColumnRay {
    pub dir_x: i64,
    pub dir_y: i64,
    pub cos_diff: i64,
}

/// The ray is admissible for the given cell size.
pub open spec fn column_ray_ok(r: ColumnRay, block_size: int) -> bool {
    &&& ray_dir_ok(r.dir_x as int, r.dir_y as int, block_size)
    &&& 0 <= r.cos_diff <= FP_ONE
}

/// The step count of a column ray's first impact (the impact is unique, so
/// this names the one hit the caster finds).
pub open spec fn column_hit_step(
    m: Seq<Seq<char>>,
    player: Player,
    ray: ColumnRay,
    block_size: int,
) -> int {
    choose|k: int|
        0 <= k && ray_hits_at(
            m,
            player.pos_x as int,
            player.pos_y as int,
            ray.dir_x as int,
            ray.dir_y as int,
            block_size,
            k,
        )
}

/// The fish-eye corrected distance of a column's impact.
pub open spec fn column_dc_spec(
    m: Seq<Seq<char>>,
    player: Player,
    ray: ColumnRay,
    block_size: int,
) -> int {
    column_hit_step(m, player, ray, block_size) * (FP_ONE as int) * ray.cos_diff / (FP_ONE as int)
}

/// The character of the wall a column's ray hits.
pub open spec fn column_impact_spec(
    m: Seq<Seq<char>>,
    player: Player,
    ray: ColumnRay,
    block_size: int,
) -> char {
    ray_cell(
        m,
        player.pos_x as int,
        player.pos_y as int,
        ray.dir_x as int,
        ray.dir_y as int,
        block_size,
        column_hit_step(m, player, ray, block_size),
    )
}

/// The texture column of a column's impact.
pub open spec fn column_tx_spec(
    m: Seq<Seq<char>>,
    player: Player,
    ray: ColumnRay,
    block_size: int,
) -> int {
    tx_spec(
        ray_coord(
            player.pos_x as int,
            ray.dir_x as int,
            column_hit_step(m, player, ray, block_size),
        ),
        block_size,
    )
}

/// The color screen column `i`, row `y` shows after the 3D pass, given the
/// column's ray.
pub open spec fn rendered_column_pixel(
    m: Seq<Seq<char>>,
    player: Player,
    ray: ColumnRay,
    block_size: int,
    ts: TextureSet,
    i: int,
    y: int,
    width: int,
    height: int,
    radius: int,
) -> Color {
    wall_pixel_spec(
        ts,
        column_impact_spec(m, player, ray, block_size),
        column_tx_spec(m, player, ray, block_size),
        column_dc_spec(m, player, ray, block_size),
        i,
        y,
        width,
        height,
        radius,
    )
}

/// Screen row `y` lies inside column `i`'s wall stake.
pub open spec fn row_in_column_stake(
    m: Seq<Seq<char>>,
    player: Player,
    ray: ColumnRay,
    block_size: int,
    height: int,
    y: int,
) -> bool {
    column_top_spec(height, column_dc_spec(m, player, ray, block_size)) <= y < column_bottom_spec(
        height,
        column_dc_spec(m, player, ray, block_size),
    )
}

/// Renders the 3D view: casts one ray per screen column, corrects its
/// distance by the column's fish-eye cosine, and draws the column's wall
/// stake. Every pixel inside a column's stake shows that column's textured,
/// lit wall sample; every pixel outside every stake is untouched.
pub fn render_3d(
    fb: &mut Framebuffer,
    maze: &Maze,
    block_size: usize,
    player: &Player,
    rays: &Vec<ColumnRay>,
    textures: &TextureSet,
    flashlight_radius: i64,
)
    requires
        old(fb).wf(),
        textures.wf(),
        maze_wf(maze_view(maze)),
        1 <= block_size <= MAX_BLOCK_SIZE,
        0 < flashlight_radius <= MAX_LIGHT_RADIUS,
        rays@.len() == old(fb).width,
        forall|k: int|
            0 <= k < rays@.len() ==> column_ray_ok(#[trigger] rays@[k], block_size as int),
        cell_open(
            maze_view(maze),
            grid_index(player.pos_y as int, block_size as int),
            grid_index(player.pos_x as int, block_size as int),
        ),
    ensures
        final(fb).wf(),
        final(fb).width == old(fb).width,
        final(fb).height == old(fb).height,
        final(fb).background == old(fb).background,
        forall|x: int, y: int|
            old(fb).in_bounds(x, y) && !row_in_column_stake(
                maze_view(maze),
                *player,
                rays@[x],
                block_size as int,
                old(fb).height as int,
                y,
            ) ==> final(fb).pixel(x, y) == old(fb).pixel(x, y),
        forall|x: int, y: int|
            old(fb).in_bounds(x, y) && row_in_column_stake(
                maze_view(maze),
                *player,
                rays@[x],
                block_size as int,
                old(fb).height as int,
                y,
            ) ==> final(fb).pixel(x, y) == rendered_column_pixel(
                maze_view(maze),
                *player,
                rays@[x],
                block_size as int,
                *textures,
                x,
                y,
                old(fb).width as int,
                old(fb).height as int,
                flashlight_radius as int,
            ),
{
    let ghost m = maze_view(maze);
    let ghost bs = block_size as int;
    let ghost h = old(fb).height as int;
    let w = fb.width;
    let mut i: usize = 0;
    while i < w
        invariant
            fb.wf(),
            fb.width == old(fb).width,
            fb.height == old(fb).height,
            fb.background == old(fb).background,
            textures.wf(),
            m == maze_view(maze),
            bs == block_size as int,
            h == old(fb).height as int,
            maze_wf(m),
            1 <= block_size <= MAX_BLOCK_SIZE,
            0 < flashlight_radius <= MAX_LIGHT_RADIUS,
            w == fb.width,
            i <= w,
            rays@.len() == w,
            forall|k: int|
                0 <= k < rays@.len() ==> column_ray_ok(#[trigger] rays@[k], block_size as int),
            cell_open(
                m,
                grid_index(player.pos_y as int, bs),
                grid_index(player.pos_x as int, bs),
            ),
            forall|x: int, y: int|
                old(fb).in_bounds(x, y) && (i as int <= x || !row_in_column_stake(
                    m,
                    *player,
                    rays@[x],
                    bs,
                    h,
                    y,
                )) ==> fb.pixel(x, y) == old(fb).pixel(x, y),
            forall|x: int, y: int|
                old(fb).in_bounds(x, y) && x < i as int && row_in_column_stake(
                    m,
                    *player,
                    rays@[x],
                    bs,
                    h,
                    y,
                ) ==> fb.pixel(x, y) == rendered_column_pixel(
                    m,
                    *player,
                    rays@[x],
                    bs,
                    *textures,
                    x,
                    y,
                    old(fb).width as int,
                    h,
                    flashlight_radius as int,
                ),
        decreases w - i,
    {
        let ray = rays[i];
        let ghost fb0 = *fb;
        proof {
            crate::caster::lemma_index_bounds_coord(player.pos_x as int, bs, m[0].len() as int);
            crate::caster::lemma_index_bounds_coord(player.pos_y as int, bs, m.len() as int);
        }
        let hit = cast_ray(fb, maze, player, ray.dir_x, ray.dir_y, block_size, false);
        let dc = corrected_distance(hit.distance, ray.cos_diff);
        let ghost fb1 = *fb;
        proof {
            let kg = (hit.distance as int) / (FP_ONE as int);
            let kc = column_hit_step(m, *player, rays@[i as int], bs);
            assert(0 <= kc && ray_hits_at(
                m,
                player.pos_x as int,
                player.pos_y as int,
                ray.dir_x as int,
                ray.dir_y as int,
                bs,
                kc,
            ));
            lemma_first_hit_unique(
                m,
                player.pos_x as int,
                player.pos_y as int,
                ray.dir_x as int,
                ray.dir_y as int,
                bs,
                kc,
                kg,
            );
            lemma_fundamental_div_mod(hit.distance as int, FP_ONE as int);
            assert(hit.distance as int == kc * (FP_ONE as int)) by (nonlinear_arith)
                requires
                    hit.distance as int == (FP_ONE as int) * kg + 0,
                    kc == kg,
            ;
            assert(hit.distance as int * (ray.cos_diff as int) / (FP_ONE as int) == kc * (
            FP_ONE as int) * (ray.cos_diff as int) / (FP_ONE as int)) by (nonlinear_arith)
                requires hit.distance as int == kc * (FP_ONE as int);
            assert(dc as int == column_dc_spec(m, *player, rays@[i as int], bs));
            assert(hit.impact == column_impact_spec(m, *player, rays@[i as int], bs));
            assert(hit.tx as int == column_tx_spec(m, *player, rays@[i as int], bs));
        }
        render_wall_column(fb, textures, i, hit.impact, hit.tx, dc, flashlight_radius);
        proof {
            assert forall|x: int, y: int|
                old(fb).in_bounds(x, y) && (i as int + 1 <= x || !row_in_column_stake(
                    m,
                    *player,
                    rays@[x],
                    bs,
                    h,
                    y,
                )) implies fb.pixel(x, y) == old(fb).pixel(x, y) by {
                if x == i as int {
                    assert(!(column_top_spec(h, dc as int) <= y < column_bottom_spec(
                        h,
                        dc as int,
                    )));
                    assert(fb.pixel(x, y) == fb1.pixel(x, y));
                    assert(fb1.pixel(x, y) == fb0.pixel(x, y));
                    assert(fb0.pixel(x, y) == old(fb).pixel(x, y));
                } else {
                    assert(fb.pixel(x, y) == fb1.pixel(x, y));
                    assert(fb1.pixel(x, y) == fb0.pixel(x, y));
                    assert(fb0.pixel(x, y) == old(fb).pixel(x, y));
                }
            }
            assert forall|x: int, y: int|
                old(fb).in_bounds(x, y) && x < i as int + 1 && row_in_column_stake(
                    m,
                    *player,
                    rays@[x],
                    bs,
                    h,
                    y,
                ) implies fb.pixel(x, y) == rendered_column_pixel(
                m,
                *player,
                rays@[x],
                bs,
                *textures,
                x,
                y,
                old(fb).width as int,
                h,
                flashlight_radius as int,
            ) by {
                if x == i as int {
                    assert(column_top_spec(h, dc as int) <= y < column_bottom_spec(h, dc as int));
                    assert(fb.pixel(x, y) == wall_pixel_spec(
                        *textures,
                        hit.impact,
                        hit.tx as int,
                        dc as int,
                        i as int,
                        y,
                        old(fb).width as int,
                        h,
                        flashlight_radius as int,
                    ));
                } else {
                    assert(fb.pixel(x, y) == fb1.pixel(x, y));
                    assert(fb1.pixel(x, y) == fb0.pixel(x, y));
                    assert(fb0.pixel(x, y) == rendered_column_pixel(
                        m,
                        *player,
                        rays@[x],
                        bs,
                        *textures,
                        x,
                        y,
                        old(fb).width as int,
                        h,
                        flashlight_radius as int,
                    ));
                }
            }
        }
        i = i + 1;
    }
}

/// The color of a floor pixel: the floor color under the linear (softer)
/// radial falloff.
pub open spec fn floor_pixel_spec(
    floor_color: Color,
    x: int,
    y: int,
    width: int,
    height: int,
    radius: int,
) -> Color {
    shade_color_spec(
        floor_color,
        crate::lighting::floor_brightness_spec(
            center_dist_spec(x, y, width / 2, height / 2),
            radius,
        ),
    )
}

/// Paints the lower half of the screen as the floor plane, lit by the
/// linear radial falloff; the upper half is untouched.
pub fn render_floor(fb: &mut Framebuffer, floor_color: Color, flashlight_radius: i64)
    requires
        old(fb).wf(),
        0 < flashlight_radius <= MAX_LIGHT_RADIUS,
    ensures
        final(fb).wf(),
        final(fb).width == old(fb).width,
        final(fb).height == old(fb).height,
        final(fb).background == old(fb).background,
        forall|x: int, y: int|
            old(fb).in_bounds(x, y) && y < old(fb).height as int / 2 ==> final(fb).pixel(x, y)
                == old(fb).pixel(x, y),
        forall|x: int, y: int|
            old(fb).in_bounds(x, y) && old(fb).height as int / 2 <= y ==> final(fb).pixel(x, y)
                == floor_pixel_spec(
                floor_color,
                x,
                y,
                old(fb).width as int,
                old(fb).height as int,
                flashlight_radius as int,
            ),
{
    let h = fb.height;
    let w = fb.width;
    let cx: i64 = (w / 2) as i64;
    let cy: i64 = (h / 2) as i64;
    let mut y = h / 2;
    while y < h
        invariant
            fb.wf(),
            fb.width == old(fb).width,
            fb.height == old(fb).height,
            fb.background == old(fb).background,
            h == fb.height,
            w == fb.width,
            cx == w as int / 2,
            cy == h as int / 2,
            h as int / 2 <= y as int <= h as int,
            0 < flashlight_radius <= MAX_LIGHT_RADIUS,
            forall|x: int, y2: int|
                old(fb).in_bounds(x, y2) && !(h as int / 2 <= y2 < y as int) ==> fb.pixel(x, y2)
                    == old(fb).pixel(x, y2),
            forall|x: int, y2: int|
                old(fb).in_bounds(x, y2) && h as int / 2 <= y2 < y as int ==> fb.pixel(x, y2)
                    == floor_pixel_spec(
                    floor_color,
                    x,
                    y2,
                    w as int,
                    h as int,
                    flashlight_radius as int,
                ),
        decreases h - y,
    {
        let mut x: usize = 0;
        while x < w
            invariant
                fb.wf(),
                fb.width == old(fb).width,
                fb.height == old(fb).height,
                fb.background == old(fb).background,
                h == fb.height,
                w == fb.width,
                cx == w as int / 2,
                cy == h as int / 2,
                h as int / 2 <= (y as int) && (y as int) < h as int,
                x <= w,
                0 < flashlight_radius <= MAX_LIGHT_RADIUS,
                forall|x2: int, y2: int|
                    old(fb).in_bounds(x2, y2) && !(h as int / 2 <= y2 < y as int) && !(y2
                        == y as int && 0 <= x2 < x as int) ==> fb.pixel(x2, y2) == old(fb).pixel(
                        x2,
                        y2,
                    ),
                forall|x2: int, y2: int|
                    old(fb).in_bounds(x2, y2) && h as int / 2 <= y2 < y as int ==> fb.pixel(x2, y2)
                        == floor_pixel_spec(
                        floor_color,
                        x2,
                        y2,
                        w as int,
                        h as int,
                        flashlight_radius as int,
                    ),
                forall|x2: int|
                    0 <= x2 < x as int ==> fb.pixel(x2, y as int) == floor_pixel_spec(
                        floor_color,
                        x2,
                        y as int,
                        w as int,
                        h as int,
                        flashlight_radius as int,
                    ),
            decreases w - x,
        {
            let r = center_distance(x as i64, y as i64, cx, cy);
            let b = crate::lighting::flashlight_falloff(r, flashlight_radius);
            let shaded = shade_color(floor_color, b);
            let ghost before = *fb;
            fb.set_current_color(shaded);
            fb.set_pixel(x as i64, y as i64);
            proof {
                before.lemma_index_in_range(x as int, y as int);
                assert(fb.pixel(x as int, y as int) == shaded);
                assert(shaded == floor_pixel_spec(
                    floor_color,
                    x as int,
                    y as int,
                    w as int,
                    h as int,
                    flashlight_radius as int,
                ));
                assert forall|x2: int, y2: int|
                    old(fb).in_bounds(x2, y2) && !(h as int / 2 <= y2 < y as int) && !(y2
                        == y as int && 0 <= x2 < x as int + 1) implies fb.pixel(x2, y2) == old(
                    fb,
                ).pixel(x2, y2) by {
                    before.lemma_index_in_range(x2, y2);
                    if before.pixel_index(x2, y2) == before.pixel_index(x as int, y as int) {
                        before.lemma_index_injective(x2, y2, x as int, y as int);
                    }
                    assert(fb.pixel(x2, y2) == before.pixel(x2, y2));
                    assert(before.pixel(x2, y2) == old(fb).pixel(x2, y2));
                }
                assert forall|x2: int, y2: int|
                    old(fb).in_bounds(x2, y2) && h as int / 2 <= y2 < y as int implies fb.pixel(
                    x2,
                    y2,
                ) == floor_pixel_spec(
                    floor_color,
                    x2,
                    y2,
                    w as int,
                    h as int,
                    flashlight_radius as int,
                ) by {
                    before.lemma_index_in_range(x2, y2);
                    if before.pixel_index(x2, y2) == before.pixel_index(x as int, y as int) {
                        before.lemma_index_injective(x2, y2, x as int, y as int);
                    }
                    assert(fb.pixel(x2, y2) == before.pixel(x2, y2));
                    assert(before.pixel(x2, y2) == floor_pixel_spec(
                        floor_color,
                        x2,
                        y2,
                        w as int,
                        h as int,
                        flashlight_radius as int,
                    ));
                }
                assert forall|x2: int| 0 <= x2 < x as int + 1 implies fb.pixel(x2, y as int)
                    == floor_pixel_spec(
                    floor_color,
                    x2,
                    y as int,
                    w as int,
                    h as int,
                    flashlight_radius as int,
                ) by {
                    if x2 < x as int {
                        before.lemma_index_in_range(x2, y as int);
                        if before.pixel_index(x2, y as int) == before.pixel_index(
                            x as int,
                            y as int,
                        ) {
                            before.lemma_index_injective(x2, y as int, x as int, y as int);
                        }
                        assert(fb.pixel(x2, y as int) == before.pixel(x2, y as int));
                    }
                }
            }
            x = x + 1;
        }
        y = y + 1;
    }
}

/// The visual scale constant for billboard sprites.
pub const SPRITE_SCALE: i64 = 70;

/// Sprites nearer than this straight-line distance are not drawn
/// (fixed-point world units).
pub const SPRITE_MIN_DIST_FP: i64 = 20 * FP_ONE;

/// Sprites farther than this straight-line distance are not drawn.
pub const SPRITE_MAX_DIST_FP: i64 = 400 * FP_ONE;

/// Magnitude cap on the world coordinates the sprite projector accepts.
pub const SPRITE_COORD_LIMIT: i64 = 0x3000_0000;

/// Magnitude cap on the angles the sprite projector accepts.
pub const SPRITE_ANGLE_LIMIT: i64 = 0x2000_0000_0000;

/// The straight-line distance from the player to a sprite, fixed-point.
pub open spec fn sprite_dist_spec(px: int, py: int, sx: int, sy: int) -> int {
    sqrt_floor((((sx - px) * (sx - px)) + ((sy - py) * (sy - py))) as nat) as int
}

/// A sprite is visible exactly when its angular offset from the heading
/// lies within half the field of view and its distance lies in the
/// visibility band.
pub open spec fn sprite_visible_spec(angle_diff: int, fov: int, d: int) -> bool {
    &&& -(fov / 2) <= angle_diff <= fov / 2
    &&& SPRITE_MIN_DIST_FP <= d <= SPRITE_MAX_DIST_FP
}

/// A sprite directly behind the player (angular offset of half a turn,
/// either way) is culled for any field of view under a full turn,
/// regardless of its distance.
pub proof fn lemma_sprite_behind_culled(fov: int, d: int)
    requires
        0 <= fov < 2 * PI_FP,
    ensures
        !sprite_visible_spec(PI_FP as int, fov, d),
        !sprite_visible_spec(-(PI_FP as int), fov, d),
{
}

/// The side length, in pixels, of a sprite's square screen footprint.
pub open spec fn sprite_size_spec(height: int, d: int) -> int {
    height * SPRITE_SCALE * (FP_ONE as int) / d
}

/// The screen column of the sprite's center: its angular offset as a share
/// of the field of view, offset to the screen's middle. The quotient is
/// rounded toward the center.
pub open spec fn sprite_screen_x_spec(angle_diff: int, fov: int, width: int) -> int {
    width / 2 + (if angle_diff >= 0 {
        angle_diff * width / fov
    } else {
        -((-angle_diff) * width / fov)
    })
}

/// The footprint's first column, clamped to the screen.
pub open spec fn sprite_left_spec(screen_x: int, size: int) -> int {
    let raw = screen_x - size / 2;
    if raw > 0 {
        raw
    } else {
        0
    }
}

/// One past the footprint's last column.
pub open spec fn sprite_right_spec(left: int, size: int, width: int) -> int {
    if left + size < width {
        left + size
    } else {
        width
    }
}

/// The footprint's first row, clamped to the screen.
pub open spec fn sprite_top_spec(height: int, size: int) -> int {
    let raw = height / 2 - size / 2;
    if raw > 0 {
        raw
    } else {
        0
    }
}

/// One past the footprint's last row.
pub open spec fn sprite_bottom_spec(top: int, size: int, height: int) -> int {
    if top + size < height {
        top + size
    } else {
        height
    }
}

/// The color at `(x, y)` after drawing a sprite whose footprint starts at
/// `(left, top)` with side `size`: the proportionally mapped texel, shaded
/// by the flashlight model at the sprite's distance — or the previous pixel
/// where the texel is the transparent sentinel.
pub open spec fn sprite_pixel_spec(
    ts: TextureSet,
    key: char,
    x: int,
    y: int,
    left: int,
    top: int,
    size: int,
    width: int,
    height: int,
    radius: int,
    d: int,
    prev: Color,
) -> Color {
    let tx = (x - left) * (TEX_SIZE as int) / size;
    let ty = (y - top) * (TEX_SIZE as int) / size;
    let c = ts.sample(key, tx, ty);
    if c == ts.transparent {
        prev
    } else {
        shade_color_spec(
            c,
            final_brightness_spec(center_dist_spec(x, y, width / 2, height / 2), radius, d),
        )
    }
}

/// Computes the straight-line distance from the player to a sprite.
pub fn sprite_distance(px: i64, py: i64, sx: i64, sy: i64) -> (d: i64)
    requires
        -SPRITE_COORD_LIMIT <= px <= SPRITE_COORD_LIMIT,
        -SPRITE_COORD_LIMIT <= py <= SPRITE_COORD_LIMIT,
        -SPRITE_COORD_LIMIT <= sx <= SPRITE_COORD_LIMIT,
        -SPRITE_COORD_LIMIT <= sy <= SPRITE_COORD_LIMIT,
    ensures
        d == sprite_dist_spec(px as int, py as int, sx as int, sy as int),
        0 <= d <= 0xC000_0000,
{
    let dx: i64 = sx - px;
    let dy: i64 = sy - py;
    proof {
        assert(0 <= dx as int * (dx as int) <= 0x2400_0000_0000_0000 && 0 <= dy as int * (
        dy as int) <= 0x2400_0000_0000_0000) by (nonlinear_arith)
            requires
                -0x6000_0000 <= dx as int <= 0x6000_0000,
                -0x6000_0000 <= dy as int <= 0x6000_0000,
        ;
    }
    let n: u64 = ((dx * dx) + (dy * dy)) as u64;
    let s = isqrt(n);
    proof {
        assert(s as int <= 0xC000_0000) by (nonlinear_arith)
            requires 0 <= s as int, s as int * (s as int) <= 0x4800_0000_0000_0000;
    }
    s as i64
}

/// Draws one billboard sprite. A sprite outside the field of view or the
/// visibility band leaves the buffer untouched; a visible one writes only
/// inside its screen footprint, sampling its texture proportionally,
/// skipping transparent texels, and shading by the flashlight model at the
/// sprite's distance.
pub fn draw_generic_sprite(
    fb: &mut Framebuffer,
    player: &Player,
    sprite_x: i64,
    sprite_y: i64,
    sprite_angle: i64,
    sprite_texture: char,
    textures: &TextureSet,
    flashlight_radius: i64,
)
    requires
        old(fb).wf(),
        6 <= old(fb).height,
        textures.wf(),
        0 < flashlight_radius <= MAX_LIGHT_RADIUS,
        -SPRITE_COORD_LIMIT <= player.pos_x <= SPRITE_COORD_LIMIT,
        -SPRITE_COORD_LIMIT <= player.pos_y <= SPRITE_COORD_LIMIT,
        -SPRITE_COORD_LIMIT <= sprite_x <= SPRITE_COORD_LIMIT,
        -SPRITE_COORD_LIMIT <= sprite_y <= SPRITE_COORD_LIMIT,
        -SPRITE_ANGLE_LIMIT <= sprite_angle <= SPRITE_ANGLE_LIMIT,
        -SPRITE_ANGLE_LIMIT <= player.a <= SPRITE_ANGLE_LIMIT,
        1 <= player.fov <= MAX_FOV_FP,
    ensures
        final(fb).wf(),
        final(fb).width == old(fb).width,
        final(fb).height == old(fb).height,
        final(fb).background == old(fb).background,
        !sprite_visible_spec(
            wrap_spec(sprite_angle - player.a),
            player.fov as int,
            sprite_dist_spec(
                player.pos_x as int,
                player.pos_y as int,
                sprite_x as int,
                sprite_y as int,
            ),
        ) ==> *final(fb) == *old(fb),
        ({
            let diff = wrap_spec(sprite_angle - player.a);
            let d = sprite_dist_spec(
                player.pos_x as int,
                player.pos_y as int,
                sprite_x as int,
                sprite_y as int,
            );
            let size = sprite_size_spec(old(fb).height as int, d);
            let left = sprite_left_spec(
                sprite_screen_x_spec(diff, player.fov as int, old(fb).width as int),
                size,
            );
            let right = sprite_right_spec(left, size, old(fb).width as int);
            let top = sprite_top_spec(old(fb).height as int, size);
            let bottom = sprite_bottom_spec(top, size, old(fb).height as int);
            &&& (forall|x: int, y: int|
                old(fb).in_bounds(x, y) && !(left <= x < right && top <= y < bottom)
                    ==> final(fb).pixel(x, y) == old(fb).pixel(x, y))
            &&& (sprite_visible_spec(diff, player.fov as int, d) ==> forall|x: int, y: int|
                left <= x < right && top <= y < bottom ==> final(fb).pixel(x, y)
                    == sprite_pixel_spec(
                    *textures,
                    sprite_texture,
                    x,
                    y,
                    left,
                    top,
                    size,
                    old(fb).width as int,
                    old(fb).height as int,
                    flashlight_radius as int,
                    d,
                    old(fb).pixel(x, y),
                ))
        }),
{
    let ghost diffg = wrap_spec(sprite_angle as int - player.a as int);
    let diff = wrap_angle(sprite_angle - player.a);
    let d = sprite_distance(player.pos_x, player.pos_y, sprite_x, sprite_y);
    let half_fov: i64 = ((player.fov as u64) / 2) as i64;
    if diff < -half_fov || diff > half_fov {
        return;
    }
    if d < SPRITE_MIN_DIST_FP || d > SPRITE_MAX_DIST_FP {
        return;
    }
    let h = fb.height;
    let w = fb.width;
    let num: i64 = (h as i64) * SPRITE_SCALE * FP_ONE;
    proof {
        lemma_div_pos_is_pos(num as int, d as int);
        lemma_div_is_ordered_by_denominator(430080, d as int, 409600);
        lemma_div_is_ordered(430080, num as int, d as int);
        lemma_div_is_ordered_by_denominator(num as int, 20480, d as int);
        lemma_div_is_ordered(num as int, 587202560, 20480);
    }
    let size: i64 = ((num as u64) / (d as u64)) as i64;
    let sx_off: i64 = if diff >= 0 {
        proof {
            assert(0 <= diff as int * (w as int) <= 0x8000 * 8192) by (nonlinear_arith)
                requires 0 <= diff as int <= 0x8000, 0 <= w as int <= 8192;
            assert(diff as int * (w as int) == diffg * (w as int)) by (nonlinear_arith)
                requires diff as int == diffg;
            lemma_div_pos_is_pos(diff as int * (w as int), player.fov as int);
            lemma_mul_inequality(diff as int, player.fov as int, w as int);
            lemma_div_is_ordered(
                diff as int * (w as int),
                player.fov as int * (w as int),
                player.fov as int,
            );
            lemma_div_multiples_vanish(w as int, player.fov as int);
        }
        (((diff * (w as i64)) as u64) / (player.fov as u64)) as i64
    } else {
        let mdiff = -diff;
        proof {
            assert(0 <= mdiff as int * (w as int) <= 0x8000 * 8192) by (nonlinear_arith)
                requires 0 <= mdiff as int <= 0x8000, 0 <= w as int <= 8192;
            assert(mdiff as int * (w as int) == (-diffg) * (w as int)) by (nonlinear_arith)
                requires mdiff as int == -diffg;
            lemma_div_pos_is_pos(mdiff as int * (w as int), player.fov as int);
            lemma_mul_inequality(mdiff as int, player.fov as int, w as int);
            lemma_div_is_ordered(
                mdiff as int * (w as int),
                player.fov as int * (w as int),
                player.fov as int,
            );
            lemma_div_multiples_vanish(w as int, player.fov as int);
        }
        -((((mdiff * (w as i64)) as u64) / (player.fov as u64)) as i64)
    };
    let screen_x: i64 = (w / 2) as i64 + sx_off;
    let half_size: i64 = ((size as u64) / 2) as i64;
    let left_raw: i64 = screen_x - half_size;
    let left: i64 = if left_raw > 0 {
        left_raw
    } else {
        0
    };
    let right: i64 = if left + size < w as i64 {
        left + size
    } else {
        w as i64
    };
    let top_raw: i64 = (h / 2) as i64 - half_size;
    let top: i64 = if top_raw > 0 {
        top_raw
    } else {
        0
    };
    let bottom: i64 = if top + size < h as i64 {
        top + size
    } else {
        h as i64
    };
    let cx: i64 = (w / 2) as i64;
    let cy: i64 = (h / 2) as i64;
    if right <= left {
        return;
    }
    let left_us: usize = left as usize;
    let right_us: usize = right as usize;
    let top_us: usize = top as usize;
    let bottom_us: usize = bottom as usize;
    let mut x = left_us;
    while x < right_us
        invariant
            fb.wf(),
            fb.width == old(fb).width,
            fb.height == old(fb).height,
            fb.background == old(fb).background,
            textures.wf(),
            h == fb.height,
            w == fb.width,
            6 <= h,
            0 < flashlight_radius <= MAX_LIGHT_RADIUS,
            SPRITE_MIN_DIST_FP <= d <= SPRITE_MAX_DIST_FP,
            d as int == sprite_dist_spec(
                player.pos_x as int,
                player.pos_y as int,
                sprite_x as int,
                sprite_y as int,
            ),
            size as int == sprite_size_spec(h as int, d as int),
            1 <= size <= 28672,
            left as int == sprite_left_spec(
                sprite_screen_x_spec(diffg, player.fov as int, w as int),
                size as int,
            ),
            right as int == sprite_right_spec(left as int, size as int, w as int),
            top as int == sprite_top_spec(h as int, size as int),
            bottom as int == sprite_bottom_spec(top as int, size as int, h as int),
            0 <= left <= x as int <= right,
            right <= left + size,
            right as int <= w as int,
            0 <= top < bottom <= h as int,
            bottom <= top + size,
            left_us as int == left,
            right_us as int == right,
            top_us as int == top,
            bottom_us as int == bottom,
            cx == w as int / 2,
            cy == h as int / 2,
            diffg == wrap_spec(sprite_angle as int - player.a as int),
            sprite_visible_spec(diffg, player.fov as int, d as int),
            forall|x2: int, y2: int|
                old(fb).in_bounds(x2, y2) && !(left <= x2 < x as int && top <= y2 < bottom)
                    ==> fb.pixel(x2, y2) == old(fb).pixel(x2, y2),
            forall|x2: int, y2: int|
                left <= x2 < x as int && top <= y2 < bottom ==> fb.pixel(x2, y2)
                    == sprite_pixel_spec(
                    *textures,
                    sprite_texture,
                    x2,
                    y2,
                    left as int,
                    top as int,
                    size as int,
                    w as int,
                    h as int,
                    flashlight_radius as int,
                    d as int,
                    old(fb).pixel(x2, y2),
                ),
        decreases right_us - x,
    {
        let tx = sprite_texel(x, left, size);
        let mut y = top_us;
        while y < bottom_us
            invariant
                fb.wf(),
                fb.width == old(fb).width,
                fb.height == old(fb).height,
                fb.background == old(fb).background,
                textures.wf(),
                h == fb.height,
                w == fb.width,
                6 <= h,
                0 < flashlight_radius <= MAX_LIGHT_RADIUS,
                SPRITE_MIN_DIST_FP <= d <= SPRITE_MAX_DIST_FP,
                1 <= size <= 28672,
                0 <= left <= x as int,
                (x as int) < right,
                right <= left + size,
                right as int <= w as int,
                0 <= top <= y as int <= bottom,
                bottom <= top + size,
                bottom as int <= h as int,
                top_us as int == top,
                bottom_us as int == bottom,
                cx == w as int / 2,
                cy == h as int / 2,
                tx as int == (x as int - left) * (TEX_SIZE as int) / (size as int),
                tx < TEX_SIZE as u32,
                forall|x2: int, y2: int|
                    old(fb).in_bounds(x2, y2) && !(left <= x2 < x as int && top <= y2 < bottom)
                        && !(x2 == x as int && top <= y2 < y as int) ==> fb.pixel(x2, y2) == old(
                        fb,
                    ).pixel(x2, y2),
                forall|x2: int, y2: int|
                    left <= x2 < x as int && top <= y2 < bottom ==> fb.pixel(x2, y2)
                        == sprite_pixel_spec(
                        *textures,
                        sprite_texture,
                        x2,
                        y2,
                        left as int,
                        top as int,
                        size as int,
                        w as int,
                        h as int,
                        flashlight_radius as int,
                        d as int,
                        old(fb).pixel(x2, y2),
                    ),
                forall|y2: int|
                    top <= y2 < y as int ==> fb.pixel(x as int, y2) == sprite_pixel_spec(
                        *textures,
                        sprite_texture,
                        x as int,
                        y2,
                        left as int,
                        top as int,
                        size as int,
                        w as int,
                        h as int,
                        flashlight_radius as int,
                        d as int,
                        old(fb).pixel(x as int, y2),
                    ),
            decreases bottom_us - y,
        {
            let ty = sprite_texel(y, top, size);
            let color = textures.get_pixel_color(sprite_texture, tx, ty);
            let ghost before = *fb;
            if !(color.r == textures.transparent.r && color.g == textures.transparent.g && color.b
                == textures.transparent.b && color.a == textures.transparent.a) {
                let r = center_distance(x as i64, y as i64, cx, cy);
                let b = final_brightness(r, flashlight_radius, d);
                let shaded = shade_color(color, b);
                fb.set_current_color(shaded);
                fb.set_pixel(x as i64, y as i64);
            }
            proof {
                before.lemma_index_in_range(x as int, y as int);
                assert(before.pixel(x as int, y as int) == old(fb).pixel(x as int, y as int));
                assert(fb.pixel(x as int, y as int) == sprite_pixel_spec(
                    *textures,
                    sprite_texture,
                    x as int,
                    y as int,
                    left as int,
                    top as int,
                    size as int,
                    w as int,
                    h as int,
                    flashlight_radius as int,
                    d as int,
                    old(fb).pixel(x as int, y as int),
                ));
                assert forall|x2: int, y2: int|
                    old(fb).in_bounds(x2, y2) && !(left <= x2 < x as int && top <= y2 < bottom)
                        && !(x2 == x as int && top <= y2 < y as int + 1) implies fb.pixel(x2, y2)
                    == old(fb).pixel(x2, y2) by {
                    before.lemma_index_in_range(x2, y2);
                    if before.pixel_index(x2, y2) == before.pixel_index(x as int, y as int) {
                        before.lemma_index_injective(x2, y2, x as int, y as int);
                    }
                    assert(fb.pixel(x2, y2) == before.pixel(x2, y2));
                    assert(before.pixel(x2, y2) == old(fb).pixel(x2, y2));
                }
                assert forall|x2: int, y2: int|
                    left <= x2 < x as int && top <= y2 < bottom implies fb.pixel(x2, y2)
                    == sprite_pixel_spec(
                    *textures,
                    sprite_texture,
                    x2,
                    y2,
                    left as int,
                    top as int,
                    size as int,
                    w as int,
                    h as int,
                    flashlight_radius as int,
                    d as int,
                    old(fb).pixel(x2, y2),
                ) by {
                    before.lemma_index_in_range(x2, y2);
                    if before.pixel_index(x2, y2) == before.pixel_index(x as int, y as int) {
                        before.lemma_index_injective(x2, y2, x as int, y as int);
                    }
                    assert(fb.pixel(x2, y2) == before.pixel(x2, y2));
                }
                assert forall|y2: int| top <= y2 < y as int + 1 implies fb.pixel(x as int, y2)
                    == sprite_pixel_spec(
                    *textures,
                    sprite_texture,
                    x as int,
                    y2,
                    left as int,
                    top as int,
                    size as int,
                    w as int,
                    h as int,
                    flashlight_radius as int,
                    d as int,
                    old(fb).pixel(x as int, y2),
                ) by {
                    if y2 < y as int {
                        before.lemma_index_in_range(x as int, y2);
                        if before.pixel_index(x as int, y2) == before.pixel_index(
                            x as int,
                            y as int,
                        ) {
                            before.lemma_index_injective(x as int, y2, x as int, y as int);
                        }
                        assert(fb.pixel(x as int, y2) == before.pixel(x as int, y2));
                    }
                }
            }
            y = y + 1;
        }
        x = x + 1;
    }
}

/// Maps a screen coordinate inside a sprite footprint to a texel
/// coordinate.
fn sprite_texel(v: usize, start: i64, size: i64) -> (t: u32)
    requires
        1 <= size <= 28672,
        start as int <= (v as int) && (v as int) < start as int + size as int,
        0 <= start,
        v <= 8192,
    ensures
        t as int == (v as int - start as int) * (TEX_SIZE as int) / (size as int),
        t < TEX_SIZE as u32,
{
    let diff: i64 = (v as i64) - start;
    proof {
        assert(diff as int * (TEX_SIZE as int) < size as int * (TEX_SIZE as int))
            by (nonlinear_arith)
            requires 0 <= (diff as int) && (diff as int) < size as int, 0 < TEX_SIZE as int;
        lemma_multiply_divide_lt(diff as int * (TEX_SIZE as int), size as int, TEX_SIZE as int);
        lemma_div_pos_is_pos(diff as int * (TEX_SIZE as int), size as int);
        assert(0 <= diff as int * (TEX_SIZE as int) <= 28672 * 128) by (nonlinear_arith)
            requires 0 <= diff as int <= 28672, TEX_SIZE as int == 128;
    }
    let num: i64 = diff * (TEX_SIZE as i64);
    (((num as u64) / (size as u64))) as u32
}

/// The pixel buffer (row-major, `width * height`) after drawing one
/// billboard sprite over `p`: unchanged when the sprite is culled;
/// otherwise every slot inside the sprite's clamped footprint carries its
/// [`sprite_pixel_spec`] sample over the previous contents and every other
/// slot is unchanged.
pub open spec fn sprite_applied(
    p: Seq<Color>,
    width: int,
    height: int,
    player: Player,
    sx: int,
    sy: int,
    angle: int,
    key: char,
    ts: TextureSet,
    radius: int,
) -> Seq<Color> {
    let diff = wrap_spec(angle - player.a);
    let d = sprite_dist_spec(player.pos_x as int, player.pos_y as int, sx, sy);
    if !sprite_visible_spec(diff, player.fov as int, d) {
        p
    } else {
        let size = sprite_size_spec(height, d);
        let left = sprite_left_spec(sprite_screen_x_spec(diff, player.fov as int, width), size);
        let right = sprite_right_spec(left, size, width);
        let top = sprite_top_spec(height, size);
        let bottom = sprite_bottom_spec(top, size, height);
        Seq::new(
            p.len(),
            |idx: int|
                {
                    let x = idx % width;
                    let y = idx / width;
                    if left <= x < right && top <= y < bottom {
                        sprite_pixel_spec(
                            ts,
                            key,
                            x,
                            y,
                            left,
                            top,
                            size,
                            width,
                            height,
                            radius,
                            d,
                            p[idx],
                        )
                    } else {
                        p[idx]
                    }
                },
        )
    }
}

/// [`draw_generic_sprite`]'s two pixel guarantees, taken together, say
/// exactly that the buffer becomes [`sprite_applied`] of what it was.
proof fn lemma_sprite_draw_applied(
    pre: Framebuffer,
    post: Framebuffer,
    player: Player,
    sx: i64,
    sy: i64,
    angle: i64,
    key: char,
    ts: TextureSet,
    radius: i64,
)
    requires
        pre.wf(),
        post.wf(),
        post.width == pre.width,
        post.height == pre.height,
        !sprite_visible_spec(
            wrap_spec(angle - player.a),
            player.fov as int,
            sprite_dist_spec(player.pos_x as int, player.pos_y as int, sx as int, sy as int),
        ) ==> post == pre,
        ({
            let diff = wrap_spec(angle - player.a);
            let d = sprite_dist_spec(player.pos_x as int, player.pos_y as int, sx as int, sy as int);
            let size = sprite_size_spec(pre.height as int, d);
            let left = sprite_left_spec(
                sprite_screen_x_spec(diff, player.fov as int, pre.width as int),
                size,
            );
            let right = sprite_right_spec(left, size, pre.width as int);
            let top = sprite_top_spec(pre.height as int, size);
            let bottom = sprite_bottom_spec(top, size, pre.height as int);
            &&& (forall|x: int, y: int|
                pre.in_bounds(x, y) && !(left <= x < right && top <= y < bottom) ==> post.pixel(
                    x,
                    y,
                ) == pre.pixel(x, y))
            &&& (sprite_visible_spec(diff, player.fov as int, d) ==> forall|x: int, y: int|
                left <= x < right && top <= y < bottom ==> post.pixel(x, y) == sprite_pixel_spec(
                    ts,
                    key,
                    x,
                    y,
                    left,
                    top,
                    size,
                    pre.width as int,
                    pre.height as int,
                    radius as int,
                    d,
                    pre.pixel(x, y),
                ))
        }),
    ensures
        post.pixels@ == sprite_applied(
            pre.pixels@,
            pre.width as int,
            pre.height as int,
            player,
            sx as int,
            sy as int,
            angle as int,
            key,
            ts,
            radius as int,
        ),
{
    let w = pre.width as int;
    let diff = wrap_spec(angle - player.a);
    let d = sprite_dist_spec(player.pos_x as int, player.pos_y as int, sx as int, sy as int);
    let applied = sprite_applied(
        pre.pixels@,
        pre.width as int,
        pre.height as int,
        player,
        sx as int,
        sy as int,
        angle as int,
        key,
        ts,
        radius as int,
    );
    if sprite_visible_spec(diff, player.fov as int, d) {
        let size = sprite_size_spec(pre.height as int, d);
        let left = sprite_left_spec(
            sprite_screen_x_spec(diff, player.fov as int, pre.width as int),
            size,
        );
        let right = sprite_right_spec(left, size, pre.width as int);
        let top = sprite_top_spec(pre.height as int, size);
        let bottom = sprite_bottom_spec(top, size, pre.height as int);
        assert forall|idx: int| 0 <= idx < pre.pixels@.len() implies post.pixels@[idx]
            == applied[idx] by {
            pre.lemma_index_decomposition(idx);
            post.lemma_index_decomposition(idx);
            let x = idx % w;
            let y = idx / w;
            if left <= x < right && top <= y < bottom {
                assert(post.pixel(x, y) == sprite_pixel_spec(
                    ts,
                    key,
                    x,
                    y,
                    left,
                    top,
                    size,
                    pre.width as int,
                    pre.height as int,
                    radius as int,
                    d,
                    pre.pixel(x, y),
                ));
            } else {
                assert(post.pixel(x, y) == pre.pixel(x, y));
            }
        }
        assert(post.pixels@ =~= applied);
    }
}

/// The buffer after drawing the first `k` enemies, in order, each over
/// what the previous ones left.
pub open spec fn enemies_rendered(
    p: Seq<Color>,
    width: int,
    height: int,
    player: Player,
    enemies: Seq<Enemy>,
    angles: Seq<i64>,
    ts: TextureSet,
    radius: int,
    k: int,
) -> Seq<Color>
    decreases k,
{
    if k <= 0 {
        p
    } else {
        sprite_applied(
            enemies_rendered(p, width, height, player, enemies, angles, ts, radius, k - 1),
            width,
            height,
            player,
            enemies[k - 1].pos_x as int,
            enemies[k - 1].pos_y as int,
            angles[k - 1] as int,
            enemies[k - 1].texture_key,
            ts,
            radius,
        )
    }
}

/// The buffer after drawing the first `k` collectables, in order, each
/// over what the previous ones left.
pub open spec fn collectables_rendered(
    p: Seq<Color>,
    width: int,
    height: int,
    player: Player,
    items: Seq<Collectable>,
    angles: Seq<i64>,
    ts: TextureSet,
    radius: int,
    k: int,
) -> Seq<Color>
    decreases k,
{
    if k <= 0 {
        p
    } else {
        sprite_applied(
            collectables_rendered(p, width, height, player, items, angles, ts, radius, k - 1),
            width,
            height,
            player,
            items[k - 1].pos_x as int,
            items[k - 1].pos_y as int,
            angles[k - 1] as int,
            items[k - 1].texture_key,
            ts,
            radius,
        )
    }
}

/// Draws every enemy as a billboard sprite, each at its current animation
/// frame. `angles[k]` is the world angle from the player to `enemies[k]`,
/// computed by the caller. The buffer becomes the in-order fold of the
/// enemies' sprites over its previous contents.
pub fn render_enemies(
    fb: &mut Framebuffer,
    player: &Player,
    enemies: &Vec<Enemy>,
    angles: &Vec<i64>,
    textures: &TextureSet,
    flashlight_radius: i64,
)
    requires
        old(fb).wf(),
        6 <= old(fb).height,
        textures.wf(),
        0 < flashlight_radius <= MAX_LIGHT_RADIUS,
        -SPRITE_COORD_LIMIT <= player.pos_x <= SPRITE_COORD_LIMIT,
        -SPRITE_COORD_LIMIT <= player.pos_y <= SPRITE_COORD_LIMIT,
        -SPRITE_ANGLE_LIMIT <= player.a <= SPRITE_ANGLE_LIMIT,
        1 <= player.fov <= MAX_FOV_FP,
        angles@.len() == enemies@.len(),
        forall|k: int|
            0 <= k < enemies@.len() ==> -SPRITE_COORD_LIMIT <= (#[trigger] enemies@[k]).pos_x
                <= SPRITE_COORD_LIMIT && -SPRITE_COORD_LIMIT <= enemies@[k].pos_y
                <= SPRITE_COORD_LIMIT,
        forall|k: int|
            0 <= k < angles@.len() ==> -SPRITE_ANGLE_LIMIT <= #[trigger] angles@[k]
                <= SPRITE_ANGLE_LIMIT,
    ensures
        final(fb).wf(),
        final(fb).width == old(fb).width,
        final(fb).height == old(fb).height,
        final(fb).background == old(fb).background,
        final(fb).pixels@ == enemies_rendered(
            old(fb).pixels@,
            old(fb).width as int,
            old(fb).height as int,
            *player,
            enemies@,
            angles@,
            *textures,
            flashlight_radius as int,
            enemies@.len() as int,
        ),
{
    let n = enemies.len();
    let mut k: usize = 0;
    while k < n
        invariant
            fb.wf(),
            fb.width == old(fb).width,
            fb.height == old(fb).height,
            fb.background == old(fb).background,
            6 <= fb.height,
            textures.wf(),
            0 < flashlight_radius <= MAX_LIGHT_RADIUS,
            -SPRITE_COORD_LIMIT <= player.pos_x <= SPRITE_COORD_LIMIT,
            -SPRITE_COORD_LIMIT <= player.pos_y <= SPRITE_COORD_LIMIT,
            -SPRITE_ANGLE_LIMIT <= player.a <= SPRITE_ANGLE_LIMIT,
            1 <= player.fov <= MAX_FOV_FP,
            k <= n,
            n == enemies@.len(),
            angles@.len() == enemies@.len(),
            forall|t: int|
                0 <= t < enemies@.len() ==> -SPRITE_COORD_LIMIT <= (#[trigger] enemies@[t]).pos_x
                    <= SPRITE_COORD_LIMIT && -SPRITE_COORD_LIMIT <= enemies@[t].pos_y
                    <= SPRITE_COORD_LIMIT,
            forall|t: int|
                0 <= t < angles@.len() ==> -SPRITE_ANGLE_LIMIT <= #[trigger] angles@[t]
                    <= SPRITE_ANGLE_LIMIT,
            fb.pixels@ == enemies_rendered(
                old(fb).pixels@,
                old(fb).width as int,
                old(fb).height as int,
                *player,
                enemies@,
                angles@,
                *textures,
                flashlight_radius as int,
                k as int,
            ),
        decreases n - k,
    {
        let e = enemies[k];
        let a = angles[k];
        let ghost fbp = *fb;
        draw_generic_sprite(
            fb,
            player,
            e.pos_x,
            e.pos_y,
            a,
            e.texture_key,
            textures,
            flashlight_radius,
        );
        proof {
            lemma_sprite_draw_applied(
                fbp,
                *fb,
                *player,
                e.pos_x,
                e.pos_y,
                a,
                e.texture_key,
                *textures,
                flashlight_radius,
            );
        }
        k = k + 1;
    }
}

/// Draws every collectable as a billboard sprite. `angles[k]` is the world
/// angle from the player to `items[k]`, computed by the caller. The buffer
/// becomes the in-order fold of the items' sprites over its previous
/// contents.
pub fn render_collectables(
    fb: &mut Framebuffer,
    player: &Player,
    items: &Vec<Collectable>,
    angles: &Vec<i64>,
    textures: &TextureSet,
    flashlight_radius: i64,
)
    requires
        old(fb).wf(),
        6 <= old(fb).height,
        textures.wf(),
        0 < flashlight_radius <= MAX_LIGHT_RADIUS,
        -SPRITE_COORD_LIMIT <= player.pos_x <= SPRITE_COORD_LIMIT,
        -SPRITE_COORD_LIMIT <= player.pos_y <= SPRITE_COORD_LIMIT,
        -SPRITE_ANGLE_LIMIT <= player.a <= SPRITE_ANGLE_LIMIT,
        1 <= player.fov <= MAX_FOV_FP,
        angles@.len() == items@.len(),
        forall|k: int|
            0 <= k < items@.len() ==> -SPRITE_COORD_LIMIT <= (#[trigger] items@[k]).pos_x
                <= SPRITE_COORD_LIMIT && -SPRITE_COORD_LIMIT <= items@[k].pos_y
                <= SPRITE_COORD_LIMIT,
        forall|k: int|
            0 <= k < angles@.len() ==> -SPRITE_ANGLE_LIMIT <= #[trigger] angles@[k]
                <= SPRITE_ANGLE_LIMIT,
    ensures
        final(fb).wf(),
        final(fb).width == old(fb).width,
        final(fb).height == old(fb).height,
        final(fb).background == old(fb).background,
        final(fb).pixels@ == collectables_rendered(
            old(fb).pixels@,
            old(fb).width as int,
            old(fb).height as int,
            *player,
            items@,
            angles@,
            *textures,
            flashlight_radius as int,
            items@.len() as int,
        ),
{
    let n = items.len();
    let mut k: usize = 0;
    while k < n
        invariant
            fb.wf(),
            fb.width == old(fb).width,
            fb.height == old(fb).height,
            fb.background == old(fb).background,
            6 <= fb.height,
            textures.wf(),
            0 < flashlight_radius <= MAX_LIGHT_RADIUS,
            -SPRITE_COORD_LIMIT <= player.pos_x <= SPRITE_COORD_LIMIT,
            -SPRITE_COORD_LIMIT <= player.pos_y <= SPRITE_COORD_LIMIT,
            -SPRITE_ANGLE_LIMIT <= player.a <= SPRITE_ANGLE_LIMIT,
            1 <= player.fov <= MAX_FOV_FP,
            k <= n,
            n == items@.len(),
            angles@.len() == items@.len(),
            forall|t: int|
                0 <= t < items@.len() ==> -SPRITE_COORD_LIMIT <= (#[trigger] items@[t]).pos_x
                    <= SPRITE_COORD_LIMIT && -SPRITE_COORD_LIMIT <= items@[t].pos_y
                    <= SPRITE_COORD_LIMIT,
            forall|t: int|
                0 <= t < angles@.len() ==> -SPRITE_ANGLE_LIMIT <= #[trigger] angles@[t]
                    <= SPRITE_ANGLE_LIMIT,
            fb.pixels@ == collectables_rendered(
                old(fb).pixels@,
                old(fb).width as int,
                old(fb).height as int,
                *player,
                items@,
                angles@,
                *textures,
                flashlight_radius as int,
                k as int,
            ),
        decreases n - k,
    {
        let c = items[k];
        let a = angles[k];
        let ghost fbp = *fb;
        draw_generic_sprite(
            fb,
            player,
            c.pos_x,
            c.pos_y,
            a,
            c.texture_key,
            textures,
            flashlight_radius,
        );
        proof {
            lemma_sprite_draw_applied(
                fbp,
                *fb,
                *player,
                c.pos_x,
                c.pos_y,
                a,
                c.texture_key,
                *textures,
                flashlight_radius,
            );
        }
        k = k + 1;
    }
}

/// Upper bound on a 2D overlay pixel offset.
pub const MAX_OVERLAY_PX: usize = 0x1000_0000;

/// Fills the square of a solid maze cell on the 2D overlay in red; a
/// traversable cell leaves the buffer untouched. Writes land only inside
/// the square (clipped to the buffer).
pub fn draw_cell(fb: &mut Framebuffer, xo: usize, yo: usize, block_size: usize, cell: char)
    requires
        old(fb).wf(),
        xo <= MAX_OVERLAY_PX,
        yo <= MAX_OVERLAY_PX,
        1 <= block_size <= MAX_BLOCK_SIZE,
    ensures
        final(fb).wf(),
        final(fb).width == old(fb).width,
        final(fb).height == old(fb).height,
        final(fb).background == old(fb).background,
        cell == crate::maze::OPEN_CELL ==> *final(fb) == *old(fb),
        forall|x: int, y: int|
            old(fb).in_bounds(x, y) && !(xo as int <= x < xo as int + block_size as int
                && yo as int <= y < yo as int + block_size as int) ==> final(fb).pixel(x, y) == old(
                fb,
            ).pixel(x, y),
        cell != crate::maze::OPEN_CELL ==> forall|x: int, y: int|
            old(fb).in_bounds(x, y) && xo as int <= x < xo as int + block_size as int
                && yo as int <= y < yo as int + block_size as int ==> final(fb).pixel(x, y) == (
            Color { r: 230, g: 41, b: 55, a: 255 }),
{
    if cell == crate::maze::OPEN_CELL {
        return;
    }
    let red = Color::new(230, 41, 55, 255);
    fb.set_current_color(red);
    let x_end = xo + block_size;
    let y_end = yo + block_size;
    let mut x = xo;
    while x < x_end
        invariant
            fb.wf(),
            fb.width == old(fb).width,
            fb.height == old(fb).height,
            fb.background == old(fb).background,
            fb.current_color == red,
            red == (Color { r: 230, g: 41, b: 55, a: 255 }),
            xo <= x <= x_end,
            x_end == xo + block_size,
            y_end == yo + block_size,
            xo <= MAX_OVERLAY_PX,
            yo <= MAX_OVERLAY_PX,
            block_size <= MAX_BLOCK_SIZE,
            forall|x2: int, y2: int|
                old(fb).in_bounds(x2, y2) && !(xo as int <= x2 < x as int && yo as int <= y2
                    < y_end as int) ==> fb.pixel(x2, y2) == old(fb).pixel(x2, y2),
            forall|x2: int, y2: int|
                old(fb).in_bounds(x2, y2) && xo as int <= x2 < x as int && yo as int <= y2
                    < y_end as int ==> fb.pixel(x2, y2) == red,
        decreases x_end - x,
    {
        let mut y = yo;
        while y < y_end
            invariant
                fb.wf(),
                fb.width == old(fb).width,
                fb.height == old(fb).height,
                fb.background == old(fb).background,
                fb.current_color == red,
                red == (Color { r: 230, g: 41, b: 55, a: 255 }),
                xo <= x < x_end,
                yo <= y <= y_end,
                x_end == xo + block_size,
                y_end == yo + block_size,
                xo <= MAX_OVERLAY_PX,
                yo <= MAX_OVERLAY_PX,
                block_size <= MAX_BLOCK_SIZE,
                forall|x2: int, y2: int|
                    old(fb).in_bounds(x2, y2) && !(xo as int <= x2 < x as int && yo as int <= y2
                        < y_end as int) && !(x2 == x as int && yo as int <= y2 < y as int)
                        ==> fb.pixel(x2, y2) == old(fb).pixel(x2, y2),
                forall|x2: int, y2: int|
                    old(fb).in_bounds(x2, y2) && xo as int <= x2 < x as int && yo as int <= y2
                        < y_end as int ==> fb.pixel(x2, y2) == red,
                forall|y2: int|
                    old(fb).in_bounds(x as int, y2) && yo as int <= y2 < y as int ==> fb.pixel(
                        x as int,
                        y2,
                    ) == red,
            decreases y_end - y,
        {
            let ghost before = *fb;
            fb.set_pixel(x as i64, y as i64);
            proof {
                if before.in_bounds(x as int, y as int) {
                    before.lemma_index_in_range(x as int, y as int);
                    assert(fb.pixel(x as int, y as int) == red);
                }
                assert forall|x2: int, y2: int|
                    old(fb).in_bounds(x2, y2) && !(xo as int <= x2 < x as int && yo as int <= y2
                        < y_end as int) && !(x2 == x as int && yo as int <= y2 < y as int + 1)
                        implies fb.pixel(x2, y2) == old(fb).pixel(x2, y2) by {
                    before.lemma_index_in_range(x2, y2);
                    if before.in_bounds(x as int, y as int) {
                        before.lemma_index_in_range(x as int, y as int);
                        if before.pixel_index(x2, y2) == before.pixel_index(x as int, y as int) {
                            before.lemma_index_injective(x2, y2, x as int, y as int);
                        }
                    }
                    assert(fb.pixel(x2, y2) == before.pixel(x2, y2));
                    assert(before.pixel(x2, y2) == old(fb).pixel(x2, y2));
                }
                assert forall|y2: int|
                    old(fb).in_bounds(x as int, y2) && yo as int <= y2 < y as int + 1 implies fb.pixel(
                    x as int,
                    y2,
                ) == red by {
                    if y2 < y as int {
                        before.lemma_index_in_range(x as int, y2);
                        if before.in_bounds(x as int, y as int) {
                            before.lemma_index_in_range(x as int, y as int);
                            if before.pixel_index(x as int, y2) == before.pixel_index(
                                x as int,
                                y as int,
                            ) {
                                before.lemma_index_injective(x as int, y2, x as int, y as int);
                            }
                        }
                        assert(fb.pixel(x as int, y2) == before.pixel(x as int, y2));
                    }
                }
                assert forall|x2: int, y2: int|
                    old(fb).in_bounds(x2, y2) && xo as int <= x2 < x as int && yo as int <= y2
                        < y_end as int implies fb.pixel(x2, y2) == red by {
                    before.lemma_index_in_range(x2, y2);
                    if before.in_bounds(x as int, y as int) {
                        before.lemma_index_in_range(x as int, y as int);
                        if before.pixel_index(x2, y2) == before.pixel_index(x as int, y as int) {
                            before.lemma_index_injective(x2, y2, x as int, y as int);
                        }
                    }
                    assert(fb.pixel(x2, y2) == before.pixel(x2, y2));
                }
            }
            y = y + 1;
        }
        x = x + 1;
    }
}

/// The square one maze cell occupies on the 2D overlay.
pub open spec fn in_cell_square(block_size: int, r: int, c: int, x: int, y: int) -> bool {
    &&& c * block_size <= x < c * block_size + block_size
    &&& r * block_size <= y < r * block_size + block_size
}

/// `(x, y)` lies in the drawn square of some solid cell.
pub open spec fn in_solid_cell_square(m: Seq<Seq<char>>, block_size: int, x: int, y: int) -> bool {
    exists|r: int, c: int|
        #![auto]
        0 <= r < m.len() && 0 <= c < m[0].len() && m[r][c] != crate::maze::OPEN_CELL
            && in_cell_square(block_size, r, c, x, y)
}

/// As [`in_solid_cell_square`], over the cells the overlay pass has drawn
/// so far: the full rows before `j` and row `j`'s first `i` cells.
spec fn in_drawn_solid_square(
    m: Seq<Seq<char>>,
    block_size: int,
    j: int,
    i: int,
    x: int,
    y: int,
) -> bool {
    exists|r: int, c: int|
        #![auto]
        0 <= r < m.len() && 0 <= c < m[0].len() && (r < j || (r == j && c < i)) && m[r][c]
            != crate::maze::OPEN_CELL && in_cell_square(block_size, r, c, x, y)
}

/// `(x, y)` is a point some traced overlay ray passes over on its way to
/// its first impact.
pub open spec fn on_ray_trace(
    m: Seq<Seq<char>>,
    player: Player,
    rays: Seq<ColumnRay>,
    block_size: int,
    x: int,
    y: int,
) -> bool {
    exists|t: int, j: int|
        #![auto]
        0 <= t < rays.len() && 0 <= j < column_hit_step(m, player, rays[t], block_size) && x
            == ray_coord(player.pos_x as int, rays[t].dir_x as int, j) / (FP_ONE as int) && y
            == ray_coord(player.pos_y as int, rays[t].dir_y as int, j) / (FP_ONE as int)
}

/// A point inside one cell's square lies in no other cell's: the square's
/// column index is the quotient of the coordinate.
proof fn lemma_square_coord_unique(block_size: int, c: int, x: int)
    requires
        1 <= block_size,
        c * block_size <= x < c * block_size + block_size,
    ensures
        x / block_size == c,
{
    vstd::arithmetic::div_mod::lemma_fundamental_div_mod_converse_div(
        x,
        block_size,
        c,
        x - c * block_size,
    );
}

/// Renders the 2D overlay: every solid cell's square is painted red, the
/// player's position pixel is white, and the fan of rays is traced in
/// white; no other pixel changes.
pub fn render_maze(
    fb: &mut Framebuffer,
    maze: &Maze,
    block_size: usize,
    player: &Player,
    rays: &Vec<ColumnRay>,
)
    requires
        old(fb).wf(),
        maze_wf(maze_view(maze)),
        1 <= block_size <= MAX_BLOCK_SIZE,
        forall|k: int|
            0 <= k < rays@.len() ==> column_ray_ok(#[trigger] rays@[k], block_size as int),
        cell_open(
            maze_view(maze),
            grid_index(player.pos_y as int, block_size as int),
            grid_index(player.pos_x as int, block_size as int),
        ),
    ensures
        final(fb).wf(),
        final(fb).width == old(fb).width,
        final(fb).height == old(fb).height,
        final(fb).background == old(fb).background,
        forall|x: int, y: int|
            old(fb).in_bounds(x, y) && in_solid_cell_square(
                maze_view(maze),
                block_size as int,
                x,
                y,
            ) ==> final(fb).pixel(x, y) == (Color { r: 230, g: 41, b: 55, a: 255 }),
        old(fb).in_bounds(
            player.pos_x as int / (FP_ONE as int),
            player.pos_y as int / (FP_ONE as int),
        ) ==> final(fb).pixel(
            player.pos_x as int / (FP_ONE as int),
            player.pos_y as int / (FP_ONE as int),
        ) == (Color { r: 255, g: 255, b: 255, a: 255 }),
        forall|x: int, y: int|
            old(fb).in_bounds(x, y) && !in_solid_cell_square(
                maze_view(maze),
                block_size as int,
                x,
                y,
            ) && !(x == player.pos_x as int / (FP_ONE as int) && y == player.pos_y as int / (
            FP_ONE as int)) && !on_ray_trace(
                maze_view(maze),
                *player,
                rays@,
                block_size as int,
                x,
                y,
            ) ==> final(fb).pixel(x, y) == old(fb).pixel(x, y),
{
    let ghost m = maze_view(maze);
    let ghost bs = block_size as int;
    let ghost red = (Color { r: 230, g: 41, b: 55, a: 255 });
    let ghost white = (Color { r: 255, g: 255, b: 255, a: 255 });
    let ghost ppx = player.pos_x as int / (FP_ONE as int);
    let ghost ppy = player.pos_y as int / (FP_ONE as int);
    let rows = maze_rows(maze);
    let cols = maze_cols(maze, 0);
    let mut j: usize = 0;
    while j < rows
        invariant
            fb.wf(),
            fb.width == old(fb).width,
            fb.height == old(fb).height,
            fb.background == old(fb).background,
            m == maze_view(maze),
            bs == block_size as int,
            red == (Color { r: 230, g: 41, b: 55, a: 255 }),
            maze_wf(m),
            1 <= block_size <= MAX_BLOCK_SIZE,
            rows == m.len(),
            cols == m[0].len(),
            j <= rows,
            forall|x: int, y: int|
                old(fb).in_bounds(x, y) && in_drawn_solid_square(m, bs, j as int, 0, x, y)
                    ==> fb.pixel(x, y) == red,
            forall|x: int, y: int|
                old(fb).in_bounds(x, y) && !in_drawn_solid_square(m, bs, j as int, 0, x, y)
                    ==> fb.pixel(x, y) == old(fb).pixel(x, y),
        decreases rows - j,
    {
        let mut i: usize = 0;
        while i < cols
            invariant
                fb.wf(),
                fb.width == old(fb).width,
                fb.height == old(fb).height,
                fb.background == old(fb).background,
                m == maze_view(maze),
                bs == block_size as int,
                red == (Color { r: 230, g: 41, b: 55, a: 255 }),
                maze_wf(m),
                1 <= block_size <= MAX_BLOCK_SIZE,
                rows == m.len(),
                cols == m[0].len(),
                j < rows,
                i <= cols,
                forall|x: int, y: int|
                    old(fb).in_bounds(x, y) && in_drawn_solid_square(m, bs, j as int, i as int, x, y)
                        ==> fb.pixel(x, y) == red,
                forall|x: int, y: int|
                    old(fb).in_bounds(x, y) && !in_drawn_solid_square(
                        m,
                        bs,
                        j as int,
                        i as int,
                        x,
                        y,
                    ) ==> fb.pixel(x, y) == old(fb).pixel(x, y),
            decreases cols - i,
        {
            let cell = cell_at(maze, j, i);
            proof {
                assert(i * block_size <= 4096 * 65536 && j * block_size <= 4096 * 65536)
                    by (nonlinear_arith)
                    requires
                        0 <= i <= 4096,
                        0 <= j <= 4096,
                        0 <= block_size <= 65536,
                ;
            }
            let ghost pre = *fb;
            draw_cell(fb, i * block_size, j * block_size, block_size, cell);
            proof {
                let xo = (i * block_size) as int;
                let yo = (j * block_size) as int;
                assert forall|x: int, y: int|
                    old(fb).in_bounds(x, y) && in_drawn_solid_square(
                        m,
                        bs,
                        j as int,
                        i as int + 1,
                        x,
                        y,
                    ) implies fb.pixel(x, y) == red by {
                    let (r, c) = choose|r: int, c: int|
                        #![auto]
                        0 <= r < m.len() && 0 <= c < m[0].len() && (r < j as int || (r == j as int
                            && c < i as int + 1)) && m[r][c] != crate::maze::OPEN_CELL
                            && in_cell_square(bs, r, c, x, y);
                    if r == j as int && c == i as int {
                        assert(cell != crate::maze::OPEN_CELL);
                        assert(fb.pixel(x, y) == red);
                    } else {
                        assert(in_drawn_solid_square(m, bs, j as int, i as int, x, y));
                        if xo <= x < xo + bs && yo <= y < yo + bs {
                            lemma_square_coord_unique(bs, i as int, x);
                            lemma_square_coord_unique(bs, c, x);
                            lemma_square_coord_unique(bs, j as int, y);
                            lemma_square_coord_unique(bs, r, y);
                        }
                        assert(fb.pixel(x, y) == pre.pixel(x, y));
                    }
                }
                assert forall|x: int, y: int|
                    old(fb).in_bounds(x, y) && !in_drawn_solid_square(
                        m,
                        bs,
                        j as int,
                        i as int + 1,
                        x,
                        y,
                    ) implies fb.pixel(x, y) == old(fb).pixel(x, y) by {
                    assert(!in_drawn_solid_square(m, bs, j as int, i as int, x, y));
                    if cell != crate::maze::OPEN_CELL && xo <= x < xo + bs && yo <= y < yo + bs {
                        assert(in_cell_square(bs, j as int, i as int, x, y));
                        assert(in_drawn_solid_square(m, bs, j as int, i as int + 1, x, y));
                    }
                    assert(fb.pixel(x, y) == pre.pixel(x, y));
                }
            }
            i = i + 1;
        }
        proof {
            assert forall|x: int, y: int|
                old(fb).in_bounds(x, y) && in_drawn_solid_square(m, bs, j as int + 1, 0, x, y)
                    implies fb.pixel(x, y) == red by {
                let (r, c) = choose|r: int, c: int|
                    #![auto]
                    0 <= r < m.len() && 0 <= c < m[0].len() && (r < j as int + 1 || (r == j as int
                        + 1 && c < 0)) && m[r][c] != crate::maze::OPEN_CELL && in_cell_square(
                        bs,
                        r,
                        c,
                        x,
                        y,
                    );
                assert(r < j as int || (r == j as int && c < cols as int));
                assert(in_drawn_solid_square(m, bs, j as int, cols as int, x, y));
            }
            assert forall|x: int, y: int|
                old(fb).in_bounds(x, y) && !in_drawn_solid_square(m, bs, j as int + 1, 0, x, y)
                    implies fb.pixel(x, y) == old(fb).pixel(x, y) by {
                if in_drawn_solid_square(m, bs, j as int, cols as int, x, y) {
                    let (r, c) = choose|r: int, c: int|
                        #![auto]
                        0 <= r < m.len() && 0 <= c < m[0].len() && (r < j as int || (r == j as int
                            && c < cols as int)) && m[r][c] != crate::maze::OPEN_CELL
                            && in_cell_square(bs, r, c, x, y);
                    assert(in_drawn_solid_square(m, bs, j as int + 1, 0, x, y));
                }
            }
        }
        j = j + 1;
    }
    let ghost fb_cells = *fb;
    proof {
        assert forall|x: int, y: int|
            old(fb).in_bounds(x, y) && in_solid_cell_square(m, bs, x, y) implies fb_cells.pixel(
            x,
            y,
        ) == red by {
            let (r, c) = choose|r: int, c: int|
                #![auto]
                0 <= r < m.len() && 0 <= c < m[0].len() && m[r][c] != crate::maze::OPEN_CELL
                    && in_cell_square(bs, r, c, x, y);
            assert(in_drawn_solid_square(m, bs, rows as int, 0, x, y));
        }
        assert forall|x: int, y: int|
            old(fb).in_bounds(x, y) && !in_solid_cell_square(m, bs, x, y) implies fb_cells.pixel(
            x,
            y,
        ) == old(fb).pixel(x, y) by {
            if in_drawn_solid_square(m, bs, rows as int, 0, x, y) {
                let (r, c) = choose|r: int, c: int|
                    #![auto]
                    0 <= r < m.len() && 0 <= c < m[0].len() && (r < rows as int || (r
                        == rows as int && c < 0)) && m[r][c] != crate::maze::OPEN_CELL
                        && in_cell_square(bs, r, c, x, y);
                assert(in_solid_cell_square(m, bs, x, y));
            }
        }
        crate::caster::lemma_index_bounds_coord(player.pos_x as int, bs, cols as int);
        crate::caster::lemma_index_bounds_coord(player.pos_y as int, bs, rows as int);
    }
    fb.set_current_color(Color::new(255, 255, 255, 255));
    let px: i64 = ((player.pos_x as u64) / (FP_ONE as u64)) as i64;
    let py: i64 = ((player.pos_y as u64) / (FP_ONE as u64)) as i64;
    let ghost fb_mark = *fb;
    fb.set_pixel(px, py);
    proof {
        // the player's pixel lies in the player's own (open) cell, so it is
        // in no solid cell's square
        if old(fb).in_bounds(ppx, ppy) {
            fb_mark.lemma_index_in_range(ppx, ppy);
        }
        assert forall|x: int, y: int|
            old(fb).in_bounds(x, y) && in_solid_cell_square(m, bs, x, y) implies fb.pixel(x, y)
            == red by {
            if x == ppx && y == ppy {
                let (r, c) = choose|r: int, c: int|
                    #![auto]
                    0 <= r < m.len() && 0 <= c < m[0].len() && m[r][c] != crate::maze::OPEN_CELL
                        && in_cell_square(bs, r, c, x, y);
                crate::caster::lemma_pixel_cell(player.pos_x as int, bs);
                crate::caster::lemma_pixel_cell(player.pos_y as int, bs);
                lemma_square_coord_unique(bs, c, x);
                lemma_square_coord_unique(bs, r, y);
            } else {
                fb_mark.lemma_index_in_range(x, y);
                if old(fb).in_bounds(ppx, ppy) {
                    if fb_mark.pixel_index(x, y) == fb_mark.pixel_index(ppx, ppy) {
                        fb_mark.lemma_index_injective(x, y, ppx, ppy);
                    }
                }
                assert(fb.pixel(x, y) == fb_mark.pixel(x, y));
            }
        }
        assert forall|x: int, y: int|
            old(fb).in_bounds(x, y) && !in_solid_cell_square(m, bs, x, y) && !(x == ppx && y
                == ppy) implies fb.pixel(x, y) == old(fb).pixel(x, y) by {
            fb_mark.lemma_index_in_range(x, y);
            if old(fb).in_bounds(ppx, ppy) {
                if fb_mark.pixel_index(x, y) == fb_mark.pixel_index(ppx, ppy) {
                    fb_mark.lemma_index_injective(x, y, ppx, ppy);
                }
            }
            assert(fb.pixel(x, y) == fb_mark.pixel(x, y));
        }
    }
    let n = rays.len();
    let mut k: usize = 0;
    while k < n
        invariant
            fb.wf(),
            fb.width == old(fb).width,
            fb.height == old(fb).height,
            fb.background == old(fb).background,
            m == maze_view(maze),
            bs == block_size as int,
            red == (Color { r: 230, g: 41, b: 55, a: 255 }),
            white == (Color { r: 255, g: 255, b: 255, a: 255 }),
            ppx == player.pos_x as int / (FP_ONE as int),
            ppy == player.pos_y as int / (FP_ONE as int),
            maze_wf(m),
            1 <= block_size <= MAX_BLOCK_SIZE,
            rows == m.len(),
            cols == m[0].len(),
            k <= n,
            n == rays@.len(),
            forall|t: int|
                0 <= t < rays@.len() ==> column_ray_ok(#[trigger] rays@[t], block_size as int),
            cell_open(m, grid_index(player.pos_y as int, bs), grid_index(player.pos_x as int, bs)),
            forall|x: int, y: int|
                old(fb).in_bounds(x, y) && in_solid_cell_square(m, bs, x, y) ==> fb.pixel(x, y)
                    == red,
            old(fb).in_bounds(ppx, ppy) ==> fb.pixel(ppx, ppy) == white,
            forall|x: int, y: int|
                old(fb).in_bounds(x, y) && !in_solid_cell_square(m, bs, x, y) && !(x == ppx && y
                    == ppy) && !on_ray_trace(m, *player, rays@, bs, x, y) ==> fb.pixel(x, y) == old(
                    fb,
                ).pixel(x, y),
        decreases n - k,
    {
        let ray = rays[k];
        proof {
            crate::caster::lemma_index_bounds_coord(player.pos_x as int, bs, cols as int);
            crate::caster::lemma_index_bounds_coord(player.pos_y as int, bs, rows as int);
        }
        let ghost pre = *fb;
        let hit = cast_ray(fb, maze, player, ray.dir_x, ray.dir_y, block_size, true);
        proof {
            let ox = player.pos_x as int;
            let oy = player.pos_y as int;
            let rdx = rays@[k as int].dir_x as int;
            let rdy = rays@[k as int].dir_y as int;
            let w = old(fb).width as int;
            let h = old(fb).height as int;
            let kg = (hit.distance as int) / (FP_ONE as int);
            let kc = column_hit_step(m, *player, rays@[k as int], bs);
            assert(0 <= kc && ray_hits_at(m, ox, oy, rdx, rdy, bs, kc));
            lemma_first_hit_unique(m, ox, oy, rdx, rdy, bs, kc, kg);
            assert(fb.pixels@ == crate::caster::traced_seq(pre.pixels@, w, h, ox, oy, rdx, rdy, kg));
            assert forall|x: int, y: int|
                old(fb).in_bounds(x, y) && in_solid_cell_square(m, bs, x, y) implies fb.pixel(x, y)
                == red by {
                pre.lemma_index_in_range(x, y);
                crate::caster::lemma_traced_seq_effect(
                    pre.pixels@,
                    w,
                    h,
                    ox,
                    oy,
                    rdx,
                    rdy,
                    kg,
                    pre.pixel_index(x, y),
                );
                if fb.pixels@[pre.pixel_index(x, y)] != pre.pixels@[pre.pixel_index(x, y)] {
                    let jw = choose|jj: int|
                        #![auto]
                        0 <= jj < kg && 0 <= ray_coord(ox, rdx, jj) / (FP_ONE as int) < w && 0
                            <= ray_coord(oy, rdy, jj) / (FP_ONE as int) < h && pre.pixel_index(x, y)
                            == (ray_coord(oy, rdy, jj) / (FP_ONE as int)) * w + ray_coord(
                            ox,
                            rdx,
                            jj,
                        ) / (FP_ONE as int);
                    let tpx = ray_coord(ox, rdx, jw) / (FP_ONE as int);
                    let tpy = ray_coord(oy, rdy, jw) / (FP_ONE as int);
                    pre.lemma_index_injective(x, y, tpx, tpy);
                    assert(crate::caster::ray_open_at(m, ox, oy, rdx, rdy, bs, jw));
                    crate::caster::lemma_index_bounds_coord(
                        ray_coord(ox, rdx, jw),
                        bs,
                        cols as int,
                    );
                    crate::caster::lemma_index_bounds_coord(
                        ray_coord(oy, rdy, jw),
                        bs,
                        rows as int,
                    );
                    crate::caster::lemma_pixel_cell(ray_coord(ox, rdx, jw), bs);
                    crate::caster::lemma_pixel_cell(ray_coord(oy, rdy, jw), bs);
                    let (r, c) = choose|r: int, c: int|
                        #![auto]
                        0 <= r < m.len() && 0 <= c < m[0].len() && m[r][c]
                            != crate::maze::OPEN_CELL && in_cell_square(bs, r, c, x, y);
                    lemma_square_coord_unique(bs, c, x);
                    lemma_square_coord_unique(bs, r, y);
                }
                assert(fb.pixel(x, y) == pre.pixel(x, y));
            }
            if old(fb).in_bounds(ppx, ppy) {
                pre.lemma_index_in_range(ppx, ppy);
                crate::caster::lemma_traced_seq_effect(
                    pre.pixels@,
                    w,
                    h,
                    ox,
                    oy,
                    rdx,
                    rdy,
                    kg,
                    pre.pixel_index(ppx, ppy),
                );
                assert(fb.pixel(ppx, ppy) == white);
            }
            assert forall|x: int, y: int|
                old(fb).in_bounds(x, y) && !in_solid_cell_square(m, bs, x, y) && !(x == ppx && y
                    == ppy) && !on_ray_trace(m, *player, rays@, bs, x, y) implies fb.pixel(x, y)
                == old(fb).pixel(x, y) by {
                pre.lemma_index_in_range(x, y);
                crate::caster::lemma_traced_seq_effect(
                    pre.pixels@,
                    w,
                    h,
                    ox,
                    oy,
                    rdx,
                    rdy,
                    kg,
                    pre.pixel_index(x, y),
                );
                if fb.pixels@[pre.pixel_index(x, y)] != pre.pixels@[pre.pixel_index(x, y)] {
                    let jw = choose|jj: int|
                        #![auto]
                        0 <= jj < kg && 0 <= ray_coord(ox, rdx, jj) / (FP_ONE as int) < w && 0
                            <= ray_coord(oy, rdy, jj) / (FP_ONE as int) < h && pre.pixel_index(x, y)
                            == (ray_coord(oy, rdy, jj) / (FP_ONE as int)) * w + ray_coord(
                            ox,
                            rdx,
                            jj,
                        ) / (FP_ONE as int);
                    let tpx = ray_coord(ox, rdx, jw) / (FP_ONE as int);
                    let tpy = ray_coord(oy, rdy, jw) / (FP_ONE as int);
                    pre.lemma_index_injective(x, y, tpx, tpy);
                    assert(0 <= (k as int) && (k as int) < rays@.len() && 0 <= jw < column_hit_step(
                        m,
                        *player,
                        rays@[k as int],
                        bs,
                    ) && x == ray_coord(player.pos_x as int, rays@[k as int].dir_x as int, jw) / (
                    FP_ONE as int) && y == ray_coord(
                        player.pos_y as int,
                        rays@[k as int].dir_y as int,
                        jw,
                    ) / (FP_ONE as int));
                    assert(on_ray_trace(m, *player, rays@, bs, x, y));
                }
                assert(fb.pixel(x, y) == pre.pixel(x, y));
            }
        }
        k = k + 1;
    }
}

/// Fills a rectangle with the current draw color; writes off the buffer
/// are ignored and nothing else changes.
fn fill_rect(fb: &mut Framebuffer, x0: i64, y0: i64, w_px: i64, h_px: i64)
    requires
        old(fb).wf(),
        0 <= w_px <= 100000,
        0 <= h_px <= 100000,
        -0x4000_0000 <= x0 <= 0x4000_0000,
        -0x4000_0000 <= y0 <= 0x4000_0000,
    ensures
        final(fb).wf(),
        final(fb).width == old(fb).width,
        final(fb).height == old(fb).height,
        final(fb).background == old(fb).background,
        final(fb).current_color == old(fb).current_color,
        forall|x: int, y: int|
            old(fb).in_bounds(x, y) && x0 <= x < x0 + w_px && y0 <= y < y0 + h_px ==> final(fb).pixel(x, y) == old(fb).current_color,
        forall|x: int, y: int|
            old(fb).in_bounds(x, y) && !(x0 <= x < x0 + w_px && y0 <= y < y0 + h_px) ==> final(fb).pixel(x, y) == old(fb).pixel(x, y),
{
    let mut xo: i64 = 0;
    while xo < w_px
        invariant
            fb.wf(),
            fb.width == old(fb).width,
            fb.height == old(fb).height,
            fb.background == old(fb).background,
            fb.current_color == old(fb).current_color,
            0 <= xo <= w_px <= 100000,
            0 <= h_px <= 100000,
            -0x4000_0000 <= x0 <= 0x4000_0000,
            -0x4000_0000 <= y0 <= 0x4000_0000,
            forall|x: int, y: int|
                old(fb).in_bounds(x, y) && x0 <= x < x0 + xo && y0 <= y < y0 + h_px ==> fb.pixel(
                    x,
                    y,
                ) == old(fb).current_color,
            forall|x: int, y: int|
                old(fb).in_bounds(x, y) && !(x0 <= x < x0 + xo && y0 <= y < y0 + h_px) ==> fb.pixel(
                    x,
                    y,
                ) == old(fb).pixel(x, y),
        decreases w_px - xo,
    {
        let mut yo: i64 = 0;
        while yo < h_px
            invariant
                fb.wf(),
                fb.width == old(fb).width,
                fb.height == old(fb).height,
                fb.background == old(fb).background,
                fb.current_color == old(fb).current_color,
                0 <= xo < w_px <= 100000,
                0 <= yo <= h_px <= 100000,
                -0x4000_0000 <= x0 <= 0x4000_0000,
                -0x4000_0000 <= y0 <= 0x4000_0000,
                forall|x: int, y: int|
                    old(fb).in_bounds(x, y) && x0 <= x < x0 + xo && y0 <= y < y0 + h_px
                        ==> fb.pixel(x, y) == old(fb).current_color,
                forall|y: int|
                    old(fb).in_bounds(x0 + xo, y) && y0 <= y < y0 + yo ==> #[trigger] fb.pixel(
                        x0 + xo,
                        y,
                    ) == old(fb).current_color,
                forall|x: int, y: int|
                    old(fb).in_bounds(x, y) && !(x0 <= x < x0 + xo && y0 <= y < y0 + h_px) && !(x
                        == x0 + xo && y0 <= y < y0 + yo) ==> fb.pixel(x, y) == old(fb).pixel(x, y),
            decreases h_px - yo,
        {
            let ghost before = *fb;
            fb.set_pixel(x0 + xo, y0 + yo);
            proof {
                if before.in_bounds(x0 + xo, y0 + yo) {
                    before.lemma_index_in_range(x0 + xo, y0 + yo);
                    assert(fb.pixel(x0 + xo, y0 + yo) == old(fb).current_color);
                }
                assert forall|x: int, y: int|
                    old(fb).in_bounds(x, y) && x0 <= x < x0 + xo && y0 <= y < y0 + h_px implies fb.pixel(
                    x,
                    y,
                ) == old(fb).current_color by {
                    before.lemma_index_in_range(x, y);
                    if before.in_bounds(x0 + xo, y0 + yo) {
                        before.lemma_index_in_range(x0 + xo, y0 + yo);
                        if before.pixel_index(x, y) == before.pixel_index(x0 + xo, y0 + yo) {
                            before.lemma_index_injective(x, y, x0 + xo, y0 + yo);
                        }
                    }
                    assert(fb.pixel(x, y) == before.pixel(x, y));
                    assert(before.pixel(x, y) == old(fb).current_color);
                }
                assert forall|y: int|
                    old(fb).in_bounds(x0 + xo, y) && y0 <= y < y0 + yo + 1 implies #[trigger] fb.pixel(
                    x0 + xo,
                    y,
                ) == old(fb).current_color by {
                    if y < y0 + yo {
                        before.lemma_index_in_range(x0 + xo, y);
                        if before.in_bounds(x0 + xo, y0 + yo) {
                            before.lemma_index_in_range(x0 + xo, y0 + yo);
                            if before.pixel_index(x0 + xo, y) == before.pixel_index(
                                x0 + xo,
                                y0 + yo,
                            ) {
                                before.lemma_index_injective(x0 + xo, y, x0 + xo, y0 + yo);
                            }
                        }
                        assert(fb.pixel(x0 + xo, y) == before.pixel(x0 + xo, y));
                        assert(before.pixel(x0 + xo, y) == old(fb).current_color);
                    }
                }
                assert forall|x: int, y: int|
                    old(fb).in_bounds(x, y) && !(x0 <= x < x0 + xo && y0 <= y < y0 + h_px) && !(x
                        == x0 + xo && y0 <= y < y0 + yo + 1) implies fb.pixel(x, y) == old(
                    fb,
                ).pixel(x, y) by {
                    before.lemma_index_in_range(x, y);
                    if before.in_bounds(x0 + xo, y0 + yo) {
                        before.lemma_index_in_range(x0 + xo, y0 + yo);
                        if before.pixel_index(x, y) == before.pixel_index(x0 + xo, y0 + yo) {
                            before.lemma_index_injective(x, y, x0 + xo, y0 + yo);
                        }
                    }
                    assert(fb.pixel(x, y) == before.pixel(x, y));
                    assert(before.pixel(x, y) == old(fb).pixel(x, y));
                }
            }
            yo = yo + 1;
        }
        xo = xo + 1;
    }
}

/// One step of the heading line: the `s`-th point's offset along a
/// fixed-point direction component, rounded toward zero.
pub open spec fn line_step(s: int, dir: int) -> int {
    if dir >= 0 {
        s * dir / (FP_ONE as int)
    } else {
        -(s * (-dir) / (FP_ONE as int))
    }
}

/// The minimap's left edge: the window's right edge minus the scaled map
/// width and a margin.
pub open spec fn minimap_offset_x_spec(m: Seq<Seq<char>>, block_size: int, window_width: int) -> int {
    window_width - (m[0].len() * block_size * 3) / 20 - 10
}

/// The side, in pixels, of one scaled minimap cell (scale 3/20).
pub open spec fn minimap_cell_px(block_size: int) -> int {
    (block_size * 3) / 20
}

/// `(x, y)` lies in the scaled minimap rectangle of some solid cell.
pub open spec fn in_minimap_wall_rect(
    m: Seq<Seq<char>>,
    block_size: int,
    window_width: int,
    x: int,
    y: int,
) -> bool {
    exists|r: int, c: int|
        #![auto]
        0 <= r < m.len() && 0 <= c < m[0].len() && m[r][c] != crate::maze::OPEN_CELL
            && minimap_offset_x_spec(m, block_size, window_width) + (c * block_size * 3) / 20 <= x
            < minimap_offset_x_spec(m, block_size, window_width) + (c * block_size * 3) / 20
            + minimap_cell_px(block_size) && 10 + (r * block_size * 3) / 20 <= y < 10 + (r
            * block_size * 3) / 20 + minimap_cell_px(block_size)
}

/// As [`in_minimap_wall_rect`], over the cells drawn so far.
spec fn in_drawn_wall_rect(
    m: Seq<Seq<char>>,
    block_size: int,
    window_width: int,
    j: int,
    i: int,
    x: int,
    y: int,
) -> bool {
    exists|r: int, c: int|
        #![auto]
        0 <= r < m.len() && 0 <= c < m[0].len() && (r < j || (r == j && c < i)) && m[r][c]
            != crate::maze::OPEN_CELL && minimap_offset_x_spec(m, block_size, window_width) + (c
            * block_size * 3) / 20 <= x < minimap_offset_x_spec(m, block_size, window_width) + (c
            * block_size * 3) / 20 + minimap_cell_px(block_size) && 10 + (r * block_size * 3) / 20
            <= y < 10 + (r * block_size * 3) / 20 + minimap_cell_px(block_size)
}

/// The minimap x position of the player's marker center.
pub open spec fn minimap_player_x_spec(
    m: Seq<Seq<char>>,
    block_size: int,
    window_width: int,
    player: Player,
) -> int {
    minimap_offset_x_spec(m, block_size, window_width) + ((player.pos_x as int / (FP_ONE as int))
        * 3) / 20
}

/// The minimap y position of the player's marker center.
pub open spec fn minimap_player_y_spec(player: Player) -> int {
    10 + ((player.pos_y as int / (FP_ONE as int)) * 3) / 20
}

/// `(x, y)` lies in the player's five-by-five marker.
pub open spec fn in_minimap_marker(
    m: Seq<Seq<char>>,
    block_size: int,
    window_width: int,
    player: Player,
    x: int,
    y: int,
) -> bool {
    &&& minimap_player_x_spec(m, block_size, window_width, player) - 2 <= x
        <= minimap_player_x_spec(m, block_size, window_width, player) + 2
    &&& minimap_player_y_spec(player) - 2 <= y <= minimap_player_y_spec(player) + 2
}

/// `(x, y)` is one of the heading line's points, within the first `upto`.
pub open spec fn on_minimap_heading_upto(
    m: Seq<Seq<char>>,
    block_size: int,
    window_width: int,
    player: Player,
    dir_x: int,
    dir_y: int,
    upto: int,
    x: int,
    y: int,
) -> bool {
    exists|s: int|
        #![auto]
        0 <= s < upto && x == minimap_player_x_spec(m, block_size, window_width, player)
            + line_step(s, dir_x) && y == minimap_player_y_spec(player) + line_step(s, dir_y)
}

/// `(x, y)` is one of the heading line's fifteen points.
pub open spec fn on_minimap_heading(
    m: Seq<Seq<char>>,
    block_size: int,
    window_width: int,
    player: Player,
    dir_x: int,
    dir_y: int,
    x: int,
    y: int,
) -> bool {
    on_minimap_heading_upto(m, block_size, window_width, player, dir_x, dir_y, 15, x, y)
}

/// Renders the minimap in the window's top-right corner: every solid
/// cell's scaled rectangle is translucent gray, the player's five-by-five
/// marker and the heading line along `(dir_x, dir_y)` are yellow, and no
/// other pixel changes. All writes are clipped by the buffer.
#[verifier::rlimit(50)]
pub fn render_minimap(
    fb: &mut Framebuffer,
    maze: &Maze,
    player: &Player,
    block_size: usize,
    window_width: i64,
    dir_x: i64,
    dir_y: i64,
)
    requires
        old(fb).wf(),
        maze_wf(maze_view(maze)),
        1 <= block_size <= MAX_BLOCK_SIZE,
        0 <= window_width <= 100000,
        -FP_ONE <= dir_x <= FP_ONE,
        -FP_ONE <= dir_y <= FP_ONE,
        0 <= player.pos_x <= SPRITE_COORD_LIMIT,
        0 <= player.pos_y <= SPRITE_COORD_LIMIT,
    ensures
        final(fb).wf(),
        final(fb).width == old(fb).width,
        final(fb).height == old(fb).height,
        final(fb).background == old(fb).background,
        forall|x: int, y: int|
            old(fb).in_bounds(x, y) && in_minimap_marker(
                maze_view(maze),
                block_size as int,
                window_width as int,
                *player,
                x,
                y,
            ) ==> final(fb).pixel(x, y) == (Color { r: 253, g: 249, b: 0, a: 255 }),
        forall|x: int, y: int|
            old(fb).in_bounds(x, y) && on_minimap_heading(
                maze_view(maze),
                block_size as int,
                window_width as int,
                *player,
                dir_x as int,
                dir_y as int,
                x,
                y,
            ) ==> final(fb).pixel(x, y) == (Color { r: 253, g: 249, b: 0, a: 255 }),
        forall|x: int, y: int|
            old(fb).in_bounds(x, y) && in_minimap_wall_rect(
                maze_view(maze),
                block_size as int,
                window_width as int,
                x,
                y,
            ) && !in_minimap_marker(
                maze_view(maze),
                block_size as int,
                window_width as int,
                *player,
                x,
                y,
            ) && !on_minimap_heading(
                maze_view(maze),
                block_size as int,
                window_width as int,
                *player,
                dir_x as int,
                dir_y as int,
                x,
                y,
            ) ==> final(fb).pixel(x, y) == (Color { r: 100, g: 100, b: 100, a: 180 }),
        forall|x: int, y: int|
            old(fb).in_bounds(x, y) && !in_minimap_wall_rect(
                maze_view(maze),
                block_size as int,
                window_width as int,
                x,
                y,
            ) && !in_minimap_marker(
                maze_view(maze),
                block_size as int,
                window_width as int,
                *player,
                x,
                y,
            ) && !on_minimap_heading(
                maze_view(maze),
                block_size as int,
                window_width as int,
                *player,
                dir_x as int,
                dir_y as int,
                x,
                y,
            ) ==> final(fb).pixel(x, y) == old(fb).pixel(x, y),
{
    let ghost m = maze_view(maze);
    let ghost bs = block_size as int;
    let ghost ww = window_width as int;
    let ghost gray = (Color { r: 100, g: 100, b: 100, a: 180 });
    let ghost yellow = (Color { r: 253, g: 249, b: 0, a: 255 });
    let rows = maze_rows(maze);
    let cols = maze_cols(maze, 0);
    proof {
        assert(cols * block_size <= 4096 * 65536) by (nonlinear_arith)
            requires 0 <= cols <= 4096, 0 <= block_size <= 65536;
    }
    let map_width: i64 = (((cols * block_size) as u64 * 3) / 20) as i64;
    let offset_x: i64 = window_width - map_width - 10;
    let cell_px: i64 = (((block_size as u64) * 3) / 20) as i64;
    proof {
        assert(offset_x as int == minimap_offset_x_spec(m, bs, ww));
        assert(cell_px as int == minimap_cell_px(bs));
    }
    fb.set_current_color(Color::new(100, 100, 100, 180));
    let mut j: usize = 0;
    while j < rows
        invariant
            fb.wf(),
            fb.width == old(fb).width,
            fb.height == old(fb).height,
            fb.background == old(fb).background,
            fb.current_color == gray,
            m == maze_view(maze),
            bs == block_size as int,
            ww == window_width as int,
            gray == (Color { r: 100, g: 100, b: 100, a: 180 }),
            maze_wf(m),
            1 <= block_size <= MAX_BLOCK_SIZE,
            0 <= window_width <= 100000,
            rows == m.len(),
            cols == m[0].len(),
            j <= rows,
            offset_x as int == minimap_offset_x_spec(m, bs, ww),
            0 <= cell_px,
            cell_px as int == minimap_cell_px(bs),
            -0x1000_0000 <= offset_x <= 100000,
            forall|x: int, y: int|
                old(fb).in_bounds(x, y) && in_drawn_wall_rect(m, bs, ww, j as int, 0, x, y)
                    ==> fb.pixel(x, y) == gray,
            forall|x: int, y: int|
                old(fb).in_bounds(x, y) && !in_drawn_wall_rect(m, bs, ww, j as int, 0, x, y)
                    ==> fb.pixel(x, y) == old(fb).pixel(x, y),
        decreases rows - j,
    {
        let mut i: usize = 0;
        while i < cols
            invariant
                fb.wf(),
                fb.width == old(fb).width,
                fb.height == old(fb).height,
                fb.background == old(fb).background,
                fb.current_color == gray,
                m == maze_view(maze),
                bs == block_size as int,
                ww == window_width as int,
                gray == (Color { r: 100, g: 100, b: 100, a: 180 }),
                maze_wf(m),
                1 <= block_size <= MAX_BLOCK_SIZE,
                0 <= window_width <= 100000,
                rows == m.len(),
                cols == m[0].len(),
                j < rows,
                i <= cols,
                offset_x as int == minimap_offset_x_spec(m, bs, ww),
                0 <= cell_px,
                cell_px as int == minimap_cell_px(bs),
                -0x1000_0000 <= offset_x <= 100000,
                forall|x: int, y: int|
                    old(fb).in_bounds(x, y) && in_drawn_wall_rect(m, bs, ww, j as int, i as int, x, y)
                        ==> fb.pixel(x, y) == gray,
                forall|x: int, y: int|
                    old(fb).in_bounds(x, y) && !in_drawn_wall_rect(m, bs, ww, j as int, i as int, x, y)
                        ==> fb.pixel(x, y) == old(fb).pixel(x, y),
            decreases cols - i,
        {
            let cell = cell_at(maze, j, i);
            if cell != crate::maze::OPEN_CELL {
                proof {
                    assert(i * block_size <= 4096 * 65536 && j * block_size <= 4096 * 65536)
                        by (nonlinear_arith)
                        requires
                            0 <= i <= 4096,
                            0 <= j <= 4096,
                            0 <= block_size <= 65536,
                    ;
                    lemma_div_pos_is_pos((i * block_size) as int * 3, 20);
                    lemma_div_is_ordered((i * block_size) as int * 3, 0x3000_0000, 20);
                    lemma_div_pos_is_pos((j * block_size) as int * 3, 20);
                    lemma_div_is_ordered((j * block_size) as int * 3, 0x3000_0000, 20);
                }
                let rect_x: i64 = offset_x + (((i * block_size) as u64 * 3) / 20) as i64;
                let rect_y: i64 = 10 + (((j * block_size) as u64 * 3) / 20) as i64;
                let ghost pre = *fb;
                fill_rect(fb, rect_x, rect_y, cell_px, cell_px);
                proof {
                    assert forall|x: int, y: int|
                        old(fb).in_bounds(x, y) && in_drawn_wall_rect(
                            m,
                            bs,
                            ww,
                            j as int,
                            i as int + 1,
                            x,
                            y,
                        ) implies fb.pixel(x, y) == gray by {
                        if rect_x as int <= x < rect_x as int + cell_px as int
                            && rect_y as int <= y < rect_y as int + cell_px as int {
                            assert(fb.pixel(x, y) == gray);
                        } else {
                            let (r, c) = choose|r: int, c: int|
                                #![auto]
                                0 <= r < m.len() && 0 <= c < m[0].len() && (r < j as int || (r
                                    == j as int && c < i as int + 1)) && m[r][c]
                                    != crate::maze::OPEN_CELL && minimap_offset_x_spec(m, bs, ww)
                                    + (c * bs * 3) / 20 <= x < minimap_offset_x_spec(m, bs, ww) + (
                                c * bs * 3) / 20 + minimap_cell_px(bs) && 10 + (r * bs * 3) / 20
                                    <= y < 10 + (r * bs * 3) / 20 + minimap_cell_px(bs);
                            assert(!(r == j as int && c == i as int));
                            assert(in_drawn_wall_rect(m, bs, ww, j as int, i as int, x, y));
                            assert(fb.pixel(x, y) == pre.pixel(x, y));
                        }
                    }
                    assert forall|x: int, y: int|
                        old(fb).in_bounds(x, y) && !in_drawn_wall_rect(
                            m,
                            bs,
                            ww,
                            j as int,
                            i as int + 1,
                            x,
                            y,
                        ) implies fb.pixel(x, y) == old(fb).pixel(x, y) by {
                        assert(!in_drawn_wall_rect(m, bs, ww, j as int, i as int, x, y));
                        if rect_x as int <= x < rect_x as int + cell_px as int
                            && rect_y as int <= y < rect_y as int + cell_px as int {
                            assert(in_drawn_wall_rect(m, bs, ww, j as int, i as int + 1, x, y));
                        }
                        assert(fb.pixel(x, y) == pre.pixel(x, y));
                    }
                }
            } else {
                proof {
                    assert forall|x: int, y: int|
                        old(fb).in_bounds(x, y) && in_drawn_wall_rect(
                            m,
                            bs,
                            ww,
                            j as int,
                            i as int + 1,
                            x,
                            y,
                        ) implies fb.pixel(x, y) == gray by {
                        let (r, c) = choose|r: int, c: int|
                            #![auto]
                            0 <= r < m.len() && 0 <= c < m[0].len() && (r < j as int || (r
                                == j as int && c < i as int + 1)) && m[r][c]
                                != crate::maze::OPEN_CELL && minimap_offset_x_spec(m, bs, ww) + (c
                                * bs * 3) / 20 <= x < minimap_offset_x_spec(m, bs, ww) + (c * bs
                                * 3) / 20 + minimap_cell_px(bs) && 10 + (r * bs * 3) / 20 <= y < 10
                                + (r * bs * 3) / 20 + minimap_cell_px(bs);
                        assert(!(r == j as int && c == i as int));
                        assert(in_drawn_wall_rect(m, bs, ww, j as int, i as int, x, y));
                    }
                    assert forall|x: int, y: int|
                        old(fb).in_bounds(x, y) && !in_drawn_wall_rect(
                            m,
                            bs,
                            ww,
                            j as int,
                            i as int + 1,
                            x,
                            y,
                        ) implies fb.pixel(x, y) == old(fb).pixel(x, y) by {
                        assert(!in_drawn_wall_rect(m, bs, ww, j as int, i as int, x, y));
                    }
                }
            }
            i = i + 1;
        }
        proof {
            assert forall|x: int, y: int|
                old(fb).in_bounds(x, y) && in_drawn_wall_rect(m, bs, ww, j as int + 1, 0, x, y)
                    implies fb.pixel(x, y) == gray by {
                let (r, c) = choose|r: int, c: int|
                    #![auto]
                    0 <= r < m.len() && 0 <= c < m[0].len() && (r < j as int + 1 || (r == j as int
                        + 1 && c < 0)) && m[r][c] != crate::maze::OPEN_CELL && minimap_offset_x_spec(
                        m,
                        bs,
                        ww,
                    ) + (c * bs * 3) / 20 <= x < minimap_offset_x_spec(m, bs, ww) + (c * bs * 3)
                        / 20 + minimap_cell_px(bs) && 10 + (r * bs * 3) / 20 <= y < 10 + (r * bs
                        * 3) / 20 + minimap_cell_px(bs);
                assert(in_drawn_wall_rect(m, bs, ww, j as int, cols as int, x, y));
            }
            assert forall|x: int, y: int|
                old(fb).in_bounds(x, y) && !in_drawn_wall_rect(m, bs, ww, j as int + 1, 0, x, y)
                    implies fb.pixel(x, y) == old(fb).pixel(x, y) by {
                if in_drawn_wall_rect(m, bs, ww, j as int, cols as int, x, y) {
                    let (r, c) = choose|r: int, c: int|
                        #![auto]
                        0 <= r < m.len() && 0 <= c < m[0].len() && (r < j as int || (r == j as int
                            && c < cols as int)) && m[r][c] != crate::maze::OPEN_CELL
                            && minimap_offset_x_spec(m, bs, ww) + (c * bs * 3) / 20 <= x
                            < minimap_offset_x_spec(m, bs, ww) + (c * bs * 3) / 20
                            + minimap_cell_px(bs) && 10 + (r * bs * 3) / 20 <= y < 10 + (r * bs
                            * 3) / 20 + minimap_cell_px(bs);
                    assert(in_drawn_wall_rect(m, bs, ww, j as int + 1, 0, x, y));
                }
            }
        }
        j = j + 1;
    }
    let ghost fb_rects = *fb;
    proof {
        assert forall|x: int, y: int|
            old(fb).in_bounds(x, y) && in_minimap_wall_rect(m, bs, ww, x, y) implies fb_rects.pixel(
            x,
            y,
        ) == gray by {
            let (r, c) = choose|r: int, c: int|
                #![auto]
                0 <= r < m.len() && 0 <= c < m[0].len() && m[r][c] != crate::maze::OPEN_CELL
                    && minimap_offset_x_spec(m, bs, ww) + (c * bs * 3) / 20 <= x
                    < minimap_offset_x_spec(m, bs, ww) + (c * bs * 3) / 20 + minimap_cell_px(bs)
                    && 10 + (r * bs * 3) / 20 <= y < 10 + (r * bs * 3) / 20 + minimap_cell_px(bs);
            assert(in_drawn_wall_rect(m, bs, ww, rows as int, 0, x, y));
        }
        assert forall|x: int, y: int|
            old(fb).in_bounds(x, y) && !in_minimap_wall_rect(m, bs, ww, x, y) implies fb_rects.pixel(
            x,
            y,
        ) == old(fb).pixel(x, y) by {
            if in_drawn_wall_rect(m, bs, ww, rows as int, 0, x, y) {
                let (r, c) = choose|r: int, c: int|
                    #![auto]
                    0 <= r < m.len() && 0 <= c < m[0].len() && (r < rows as int || (r
                        == rows as int && c < 0)) && m[r][c] != crate::maze::OPEN_CELL
                        && minimap_offset_x_spec(m, bs, ww) + (c * bs * 3) / 20 <= x
                        < minimap_offset_x_spec(m, bs, ww) + (c * bs * 3) / 20 + minimap_cell_px(
                        bs,
                    ) && 10 + (r * bs * 3) / 20 <= y < 10 + (r * bs * 3) / 20 + minimap_cell_px(
                        bs,
                    );
                assert(in_minimap_wall_rect(m, bs, ww, x, y));
            }
        }
        lemma_div_pos_is_pos((player.pos_x as int / (FP_ONE as int)) * 3, 20);
        lemma_div_is_ordered((player.pos_x as int / (FP_ONE as int)) * 3, 0x300_0000, 20);
        lemma_div_pos_is_pos((player.pos_y as int / (FP_ONE as int)) * 3, 20);
        lemma_div_is_ordered((player.pos_y as int / (FP_ONE as int)) * 3, 0x300_0000, 20);
        lemma_div_pos_is_pos(player.pos_x as int, FP_ONE as int);
        lemma_div_is_ordered(player.pos_x as int, SPRITE_COORD_LIMIT as int, FP_ONE as int);
        lemma_div_pos_is_pos(player.pos_y as int, FP_ONE as int);
        lemma_div_is_ordered(player.pos_y as int, SPRITE_COORD_LIMIT as int, FP_ONE as int);
    }
    let player_map_x: i64 = offset_x + ((((player.pos_x as u64) / (FP_ONE as u64)) * 3)
        / 20) as i64;
    let player_map_y: i64 = 10 + ((((player.pos_y as u64) / (FP_ONE as u64)) * 3) / 20) as i64;
    proof {
        assert(player_map_x as int == minimap_player_x_spec(m, bs, ww, *player));
        assert(player_map_y as int == minimap_player_y_spec(*player));
    }
    fb.set_current_color(Color::new(253, 249, 0, 255));
    let ghost fb_mark_pre = *fb;
    fill_rect(fb, player_map_x - 2, player_map_y - 2, 5, 5);
    let ghost fb_mark = *fb;
    proof {
        assert forall|x: int, y: int|
            old(fb).in_bounds(x, y) && in_minimap_marker(m, bs, ww, *player, x, y) implies fb_mark.pixel(
            x,
            y,
        ) == yellow by {
            assert(fb_mark.pixel(x, y) == fb_mark_pre.current_color);
        }
    }
    let mut s: i64 = 0;
    while s < 15
        invariant
            fb.wf(),
            fb.width == old(fb).width,
            fb.height == old(fb).height,
            fb.background == old(fb).background,
            fb.current_color == yellow,
            m == maze_view(maze),
            bs == block_size as int,
            ww == window_width as int,
            gray == (Color { r: 100, g: 100, b: 100, a: 180 }),
            yellow == (Color { r: 253, g: 249, b: 0, a: 255 }),
            maze_wf(m),
            0 <= s <= 15,
            -FP_ONE <= dir_x <= FP_ONE,
            -FP_ONE <= dir_y <= FP_ONE,
            player_map_x as int == minimap_player_x_spec(m, bs, ww, *player),
            player_map_y as int == minimap_player_y_spec(*player),
            -0x2000_0000 <= player_map_x <= 0x2000_0000,
            -0x2000_0000 <= player_map_y <= 0x2000_0000,
            forall|x: int, y: int|
                old(fb).in_bounds(x, y) && in_minimap_marker(m, bs, ww, *player, x, y) ==> fb.pixel(
                    x,
                    y,
                ) == yellow,
            forall|x: int, y: int|
                old(fb).in_bounds(x, y) && on_minimap_heading_upto(
                    m,
                    bs,
                    ww,
                    *player,
                    dir_x as int,
                    dir_y as int,
                    s as int,
                    x,
                    y,
                ) ==> fb.pixel(x, y) == yellow,
            forall|x: int, y: int|
                old(fb).in_bounds(x, y) && in_minimap_wall_rect(m, bs, ww, x, y)
                    && !in_minimap_marker(m, bs, ww, *player, x, y) && !on_minimap_heading(
                    m,
                    bs,
                    ww,
                    *player,
                    dir_x as int,
                    dir_y as int,
                    x,
                    y,
                ) ==> fb.pixel(x, y) == gray,
            forall|x: int, y: int|
                old(fb).in_bounds(x, y) && !in_minimap_wall_rect(m, bs, ww, x, y)
                    && !in_minimap_marker(m, bs, ww, *player, x, y) && !on_minimap_heading(
                    m,
                    bs,
                    ww,
                    *player,
                    dir_x as int,
                    dir_y as int,
                    x,
                    y,
                ) ==> fb.pixel(x, y) == old(fb).pixel(x, y),
        decreases 15 - s,
    {
        let step_x: i64 = if dir_x >= 0 {
            proof {
                assert(0 <= s as int * (dir_x as int) <= 16384) by (nonlinear_arith)
                    requires 0 <= s as int <= 15, 0 <= dir_x as int <= 1024;
            }
            (((s * dir_x) as u64) / (FP_ONE as u64)) as i64
        } else {
            proof {
                assert(0 <= s as int * (-dir_x as int) <= 16384) by (nonlinear_arith)
                    requires 0 <= s as int <= 15, 0 <= -dir_x as int <= 1024;
            }
            -((((s * -dir_x) as u64) / (FP_ONE as u64)) as i64)
        };
        let step_y: i64 = if dir_y >= 0 {
            proof {
                assert(0 <= s as int * (dir_y as int) <= 16384) by (nonlinear_arith)
                    requires 0 <= s as int <= 15, 0 <= dir_y as int <= 1024;
            }
            (((s * dir_y) as u64) / (FP_ONE as u64)) as i64
        } else {
            proof {
                assert(0 <= s as int * (-dir_y as int) <= 16384) by (nonlinear_arith)
                    requires 0 <= s as int <= 15, 0 <= -dir_y as int <= 1024;
            }
            -((((s * -dir_y) as u64) / (FP_ONE as u64)) as i64)
        };
        proof {
            assert(step_x as int == line_step(s as int, dir_x as int));
            assert(step_y as int == line_step(s as int, dir_y as int));
        }
        let lx: i64 = player_map_x + step_x;
        let ly: i64 = player_map_y + step_y;
        let ghost before = *fb;
        fb.set_pixel(lx, ly);
        proof {
            assert(on_minimap_heading(
                m,
                bs,
                ww,
                *player,
                dir_x as int,
                dir_y as int,
                lx as int,
                ly as int,
            ));
            assert forall|x: int, y: int|
                old(fb).in_bounds(x, y) && !(x == lx as int && y == ly as int) implies fb.pixel(
                x,
                y,
            ) == before.pixel(x, y) by {
                before.lemma_index_in_range(x, y);
                if before.in_bounds(lx as int, ly as int) {
                    before.lemma_index_in_range(lx as int, ly as int);
                    if before.pixel_index(x, y) == before.pixel_index(lx as int, ly as int) {
                        before.lemma_index_injective(x, y, lx as int, ly as int);
                    }
                }
            }
            if before.in_bounds(lx as int, ly as int) {
                before.lemma_index_in_range(lx as int, ly as int);
                assert(fb.pixel(lx as int, ly as int) == yellow);
            }
            assert forall|x: int, y: int|
                old(fb).in_bounds(x, y) && on_minimap_heading_upto(
                    m,
                    bs,
                    ww,
                    *player,
                    dir_x as int,
                    dir_y as int,
                    s as int + 1,
                    x,
                    y,
                ) implies fb.pixel(x, y) == yellow by {
                let sw = choose|ss: int|
                    #![auto]
                    0 <= ss < s as int + 1 && x == minimap_player_x_spec(m, bs, ww, *player)
                        + line_step(ss, dir_x as int) && y == minimap_player_y_spec(*player)
                        + line_step(ss, dir_y as int);
                if sw == s as int {
                    assert(x == lx as int && y == ly as int);
                } else {
                    assert(on_minimap_heading_upto(
                        m,
                        bs,
                        ww,
                        *player,
                        dir_x as int,
                        dir_y as int,
                        s as int,
                        x,
                        y,
                    ));
                    assert(fb.pixel(x, y) == before.pixel(x, y));
                }
            }
        }
        s = s + 1;
    }
    proof {
        assert forall|x: int, y: int|
            old(fb).in_bounds(x, y) && on_minimap_heading(
                m,
                bs,
                ww,
                *player,
                dir_x as int,
                dir_y as int,
                x,
                y,
            ) implies fb.pixel(x, y) == yellow by {
            assert(on_minimap_heading_upto(m, bs, ww, *player, dir_x as int, dir_y as int, 15, x, y));
        }
    }
}

} // verus!
