use raycaster::framebuffer::{Color, Framebuffer, Texture, TextureSet, TEX_SIZE};
use raycaster::maze::Maze;
use raycaster::player::Player;
use raycaster::enemy::{Enemy, TurnPreference};
use raycaster::projector::{
    draw_cell, draw_generic_sprite, render_3d, render_enemies, render_floor, render_maze,
    render_minimap, render_wall_column, ColumnRay,
};

fn fp(world: i64) -> i64 {
    world * 1024
}

fn maze_from(rows: &[&str]) -> Maze {
    rows.iter().map(|r| r.chars().collect()).collect()
}

fn solid_texture(key: char, color: Color) -> Texture {
    let mut pixels = Vec::new();
    for _ in 0..TEX_SIZE * TEX_SIZE {
        pixels.push(color);
    }
    Texture { key, pixels }
}

fn white_set() -> TextureSet {
    TextureSet {
        textures: vec![solid_texture('#', Color::new(255, 255, 255, 255))],
        fallback: Color::new(90, 90, 90, 255),
        transparent: Color::new(0, 0, 0, 0),
    }
}

#[test]
fn framebuffer_starts_as_background() {
    let fb = Framebuffer::new(8, 4, Color::new(1, 2, 3, 4));
    for x in 0..8 {
        for y in 0..4 {
            assert_eq!(fb.get_pixel(x, y), Color::new(1, 2, 3, 4));
        }
    }
}

#[test]
fn set_pixel_writes_current_color_in_bounds_only() {
    let mut fb = Framebuffer::new(8, 4, Color::new(0, 0, 0, 255));
    fb.set_current_color(Color::new(9, 8, 7, 255));
    fb.set_pixel(3, 2);
    fb.set_pixel(-1, 0);
    fb.set_pixel(8, 0);
    fb.set_pixel(0, 4);
    assert_eq!(fb.get_pixel(3, 2), Color::new(9, 8, 7, 255));
    assert_eq!(fb.get_pixel(0, 0), Color::new(0, 0, 0, 255));
    assert_eq!(fb.get_pixel(7, 3), Color::new(0, 0, 0, 255));
}

#[test]
fn clear_restores_background() {
    let mut fb = Framebuffer::new(4, 4, Color::new(5, 5, 5, 255));
    fb.set_current_color(Color::new(200, 0, 0, 255));
    fb.set_pixel(1, 1);
    fb.clear();
    for x in 0..4 {
        for y in 0..4 {
            assert_eq!(fb.get_pixel(x, y), Color::new(5, 5, 5, 255));
        }
    }
}

#[test]
fn texture_lookup_first_match_and_fallback() {
    let ts = TextureSet {
        textures: vec![
            solid_texture('a', Color::new(10, 0, 0, 255)),
            solid_texture('a', Color::new(20, 0, 0, 255)),
            solid_texture('b', Color::new(30, 0, 0, 255)),
        ],
        fallback: Color::new(90, 91, 92, 255),
        transparent: Color::new(0, 0, 0, 0),
    };
    assert_eq!(ts.get_pixel_color('a', 0, 0), Color::new(10, 0, 0, 255));
    assert_eq!(ts.get_pixel_color('b', 127, 127), Color::new(30, 0, 0, 255));
    assert_eq!(ts.get_pixel_color('z', 5, 5), Color::new(90, 91, 92, 255));
    // Out-of-range texel coordinates clamp onto the texture.
    assert_eq!(ts.get_pixel_color('b', 500, 9000), Color::new(30, 0, 0, 255));
}

#[test]
fn wall_column_writes_expected_stake() {
    let mut fb = Framebuffer::new(40, 30, Color::new(0, 0, 0, 255));
    let ts = white_set();
    // Corrected distance of 100 world units: the stake spans rows 8..22.
    render_wall_column(&mut fb, &ts, 20, '#', 5, fp(100), 600);
    // At the optical center the falloff is 1, the fade is 922/1024, the
    // squared falloff 1024/1024: channel 255 scales to 229.
    assert_eq!(fb.get_pixel(20, 15), Color::new(229, 229, 229, 255));
    // Rows outside the stake and other columns are untouched.
    assert_eq!(fb.get_pixel(20, 7), Color::new(0, 0, 0, 255));
    assert_eq!(fb.get_pixel(20, 22), Color::new(0, 0, 0, 255));
    assert_eq!(fb.get_pixel(19, 15), Color::new(0, 0, 0, 255));
    // The stake's first row is drawn.
    assert_ne!(fb.get_pixel(20, 8), Color::new(0, 0, 0, 255));
}

#[test]
fn floor_lights_lower_half_only() {
    let floor = Color::new(51, 25, 0, 255);
    let mut fb = Framebuffer::new(8, 6, Color::new(7, 7, 7, 255));
    render_floor(&mut fb, floor, 600);
    // The optical center (4, 3) keeps the full floor color (falloff 1).
    assert_eq!(fb.get_pixel(4, 3), floor);
    // The upper half stays background.
    assert_eq!(fb.get_pixel(4, 2), Color::new(7, 7, 7, 255));
    assert_eq!(fb.get_pixel(0, 0), Color::new(7, 7, 7, 255));
    // A lower-half pixel away from the center is dimmed, not black.
    let c = fb.get_pixel(0, 5);
    assert!(c.r < 51 && c.r > 0);
}

#[test]
fn sprite_behind_player_is_culled() {
    // A sprite directly behind the player (angular offset of half a turn)
    // must leave the buffer untouched, whatever its distance.
    let mut fb = Framebuffer::new(40, 30, Color::new(0, 0, 0, 255));
    let ts = white_set();
    let player = Player { pos_x: fp(200), pos_y: fp(200), a: 0, fov: 1072 };
    // Sprite west of the player while facing east: angle is pi.
    draw_generic_sprite(&mut fb, &player, fp(100), fp(200), 3217, '#', &ts, 600);
    for x in 0..40 {
        for y in 0..30 {
            assert_eq!(fb.get_pixel(x, y), Color::new(0, 0, 0, 255));
        }
    }
}

#[test]
fn sprite_outside_band_is_culled() {
    let mut fb = Framebuffer::new(40, 30, Color::new(0, 0, 0, 255));
    let ts = white_set();
    let player = Player { pos_x: fp(200), pos_y: fp(200), a: 0, fov: 1072 };
    // Ahead but too near (10 world units).
    draw_generic_sprite(&mut fb, &player, fp(210), fp(200), 0, '#', &ts, 600);
    // Ahead but too far (500 world units).
    draw_generic_sprite(&mut fb, &player, fp(700), fp(200), 0, '#', &ts, 600);
    for x in 0..40 {
        for y in 0..30 {
            assert_eq!(fb.get_pixel(x, y), Color::new(0, 0, 0, 255));
        }
    }
}

#[test]
fn sprite_ahead_draws_footprint() {
    let mut fb = Framebuffer::new(40, 30, Color::new(0, 0, 0, 255));
    let ts = white_set();
    let player = Player { pos_x: fp(200), pos_y: fp(200), a: 0, fov: 1072 };
    // 100 world units ahead: footprint size 21, columns 10..31, rows 5..26.
    draw_generic_sprite(&mut fb, &player, fp(300), fp(200), 0, '#', &ts, 600);
    // Top-left footprint texel: screen distance floor(sqrt(200)) = 14 from
    // the center, falloff 1000/1024, squared 976/1024, fade 922/1024.
    assert_eq!(fb.get_pixel(10, 5), Color::new(218, 218, 218, 255));
    // Outside the footprint nothing changes.
    assert_eq!(fb.get_pixel(9, 5), Color::new(0, 0, 0, 255));
    assert_eq!(fb.get_pixel(10, 4), Color::new(0, 0, 0, 255));
    assert_eq!(fb.get_pixel(31, 26), Color::new(0, 0, 0, 255));
}

#[test]
fn render_enemies_draws_each_sprite() {
    // One enemy ahead of the player paints exactly the billboard its own
    // sprite draw would: the same footprint, the same shaded texels.
    let mut fb = Framebuffer::new(40, 30, Color::new(0, 0, 0, 255));
    let ts = TextureSet {
        textures: vec![solid_texture('e', Color::new(255, 255, 255, 255))],
        fallback: Color::new(90, 90, 90, 255),
        transparent: Color::new(0, 0, 0, 0),
    };
    let player = Player { pos_x: fp(200), pos_y: fp(200), a: 0, fov: 1072 };
    let group = vec![Enemy::new(fp(300), fp(200), TurnPreference::Right, 200)];
    let angles = vec![0i64];
    render_enemies(&mut fb, &player, &group, &angles, &ts, 600);
    assert_eq!(fb.get_pixel(10, 5), Color::new(218, 218, 218, 255));
    assert_eq!(fb.get_pixel(9, 5), Color::new(0, 0, 0, 255));
    assert_eq!(fb.get_pixel(31, 26), Color::new(0, 0, 0, 255));
}

#[test]
fn sprite_transparent_texels_are_skipped() {
    let mut fb = Framebuffer::new(40, 30, Color::new(3, 3, 3, 255));
    let ts = TextureSet {
        textures: vec![solid_texture('s', Color::new(0, 0, 0, 0))],
        fallback: Color::new(90, 90, 90, 255),
        transparent: Color::new(0, 0, 0, 0),
    };
    let player = Player { pos_x: fp(200), pos_y: fp(200), a: 0, fov: 1072 };
    draw_generic_sprite(&mut fb, &player, fp(300), fp(200), 0, 's', &ts, 600);
    for x in 0..40 {
        for y in 0..30 {
            assert_eq!(fb.get_pixel(x, y), Color::new(3, 3, 3, 255));
        }
    }
}

#[test]
fn draw_cell_fills_solid_square_only() {
    let mut fb = Framebuffer::new(10, 10, Color::new(0, 0, 0, 255));
    draw_cell(&mut fb, 2, 3, 4, 'w');
    assert_eq!(fb.get_pixel(2, 3), Color::new(230, 41, 55, 255));
    assert_eq!(fb.get_pixel(5, 6), Color::new(230, 41, 55, 255));
    assert_eq!(fb.get_pixel(1, 3), Color::new(0, 0, 0, 255));
    assert_eq!(fb.get_pixel(6, 6), Color::new(0, 0, 0, 255));
    let mut fb2 = Framebuffer::new(10, 10, Color::new(0, 0, 0, 255));
    draw_cell(&mut fb2, 2, 3, 4, ' ');
    assert_eq!(fb2.get_pixel(3, 4), Color::new(0, 0, 0, 255));
}

#[test]
fn render_3d_draws_centered_wall() {
    let maze = maze_from(&["###", "# #", "###"]);
    let mut fb = Framebuffer::new(4, 30, Color::new(0, 0, 0, 255));
    let player = Player { pos_x: fp(150), pos_y: fp(150), a: 0, fov: 1072 };
    let rays = vec![ColumnRay { dir_x: 1024, dir_y: 0, cos_diff: 1024 }; 4];
    render_3d(&mut fb, &maze, 100, &player, &rays, &white_set(), 600);
    assert_eq!(fb.width, 4);
    assert_eq!(fb.height, 30);
    // Each ray hits the east wall at 50 world units; the stake covers the
    // whole column. At the optical center (2, 15): falloff 1, fade
    // (1024 - 51)/1024.
    assert_eq!(fb.get_pixel(2, 15), Color::new(242, 242, 242, 255));
    assert_ne!(fb.get_pixel(0, 0), Color::new(0, 0, 0, 255));
}

#[test]
fn render_maze_overlay_smoke() {
    let maze = maze_from(&["###", "# #", "###"]);
    let mut fb = Framebuffer::new(400, 400, Color::new(0, 0, 0, 255));
    let player = Player { pos_x: fp(150), pos_y: fp(150), a: 0, fov: 1072 };
    let rays = vec![ColumnRay { dir_x: 1024, dir_y: 0, cos_diff: 1024 }; 4];
    render_maze(&mut fb, &maze, 100, &player, &rays);
    // A boundary cell square is red.
    assert_eq!(fb.get_pixel(10, 10), Color::new(230, 41, 55, 255));
    // The open center cell keeps the background away from the traced ray.
    assert_eq!(fb.get_pixel(110, 120), Color::new(0, 0, 0, 255));
    // The player's dot is white.
    assert_eq!(fb.get_pixel(150, 150), Color::new(255, 255, 255, 255));
    // The traced ray paints the corridor east of the player.
    assert_eq!(fb.get_pixel(180, 150), Color::new(255, 255, 255, 255));
}

#[test]
fn render_minimap_smoke() {
    let maze = maze_from(&["###", "# #", "###"]);
    let mut fb = Framebuffer::new(200, 200, Color::new(0, 0, 0, 255));
    let player = Player { pos_x: fp(150), pos_y: fp(150), a: 0, fov: 1072 };
    render_minimap(&mut fb, &maze, &player, 100, 200, 1024, 0);
    assert_eq!(fb.width, 200);
    assert_eq!(fb.height, 200);
    // The top-left minimap cell (a wall) is gray: the map is 45 px wide,
    // offset 200 - 45 - 10 = 145 from the left, 10 from the top.
    assert_eq!(fb.get_pixel(146, 11), Color::new(100, 100, 100, 180));
    // The player marker is yellow at the scaled player position.
    assert_eq!(fb.get_pixel(145 + 22, 10 + 22), Color::new(253, 249, 0, 255));
}
