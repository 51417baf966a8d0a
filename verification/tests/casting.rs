use raycaster::caster::cast_ray;
use raycaster::framebuffer::{Color, Framebuffer};
use raycaster::maze::{validate_maze, Maze};
use raycaster::player::Player;

fn fp(world: i64) -> i64 {
    world * 1024
}

fn maze_from(rows: &[&str]) -> Maze {
    rows.iter().map(|r| r.chars().collect()).collect()
}

fn small_fb() -> Framebuffer {
    Framebuffer::new(16, 16, Color::new(0, 0, 0, 255))
}

fn test_player(x: i64, y: i64) -> Player {
    Player { pos_x: x, pos_y: y, a: 0, fov: 1072 }
}

#[test]
fn corridor_ray_hits_far_wall() {
    // A straight corridor five cells long; the player stands at the start,
    // one world unit into the first open cell, facing down the corridor.
    let maze = maze_from(&["#######", "#     #", "#######"]);
    assert!(validate_maze(&maze));
    let mut fb = small_fb();
    let player = test_player(fp(101), fp(150));
    let hit = cast_ray(&mut fb, &maze, &player, 1024, 0, 100, false);
    // The far wall begins at world x = 600; the ray reaches it after 499
    // unit steps, five cell sizes from the corridor start within one step.
    assert_eq!(hit.distance, fp(499));
    assert_eq!(hit.impact, '#');
    assert_eq!(hit.tx, 0);
}

#[test]
fn ray_from_open_cell_returns_solid_impact() {
    let maze = maze_from(&["#####", "#   #", "# # #", "#   #", "#####"]);
    assert!(validate_maze(&maze));
    let mut fb = small_fb();
    let player = test_player(fp(150), fp(150));
    // A diagonal direction: both components under one cell per step.
    let hit = cast_ray(&mut fb, &maze, &player, 724, 724, 100, false);
    assert!(hit.distance >= 0);
    assert_ne!(hit.impact, ' ');
    assert!(hit.tx < 128);
}

#[test]
fn texture_column_in_range_for_many_directions() {
    let maze = maze_from(&["#####", "#   #", "#   #", "#   #", "#####"]);
    let mut fb = small_fb();
    let player = test_player(fp(250), fp(250));
    let dirs = [
        (1024i64, 0i64),
        (-1024, 0),
        (0, 1024),
        (0, -1024),
        (724, 724),
        (-724, 724),
        (900, -500),
        (-333, -999),
        (1, 1024),
        (1024, 1),
    ];
    for &(dx, dy) in dirs.iter() {
        let hit = cast_ray(&mut fb, &maze, &player, dx, dy, 100, false);
        assert!(hit.tx < 128);
        assert_ne!(hit.impact, ' ');
        assert!(hit.distance >= 0);
    }
}

#[test]
fn symmetric_room_rays_equal() {
    // A player centered in a one-cell room: the four axis rays travel the
    // same distance, half the cell width.
    let maze = maze_from(&["###", "# #", "###"]);
    assert!(validate_maze(&maze));
    let mut fb = small_fb();
    let player = test_player(fp(150), fp(150));
    let east = cast_ray(&mut fb, &maze, &player, 1024, 0, 100, false);
    let south = cast_ray(&mut fb, &maze, &player, 0, 1024, 100, false);
    let west = cast_ray(&mut fb, &maze, &player, -1024, 0, 100, false);
    let north = cast_ray(&mut fb, &maze, &player, 0, -1024, 100, false);
    // All four distances are the room's half-width, within the one-step
    // tolerance: cells close on their low edge, so the west and north rays
    // take one extra unit step before their grid index changes.
    assert_eq!(east.distance, fp(50));
    assert_eq!(south.distance, fp(50));
    assert_eq!(west.distance, fp(51));
    assert_eq!(north.distance, fp(51));
    assert!((west.distance - east.distance).abs() <= 1024);
    assert!((north.distance - south.distance).abs() <= 1024);
}

#[test]
fn trace_draws_only_when_asked() {
    let maze = maze_from(&["###", "# #", "###"]);
    let mut fb = Framebuffer::new(4, 4, Color::new(9, 9, 9, 255));
    let player = test_player(fp(150), fp(150));
    cast_ray(&mut fb, &maze, &player, 1024, 0, 100, false);
    for x in 0..4 {
        for y in 0..4 {
            assert_eq!(fb.get_pixel(x, y), Color::new(9, 9, 9, 255));
        }
    }
}

#[test]
fn impact_identifies_wall_kind() {
    // Different wall characters on each side of the room.
    let maze = maze_from(&["aba", "c e", "fgh"]);
    let mut fb = small_fb();
    let player = test_player(fp(150), fp(150));
    let east = cast_ray(&mut fb, &maze, &player, 1024, 0, 100, false);
    assert_eq!(east.impact, 'e');
    let west = cast_ray(&mut fb, &maze, &player, -1024, 0, 100, false);
    assert_eq!(west.impact, 'c');
    let south = cast_ray(&mut fb, &maze, &player, 0, 1024, 100, false);
    assert_eq!(south.impact, 'g');
    let north = cast_ray(&mut fb, &maze, &player, 0, -1024, 100, false);
    assert_eq!(north.impact, 'b');
}

#[test]
fn solid_origin_hits_immediately() {
    // A ray whose origin already stands in a solid cell (which a validated
    // maze never produces by construction) returns at once: distance zero,
    // impact the origin cell's own character.
    let maze = maze_from(&["###", "#w#", "###"]);
    let mut fb = small_fb();
    let player = test_player(fp(150), fp(150));
    let hit = cast_ray(&mut fb, &maze, &player, 1024, 0, 100, false);
    assert_eq!(hit.distance, 0);
    assert_eq!(hit.impact, 'w');
    assert!(hit.tx < 128);
}

#[test]
fn trace_paints_traversed_points() {
    let maze = maze_from(&["###", "# #", "###"]);
    let mut fb = Framebuffer::new(256, 256, Color::new(0, 0, 0, 255));
    let player = test_player(fp(150), fp(150));
    cast_ray(&mut fb, &maze, &player, 1024, 0, 100, true);
    // The fifty open steps east of the player are plotted in white; the
    // impact cell itself and everything off the path are untouched.
    assert_eq!(fb.get_pixel(150, 150), Color::new(255, 255, 255, 255));
    assert_eq!(fb.get_pixel(160, 150), Color::new(255, 255, 255, 255));
    assert_eq!(fb.get_pixel(199, 150), Color::new(255, 255, 255, 255));
    assert_eq!(fb.get_pixel(200, 150), Color::new(0, 0, 0, 255));
    assert_eq!(fb.get_pixel(90, 150), Color::new(0, 0, 0, 255));
    assert_eq!(fb.get_pixel(160, 151), Color::new(0, 0, 0, 255));
}

#[test]
fn validate_maze_accepts_enclosed() {
    let maze = maze_from(&["###", "# #", "###"]);
    assert!(validate_maze(&maze));
}

#[test]
fn validate_maze_rejects_open_boundary() {
    let maze = maze_from(&["###", "#  ", "###"]);
    assert!(!validate_maze(&maze));
    let maze2 = maze_from(&["# #", "# #", "###"]);
    assert!(!validate_maze(&maze2));
}

#[test]
fn validate_maze_rejects_ragged_rows() {
    let maze = maze_from(&["####", "# #", "####"]);
    assert!(!validate_maze(&maze));
}

#[test]
fn validate_maze_rejects_degenerate() {
    let maze = maze_from(&["##", "##"]);
    assert!(!validate_maze(&maze));
    let empty: Maze = Vec::new();
    assert!(!validate_maze(&empty));
}
