use raycaster::enemy::{Enemy, TurnPreference};
use raycaster::maze::Maze;
use raycaster::player::{
    check_enemy_collision, process_events, process_pickups, Collectable, InputSnapshot, Player,
};

fn fp(world: i64) -> i64 {
    world * 1024
}

fn maze_from(rows: &[&str]) -> Maze {
    rows.iter().map(|r| r.chars().collect()).collect()
}

fn idle_input() -> InputSnapshot {
    InputSnapshot { rotation_delta: 0, dir_x: 1024, dir_y: 0, move_forward: false, move_backward: false }
}

#[test]
fn forward_step_lands_in_open_cell() {
    let maze = maze_from(&["#######", "#     #", "#######"]);
    let mut p = Player { pos_x: fp(150), pos_y: fp(150), a: 0, fov: 1072 };
    let mut input = idle_input();
    input.move_forward = true;
    let won = process_events(&mut p, &maze, 100, &input, false);
    assert!(!won);
    // One step of eight world units along the heading.
    assert_eq!(p.pos_x, fp(150) + 8 * 1024);
    assert_eq!(p.pos_y, fp(150));
}

#[test]
fn step_into_wall_is_refused() {
    let maze = maze_from(&["###", "# #", "###"]);
    let mut p = Player { pos_x: fp(195), pos_y: fp(150), a: 0, fov: 1072 };
    let mut input = idle_input();
    input.move_forward = true;
    let won = process_events(&mut p, &maze, 100, &input, false);
    assert!(!won);
    assert_eq!(p.pos_x, fp(195));
    assert_eq!(p.pos_y, fp(150));
}

#[test]
fn backward_subtracts_step() {
    let maze = maze_from(&["#######", "#     #", "#######"]);
    let mut p = Player { pos_x: fp(250), pos_y: fp(150), a: 0, fov: 1072 };
    let mut input = idle_input();
    input.move_backward = true;
    process_events(&mut p, &maze, 100, &input, false);
    assert_eq!(p.pos_x, fp(250) - 8 * 1024);
}

#[test]
fn both_keys_cancel_out() {
    let maze = maze_from(&["#######", "#     #", "#######"]);
    let mut p = Player { pos_x: fp(250), pos_y: fp(150), a: 0, fov: 1072 };
    let mut input = idle_input();
    input.move_forward = true;
    input.move_backward = true;
    process_events(&mut p, &maze, 100, &input, false);
    assert_eq!(p.pos_x, fp(250));
}

#[test]
fn rotation_accumulates() {
    let maze = maze_from(&["###", "# #", "###"]);
    let mut p = Player { pos_x: fp(150), pos_y: fp(150), a: 100, fov: 1072 };
    let mut input = idle_input();
    input.rotation_delta = -250;
    process_events(&mut p, &maze, 100, &input, false);
    assert_eq!(p.a, -150);
    assert_eq!(p.fov, 1072);
}

#[test]
fn unlocked_goal_wins_without_moving() {
    let maze = maze_from(&["#####", "#  g#", "#####"]);
    let mut p = Player { pos_x: fp(295), pos_y: fp(150), a: 0, fov: 1072 };
    let mut input = idle_input();
    input.move_forward = true;
    let won = process_events(&mut p, &maze, 100, &input, true);
    assert!(won);
    assert_eq!(p.pos_x, fp(295));
}

#[test]
fn locked_goal_blocks_like_a_wall() {
    let maze = maze_from(&["#####", "#  g#", "#####"]);
    let mut p = Player { pos_x: fp(295), pos_y: fp(150), a: 0, fov: 1072 };
    let mut input = idle_input();
    input.move_forward = true;
    let won = process_events(&mut p, &maze, 100, &input, false);
    assert!(!won);
    assert_eq!(p.pos_x, fp(295));
}

#[test]
fn pickups_collect_within_radius_once() {
    let p = Player { pos_x: fp(100), pos_y: fp(100), a: 0, fov: 1072 };
    let mut items = vec![
        Collectable::new(fp(130), fp(100), 'h'),
        Collectable::new(fp(135), fp(100), 'c'),
        Collectable::new(fp(134), fp(100), 'h'),
        Collectable::new(fp(500), fp(500), 'c'),
    ];
    let mut score: u32 = 5;
    process_pickups(&p, &mut items, &mut score);
    // Two items lie strictly within 35 world units; the one at exactly 35
    // stays, as does the distant one.
    assert_eq!(score, 7);
    assert_eq!(items.len(), 2);
    assert_eq!(items[0].pos_x, fp(135));
    assert_eq!(items[0].texture_key, 'c');
    assert_eq!(items[1].pos_x, fp(500));
    // A second pass over the survivors picks up nothing: an item is never
    // counted twice.
    process_pickups(&p, &mut items, &mut score);
    assert_eq!(score, 7);
    assert_eq!(items.len(), 2);
}

#[test]
fn pickups_empty_set() {
    let p = Player { pos_x: 0, pos_y: 0, a: 0, fov: 1072 };
    let mut items: Vec<Collectable> = Vec::new();
    let mut score: u32 = 0;
    process_pickups(&p, &mut items, &mut score);
    assert_eq!(score, 0);
    assert!(items.is_empty());
}

#[test]
fn collision_strictly_inside_radius() {
    let p = Player { pos_x: fp(100), pos_y: fp(100), a: 0, fov: 1072 };
    let near = vec![Enemy::new(fp(124), fp(100), TurnPreference::Right, 200)];
    assert!(check_enemy_collision(&p, &near));
    let boundary = vec![Enemy::new(fp(125), fp(100), TurnPreference::Right, 200)];
    assert!(!check_enemy_collision(&p, &boundary));
    let none: Vec<Enemy> = Vec::new();
    assert!(!check_enemy_collision(&p, &none));
}
