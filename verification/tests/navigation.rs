use raycaster::enemy::{
    choose_heading, update_enemies, Enemy, Heading, TurnPreference, ANIM_INTERVAL_FP,
};
use raycaster::maze::{cell_at, validate_maze, Maze};

fn fp(world: i64) -> i64 {
    world * 1024
}

fn maze_from(rows: &[&str]) -> Maze {
    rows.iter().map(|r| r.chars().collect()).collect()
}

fn junction_maze() -> Maze {
    maze_from(&["#####", "## ##", "#   #", "## ##", "#####"])
}

#[test]
fn junction_prefers_right_over_straight() {
    // A four-way junction with every neighbor open: a prefer-right enemy
    // must take the right-hand turn, not straight ahead and not left.
    let maze = junction_maze();
    assert!(validate_maze(&maze));
    let h = choose_heading(&maze, 2, 2, Heading::East, TurnPreference::Right);
    assert_eq!(h, Heading::South);
    assert_ne!(h, Heading::East);
    assert_ne!(h, Heading::North);
}

#[test]
fn junction_prefers_left_symmetrically() {
    let maze = junction_maze();
    let h = choose_heading(&maze, 2, 2, Heading::East, TurnPreference::Left);
    assert_eq!(h, Heading::North);
}

#[test]
fn corridor_goes_straight() {
    // In a corridor the preferred turn is blocked, so straight ahead wins.
    let maze = maze_from(&["#####", "#   #", "#####"]);
    let h = choose_heading(&maze, 1, 2, Heading::East, TurnPreference::Right);
    assert_eq!(h, Heading::East);
}

#[test]
fn single_exit_taken_regardless_of_preference() {
    // Exactly one neighbor is open — the left turn — and a prefer-right
    // enemy still takes it.
    let maze = maze_from(&["#####", "### #", "## ##", "#####"]);
    let h = choose_heading(&maze, 2, 3, Heading::East, TurnPreference::Right);
    assert_eq!(h, Heading::North);
}

#[test]
fn dead_end_reverses() {
    let maze = maze_from(&["#####", "# ###", "#####"]);
    let h = choose_heading(&maze, 1, 1, Heading::West, TurnPreference::Right);
    assert_eq!(h, Heading::East);
}

#[test]
fn enemy_turns_right_at_junction_on_first_tick() {
    let maze = junction_maze();
    let mut e = Enemy::new(fp(250), fp(250), TurnPreference::Right, 200);
    assert_eq!(e.heading, Heading::East);
    // dt = 0.1 s: step = 200 * 102 fixed units, about 20 world units.
    e.update(102, &maze, 100);
    assert_eq!(e.heading, Heading::South);
    assert_eq!(e.pos_x, fp(250));
    assert_eq!(e.pos_y, fp(250) + 200 * 102);
}

#[test]
fn enemy_never_leaves_open_cells() {
    // Across a long sequence of ticks the enemy always stands over a
    // traversable cell of the enclosed maze.
    let maze = maze_from(&["#######", "#     #", "# ### #", "#     #", "#######"]);
    assert!(validate_maze(&maze));
    let mut e = Enemy::new(fp(150), fp(150), TurnPreference::Right, 400);
    for _ in 0..500 {
        e.update(51, &maze, 100);
        let col = (e.pos_x / 1024 / 100) as usize;
        let row = (e.pos_y / 1024 / 100) as usize;
        assert!(row < 5 && col < 7);
        assert_eq!(cell_at(&maze, row, col), ' ');
    }
}

#[test]
fn enemy_confined_to_single_open_cell() {
    // A lone open cell: the enemy may wander inside it but every move that
    // would leave the cell is blocked.
    let maze = maze_from(&["###", "# #", "###"]);
    let mut e = Enemy::new(fp(150), fp(150), TurnPreference::Left, 400);
    for _ in 0..50 {
        e.update(102, &maze, 100);
        assert!(e.pos_x >= fp(100) && e.pos_x < fp(200));
        assert!(e.pos_y >= fp(100) && e.pos_y < fp(200));
    }
}

#[test]
fn animation_flips_after_interval() {
    let maze = maze_from(&["###", "# #", "###"]);
    let mut e = Enemy::new(fp(150), fp(150), TurnPreference::Right, 0);
    assert_eq!(e.texture_key, 'e');
    // Half a second exceeds the 0.4 s interval: the frame flips, the timer
    // resets.
    e.update(512, &maze, 100);
    assert_eq!(e.texture_key, 'f');
    assert_eq!(e.animation_timer, 0);
    // A tenth of a second accumulates without flipping.
    e.update(102, &maze, 100);
    assert_eq!(e.texture_key, 'f');
    assert_eq!(e.animation_timer, 102);
    assert!(e.animation_timer <= ANIM_INTERVAL_FP);
    // Another flip returns to the first frame.
    e.update(512, &maze, 100);
    assert_eq!(e.texture_key, 'e');
}

#[test]
fn update_enemies_advances_each() {
    let maze = junction_maze();
    let mut group = vec![
        Enemy::new(fp(250), fp(250), TurnPreference::Right, 200),
        Enemy::new(fp(250), fp(250), TurnPreference::Left, 200),
    ];
    update_enemies(&mut group, 102, &maze, 100);
    assert_eq!(group.len(), 2);
    assert_eq!(group[0].heading, Heading::South);
    assert_eq!(group[1].heading, Heading::North);
}

#[test]
fn enemy_new_fields() {
    let e = Enemy::new(123, 456, TurnPreference::Left, 200);
    assert_eq!(e.pos_x, 123);
    assert_eq!(e.pos_y, 456);
    assert_eq!(e.texture_key, 'e');
    assert_eq!(e.preference, TurnPreference::Left);
    assert_eq!(e.speed, 200);
    assert_eq!(e.animation_timer, 0);
}
