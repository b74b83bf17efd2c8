use sturm_engine::game::{wait_key, Control, Game, Key, Tick};
use sturm_engine::grid::{FLOOR, TREASURE, WALL};
use sturm_engine::sprite::Sprite;

fn open_field() -> Vec<Vec<i32>> {
    let mut map = vec![vec![FLOOR; 15]; 15];
    for i in 0..15 {
        map[0][i] = WALL;
        map[14][i] = WALL;
        map[i][0] = WALL;
        map[i][14] = WALL;
    }
    map
}

fn game_at(x: i32, y: i32, map: Vec<Vec<i32>>) -> Game {
    Game {
        map,
        player: Sprite { x, y, dx: 0, dy: 0 },
        time: 100,
        score: 0,
        banner: 0,
        facing_right: true,
    }
}

fn count(map: &Vec<Vec<i32>>, code: i32) -> usize {
    map.iter().flatten().filter(|&&t| t == code).count()
}

#[test]
fn new_session_starts_on_first_tile() {
    let g = Game::new();
    assert_eq!((g.player.x, g.player.y, g.player.dx, g.player.dy), (50, 50, 0, 0));
    assert_eq!(g.time, 1800);
    assert_eq!(g.score, 0);
    assert_eq!(g.banner, 0);
    assert!(g.facing_right);
    assert_eq!(count(&g.map, TREASURE), 3);
}

#[test]
fn exit_regenerates_once() {
    let mut g = game_at(650, 650, open_field());
    g.score = 5;
    assert!(g.reach_exit());
    assert_eq!((g.player.x, g.player.y, g.player.dx, g.player.dy), (50, 50, 0, 0));
    assert_eq!(g.score, 15);
    assert_eq!(g.time, 400);
    assert_eq!(g.banner, 120);
    assert_eq!(count(&g.map, TREASURE), 3);
    assert!(!g.reach_exit());
    assert_eq!(g.score, 15);
    assert_eq!(g.time, 400);
}

#[test]
fn exit_needs_both_coordinates() {
    let mut g = game_at(650, 600, open_field());
    assert!(!g.reach_exit());
    assert_eq!((g.player.x, g.player.y), (650, 600));
    assert_eq!((g.score, g.time, g.banner), (0, 100, 0));
}

#[test]
fn tick_into_exit_applies_bonus() {
    let mut g = game_at(600, 650, open_field());
    g.player.dx = 50;
    for _ in 0..4 {
        assert_eq!(g.tick(&vec![]), Tick::Running { next_stage: false, treasure: false });
    }
    assert_eq!(g.player.x, 640);
    let r = g.tick(&vec![]);
    match r {
        Tick::Running { next_stage, treasure } => {
            assert!(next_stage);
            if treasure {
                assert!(g.score >= 11 && g.score <= 14);
            } else {
                assert_eq!(g.score, 10);
            }
        }
        other => panic!("unexpected {:?}", other),
    }
    assert_eq!(g.time, 95 + 300);
    assert_eq!((g.player.x, g.player.y), (50, 50));
    let before = g.score;
    match g.tick(&vec![]) {
        Tick::Running { next_stage, .. } => assert!(!next_stage),
        other => panic!("unexpected {:?}", other),
    }
    assert_eq!(g.score, before);
}

#[test]
fn arrows_queue_steps_unless_blocked() {
    let mut g = game_at(50, 50, open_field());
    assert_eq!(g.handle_key(Key::Up), Control::Continue);
    assert_eq!((g.player.dx, g.player.dy), (0, 0));
    assert_eq!(g.handle_key(Key::Left), Control::Continue);
    assert_eq!((g.player.dx, g.player.dy), (0, 0));
    assert!(g.facing_right);
    assert_eq!(g.handle_key(Key::Down), Control::Continue);
    assert_eq!((g.player.dx, g.player.dy), (0, 50));
    assert_eq!(g.handle_key(Key::Right), Control::Continue);
    assert_eq!((g.player.dx, g.player.dy), (0, 50));
}

#[test]
fn left_turns_the_player() {
    let mut g = game_at(100, 100, open_field());
    g.handle_key(Key::Left);
    assert_eq!(g.player.dx, -50);
    assert!(!g.facing_right);
}

#[test]
fn arrows_ignored_mid_step() {
    let mut g = game_at(100, 100, open_field());
    g.player.dx = 30;
    g.player.x = 120;
    assert_eq!(g.handle_key(Key::Up), Control::Continue);
    assert_eq!(g.handle_key(Key::Left), Control::Continue);
    assert_eq!((g.player.x, g.player.dx, g.player.dy), (120, 30, 0));
    assert!(g.facing_right);
}

#[test]
fn quit_and_escape_work_mid_step() {
    let mut g = game_at(100, 100, open_field());
    g.player.dx = 30;
    g.player.x = 120;
    assert_eq!(g.handle_key(Key::Quit), Control::Quit);
    assert_eq!(g.handle_key(Key::Escape), Control::EndSession);
    assert_eq!((g.player.x, g.player.dx), (120, 30));
    assert_eq!(g.tick(&vec![Key::Quit]), Tick::Quit);
    assert_eq!((g.player.x, g.player.dx), (130, 20));
}

#[test]
fn quit_and_escape_leave_play() {
    let mut g = game_at(100, 100, open_field());
    assert_eq!(g.handle_key(Key::Quit), Control::Quit);
    assert_eq!(g.handle_key(Key::Escape), Control::EndSession);
    assert_eq!(g.handle_keys(&vec![Key::Down, Key::Right, Key::Quit]), Control::Quit);
    assert_eq!(g.player.dx, 0);
    assert_eq!(g.player.dy, 50);
    let mut h = game_at(100, 100, open_field());
    assert_eq!(h.handle_keys(&vec![Key::Escape, Key::Down]), Control::EndSession);
    assert_eq!(h.player.dy, 0);
}

#[test]
fn tick_results() {
    let mut g = game_at(100, 100, open_field());
    assert_eq!(g.tick(&vec![Key::Quit]), Tick::Quit);
    assert_eq!(g.time, 99);
    assert_eq!(g.tick(&vec![Key::Escape]), Tick::Restart);
    assert_eq!(g.time, 98);
    g.time = 0;
    assert_eq!(g.tick(&vec![Key::Down]), Tick::TimeUp);
    assert_eq!((g.time, g.player.dy), (0, 0));
}

#[test]
fn tick_moves_then_reads_keys() {
    let mut g = game_at(100, 100, open_field());
    assert_eq!(g.tick(&vec![Key::Right]), Tick::Running { next_stage: false, treasure: false });
    assert_eq!((g.player.x, g.player.dx), (100, 50));
    assert_eq!(g.tick(&vec![Key::Down]), Tick::Running { next_stage: false, treasure: false });
    assert_eq!((g.player.x, g.player.dx, g.player.dy), (110, 40, 0));
}

#[test]
fn treasure_is_collected_once() {
    let mut map = open_field();
    map[2][3] = TREASURE;
    let mut g = game_at(150, 100, map);
    assert!(g.collect_treasure());
    assert!(g.score >= 1 && g.score <= 4);
    assert_eq!(g.map[2][3], FLOOR);
    let s = g.score;
    assert!(!g.collect_treasure());
    assert_eq!(g.score, s);
}

#[test]
fn tick_collects_treasure_on_arrival() {
    let mut map = open_field();
    map[1][2] = TREASURE;
    let mut g = game_at(50, 50, map);
    g.tick(&vec![Key::Right]);
    for _ in 0..4 {
        assert_eq!(g.tick(&vec![]), Tick::Running { next_stage: false, treasure: false });
    }
    assert_eq!(g.tick(&vec![]), Tick::Running { next_stage: false, treasure: true });
    assert_eq!(g.map[1][2], FLOOR);
    assert!(g.score >= 1 && g.score <= 4);
}

#[test]
fn banner_counts_down() {
    let mut g = game_at(100, 100, open_field());
    g.banner = 2;
    assert!(g.take_banner_frame());
    assert!(g.take_banner_frame());
    assert!(!g.take_banner_frame());
    assert_eq!(g.banner, 0);
}

#[test]
fn score_screen_keys() {
    assert_eq!(wait_key(Key::Quit), Control::Quit);
    assert_eq!(wait_key(Key::Escape), Control::EndSession);
    assert_eq!(wait_key(Key::Up), Control::Continue);
    assert_eq!(wait_key(Key::Left), Control::Continue);
}
