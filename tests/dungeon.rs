use sturm_engine::dungeon::{carve_from, gen_dungeon, place_treasure_at};
use sturm_engine::grid::{movable, FLOOR, TREASURE, WALL};

fn open_field() -> Vec<Vec<i32>> {
    let mut map = vec![vec![FLOOR; 15]; 15];
    for i in 0..15 {
        map[0][i] = WALL;
        map[14][i] = WALL;
        map[i][0] = WALL;
        map[i][14] = WALL;
    }
    map
}

#[test]
fn generated_grid_is_walled_and_sized() {
    for _ in 0..200 {
        let map = gen_dungeon();
        assert_eq!(map.len(), 15);
        for row in &map {
            assert_eq!(row.len(), 15);
        }
        for i in 0..15 {
            assert_eq!(map[0][i], WALL);
            assert_eq!(map[14][i], WALL);
            assert_eq!(map[i][0], WALL);
            assert_eq!(map[i][14], WALL);
        }
    }
}

#[test]
fn generated_grid_has_three_treasures() {
    for _ in 0..200 {
        let map = gen_dungeon();
        let count = map.iter().flatten().filter(|&&t| t == TREASURE).count();
        assert_eq!(count, 3);
        assert!(map.iter().flatten().all(|&t| t == FLOOR || t == WALL || t == TREASURE));
    }
}

#[test]
fn generated_grid_has_pillars_and_open_rooms() {
    for _ in 0..200 {
        let map = gen_dungeon();
        for y in (2..13).step_by(2) {
            for x in (2..13).step_by(2) {
                assert_eq!(map[y][x], WALL);
            }
        }
        for y in (1..14).step_by(2) {
            for x in (1..14).step_by(2) {
                assert_ne!(map[y][x], WALL);
            }
        }
    }
}

#[test]
fn generated_grid_carves_one_stub_per_pillar_at_least() {
    for _ in 0..100 {
        let map = gen_dungeon();
        for y in (2..13).step_by(2) {
            for x in (2..13).step_by(2) {
                let stub = map[y - 1][x] == WALL
                    || map[y + 1][x] == WALL
                    || map[y][x - 1] == WALL
                    || map[y][x + 1] == WALL;
                assert!(stub, "pillar ({}, {})", x, y);
            }
        }
    }
}

#[test]
fn start_is_walkable_and_corner_is_not() {
    for _ in 0..100 {
        let map = gen_dungeon();
        assert!(movable(50, 50, &map));
        assert!(!movable(0, 0, &map));
        assert!(movable(650, 650, &map));
    }
}

#[test]
fn carve_up_only_from_first_column() {
    let mut map = open_field();
    assert!(carve_from(&mut map, 2, 4, 0));
    assert_eq!(map[3][2], WALL);
    let before = map.clone();
    assert!(!carve_from(&mut map, 4, 4, 0));
    assert_eq!(map, before);
}

#[test]
fn carve_down_left_right_need_floor() {
    let mut map = open_field();
    assert!(carve_from(&mut map, 4, 4, 1));
    assert_eq!(map[5][4], WALL);
    assert!(!carve_from(&mut map, 4, 4, 1));
    assert!(carve_from(&mut map, 4, 4, 2));
    assert_eq!(map[4][3], WALL);
    assert!(!carve_from(&mut map, 4, 4, 2));
    assert!(carve_from(&mut map, 4, 4, 3));
    assert_eq!(map[4][5], WALL);
    assert!(!carve_from(&mut map, 4, 4, 3));
    let walls = map.iter().flatten().filter(|&&t| t == WALL).count();
    assert_eq!(walls, 56 + 3);
}

#[test]
fn carve_rejects_unknown_direction() {
    let mut map = open_field();
    let before = map.clone();
    assert!(!carve_from(&mut map, 4, 4, 4));
    assert!(!carve_from(&mut map, 4, 4, 99));
    assert_eq!(map, before);
}

#[test]
fn treasure_only_on_floor() {
    let mut map = open_field();
    assert!(!place_treasure_at(&mut map, 0, 0));
    assert!(place_treasure_at(&mut map, 3, 5));
    assert_eq!(map[5][3], TREASURE);
    assert!(!place_treasure_at(&mut map, 3, 5));
    assert_eq!(map[5][3], TREASURE);
}

#[test]
fn walls_only_on_ring_pillars_and_stub_sites() {
    for _ in 0..200 {
        let map = gen_dungeon();
        for y in 1..14usize {
            for x in 1..14usize {
                if map[y][x] != WALL {
                    continue;
                }
                let pillar = x % 2 == 0 && y % 2 == 0;
                let vertical_stub = x % 2 == 0 && y % 2 == 1 && (y >= 3 || x == 2);
                let horizontal_stub = x % 2 == 1 && y % 2 == 0;
                assert!(pillar || vertical_stub || horizontal_stub, "wall at ({}, {})", x, y);
            }
        }
        for x in 1..14usize {
            if x != 2 {
                assert_ne!(map[1][x], WALL);
            }
        }
        let inner_walls = map.iter().flatten().filter(|&&t| t == WALL).count() - 56 - 36;
        assert!(inner_walls >= 31 && inner_walls <= 36, "stubs {}", inner_walls);
    }
}
