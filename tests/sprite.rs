use sturm_engine::sprite::Sprite;

#[test]
fn one_tile_step_takes_five_ticks() {
    let mut s = Sprite { x: 50, y: 50, dx: 50, dy: 0 };
    let mut last = s.dx;
    for _ in 0..5 {
        s.d_move();
        assert!(s.dx >= 0 && s.dx < last);
        last = s.dx;
    }
    assert_eq!((s.x, s.y, s.dx, s.dy), (100, 50, 0, 0));
    s.d_move();
    assert_eq!((s.x, s.y, s.dx, s.dy), (100, 50, 0, 0));
}

#[test]
fn five_tile_step_drains_without_overshoot() {
    let mut s = Sprite { x: 0, y: 0, dx: 250, dy: 0 };
    for k in 1..=25 {
        s.d_move();
        assert_eq!(s.dx, 250 - 10 * k);
        assert_eq!(s.x, 10 * k);
    }
    assert_eq!((s.x, s.dx), (250, 0));
}

#[test]
fn negative_steps_on_both_axes() {
    let mut s = Sprite { x: 300, y: 400, dx: -50, dy: -100 };
    for _ in 0..5 {
        s.d_move();
    }
    assert_eq!((s.x, s.y, s.dx, s.dy), (250, 350, 0, -50));
    for _ in 0..5 {
        s.d_move();
    }
    assert_eq!((s.x, s.y, s.dx, s.dy), (250, 300, 0, 0));
}

#[test]
fn downward_step() {
    let mut s = Sprite { x: 100, y: 100, dx: 0, dy: 50 };
    s.d_move();
    assert_eq!((s.x, s.y, s.dx, s.dy), (100, 110, 0, 40));
}
