use sturm_engine::shadow::{shade_at, shadow_map, Shade};
use sturm_engine::sprite::Sprite;

#[test]
fn bands_around_center() {
    let p = Sprite { x: 350, y: 350, dx: 0, dy: 0 };
    let fog = shadow_map(&p);
    assert_eq!(fog.len(), 15);
    for y in 0..15i32 {
        assert_eq!(fog[y as usize].len(), 15);
        for x in 0..15i32 {
            let d = (x - 7).abs().max((y - 7).abs());
            let expected = if d <= 1 {
                Shade::Clear
            } else if d == 2 {
                Shade::Light
            } else {
                Shade::Dark
            };
            assert_eq!(fog[y as usize][x as usize], expected, "tile ({}, {})", x, y);
            assert_eq!(shade_at(&p, x, y), expected);
        }
    }
}

#[test]
fn bands_use_the_player_tile() {
    let p = Sprite { x: 99, y: 60, dx: 0, dy: 0 };
    assert_eq!(shade_at(&p, 1, 1), Shade::Clear);
    assert_eq!(shade_at(&p, 2, 2), Shade::Clear);
    assert_eq!(shade_at(&p, 3, 1), Shade::Light);
    assert_eq!(shade_at(&p, 0, 3), Shade::Light);
    assert_eq!(shade_at(&p, 4, 1), Shade::Dark);
    assert_eq!(shade_at(&p, 1, 14), Shade::Dark);
}
