use zeeweg::state::{Position, TILE_RESOLUTION};

#[test]
fn tile_uses_floor_division_for_negative_coordinates() {
    // -2,934,364 / 100,000 floors to -30, not -29.
    let p = Position { lat: -2_934_364, lon: -2_934_364 };
    let t = p.tile(TILE_RESOLUTION);
    assert_eq!(t.x, -30);
    assert_eq!(t.y, -30);
}

#[test]
fn tile_of_positive_coordinates() {
    let p = Position { lat: 43_160_889, lon: 5_370_000 };
    let t = p.tile(TILE_RESOLUTION);
    assert_eq!(t.x, 431);
    assert_eq!(t.y, 53);
}

#[test]
fn tile_boundaries() {
    assert_eq!(Position { lat: 0, lon: 0 }.tile(TILE_RESOLUTION).x, 0);
    assert_eq!(Position { lat: 99_999, lon: 0 }.tile(TILE_RESOLUTION).x, 0);
    assert_eq!(Position { lat: 100_000, lon: 0 }.tile(TILE_RESOLUTION).x, 1);
    assert_eq!(Position { lat: -1, lon: 0 }.tile(TILE_RESOLUTION).x, -1);
    assert_eq!(Position { lat: -100_000, lon: 0 }.tile(TILE_RESOLUTION).x, -1);
    assert_eq!(Position { lat: -100_001, lon: 0 }.tile(TILE_RESOLUTION).x, -2);
}

#[test]
fn tile_with_other_resolutions() {
    let p = Position { lat: 7, lon: -7 };
    let t = p.tile(3);
    assert_eq!(t.x, 2);
    assert_eq!(t.y, -3);
    let t1 = p.tile(1);
    assert_eq!(t1.x, 7);
    assert_eq!(t1.y, -7);
}
