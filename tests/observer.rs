use lod_terrain::observer::{move_axes, MoveKeys, Scroll, ScrollUnit, TravelSpeed, INITIAL_SPEED, MIN_SPEED};

fn line(delta: i32) -> Scroll {
    Scroll { unit: ScrollUnit::Line, delta }
}

fn pixel(delta: i32) -> Scroll {
    Scroll { unit: ScrollUnit::Pixel, delta }
}

#[test]
fn speed_starts_at_fifty_on_first_use() {
    let mut s = TravelSpeed::new();
    assert_eq!(s.get(), 0);
    assert_eq!(s.apply_scroll(line(0)), INITIAL_SPEED);
    assert_eq!(s.get(), 50_000);
}

#[test]
fn scroll_units_scale_differently() {
    let mut s = TravelSpeed::new();
    assert_eq!(s.apply_scroll(line(1_000)), 55_000);
    assert_eq!(s.apply_scroll(pixel(8_000)), 57_000);
    assert_eq!(s.apply_scroll(pixel(-3)), 57_000);
    assert_eq!(s.apply_scroll(pixel(-4)), 56_999);
    assert_eq!(s.apply_scroll(line(-2_000)), 46_999);
}

#[test]
fn speed_never_drops_below_one() {
    let mut s = TravelSpeed::new();
    assert_eq!(s.apply_scroll(line(-1_000_000)), MIN_SPEED);
    for _ in 0..100 {
        assert_eq!(s.apply_scroll(line(i32::MIN)), 1_000);
        assert_eq!(s.apply_scroll(pixel(-7_000)), 1_000);
    }
    assert_eq!(s.apply_scroll(line(1_000)), 6_000);
}

#[test]
fn movement_keys_to_axes() {
    let none = MoveKeys { forward: false, back: false, left: false, right: false, down: false, up: false };
    assert_eq!(move_axes(none), (0, 0, 0));
    assert_eq!(move_axes(MoveKeys { forward: true, ..none }), (0, 0, -1));
    assert_eq!(move_axes(MoveKeys { back: true, ..none }), (0, 0, 1));
    assert_eq!(move_axes(MoveKeys { left: true, up: true, ..none }), (-1, 1, 0));
    assert_eq!(move_axes(MoveKeys { right: true, down: true, forward: true, ..none }), (1, -1, -1));
    assert_eq!(
        move_axes(MoveKeys { forward: true, back: true, left: true, right: true, down: true, up: true }),
        (0, 0, 0)
    );
}
