use collision2d::geometry::{
    overlap, saturating_sum, touching, Axis, GeometryError, Rect, Vec2i,
};

fn rect(x: i32, y: i32, w: u16, h: u16) -> Rect {
    Rect { x, y, w, h }
}

#[test]
fn touching_is_symmetric() {
    let cases = [
        (rect(0, 0, 10, 10), rect(5, 5, 10, 10)),
        (rect(0, 0, 10, 10), rect(10, 0, 10, 10)),
        (rect(0, 0, 10, 10), rect(11, 0, 10, 10)),
        (rect(-50, 20, 3, 700), rect(-48, 719, 0, 0)),
        (rect(0, 0, 0, 0), rect(0, 0, 0, 0)),
        (rect(i32::MAX, i32::MAX, 65535, 65535), rect(i32::MIN, i32::MIN, 65535, 65535)),
    ];
    for (a, b) in cases {
        assert_eq!(touching(a, b), touching(b, a));
        assert_eq!(overlap(a, b), overlap(b, a));
    }
}

#[test]
fn overlapping_rectangles_touch() {
    assert!(touching(rect(0, 0, 10, 10), rect(5, 5, 10, 10)));
}

#[test]
fn edge_adjacent_rectangles_touch() {
    assert!(touching(rect(0, 0, 10, 10), rect(10, 0, 10, 10)));
    assert!(touching(rect(0, 0, 10, 10), rect(0, 10, 10, 10)));
    assert!(touching(rect(0, 0, 10, 10), rect(10, 10, 10, 10)));
}

#[test]
fn separated_rectangles_do_not_touch() {
    assert!(!touching(rect(0, 0, 10, 10), rect(11, 0, 10, 10)));
    assert!(!touching(rect(0, 0, 10, 10), rect(0, 11, 10, 10)));
    assert!(!touching(rect(0, 0, 10, 10), rect(-11, 0, 10, 10)));
}

#[test]
fn overlap_is_lesser_upper_edge_minus_greater_lower_edge() {
    assert_eq!(overlap(rect(0, 0, 10, 10), rect(5, 7, 10, 10)), Some((5, 3)));
    assert_eq!(overlap(rect(5, 7, 10, 10), rect(0, 0, 10, 10)), Some((5, 3)));
    assert_eq!(overlap(rect(170, 520, 16, 16), rect(0, 534, 700, 16)), Some((16, 2)));
}

#[test]
fn overlap_of_edge_adjacent_rectangles_is_zero_on_that_axis() {
    assert_eq!(overlap(rect(0, 0, 10, 10), rect(10, 0, 10, 10)), Some((0, 10)));
    assert_eq!(overlap(rect(0, 0, 10, 10), rect(10, 10, 10, 10)), Some((0, 0)));
}

#[test]
fn overlap_of_separated_rectangles_is_none() {
    assert_eq!(overlap(rect(0, 0, 10, 10), rect(11, 0, 10, 10)), None);
    assert_eq!(overlap(rect(0, 0, 10, 10), rect(0, 11, 10, 10)), None);
    assert_eq!(overlap(rect(0, 0, 10, 10), rect(20, 20, 1, 1)), None);
}

#[test]
fn overlap_never_exceeds_the_smaller_extent() {
    let small = rect(100, 100, 4, 6);
    let big = rect(0, 0, 700, 700);
    assert_eq!(overlap(small, big), Some((4, 6)));
    assert_eq!(overlap(big, small), Some((4, 6)));
}

#[test]
fn overlap_beyond_sixteen_bit_coordinates() {
    let a = rect(70_000, 70_000, 65_535, 65_535);
    let b = rect(100_000, 135_000, 65_535, 65_535);
    assert!(touching(a, b));
    assert_eq!(overlap(a, b), Some((35_535, 535)));
}

#[test]
fn overlap_at_the_ends_of_the_coordinate_range() {
    let a = rect(i32::MAX, i32::MAX, 65_535, 65_535);
    let b = rect(i32::MAX - 10, i32::MAX - 20, 65_535, 65_535);
    assert_eq!(overlap(a, b), Some((65_525, 65_515)));
    let far = rect(i32::MIN, i32::MIN, 65_535, 65_535);
    assert!(!touching(a, far));
    assert_eq!(overlap(a, far), None);
}

#[test]
fn from_extents_accepts_sound_extents() {
    assert_eq!(Rect::from_extents(3, -4, 0, 65_535), Ok(rect(3, -4, 0, 65_535)));
    assert_eq!(Rect::from_extents(0, 0, 16, 16), Ok(rect(0, 0, 16, 16)));
}

#[test]
fn from_extents_refuses_negative_extents() {
    assert_eq!(Rect::from_extents(0, 0, -1, 5), Err(GeometryError::NegativeExtent));
    assert_eq!(Rect::from_extents(0, 0, 5, -1), Err(GeometryError::NegativeExtent));
    assert_eq!(Rect::from_extents(0, 0, -1, 70_000), Err(GeometryError::NegativeExtent));
    assert_eq!(Rect::from_extents(0, 0, 70_000, i32::MIN), Err(GeometryError::NegativeExtent));
}

#[test]
fn from_extents_refuses_oversized_extents() {
    assert_eq!(Rect::from_extents(0, 0, 65_536, 5), Err(GeometryError::ExtentTooLarge));
    assert_eq!(Rect::from_extents(0, 0, 5, i32::MAX), Err(GeometryError::ExtentTooLarge));
}

#[test]
fn offset_moves_the_origin() {
    assert_eq!(rect(10, 20, 3, 4).offset(-15, 7), rect(-5, 27, 3, 4));
}

#[test]
fn offset_saturates() {
    let near_the_ends = rect(i32::MAX - 1, i32::MIN + 1, 3, 4);
    assert_eq!(near_the_ends.offset(5, -5), rect(i32::MAX, i32::MIN, 3, 4));
    assert_eq!(saturating_sum(i32::MAX, i32::MAX), i32::MAX);
    assert_eq!(saturating_sum(i32::MIN, -1), i32::MIN);
    assert_eq!(saturating_sum(-7, 9), 2);
}

#[test]
fn slide_moves_along_one_axis() {
    assert_eq!(rect(10, 20, 3, 4).slide(Axis::X, -2), rect(8, 20, 3, 4));
    assert_eq!(rect(10, 20, 3, 4).slide(Axis::Y, 5), rect(10, 25, 3, 4));
}

#[test]
fn place_sets_the_origin() {
    assert_eq!(rect(10, 20, 3, 4).place(Vec2i(-1, 99)), rect(-1, 99, 3, 4));
}

#[test]
fn overlap_is_bounded_by_both_extents_over_a_sweep() {
    let sizes: [u16; 4] = [0, 1, 7, 30];
    let mut touching_pairs = 0;
    for &w1 in &sizes {
        for &h1 in &sizes {
            for &w2 in &sizes {
                for x2 in -35..=35 {
                    for y2 in [-31, -8, 0, 3, 30, 31] {
                        let a = rect(0, 0, w1, h1);
                        let b = rect(x2, y2, w2, 5);
                        let found = overlap(a, b);
                        assert_eq!(found.is_some(), touching(a, b));
                        assert_eq!(found, overlap(b, a));
                        if let Some((dx, dy)) = found {
                            touching_pairs += 1;
                            assert!(dx <= w1.min(w2));
                            assert!(dy <= h1.min(5));
                        }
                    }
                }
            }
        }
    }
    assert!(touching_pairs > 0);
}
