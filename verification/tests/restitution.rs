use collision2d::collider::{ColliderID, Contact, Mobile, Wall};
use collision2d::contacts::gather_contacts;
use collision2d::geometry::{overlap, touching, Axis, Rect};
use collision2d::restitution::{correction, resolve, restitute, Correction};

fn body(x: i32, y: i32, w: u16, h: u16, vx: i32, vy: i32) -> Mobile {
    Mobile { rect: Rect { x, y, w, h }, vx, vy }
}

fn wall(x: i32, y: i32, w: u16, h: u16) -> Wall {
    Wall { rect: Rect { x, y, w, h } }
}

fn contact(a: ColliderID, b: ColliderID, overlap: (u16, u16)) -> Contact {
    Contact { a, b, overlap }
}

#[test]
fn scenario_player_pressed_into_floor_is_set_on_top_of_it() {
    let walls = vec![wall(0, 534, 700, 16)];
    let mut bodies = vec![body(170, 520, 16, 16, 0, 2)];
    let mut contacts = gather_contacts(&walls, &bodies);
    assert_eq!(contacts.len(), 1);
    assert_eq!(contacts[0].overlap, (16, 2));
    restitute(&walls, &mut bodies, &mut contacts);
    assert_eq!(bodies[0].rect.y, walls[0].rect.y - 16);
    assert_eq!(bodies[0], body(170, 518, 16, 16, 0, 0));
    assert_eq!(overlap(bodies[0].rect, walls[0].rect), Some((16, 0)));
}

#[test]
fn scenario_two_equal_bodies_share_the_correction() {
    let walls: Vec<Wall> = vec![];
    let mut bodies = vec![body(0, 0, 16, 16, 1, 5), body(12, 0, 16, 16, -1, 6)];
    let mut contacts = gather_contacts(&walls, &bodies);
    assert_eq!(contacts, vec![contact(ColliderID::Dynamic(0), ColliderID::Dynamic(1), (4, 16))]);
    restitute(&walls, &mut bodies, &mut contacts);
    assert_eq!(bodies[0], body(-2, 0, 16, 16, 0, 5));
    assert_eq!(bodies[1], body(14, 0, 16, 16, 0, 6));
    assert_eq!(overlap(bodies[0].rect, bodies[1].rect), Some((0, 16)));
}

#[test]
fn odd_depth_is_split_with_the_larger_half_for_the_second_body() {
    let walls: Vec<Wall> = vec![];
    let mut bodies = vec![body(0, 0, 16, 16, 0, 0), body(11, 0, 16, 16, 0, 0)];
    let mut contacts = gather_contacts(&walls, &bodies);
    restitute(&walls, &mut bodies, &mut contacts);
    assert_eq!(bodies[0].rect.x, -2);
    assert_eq!(bodies[1].rect.x, 14);
    assert_eq!(overlap(bodies[0].rect, bodies[1].rect), Some((0, 16)));
}

#[test]
fn correction_of_a_pair_apart_is_none() {
    let a = Rect { x: 0, y: 0, w: 10, h: 10 };
    let b = Rect { x: 11, y: 0, w: 10, h: 10 };
    assert_eq!(correction(a, b, false), None);
    assert_eq!(correction(a, b, true), None);
}

#[test]
fn correction_goes_along_the_axis_of_least_penetration() {
    let a = Rect { x: 0, y: 0, w: 10, h: 10 };
    assert_eq!(
        correction(a, Rect { x: 7, y: 2, w: 10, h: 10 }, false),
        Some(Correction { axis: Axis::X, first: -3, second: 0 })
    );
    assert_eq!(
        correction(a, Rect { x: 2, y: 7, w: 10, h: 10 }, false),
        Some(Correction { axis: Axis::Y, first: -3, second: 0 })
    );
    assert_eq!(
        correction(a, Rect { x: -7, y: 2, w: 10, h: 10 }, false),
        Some(Correction { axis: Axis::X, first: 3, second: 0 })
    );
    assert_eq!(
        correction(a, Rect { x: 2, y: -7, w: 10, h: 10 }, false),
        Some(Correction { axis: Axis::Y, first: 3, second: 0 })
    );
}

#[test]
fn correction_prefers_the_x_axis_on_a_tie() {
    let a = Rect { x: 0, y: 0, w: 10, h: 10 };
    assert_eq!(
        correction(a, Rect { x: 6, y: 6, w: 10, h: 10 }, false),
        Some(Correction { axis: Axis::X, first: -4, second: 0 })
    );
}

#[test]
fn correction_of_coinciding_rectangles_moves_the_first_down_the_axis() {
    let a = Rect { x: 5, y: 5, w: 10, h: 12 };
    assert_eq!(
        correction(a, a, false),
        Some(Correction { axis: Axis::X, first: -10, second: 0 })
    );
    assert_eq!(correction(a, a, true), Some(Correction { axis: Axis::X, first: -5, second: 5 }));
}

#[test]
fn shared_correction_splits_the_depth() {
    let a = Rect { x: 0, y: 0, w: 10, h: 10 };
    let b = Rect { x: 3, y: 0, w: 10, h: 10 };
    assert_eq!(correction(a, b, true), Some(Correction { axis: Axis::X, first: -3, second: 4 }));
    assert_eq!(correction(b, a, true), Some(Correction { axis: Axis::X, first: 3, second: -4 }));
}

#[test]
fn resolve_reports_whether_a_correction_was_applied() {
    let walls = vec![wall(0, 10, 10, 10)];
    let mut bodies = vec![body(0, 2, 10, 10, 3, 4)];
    let hit = contact(ColliderID::Dynamic(0), ColliderID::Static(0), (10, 2));
    assert!(resolve(&walls, &mut bodies, hit));
    assert_eq!(bodies[0], body(0, 0, 10, 10, 3, 0));
    let mut apart = vec![body(0, -20, 10, 10, 3, 4)];
    assert!(!resolve(&walls, &mut apart, hit));
    assert_eq!(apart[0], body(0, -20, 10, 10, 3, 4));
}

#[test]
fn contacts_that_name_no_pair_are_passed_over() {
    let walls = vec![wall(0, 0, 10, 10)];
    let start = vec![body(0, 0, 10, 10, 1, 1), body(5, 5, 10, 10, 2, 2)];
    let strays = vec![
        contact(ColliderID::Static(0), ColliderID::Dynamic(0), (5, 5)),
        contact(ColliderID::Static(0), ColliderID::Static(0), (5, 5)),
        contact(ColliderID::Dynamic(2), ColliderID::Static(0), (5, 5)),
        contact(ColliderID::Dynamic(0), ColliderID::Static(1), (5, 5)),
        contact(ColliderID::Dynamic(0), ColliderID::Dynamic(2), (5, 5)),
        contact(ColliderID::Dynamic(1), ColliderID::Dynamic(1), (5, 5)),
        contact(ColliderID::Dynamic(usize::MAX), ColliderID::Dynamic(0), (5, 5)),
    ];
    for stray in &strays {
        let mut bodies = start.clone();
        assert!(!resolve(&walls, &mut bodies, *stray));
        assert_eq!(bodies, start);
    }
    let mut bodies = start.clone();
    let mut batch = strays.clone();
    restitute(&walls, &mut bodies, &mut batch);
    assert_eq!(bodies, start);
}

#[test]
fn deepest_contact_goes_first_and_a_stale_one_is_skipped() {
    let walls = vec![wall(-50, 8, 55, 10)];
    let mut bodies = vec![body(0, 0, 10, 10, 0, 3), body(6, 10, 4, 4, 0, 7)];
    let mut contacts = gather_contacts(&walls, &bodies);
    assert_eq!(
        contacts,
        vec![
            contact(ColliderID::Dynamic(0), ColliderID::Dynamic(1), (4, 0)),
            contact(ColliderID::Dynamic(0), ColliderID::Static(0), (5, 2)),
        ]
    );
    restitute(&walls, &mut bodies, &mut contacts);
    assert_eq!(
        contacts,
        vec![
            contact(ColliderID::Dynamic(0), ColliderID::Static(0), (5, 2)),
            contact(ColliderID::Dynamic(0), ColliderID::Dynamic(1), (4, 0)),
        ]
    );
    assert_eq!(bodies[0], body(0, -2, 10, 10, 0, 0));
    assert_eq!(bodies[1], body(6, 10, 4, 4, 0, 7));
    assert!(!touching(bodies[0].rect, bodies[1].rect));
}

#[test]
fn live_overlap_is_used_not_the_recorded_one() {
    let walls = vec![wall(0, 10, 10, 10)];
    let mut bodies = vec![body(0, 3, 10, 10, 0, 0)];
    let mut contacts = vec![contact(ColliderID::Dynamic(0), ColliderID::Static(0), (10, 9))];
    restitute(&walls, &mut bodies, &mut contacts);
    assert_eq!(bodies[0].rect, Rect { x: 0, y: 0, w: 10, h: 10 });
}

#[test]
fn second_restitution_changes_nothing() {
    let walls = vec![wall(0, 534, 700, 16), wall(300, 0, 16, 700)];
    let mut bodies = vec![
        body(170, 520, 16, 16, 0, 2),
        body(290, 100, 16, 16, 2, 0),
        body(0, 0, 16, 16, 1, 1),
        body(13, 0, 16, 16, -1, 1),
    ];
    let mut contacts = gather_contacts(&walls, &bodies);
    assert_eq!(contacts.len(), 3);
    restitute(&walls, &mut bodies, &mut contacts);
    let once = bodies.clone();
    let order = contacts.clone();
    restitute(&walls, &mut bodies, &mut contacts);
    assert_eq!(bodies, once);
    assert_eq!(contacts, order);
    let mut again = gather_contacts(&walls, &bodies);
    restitute(&walls, &mut bodies, &mut again);
    assert_eq!(bodies, once);
}

#[test]
fn resting_contact_stops_the_body_without_moving_it() {
    let walls = vec![wall(0, 16, 100, 10)];
    let mut bodies = vec![body(0, 0, 16, 16, 2, 2)];
    let mut contacts = gather_contacts(&walls, &bodies);
    restitute(&walls, &mut bodies, &mut contacts);
    assert_eq!(bodies[0], body(0, 0, 16, 16, 2, 0));
}

#[test]
fn body_deep_inside_a_wall_moves_by_its_own_extent() {
    let walls = vec![wall(0, 0, 700, 700)];
    let mut bodies = vec![body(100, 100, 4, 6, 1, 1)];
    let mut contacts = gather_contacts(&walls, &bodies);
    restitute(&walls, &mut bodies, &mut contacts);
    assert_eq!(bodies[0], body(96, 100, 4, 6, 0, 1));
    assert_eq!(overlap(bodies[0].rect, walls[0].rect), Some((4, 6)));
}

#[test]
fn later_correction_can_undo_an_earlier_one() {
    let walls = vec![wall(0, 0, 10, 100), wall(18, 0, 10, 100)];
    let mut bodies = vec![body(7, 40, 12, 12, 0, 0)];
    let mut contacts = gather_contacts(&walls, &bodies);
    assert_eq!(
        contacts,
        vec![
            contact(ColliderID::Dynamic(0), ColliderID::Static(0), (3, 12)),
            contact(ColliderID::Dynamic(0), ColliderID::Static(1), (1, 12)),
        ]
    );
    restitute(&walls, &mut bodies, &mut contacts);
    assert_eq!(bodies[0].rect.x, 6);
    assert_eq!(overlap(bodies[0].rect, walls[0].rect), Some((4, 12)));
    assert_eq!(overlap(bodies[0].rect, walls[1].rect), Some((0, 12)));
}

#[test]
fn correction_saturates_at_the_end_of_the_range() {
    let walls = vec![wall(i32::MIN, 0, 20, 10)];
    let mut bodies = vec![body(i32::MIN + 2, 0, 10, 10, 5, 5)];
    let mut contacts = gather_contacts(&walls, &bodies);
    restitute(&walls, &mut bodies, &mut contacts);
    assert_eq!(bodies[0], body(i32::MIN, 0, 10, 10, 0, 5));
}

#[test]
fn restitution_leaves_no_pair_penetrating_in_an_open_scene() {
    let walls = vec![wall(0, 100, 400, 20), wall(380, 0, 20, 100)];
    let start = vec![
        body(10, 87, 16, 16, 0, 2),
        body(60, 90, 16, 16, 2, 2),
        body(366, 40, 16, 16, 2, 0),
        body(200, 20, 16, 16, 1, 0),
        body(213, 22, 16, 16, -1, 0),
    ];
    let mut bodies = start.clone();
    let mut contacts = gather_contacts(&walls, &bodies);
    assert_eq!(contacts.len(), 4);
    restitute(&walls, &mut bodies, &mut contacts);
    assert_eq!(bodies.len(), start.len());
    for c in &contacts {
        let ra = match c.a {
            ColliderID::Dynamic(i) => bodies[i].rect,
            ColliderID::Static(_) => unreachable!(),
        };
        let rb = match c.b {
            ColliderID::Dynamic(j) => bodies[j].rect,
            ColliderID::Static(j) => walls[j].rect,
        };
        match overlap(ra, rb) {
            Some((dx, dy)) => assert!(dx == 0 || dy == 0),
            None => {}
        }
    }
    assert_eq!(bodies[0], body(10, 84, 16, 16, 0, 0));
    assert_eq!(bodies[1], body(60, 84, 16, 16, 2, 0));
    assert_eq!(bodies[2], body(364, 40, 16, 16, 0, 0));
    assert_eq!(bodies[3], body(199, 20, 16, 16, 0, 0));
    assert_eq!(bodies[4], body(215, 22, 16, 16, 0, 0));
}
