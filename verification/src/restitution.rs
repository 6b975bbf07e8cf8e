//! Restitution: pushing touching colliders apart, deepest contact first.
//!
//! A batch of contacts is a worklist. Each contact is looked at again when
//! its turn comes, against the rectangles as they are then: an earlier
//! correction may have separated the pair, or moved it. A pair that still
//! touches is separated along the axis on which it overlaps least.

use crate::collider::{ColliderID, Contact, Mobile, Wall};
use crate::geometry::{overlap, Axis, Rect};
use crate::priority::{by_priority, descending, lemma_by_priority_sorts, sort_by_priority};
use vstd::prelude::*;

verus! {

/// How a touching pair is separated: the axis, and the signed distance each
/// of the two rectangles moves along it.
#[derive(Clone, Copy, Debug, PartialEq, Eq, Structural)]
pub struct Correction {
    pub axis: Axis,
    pub first: i32,
    pub second: i32,
}

/// The axis of least penetration; the x axis when both are equal.
pub open spec fn least_axis(ra: Rect, rb: Rect) -> Axis {
    if ra.depth(rb, Axis::X) <= ra.depth(rb, Axis::Y) {
        Axis::X
    } else {
        Axis::Y
    }
}

/// The correction for the pair `(ra, rb)`, or `None` if it does not touch.
///
/// The pair separates along its axis of least penetration by the depth on
/// that axis. `ra` moves away from the centre of `rb`: towards lower
/// coordinates if its centre is not beyond that of `rb`, else towards higher
/// ones. When the correction is `shared`, `ra` moves half the depth, rounded
/// down, and `rb` the rest the other way; otherwise `ra` moves all of it and
/// `rb` stays.
pub open spec fn correction_of(ra: Rect, rb: Rect, shared: bool) -> Option<Correction> {
    if ra.touches(rb) {
        let axis = least_axis(ra, rb);
        let depth = ra.depth(rb, axis);
        let part = if shared {
            depth / 2
        } else {
            depth
        };
        let rest = depth - part;
        if ra.centre2(axis) <= rb.centre2(axis) {
            Some(Correction { axis, first: (-part) as i32, second: rest as i32 })
        } else {
            Some(Correction { axis, first: part as i32, second: (-rest) as i32 })
        }
    } else {
        None
    }
}

/// The rectangles that `c` is about, if it names a body and a collider
/// other than that body, both within the lists.
pub open spec fn pair_of(statics: Seq<Wall>, bodies: Seq<Mobile>, c: Contact) -> Option<
    (Rect, Rect),
> {
    match c.a {
        ColliderID::Dynamic(i) => if i < bodies.len() {
            match c.b {
                ColliderID::Static(j) => if j < statics.len() {
                    Some((bodies[i as int].rect, statics[j as int].rect))
                } else {
                    None
                },
                ColliderID::Dynamic(j) => if j < bodies.len() && j != i {
                    Some((bodies[i as int].rect, bodies[j as int].rect))
                } else {
                    None
                },
            }
        } else {
            None
        },
        ColliderID::Static(_) => None,
    }
}

/// The correction that `c` calls for in the present state: that of its pair,
/// shared if both colliders are bodies. `None` if `c` names no pair or the
/// pair no longer touches.
pub open spec fn due(statics: Seq<Wall>, bodies: Seq<Mobile>, c: Contact) -> Option<Correction> {
    match pair_of(statics, bodies, c) {
        Some((ra, rb)) => correction_of(ra, rb, c.b is Dynamic),
        None => None,
    }
}

/// The bodies after `c` has had its turn. A contact with no correction due
/// changes nothing. Otherwise body `a` is pushed by the first part of the
/// correction and, if `b` is a body, `b` by the second.
pub open spec fn resolved(statics: Seq<Wall>, bodies: Seq<Mobile>, c: Contact) -> Seq<Mobile> {
    match due(statics, bodies, c) {
        None => bodies,
        Some(k) => {
            let i = c.a->Dynamic_0 as int;
            let once = bodies.update(i, bodies[i].pushed(k.axis, k.first as int));
            match c.b {
                ColliderID::Static(_) => once,
                ColliderID::Dynamic(j) => once.update(
                    j as int,
                    bodies[j as int].pushed(k.axis, k.second as int),
                ),
            }
        },
    }
}

/// The bodies after the first `n` contacts of `order` have had their turn,
/// one after the other.
pub open spec fn settled(
    statics: Seq<Wall>,
    bodies: Seq<Mobile>,
    order: Seq<Contact>,
    n: nat,
) -> Seq<Mobile>
    decreases n,
{
    if n == 0 {
        bodies
    } else {
        resolved(statics, settled(statics, bodies, order, (n - 1) as nat), order[n - 1])
    }
}

/// The bodies after a whole batch: the contacts take their turn by
/// descending squared overlap.
pub open spec fn restituted(statics: Seq<Wall>, bodies: Seq<Mobile>, contacts: Seq<Contact>) -> Seq<
    Mobile,
> {
    settled(statics, bodies, by_priority(contacts), contacts.len())
}

/// Giving contacts their turns keeps the number of bodies.
pub proof fn lemma_settled_len(
    statics: Seq<Wall>,
    bodies: Seq<Mobile>,
    order: Seq<Contact>,
    n: nat,
)
    ensures
        settled(statics, bodies, order, n).len() == bodies.len(),
    decreases n,
{
    if n > 0 {
        lemma_settled_len(statics, bodies, order, (n - 1) as nat);
    }
}

/// Restitution keeps the number of bodies.
pub proof fn lemma_restituted_len(statics: Seq<Wall>, bodies: Seq<Mobile>, contacts: Seq<Contact>)
    ensures
        restituted(statics, bodies, contacts).len() == bodies.len(),
{
    lemma_settled_len(statics, bodies, by_priority(contacts), contacts.len());
}

/// Computes the correction for the pair `(ra, rb)`.
pub fn correction(ra: Rect, rb: Rect, shared: bool) -> (found: Option<Correction>)
    ensures
        found == correction_of(ra, rb, shared),
        found is Some <==> ra.touches(rb),
{
    let (dx, dy) = match overlap(ra, rb) {
        Some(depths) => depths,
        None => {
            return None;
        },
    };
    let on_x: bool = dx <= dy;
    let depth: i32 = if on_x {
        dx as i32
    } else {
        dy as i32
    };
    let part: i32 = if shared {
        depth / 2
    } else {
        depth
    };
    let rest: i32 = depth - part;
    let below: bool = if on_x {
        2 * (ra.x as i64) + ra.w as i64 <= 2 * (rb.x as i64) + rb.w as i64
    } else {
        2 * (ra.y as i64) + ra.h as i64 <= 2 * (rb.y as i64) + rb.h as i64
    };
    let axis = if on_x {
        Axis::X
    } else {
        Axis::Y
    };
    if below {
        Some(Correction { axis, first: -part, second: rest })
    } else {
        Some(Correction { axis, first: part, second: -rest })
    }
}

/// Gives one contact its turn: if it names a pair that still touches, the
/// pair is separated. Returns whether a correction was applied.
pub fn resolve(statics: &Vec<Wall>, dynamics: &mut Vec<Mobile>, c: Contact) -> (applied: bool)
    ensures
        final(dynamics)@ == resolved(statics@, old(dynamics)@, c),
        applied == due(statics@, old(dynamics)@, c) is Some,
{
    let i: usize = match c.a {
        ColliderID::Dynamic(i) => i,
        ColliderID::Static(_) => {
            return false;
        },
    };
    if i >= dynamics.len() {
        return false;
    }
    let mut first: Mobile = dynamics[i];
    match c.b {
        ColliderID::Static(j) => {
            if j >= statics.len() {
                return false;
            }
            match correction(first.rect, statics[j].rect, false) {
                Some(k) => {
                    first.push(k.axis, k.first);
                    dynamics.set(i, first);
                    true
                },
                None => false,
            }
        },
        ColliderID::Dynamic(j) => {
            if j >= dynamics.len() || j == i {
                return false;
            }
            let mut second: Mobile = dynamics[j];
            match correction(first.rect, second.rect, true) {
                Some(k) => {
                    first.push(k.axis, k.first);
                    second.push(k.axis, k.second);
                    dynamics.set(i, first);
                    dynamics.set(j, second);
                    true
                },
                None => false,
            }
        },
    }
}

/// Resolves a batch of contacts in place.
///
/// The contacts are first put in order of descending squared overlap, ties
/// in the order given. Each then has its turn against the rectangles as the
/// earlier corrections left them: one that names no pair of these lists, or
/// a pair that no longer touches, is passed over; a pair that touches is
/// separated along its axis of least penetration, by its penetration at that
/// moment, and its bodies are stopped on that axis.
pub fn restitute(statics: &Vec<Wall>, dynamics: &mut Vec<Mobile>, contacts: &mut Vec<Contact>)
    ensures
        final(contacts)@ == by_priority(old(contacts)@),
        descending(final(contacts)@),
        final(contacts)@.to_multiset() == old(contacts)@.to_multiset(),
        final(dynamics)@ == restituted(statics@, old(dynamics)@, old(contacts)@),
        final(dynamics)@.len() == old(dynamics)@.len(),
{
    sort_by_priority(contacts);
    proof {
        lemma_by_priority_sorts(old(contacts)@);
    }
    let mut n: usize = 0;
    while n < contacts.len()
        invariant
            n <= contacts.len(),
            contacts@ == by_priority(old(contacts)@),
            contacts@.len() == old(contacts)@.len(),
            dynamics@ == settled(statics@, old(dynamics)@, contacts@, n as nat),
            dynamics@.len() == old(dynamics)@.len(),
        decreases contacts.len() - n,
    {
        resolve(statics, dynamics, contacts[n]);
        n += 1;
    }
}

} // verus!
