//! What restitution achieves: when a correction leaves a pair at rest, when
//! that lasts to the end of the batch, and when a second pass over the same
//! batch changes nothing.

use crate::collider::{ColliderID, Contact, Mobile, Wall};
use crate::geometry::{Axis, Rect};
use crate::priority::{
    by_priority, lemma_by_priority_idempotent, lemma_by_priority_sorts, lemma_slot, slot,
};
use crate::restitution::{
    correction_of, due, lemma_settled_len, pair_of, resolved, restituted, settled, Correction,
};
use vstd::prelude::*;

verus! {

/// The projections of the two rectangles on `axis` are staggered: one of
/// them starts and ends no later than the other. What is left out is a
/// projection that lies strictly inside the other, with room on both sides.
pub open spec fn staggered(ra: Rect, rb: Rect, axis: Axis) -> bool {
    ||| ra.low(axis) <= rb.low(axis) && ra.high(axis) <= rb.high(axis)
    ||| rb.low(axis) <= ra.low(axis) && rb.high(axis) <= ra.high(axis)
}

/// Moving `r` by `amount` along `axis` keeps its origin within 32 bits, so
/// the move is not cut short.
pub open spec fn in_range(r: Rect, axis: Axis, amount: int) -> bool {
    i32::MIN <= r.low(axis) + amount <= i32::MAX
}

/// The correction of the pair, if one is due, separates it: on the axis of
/// the correction the projections are staggered or merely meet, and neither
/// move is cut short at the end of the coordinate range.
pub open spec fn separable(ra: Rect, rb: Rect, shared: bool) -> bool {
    correction_of(ra, rb, shared) matches Some(k) ==> {
        &&& staggered(ra, rb, k.axis) || ra.depth(rb, k.axis) == 0
        &&& in_range(ra, k.axis, k.first as int)
        &&& in_range(rb, k.axis, k.second as int)
    }
}

/// The pair that `c` names, if any, is separable in the present state.
pub open spec fn cleanly_separable(statics: Seq<Wall>, bodies: Seq<Mobile>, c: Contact) -> bool {
    pair_of(statics, bodies, c) matches Some((ra, rb)) ==> separable(ra, rb, c.b is Dynamic)
}

/// The pair that `c` names, if any, does not penetrate in the present state.
pub open spec fn clear(statics: Seq<Wall>, bodies: Seq<Mobile>, c: Contact) -> bool {
    pair_of(statics, bodies, c) matches Some((ra, rb)) ==> !ra.penetrates(rb)
}

/// `c` has nothing left to do: either no correction is due, or the one due
/// moves nothing and the bodies it would stop already stand still on its
/// axis.
pub open spec fn at_rest(statics: Seq<Wall>, bodies: Seq<Mobile>, c: Contact) -> bool {
    due(statics, bodies, c) matches Some(k) ==> {
        &&& k.first == 0
        &&& k.second == 0
        &&& bodies[c.a->Dynamic_0 as int].velocity(k.axis) == 0
        &&& c.b matches ColliderID::Dynamic(j) ==> bodies[j as int].velocity(k.axis) == 0
    }
}

/// A correction is applied after position `i` of `order` to a body of the
/// contact at `i`.
pub open spec fn superseded(
    statics: Seq<Wall>,
    bodies: Seq<Mobile>,
    order: Seq<Contact>,
    i: int,
) -> bool {
    exists|j: int|
        i < j < order.len() && !(#[trigger] order[j]).independent(order[i]) && due(
            statics,
            settled(statics, bodies, order, j as nat),
            order[j],
        ) is Some
}

/// No two contacts of the batch are about the same body.
pub open spec fn pairwise_independent(cs: Seq<Contact>) -> bool {
    forall|i: int, j: int| 0 <= i < j < cs.len() ==> cs[i].independent(cs[j])
}

/// Separating a separable pair leaves it edge to edge on the axis of the
/// correction: still touching, no longer penetrating, and with a further
/// correction that moves nothing.
pub proof fn lemma_correction_separates(ra: Rect, rb: Rect, shared: bool)
    requires
        ra.touches(rb),
        separable(ra, rb, shared),
    ensures
        correction_of(ra, rb, shared) matches Some(k) && {
            let ra2 = ra.slid(k.axis, k.first as int);
            let rb2 = rb.slid(k.axis, k.second as int);
            &&& ra2.depth(rb2, k.axis) == 0
            &&& ra2.touches(rb2)
            &&& !ra2.penetrates(rb2)
            &&& correction_of(ra2, rb2, shared) == Some(
                Correction { axis: k.axis, first: 0, second: 0 },
            )
        },
{
}

/// The correction of a touching pair that is not separable leaves the pair
/// penetrating: separability is exactly what a correction needs to succeed.
pub proof fn lemma_correction_needs_separable(ra: Rect, rb: Rect, shared: bool)
    requires
        ra.touches(rb),
        !separable(ra, rb, shared),
    ensures
        correction_of(ra, rb, shared) matches Some(k) && ra.slid(k.axis, k.first as int).penetrates(
            rb.slid(k.axis, k.second as int),
        ),
{
}

/// A contact's turn keeps the number of bodies and changes no body but the
/// ones the contact is about.
pub proof fn lemma_resolved_frame(statics: Seq<Wall>, bodies: Seq<Mobile>, c: Contact)
    ensures
        resolved(statics, bodies, c).len() == bodies.len(),
        forall|idx: int|
            0 <= idx < bodies.len() && !c.involves(ColliderID::Dynamic(idx as usize))
                ==> #[trigger] resolved(statics, bodies, c)[idx] == bodies[idx],
{
}

/// What a contact calls for depends only on the bodies it is about.
pub proof fn lemma_contact_framed(
    statics: Seq<Wall>,
    before: Seq<Mobile>,
    after: Seq<Mobile>,
    c: Contact,
)
    requires
        before.len() == after.len(),
        forall|idx: int|
            0 <= idx < before.len() && c.involves(ColliderID::Dynamic(idx as usize))
                ==> #[trigger] after[idx] == before[idx],
    ensures
        pair_of(statics, after, c) == pair_of(statics, before, c),
        due(statics, after, c) == due(statics, before, c),
        at_rest(statics, after, c) == at_rest(statics, before, c),
        clear(statics, after, c) == clear(statics, before, c),
        cleanly_separable(statics, after, c) == cleanly_separable(statics, before, c),
{

}

/// Pushing a body moves its rectangle along the axis and stops it there.
proof fn lemma_pushed(body: Mobile, axis: Axis, amount: int)
    ensures
        body.pushed(axis, amount).rect == body.rect.slid(axis, amount),
        body.pushed(axis, amount).velocity(axis) == 0,
{
}

/// Sliding by nothing leaves a rectangle where it is.
proof fn lemma_slid_zero(r: Rect, axis: Axis)
    ensures
        r.slid(axis, 0) == r,
{
}

/// After its turn a contact whose pair was separable is at rest, and its
/// pair does not penetrate.
pub proof fn lemma_resolved_contact_rests(statics: Seq<Wall>, bodies: Seq<Mobile>, c: Contact)
    requires
        cleanly_separable(statics, bodies, c),
    ensures
        at_rest(statics, resolved(statics, bodies, c), c),
        clear(statics, resolved(statics, bodies, c), c),
{
    let after = resolved(statics, bodies, c);
    match pair_of(statics, bodies, c) {
        Some((ra, rb)) => {
            if ra.touches(rb) {
                let shared = c.b is Dynamic;
                let i = c.a->Dynamic_0 as int;
                let k = correction_of(ra, rb, shared)->Some_0;
                lemma_correction_separates(ra, rb, shared);
                lemma_pushed(bodies[i], k.axis, k.first as int);
                match c.b {
                    ColliderID::Static(_) => {
                        lemma_slid_zero(rb, k.axis);
                    },
                    ColliderID::Dynamic(j) => {
                        let moved = bodies[j as int].pushed(k.axis, k.second as int);
                        lemma_pushed(bodies[j as int], k.axis, k.second as int);
                        assert(after == bodies.update(
                            i,
                            bodies[i].pushed(k.axis, k.first as int),
                        ).update(j as int, moved));
                        assert(after[j as int] == moved);
                    },
                }
            } else {
                assert(!ra.penetrates(rb));
            }
        },
        None => {},
    }
}

/// The turn of a contact at rest changes nothing.
pub proof fn lemma_rest_unchanged(statics: Seq<Wall>, bodies: Seq<Mobile>, c: Contact)
    requires
        at_rest(statics, bodies, c),
    ensures
        resolved(statics, bodies, c) == bodies,
{
}

/// A state in which every contact of `order` is at rest is a fixed point:
/// giving the contacts their turns, any number of them, changes nothing.
pub proof fn lemma_rest_is_fixed(
    statics: Seq<Wall>,
    bodies: Seq<Mobile>,
    order: Seq<Contact>,
    n: nat,
)
    requires
        n <= order.len(),
        forall|k: int| 0 <= k < order.len() ==> at_rest(statics, bodies, #[trigger] order[k]),
    ensures
        settled(statics, bodies, order, n) == bodies,
    decreases n,
{
    if n > 0 {
        lemma_rest_is_fixed(statics, bodies, order, (n - 1) as nat);
        lemma_rest_unchanged(statics, bodies, order[n - 1]);
    }
}

/// The bodies of the contact at `i` stay as its turn left them for as long
/// as no later correction is applied to one of them.
proof fn lemma_unsuperseded_kept(
    statics: Seq<Wall>,
    bodies: Seq<Mobile>,
    order: Seq<Contact>,
    i: int,
    n: nat,
)
    requires
        0 <= i < n <= order.len(),
        !superseded(statics, bodies, order, i),
    ensures
        settled(statics, bodies, order, n).len() == bodies.len(),
        forall|idx: int|
            0 <= idx < bodies.len() && order[i].involves(ColliderID::Dynamic(idx as usize))
                ==> #[trigger] settled(statics, bodies, order, n)[idx] == settled(
                statics,
                bodies,
                order,
                (i + 1) as nat,
            )[idx],
    decreases n,
{
    lemma_settled_len(statics, bodies, order, n);
    if n > i + 1 {
        let before = settled(statics, bodies, order, (n - 1) as nat);
        lemma_unsuperseded_kept(statics, bodies, order, i, (n - 1) as nat);
        lemma_resolved_frame(statics, before, order[n - 1]);
    }
}

/// A contact that is not superseded ends the batch as its turn left it.
///
/// Take the contact at position `i` of an order of resolution. If no
/// correction applied later in the order moves a body of its pair, the pair
/// is at the end where it was right after the turn of the contact. So a
/// pair found apart when its turn came is apart at the end, and one that was
/// separable then leaves the contact at rest at the end, without
/// penetration.
pub proof fn lemma_settled_separates(
    statics: Seq<Wall>,
    bodies: Seq<Mobile>,
    order: Seq<Contact>,
    i: int,
)
    requires
        0 <= i < order.len(),
        !superseded(statics, bodies, order, i),
    ensures
        pair_of(statics, settled(statics, bodies, order, order.len()), order[i]) == pair_of(
            statics,
            settled(statics, bodies, order, (i + 1) as nat),
            order[i],
        ),
        due(statics, settled(statics, bodies, order, i as nat), order[i]) is None ==> due(
            statics,
            settled(statics, bodies, order, order.len()),
            order[i],
        ) is None,
        cleanly_separable(statics, settled(statics, bodies, order, i as nat), order[i]) ==> {
            &&& at_rest(statics, settled(statics, bodies, order, order.len()), order[i])
            &&& clear(statics, settled(statics, bodies, order, order.len()), order[i])
        },
{
    let before = settled(statics, bodies, order, i as nat);
    let after = settled(statics, bodies, order, (i + 1) as nat);
    let last = settled(statics, bodies, order, order.len());
    lemma_settled_len(statics, bodies, order, (i + 1) as nat);
    lemma_unsuperseded_kept(statics, bodies, order, i, order.len());
    lemma_contact_framed(statics, after, last, order[i]);
    if cleanly_separable(statics, before, order[i]) {
        lemma_resolved_contact_rests(statics, before, order[i]);
    }
}

/// Restitution separates what it is given, unless a later correction
/// interferes.
///
/// Take any contact of a batch, at its position `i` in the order of
/// resolution. If the pair it names is separable when its turn comes, and
/// no correction applied later in the batch moves a body of that pair, then
/// after restitution the contact is at rest and its pair does not
/// penetrate: the pair is apart, or edge to edge on the axis of its
/// correction. A pair left edge to edge still touches; what restitution
/// removes is the penetration. A pair that was apart when its turn came is
/// still apart.
pub proof fn lemma_restitution_separates(
    statics: Seq<Wall>,
    bodies: Seq<Mobile>,
    contacts: Seq<Contact>,
    i: int,
)
    requires
        0 <= i < contacts.len(),
        cleanly_separable(
            statics,
            settled(statics, bodies, by_priority(contacts), i as nat),
            by_priority(contacts)[i],
        ),
        !superseded(statics, bodies, by_priority(contacts), i),
    ensures
        at_rest(statics, restituted(statics, bodies, contacts), by_priority(contacts)[i]),
        clear(statics, restituted(statics, bodies, contacts), by_priority(contacts)[i]),
        due(
            statics,
            settled(statics, bodies, by_priority(contacts), i as nat),
            by_priority(contacts)[i],
        ) is None ==> due(
            statics,
            restituted(statics, bodies, contacts),
            by_priority(contacts)[i],
        ) is None,
{
    lemma_by_priority_sorts(contacts);
    lemma_settled_separates(statics, bodies, by_priority(contacts), i);
}

/// Ordering by priority brings in no contact that was not there.
proof fn lemma_by_priority_members(cs: Seq<Contact>)
    ensures
        forall|k: int|
            0 <= k < by_priority(cs).len() ==> cs.contains(#[trigger] by_priority(cs)[k]),
{
    broadcast use vstd::seq_lib::group_to_multiset_ensures;

    lemma_by_priority_sorts(cs);
    let sorted = by_priority(cs);
    assert forall|k: int| 0 <= k < sorted.len() implies cs.contains(#[trigger] sorted[k]) by {
        assert(sorted.to_multiset().count(sorted[k]) > 0);
    }
}

/// Ordering by priority keeps a batch pairwise independent.
proof fn lemma_by_priority_independent(cs: Seq<Contact>)
    requires
        pairwise_independent(cs),
    ensures
        pairwise_independent(by_priority(cs)),
    decreases cs.len(),
{
    if cs.len() > 0 {
        let front = cs.drop_last();
        let head = by_priority(front);
        let c = cs.last();
        assert forall|i: int, j: int| 0 <= i < j < front.len() implies front[i].independent(
            front[j],
        ) by {
            assert(cs[i].independent(cs[j]));
        }
        lemma_by_priority_independent(front);
        lemma_by_priority_members(front);
        lemma_by_priority_sorts(front);
        lemma_slot(head, c);
        assert forall|k: int| 0 <= k < head.len() implies (#[trigger] head[k]).independent(c)
            && c.independent(head[k]) by {
            let m = choose|m: int| 0 <= m < front.len() && front[m] == head[k];
            assert(cs[m].independent(cs[cs.len() - 1]));
        }
    }
}

/// Restitution changes nothing where nothing is left to do: if every
/// contact of the batch is at rest, the bodies stay as they are.
pub proof fn lemma_restitution_keeps_rest(
    statics: Seq<Wall>,
    bodies: Seq<Mobile>,
    contacts: Seq<Contact>,
)
    requires
        forall|k: int| 0 <= k < contacts.len() ==> at_rest(statics, bodies, #[trigger] contacts[k]),
    ensures
        restituted(statics, bodies, contacts) == bodies,
{
    let order = by_priority(contacts);
    lemma_by_priority_sorts(contacts);
    lemma_by_priority_members(contacts);
    lemma_rest_is_fixed(statics, bodies, order, order.len());
}

/// A second pass over the same batch changes nothing, provided the first
/// did its work.
///
/// If every contact of the batch names a pair that is separable when its
/// turn comes, and none is superseded by a later correction, then
/// restitution leaves every contact at rest, and restituting again, with
/// the contacts as given or as the first pass ordered them, returns the same
/// bodies.
pub proof fn lemma_restitution_idempotent(
    statics: Seq<Wall>,
    bodies: Seq<Mobile>,
    contacts: Seq<Contact>,
)
    requires
        forall|i: int|
            0 <= i < contacts.len() ==> cleanly_separable(
                statics,
                settled(statics, bodies, by_priority(contacts), i as nat),
                #[trigger] by_priority(contacts)[i],
            ),
        forall|i: int|
            0 <= i < contacts.len() ==> !superseded(statics, bodies, by_priority(contacts), i),
    ensures
        by_priority(by_priority(contacts)) == by_priority(contacts),
        forall|i: int|
            0 <= i < contacts.len() ==> at_rest(
                statics,
                restituted(statics, bodies, contacts),
                #[trigger] by_priority(contacts)[i],
            ),
        restituted(statics, restituted(statics, bodies, contacts), by_priority(contacts))
            == restituted(statics, bodies, contacts),
        restituted(statics, restituted(statics, bodies, contacts), contacts) == restituted(
            statics,
            bodies,
            contacts,
        ),
{
    let order = by_priority(contacts);
    let once = restituted(statics, bodies, contacts);
    lemma_by_priority_sorts(contacts);
    lemma_by_priority_idempotent(contacts);
    assert forall|k: int| 0 <= k < order.len() implies at_rest(
        statics,
        once,
        #[trigger] order[k],
    ) by {
        lemma_settled_separates(statics, bodies, order, k);
    }
    lemma_rest_is_fixed(statics, once, order, order.len());
}

/// In a pairwise independent order every contact meets its bodies as they
/// were at the start.
proof fn lemma_independent_untouched(
    statics: Seq<Wall>,
    bodies: Seq<Mobile>,
    order: Seq<Contact>,
    n: nat,
)
    requires
        n <= order.len(),
        pairwise_independent(order),
    ensures
        settled(statics, bodies, order, n).len() == bodies.len(),
        forall|m: int, idx: int|
            n <= m < order.len() && 0 <= idx < bodies.len() && #[trigger] order[m].involves(
                ColliderID::Dynamic(idx as usize),
            ) ==> settled(statics, bodies, order, n)[idx] == bodies[idx],
    decreases n,
{
    if n > 0 {
        let before = settled(statics, bodies, order, (n - 1) as nat);
        lemma_independent_untouched(statics, bodies, order, (n - 1) as nat);
        lemma_resolved_frame(statics, before, order[n - 1]);
        assert forall|m: int, idx: int|
            n <= m < order.len() && 0 <= idx < bodies.len() && #[trigger] order[m].involves(
                ColliderID::Dynamic(idx as usize),
            ) implies settled(statics, bodies, order, n)[idx] == bodies[idx] by {
            assert(order[n - 1].independent(order[m]));
        }
    }
}

/// A second pass over the same batch changes nothing, for a batch of
/// independent, separable contacts. This is the case that can be told from
/// the state before restitution alone.
///
/// If no two contacts of the batch are about the same body, and every pair
/// named is separable at the start, then restitution leaves every contact at
/// rest, and restituting again, with the contacts as given or as the first
/// pass ordered them, returns the same bodies.
pub proof fn lemma_independent_restitution_idempotent(
    statics: Seq<Wall>,
    bodies: Seq<Mobile>,
    contacts: Seq<Contact>,
)
    requires
        pairwise_independent(contacts),
        forall|k: int|
            0 <= k < contacts.len() ==> cleanly_separable(statics, bodies, #[trigger] contacts[k]),
    ensures
        forall|i: int|
            0 <= i < contacts.len() ==> at_rest(
                statics,
                restituted(statics, bodies, contacts),
                #[trigger] by_priority(contacts)[i],
            ),
        restituted(statics, restituted(statics, bodies, contacts), by_priority(contacts))
            == restituted(statics, bodies, contacts),
        restituted(statics, restituted(statics, bodies, contacts), contacts) == restituted(
            statics,
            bodies,
            contacts,
        ),
{
    let order = by_priority(contacts);
    lemma_by_priority_sorts(contacts);
    lemma_by_priority_independent(contacts);
    lemma_by_priority_members(contacts);
    assert forall|i: int| 0 <= i < order.len() implies cleanly_separable(
        statics,
        settled(statics, bodies, order, i as nat),
        #[trigger] order[i],
    ) by {
        assert(contacts.contains(order[i]));
        lemma_independent_untouched(statics, bodies, order, i as nat);
        lemma_contact_framed(statics, bodies, settled(statics, bodies, order, i as nat), order[i]);
    }
    assert forall|i: int| 0 <= i < order.len() implies !superseded(statics, bodies, order, i) by {
        assert forall|j: int| i < j < order.len() implies (#[trigger] order[j]).independent(
            order[i],
        ) by {
            assert(order[i].independent(order[j]));
        }
    }
    lemma_restitution_idempotent(statics, bodies, contacts);
}

} // verus!
