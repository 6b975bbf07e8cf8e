//! Contact generation: every touching pair of a scene, found by comparing
//! each body with each later body and with each wall.

use crate::collider::{ColliderID, Contact, Mobile, Wall};
use crate::geometry::{overlap, overlap_of, Rect};
use vstd::prelude::*;
use vstd::seq_lib::{
    lemma_no_dup_in_concat, lemma_seq_concat_contains_all_elements, lemma_seq_contains_after_push,
    lemma_seq_empty_contains_nothing,
};

verus! {

/// The identifier of the body or the wall with index `j`.
pub open spec fn collider(dynamic: bool, j: int) -> ColliderID {
    if dynamic {
        ColliderID::Dynamic(j as usize)
    } else {
        ColliderID::Static(j as usize)
    }
}

/// The index that an identifier carries.
pub open spec fn index_of(id: ColliderID) -> int {
    match id {
        ColliderID::Static(j) => j as int,
        ColliderID::Dynamic(j) => j as int,
    }
}

/// The rectangle of the collider that `id` names.
pub open spec fn rect_at(statics: Seq<Wall>, bodies: Seq<Mobile>, id: ColliderID) -> Rect {
    match id {
        ColliderID::Static(j) => statics[j as int].rect,
        ColliderID::Dynamic(j) => bodies[j as int].rect,
    }
}

/// How many colliders of one kind the scene has.
pub open spec fn count_of(statics: Seq<Wall>, bodies: Seq<Mobile>, dynamic: bool) -> int {
    if dynamic {
        bodies.len() as int
    } else {
        statics.len() as int
    }
}

/// `c` is a contact of the scene: `a` is a body, `b` a wall or a body with a
/// higher index, the two touch, and `overlap` is their penetration.
pub open spec fn is_contact(statics: Seq<Wall>, bodies: Seq<Mobile>, c: Contact) -> bool {
    &&& c.a matches ColliderID::Dynamic(i)
    &&& i < bodies.len()
    &&& match c.b {
        ColliderID::Static(j) => j < statics.len(),
        ColliderID::Dynamic(j) => i < j < bodies.len(),
    }
    &&& overlap_of(bodies[i as int].rect, rect_at(statics, bodies, c.b)) == Some(c.overlap)
}

/// The contact of body `i` with the collider `id`, if the two touch.
pub open spec fn contact_with(
    statics: Seq<Wall>,
    bodies: Seq<Mobile>,
    i: int,
    id: ColliderID,
) -> Option<Contact> {
    match overlap_of(bodies[i].rect, rect_at(statics, bodies, id)) {
        Some(found) => Some(Contact { a: ColliderID::Dynamic(i as usize), b: id, overlap: found }),
        None => None,
    }
}

/// The contacts of body `i` with the colliders of one kind below index
/// `upto`, by ascending index. Among bodies only those after `i` count.
pub open spec fn row(
    statics: Seq<Wall>,
    bodies: Seq<Mobile>,
    i: int,
    dynamic: bool,
    upto: int,
) -> Seq<Contact>
    decreases upto,
{
    if upto <= 0 || (dynamic && upto <= i + 1) {
        Seq::empty()
    } else {
        let rest = row(statics, bodies, i, dynamic, upto - 1);
        match contact_with(statics, bodies, i, collider(dynamic, upto - 1)) {
            Some(c) => rest.push(c),
            None => rest,
        }
    }
}

/// The rows of the bodies below index `upto`, one after the other.
pub open spec fn rows(statics: Seq<Wall>, bodies: Seq<Mobile>, dynamic: bool, upto: int) -> Seq<
    Contact,
>
    decreases upto,
{
    if upto <= 0 {
        Seq::empty()
    } else {
        rows(statics, bodies, dynamic, upto - 1) + row(
            statics,
            bodies,
            upto - 1,
            dynamic,
            count_of(statics, bodies, dynamic),
        )
    }
}

/// The contacts of a scene in the order they are found: first those between
/// two bodies, then those between a body and a wall; within each kind by the
/// index of the body, then by the index of what it touches.
pub open spec fn gathered(statics: Seq<Wall>, bodies: Seq<Mobile>) -> Seq<Contact> {
    rows(statics, bodies, true, bodies.len() as int) + rows(
        statics,
        bodies,
        false,
        bodies.len() as int,
    )
}

/// A row holds exactly the contacts of its body with the colliders of its
/// kind below `upto`, each once.
pub proof fn lemma_row(statics: Seq<Wall>, bodies: Seq<Mobile>, i: int, dynamic: bool, upto: int)
    requires
        0 <= i < bodies.len() <= usize::MAX,
        statics.len() <= usize::MAX,
        upto <= count_of(statics, bodies, dynamic),
    ensures
        forall|c: Contact| #[trigger]
            row(statics, bodies, i, dynamic, upto).contains(c) <==> {
                &&& is_contact(statics, bodies, c)
                &&& c.a == ColliderID::Dynamic(i as usize)
                &&& c.b is Dynamic == dynamic
                &&& index_of(c.b) < upto
            },
        row(statics, bodies, i, dynamic, upto).no_duplicates(),
    decreases upto,
{
    let here = row(statics, bodies, i, dynamic, upto);
    if upto <= 0 || (dynamic && upto <= i + 1) {
        assert forall|c: Contact| !#[trigger] here.contains(c) by {
            lemma_seq_empty_contains_nothing(c);
        }
    } else {
        let rest = row(statics, bodies, i, dynamic, upto - 1);
        let id = collider(dynamic, upto - 1);
        lemma_row(statics, bodies, i, dynamic, upto - 1);
        match contact_with(statics, bodies, i, id) {
            Some(found) => {
                assert forall|c: Contact| #[trigger]
                    here.contains(c) <==> {
                        &&& is_contact(statics, bodies, c)
                        &&& c.a == ColliderID::Dynamic(i as usize)
                        &&& c.b is Dynamic == dynamic
                        &&& index_of(c.b) < upto
                    } by {
                    lemma_seq_contains_after_push(rest, found, c);
                }
                assert forall|p: int, q: int| 0 <= p < q < here.len() implies here[p]
                    != here[q] by {
                    if q == rest.len() {
                        assert(rest.contains(rest[p]));
                    }
                }
            },
            None => {},
        }
    }
}

/// The rows below `upto` hold exactly the contacts of their kind that a body
/// below `upto` has, each once.
pub proof fn lemma_rows(statics: Seq<Wall>, bodies: Seq<Mobile>, dynamic: bool, upto: int)
    requires
        upto <= bodies.len() <= usize::MAX,
        statics.len() <= usize::MAX,
    ensures
        forall|c: Contact| #[trigger]
            rows(statics, bodies, dynamic, upto).contains(c) <==> {
                &&& is_contact(statics, bodies, c)
                &&& c.b is Dynamic == dynamic
                &&& index_of(c.a) < upto
            },
        rows(statics, bodies, dynamic, upto).no_duplicates(),
    decreases upto,
{
    let here = rows(statics, bodies, dynamic, upto);
    if upto <= 0 {
        assert forall|c: Contact| !#[trigger] here.contains(c) by {
            lemma_seq_empty_contains_nothing(c);
        }
    } else {
        let above = rows(statics, bodies, dynamic, upto - 1);
        let last = row(statics, bodies, upto - 1, dynamic, count_of(statics, bodies, dynamic));
        lemma_rows(statics, bodies, dynamic, upto - 1);
        lemma_row(statics, bodies, upto - 1, dynamic, count_of(statics, bodies, dynamic));
        assert forall|c: Contact| #[trigger]
            here.contains(c) <==> {
                &&& is_contact(statics, bodies, c)
                &&& c.b is Dynamic == dynamic
                &&& index_of(c.a) < upto
            } by {
            lemma_seq_concat_contains_all_elements(above, last, c);
        }
        assert forall|p: int, q: int| 0 <= p < above.len() && 0 <= q < last.len() implies above[p]
            != last[q] by {
            assert(above.contains(above[p]));
            assert(last.contains(last[q]));
        }
        lemma_no_dup_in_concat(above, last);
    }
}

/// What is gathered is exactly the contacts of the scene, each once: one for
/// every touching pair of bodies, the lower index as `a`, one for every
/// touching pair of a body and a wall, and none for a pair that is apart.
pub proof fn lemma_gathered(statics: Seq<Wall>, bodies: Seq<Mobile>)
    requires
        bodies.len() <= usize::MAX,
        statics.len() <= usize::MAX,
    ensures
        forall|c: Contact| #[trigger]
            gathered(statics, bodies).contains(c) <==> is_contact(statics, bodies, c),
        gathered(statics, bodies).no_duplicates(),
{
    let n = bodies.len() as int;
    let pairs = rows(statics, bodies, true, n);
    let hits = rows(statics, bodies, false, n);
    lemma_rows(statics, bodies, true, n);
    lemma_rows(statics, bodies, false, n);
    assert forall|c: Contact| #[trigger]
        gathered(statics, bodies).contains(c) <==> is_contact(statics, bodies, c) by {
        lemma_seq_concat_contains_all_elements(pairs, hits, c);
    }
    assert forall|p: int, q: int| 0 <= p < pairs.len() && 0 <= q < hits.len() implies pairs[p]
        != hits[q] by {
        assert(pairs.contains(pairs[p]));
        assert(hits.contains(hits[q]));
    }
    lemma_no_dup_in_concat(pairs, hits);
}

/// Appends to `into` the contacts of one kind: of each body with the later
/// bodies, or of each body with the walls.
fn gather_kind(statics: &Vec<Wall>, dynamics: &Vec<Mobile>, dynamic: bool, into: &mut Vec<Contact>)
    ensures
        final(into)@ == old(into)@ + rows(statics@, dynamics@, dynamic, dynamics@.len() as int),
{
    let count: usize = if dynamic {
        dynamics.len()
    } else {
        statics.len()
    };
    let mut i: usize = 0;
    while i < dynamics.len()
        invariant
            i <= dynamics.len(),
            count == count_of(statics@, dynamics@, dynamic),
            into@ == old(into)@ + rows(statics@, dynamics@, dynamic, i as int),
        decreases dynamics.len() - i,
    {
        let ghost done = into@;
        let mine: Rect = dynamics[i].rect;
        let mut j: usize = if dynamic {
            i + 1
        } else {
            0
        };
        while j < count
            invariant
                i < dynamics.len(),
                j <= count,
                dynamic ==> j > i,
                count == count_of(statics@, dynamics@, dynamic),
                mine == dynamics@[i as int].rect,
                into@ == done + row(statics@, dynamics@, i as int, dynamic, j as int),
            decreases count - j,
        {
            let (id, theirs) = if dynamic {
                (ColliderID::Dynamic(j), dynamics[j].rect)
            } else {
                (ColliderID::Static(j), statics[j].rect)
            };
            match overlap(mine, theirs) {
                Some(found) => {
                    let c = Contact { a: ColliderID::Dynamic(i), b: id, overlap: found };
                    into.push(c);
                },
                None => {},
            }
            j += 1;
        }
        i += 1;
    }
}

/// Finds the contacts of a scene.
///
/// The result holds one contact for every pair of bodies that touch, with
/// the lower index as `a`, and one for every body and wall that touch, with
/// the body as `a`; each carries the penetration of its pair. Pairs that are
/// apart give none. Contacts between bodies come first.
pub fn gather_contacts(statics: &Vec<Wall>, dynamics: &Vec<Mobile>) -> (contacts: Vec<Contact>)
    ensures
        contacts@ == gathered(statics@, dynamics@),
        forall|c: Contact| #[trigger]
            contacts@.contains(c) <==> is_contact(statics@, dynamics@, c),
        contacts@.no_duplicates(),
{
    let mut contacts: Vec<Contact> = Vec::new();
    gather_kind(statics, dynamics, true, &mut contacts);
    gather_kind(statics, dynamics, false, &mut contacts);
    proof {
        assert(dynamics@.len() == dynamics.len() && statics@.len() == statics.len());
        lemma_gathered(statics@, dynamics@);
    }
    contacts
}

} // verus!
