//! The order in which a batch of contacts is resolved: deepest first.

use crate::collider::Contact;
use vstd::prelude::*;

verus! {

/// No contact is followed by a deeper one.
pub open spec fn descending(cs: Seq<Contact>) -> bool {
    forall|i: int, j: int| 0 <= i < j < cs.len() ==> cs[i].magnitude() >= cs[j].magnitude()
}

/// Where `c` goes in `sorted`: directly behind the last contact that is at
/// least as deep as `c`, at the front if there is none.
pub open spec fn slot(sorted: Seq<Contact>, c: Contact) -> int
    decreases sorted.len(),
{
    if sorted.len() == 0 {
        0
    } else if sorted.last().magnitude() >= c.magnitude() {
        sorted.len() as int
    } else {
        slot(sorted.drop_last(), c)
    }
}

/// The contacts by descending squared overlap. Contacts of equal depth keep
/// the order they came in.
pub open spec fn by_priority(cs: Seq<Contact>) -> Seq<Contact>
    decreases cs.len(),
{
    if cs.len() == 0 {
        Seq::empty()
    } else {
        let head = by_priority(cs.drop_last());
        head.insert(slot(head, cs.last()), cs.last())
    }
}

/// The test for a squared overlap of exactly `m`.
pub open spec fn has_depth(m: int) -> spec_fn(Contact) -> bool {
    |c: Contact| c.magnitude() == m
}

/// The contacts of `cs` whose squared overlap is `m`, in the order they have
/// in `cs`.
pub open spec fn of_depth(cs: Seq<Contact>, m: int) -> Seq<Contact> {
    cs.filter(has_depth(m))
}

/// The slot lies within the sequence, everything from it on is shallower
/// than `c`, and the contact just before it is at least as deep.
pub proof fn lemma_slot(sorted: Seq<Contact>, c: Contact)
    ensures
        0 <= slot(sorted, c) <= sorted.len(),
        forall|k: int|
            slot(sorted, c) <= k < sorted.len() ==> sorted[k].magnitude() < c.magnitude(),
        slot(sorted, c) > 0 ==> sorted[slot(sorted, c) - 1].magnitude() >= c.magnitude(),
    decreases sorted.len(),
{
    if sorted.len() > 0 && sorted.last().magnitude() < c.magnitude() {
        let front = sorted.drop_last();
        lemma_slot(front, c);
        assert forall|k: int| slot(sorted, c) <= k < sorted.len() implies sorted[k].magnitude()
            < c.magnitude() by {
            if k < front.len() {
                assert(sorted[k] == front[k]);
            }
        }
    }
}

/// Ordering by priority yields a descending sequence with the same contacts,
/// each as often as before.
pub proof fn lemma_by_priority_sorts(cs: Seq<Contact>)
    ensures
        by_priority(cs).len() == cs.len(),
        descending(by_priority(cs)),
        by_priority(cs).to_multiset() == cs.to_multiset(),
    decreases cs.len(),
{
    broadcast use vstd::seq_lib::group_to_multiset_ensures;

    if cs.len() > 0 {
        let head = by_priority(cs.drop_last());
        let c = cs.last();
        lemma_by_priority_sorts(cs.drop_last());
        lemma_slot(head, c);
        assert(cs =~= cs.drop_last().push(c));
    }
}

/// A sequence that is already descending is left as it is.
pub proof fn lemma_by_priority_keeps_descending(cs: Seq<Contact>)
    requires
        descending(cs),
    ensures
        by_priority(cs) == cs,
    decreases cs.len(),
{
    if cs.len() > 0 {
        lemma_by_priority_keeps_descending(cs.drop_last());
    }
}

/// Where no contact has depth `m`, none is selected.
proof fn lemma_none_of_depth(cs: Seq<Contact>, m: int)
    requires
        forall|k: int| 0 <= k < cs.len() ==> cs[k].magnitude() != m,
    ensures
        of_depth(cs, m) == Seq::<Contact>::empty(),
    decreases cs.len(),
{
    reveal(Seq::filter);
    if cs.len() > 0 {
        lemma_none_of_depth(cs.drop_last(), m);
    }
}

/// Ordering by priority is stable: the contacts of any one depth stand in
/// the order in which they were given.
pub proof fn lemma_by_priority_stable(cs: Seq<Contact>, m: int)
    ensures
        of_depth(by_priority(cs), m) == of_depth(cs, m),
    decreases cs.len(),
{
    if cs.len() > 0 {
        let front = cs.drop_last();
        let c = cs.last();
        let head = by_priority(front);
        let at = slot(head, c);
        let lo = head.take(at);
        let hi = head.skip(at);
        let pred = has_depth(m);
        lemma_by_priority_stable(front, m);
        lemma_slot(head, c);
        assert(head =~= lo + hi);
        assert(cs =~= front.push(c));
        Seq::filter_distributes_over_add(lo, hi, pred);
        Seq::filter_distributes_over_add(lo.push(c), hi, pred);
        lo.lemma_filter_push(c, pred);
        front.lemma_filter_push(c, pred);
        if c.magnitude() == m {
            lemma_none_of_depth(hi, m);
        }
    }
}

/// Ordering twice is the same as ordering once.
pub proof fn lemma_by_priority_idempotent(cs: Seq<Contact>)
    ensures
        by_priority(by_priority(cs)) == by_priority(cs),
{
    lemma_by_priority_sorts(cs);
    lemma_by_priority_keeps_descending(by_priority(cs));
}

/// Reorders `contacts` by descending squared overlap, keeping contacts of
/// equal depth in the order they had.
pub fn sort_by_priority(contacts: &mut Vec<Contact>)
    ensures
        final(contacts)@ == by_priority(old(contacts)@),
        descending(final(contacts)@),
        final(contacts)@.to_multiset() == old(contacts)@.to_multiset(),
        forall|m: int| of_depth(final(contacts)@, m) == #[trigger] of_depth(old(contacts)@, m),
{
    let mut sorted: Vec<Contact> = Vec::new();
    let mut i: usize = 0;
    while i < contacts.len()
        invariant
            i <= contacts.len(),
            contacts@ == old(contacts)@,
            sorted@ == by_priority(contacts@.take(i as int)),
        decreases contacts.len() - i,
    {
        let c = contacts[i];
        let w = c.weight();
        let mut j: usize = sorted.len();
        assert(sorted@.take(j as int) =~= sorted@);
        while j > 0 && sorted[j - 1].weight() < w
            invariant
                j <= sorted.len(),
                w == c.magnitude(),
                slot(sorted@, c) == slot(sorted@.take(j as int), c),
            decreases j,
        {
            proof {
                assert(sorted@.take(j as int).drop_last() =~= sorted@.take(j - 1));
            }
            j -= 1;
        }
        proof {
            assert(contacts@.take(i + 1).drop_last() =~= contacts@.take(i as int));
        }
        sorted.insert(j, c);
        i += 1;
    }
    proof {
        assert(contacts@.take(i as int) =~= contacts@);
        lemma_by_priority_sorts(contacts@);
        assert forall|m: int| of_depth(sorted@, m) == #[trigger] of_depth(contacts@, m) by {
            lemma_by_priority_stable(contacts@, m);
        }
    }
    *contacts = sorted;
}

} // verus!
