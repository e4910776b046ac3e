//! How one bucket of handlers is ordered: highest priority first, and among
//! equal priorities whoever registered first.

use crate::handler::{ProtocolHandler, Registered};
use vstd::prelude::*;

verus! {

/// No entry is followed by one of higher priority.
pub open spec fn descending<H: ProtocolHandler + ?Sized>(bucket: Seq<Registered<H>>) -> bool {
    forall|i: int, j: int| 0 <= i < j < bucket.len() ==> bucket[i].priority >= bucket[j].priority
}

/// The place of a newcomer with the given priority: the length of the longest
/// run at the front of the bucket whose priorities are all at least as high.
pub open spec fn slot<H: ProtocolHandler + ?Sized>(bucket: Seq<Registered<H>>, priority: u8) -> int
    decreases bucket.len(),
{
    if bucket.len() == 0 || bucket[0].priority < priority {
        0
    } else {
        1 + slot(bucket.skip(1), priority)
    }
}

/// The bucket after `entry` has joined it.
pub open spec fn placed<H: ProtocolHandler + ?Sized>(
    bucket: Seq<Registered<H>>,
    entry: Registered<H>,
) -> Seq<Registered<H>> {
    bucket.insert(slot(bucket, entry.priority), entry)
}

/// The entries of the bucket that have exactly the given priority, in bucket
/// order.
pub open spec fn of_priority<H: ProtocolHandler + ?Sized>(
    bucket: Seq<Registered<H>>,
    priority: u8,
) -> Seq<Registered<H>> {
    bucket.filter(|e: Registered<H>| e.priority == priority)
}

/// The slot lies within the bucket, every entry before it has at least the
/// given priority, and the entry at the slot, if there is one, has less.
pub proof fn lemma_slot<H: ProtocolHandler + ?Sized>(bucket: Seq<Registered<H>>, priority: u8)
    ensures
        0 <= slot(bucket, priority) <= bucket.len(),
        forall|i: int| 0 <= i < slot(bucket, priority) ==> bucket[i].priority >= priority,
        slot(bucket, priority) < bucket.len() ==> bucket[slot(bucket, priority)].priority
            < priority,
    decreases bucket.len(),
{
    if bucket.len() == 0 || bucket[0].priority < priority {
    } else {
        let rest = bucket.skip(1);
        lemma_slot(rest, priority);
        assert forall|i: int| 0 <= i < slot(bucket, priority) implies bucket[i].priority
            >= priority by {
            if i > 0 {
                assert(bucket[i] == rest[i - 1]);
            }
        }
        if slot(bucket, priority) < bucket.len() {
            assert(bucket[slot(bucket, priority)] == rest[slot(rest, priority)]);
        }
    }
}

/// A position that separates the entries of at least the given priority from
/// an entry of lower priority (or from the end of the bucket) is the slot.
pub proof fn lemma_slot_found<H: ProtocolHandler + ?Sized>(
    bucket: Seq<Registered<H>>,
    priority: u8,
    at: int,
)
    requires
        0 <= at <= bucket.len(),
        forall|i: int| 0 <= i < at ==> bucket[i].priority >= priority,
        at < bucket.len() ==> bucket[at].priority < priority,
    ensures
        slot(bucket, priority) == at,
    decreases at,
{
    if at > 0 {
        let rest = bucket.skip(1);
        assert(bucket[0].priority >= priority);
        assert forall|i: int| 0 <= i < at - 1 implies rest[i].priority >= priority by {
            assert(rest[i] == bucket[i + 1]);
        }
        if at - 1 < rest.len() {
            assert(rest[at - 1] == bucket[at]);
        }
        lemma_slot_found(rest, priority, at - 1);
    }
}

/// Joining a bucket that is in descending order leaves it in descending
/// order.
pub proof fn lemma_placed_descending<H: ProtocolHandler + ?Sized>(
    bucket: Seq<Registered<H>>,
    entry: Registered<H>,
)
    requires
        descending(bucket),
    ensures
        descending(placed(bucket, entry)),
{
    lemma_slot(bucket, entry.priority);
    let at: int = slot(bucket, entry.priority);
    let after = placed(bucket, entry);
    assert forall|i: int, j: int| 0 <= i < j < after.len() implies after[i].priority
        >= after[j].priority by {
        if j == at {
            assert(after[i] == bucket[i]);
        } else if i == at {
            assert(after[j] == bucket[j - 1]);
            if at < j - 1 {
                assert(bucket[at].priority >= bucket[j - 1].priority);
            }
        } else {
            let old_i: int = if i < at { i } else { i - 1 };
            let old_j: int = if j < at { j } else { j - 1 };
            assert(after[i] == bucket[old_i]);
            assert(after[j] == bucket[old_j]);
        }
    }
}

/// The newcomer stands behind every entry of equal or higher priority and
/// before every entry of lower priority, and the entries that were there
/// keep their order: taking the newcomer out again gives the old bucket.
pub proof fn lemma_placed_position<H: ProtocolHandler + ?Sized>(
    bucket: Seq<Registered<H>>,
    entry: Registered<H>,
)
    requires
        descending(bucket),
    ensures
        ({
            let at: int = slot(bucket, entry.priority);
            let after = placed(bucket, entry);
            &&& 0 <= at <= bucket.len()
            &&& after.len() == bucket.len() + 1
            &&& after[at] == entry
            &&& after.remove(at) == bucket
            &&& forall|i: int| 0 <= i < at ==> after[i].priority >= entry.priority
            &&& forall|i: int| at < i < after.len() ==> after[i].priority < entry.priority
        }),
{
    lemma_slot(bucket, entry.priority);
    let at: int = slot(bucket, entry.priority);
    let after = placed(bucket, entry);
    assert(after.remove(at) =~= bucket);
    assert forall|i: int| at < i < after.len() implies after[i].priority < entry.priority by {
        assert(after[i] == bucket[i - 1]);
        if at < i - 1 {
            assert(bucket[at].priority >= bucket[i - 1].priority);
        }
    }
}

/// A run of entries none of which has the given priority holds no entry of
/// that priority.
proof fn lemma_none_of_priority<H: ProtocolHandler + ?Sized>(
    bucket: Seq<Registered<H>>,
    priority: u8,
)
    requires
        forall|i: int| 0 <= i < bucket.len() ==> bucket[i].priority != priority,
    ensures
        of_priority(bucket, priority) == Seq::<Registered<H>>::empty(),
    decreases bucket.len(),
{
    reveal(Seq::filter);
    if bucket.len() > 0 {
        let front = bucket.drop_last();
        assert forall|i: int| 0 <= i < front.len() implies front[i].priority != priority by {
            assert(front[i] == bucket[i]);
        }
        lemma_none_of_priority(front, priority);
    }
}

/// Stability: among the entries of one priority, the newcomer is last, and
/// the entries of every other priority are what they were.
pub proof fn lemma_placed_stable<H: ProtocolHandler + ?Sized>(
    bucket: Seq<Registered<H>>,
    entry: Registered<H>,
    priority: u8,
)
    requires
        descending(bucket),
    ensures
        of_priority(placed(bucket, entry), priority) == if entry.priority == priority {
            of_priority(bucket, priority).push(entry)
        } else {
            of_priority(bucket, priority)
        },
{
    lemma_slot(bucket, entry.priority);
    let at: int = slot(bucket, entry.priority);
    let same = |e: Registered<H>| e.priority == priority;
    let front = bucket.take(at);
    let back = bucket.skip(at);
    assert(placed(bucket, entry) =~= front.push(entry) + back);
    assert(bucket =~= front + back);
    Seq::filter_distributes_over_add(front.push(entry), back, same);
    Seq::filter_distributes_over_add(front, back, same);
    front.lemma_filter_push(entry, same);
    if entry.priority == priority {
        assert forall|i: int| 0 <= i < back.len() implies back[i].priority != priority by {
            assert(back[i] == bucket[at + i]);
            if i > 0 {
                assert(bucket[at].priority >= bucket[at + i].priority);
            }
        }
        lemma_none_of_priority(back, priority);
        assert(of_priority(back, priority) == back.filter(same));
        assert(front.filter(same).push(entry) + Seq::<Registered<H>>::empty()
            =~= front.filter(same).push(entry));
        assert(front.filter(same) + Seq::<Registered<H>>::empty() =~= front.filter(same));
    }
}

} // verus!
