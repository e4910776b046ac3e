//! What holds of the registry after any run of registrations.

use crate::handler::{ProtocolHandler, Registered};
use crate::ranking::{
    descending, lemma_placed_descending, lemma_placed_stable, lemma_slot, of_priority, placed,
    slot,
};
use crate::registry::{bucket_of, registered};
use vstd::prelude::*;
use vstd::seq_lib::{
    lemma_multiset_commutative, to_multiset_build, to_multiset_contains, to_multiset_insert,
};

verus! {

/// One registration: what was recorded of the handler, and the protocols it
/// was recorded under.
pub struct Registration<H: ProtocolHandler + ?Sized> {
    pub entry: Registered<H>,
    pub protocols: Seq<Seq<char>>,
}

/// The buckets of a registry that started empty and took the registrations
/// in order.
pub open spec fn after<H: ProtocolHandler + ?Sized>(registrations: Seq<Registration<H>>) -> Map<
    Seq<char>,
    Seq<Registered<H>>,
>
    decreases registrations.len(),
{
    if registrations.len() == 0 {
        Map::empty()
    } else {
        registered(
            after(registrations.drop_last()),
            registrations.last().entry,
            registrations.last().protocols,
        )
    }
}

/// What one registration adds to the bucket of `protocol`: the entry, once,
/// where `protocols` names the protocol, and nothing where it does not.
pub open spec fn mentions<H: ProtocolHandler + ?Sized>(
    entry: Registered<H>,
    protocols: Seq<Seq<char>>,
    protocol: Seq<char>,
) -> Seq<Registered<H>> {
    if protocols.contains(protocol) {
        seq![entry]
    } else {
        Seq::empty()
    }
}

/// The entries that were registered for `protocol`, in the order in which
/// they were registered.
pub open spec fn declared<H: ProtocolHandler + ?Sized>(
    registrations: Seq<Registration<H>>,
    protocol: Seq<char>,
) -> Seq<Registered<H>>
    decreases registrations.len(),
{
    if registrations.len() == 0 {
        Seq::empty()
    } else {
        declared(registrations.drop_last(), protocol) + mentions(
            registrations.last().entry,
            registrations.last().protocols,
            protocol,
        )
    }
}

/// One registration puts the handler into a bucket once, however often its
/// list names the protocol: the bucket of a named protocol is the old one
/// with the entry behind the entries of equal or higher priority and before
/// those of lower priority, the old entries in their old order.
pub proof fn lemma_registered_once<H: ProtocolHandler + ?Sized>(
    buckets: Map<Seq<char>, Seq<Registered<H>>>,
    entry: Registered<H>,
    protocols: Seq<Seq<char>>,
    protocol: Seq<char>,
)
    requires
        protocols.contains(protocol),
        descending(bucket_of(buckets, protocol)),
    ensures
        ({
            let before = bucket_of(buckets, protocol);
            let bucket = bucket_of(registered(buckets, entry, protocols), protocol);
            let at = slot(before, entry.priority);
            &&& 0 <= at <= before.len()
            &&& bucket == before.take(at) + seq![entry] + before.skip(at)
            &&& bucket.len() == before.len() + 1
            &&& forall|i: int| 0 <= i < at ==> before[i].priority >= entry.priority
            &&& forall|i: int| at <= i < before.len() ==> before[i].priority < entry.priority
        }),
{
    let before = bucket_of(buckets, protocol);
    let at: int = slot(before, entry.priority);
    lemma_slot(before, entry.priority);
    assert(placed(before, entry) =~= before.take(at) + seq![entry] + before.skip(at));
    assert forall|i: int| at <= i < before.len() implies before[i].priority
        < entry.priority by {
        if at < i {
            assert(before[at].priority >= before[i].priority);
        }
    }
}

/// One registration, seen from one bucket: the bucket stays in descending
/// order, gains the entry once if the protocol is named, behind the entries
/// of its own priority, and loses nothing.
pub proof fn lemma_registered_bucket<H: ProtocolHandler + ?Sized>(
    buckets: Map<Seq<char>, Seq<Registered<H>>>,
    entry: Registered<H>,
    protocols: Seq<Seq<char>>,
    protocol: Seq<char>,
)
    requires
        descending(bucket_of(buckets, protocol)),
    ensures
        ({
            let before = bucket_of(buckets, protocol);
            let bucket = bucket_of(registered(buckets, entry, protocols), protocol);
            let added = mentions(entry, protocols, protocol);
            &&& descending(bucket)
            &&& bucket.to_multiset() == before.to_multiset().add(added.to_multiset())
            &&& forall|priority: u8|
                of_priority(bucket, priority) == of_priority(before, priority) + of_priority(
                    added,
                    priority,
                )
            &&& registered(buckets, entry, protocols).contains_key(protocol)
                <==> buckets.contains_key(protocol) || added.len() > 0
        }),
{
    let before = bucket_of(buckets, protocol);
    let bucket = bucket_of(registered(buckets, entry, protocols), protocol);
    let added = mentions(entry, protocols, protocol);
    let none = Seq::<Registered<H>>::empty();
    if protocols.contains(protocol) {
        assert(bucket == placed(before, entry));
        assert(added =~= none.push(entry));
        lemma_placed_descending(before, entry);
        lemma_slot(before, entry.priority);
        to_multiset_insert(before, slot(before, entry.priority), entry);
        to_multiset_build(none, entry);
        assert(before + none =~= before);
        lemma_multiset_commutative(before, none);
        assert(bucket.to_multiset() =~= before.to_multiset().add(added.to_multiset()));
        assert forall|priority: u8|
            of_priority(bucket, priority) == of_priority(before, priority) + of_priority(
                added,
                priority,
            ) by {
            let same = |e: Registered<H>| e.priority == priority;
            reveal(Seq::filter);
            lemma_placed_stable(before, entry, priority);
            none.lemma_filter_push(entry, same);
            assert(none.filter(same) =~= none);
            if entry.priority == priority {
                assert(of_priority(before, priority).push(entry) =~= of_priority(
                    before,
                    priority,
                ) + none.push(entry));
            } else {
                assert(of_priority(before, priority) + none =~= of_priority(before, priority));
            }
        }
    } else {
        assert(bucket == before);
        assert(before + added =~= before);
        lemma_multiset_commutative(before, added);
        assert forall|priority: u8|
            of_priority(bucket, priority) == of_priority(before, priority) + of_priority(
                added,
                priority,
            ) by {
            reveal(Seq::filter);
            assert(of_priority(before, priority) + none =~= of_priority(before, priority));
        }
    }
}

/// After any run of registrations, every bucket
/// - is in descending order of priority,
/// - lists, among the entries of one priority, exactly those that were
///   registered for the protocol with that priority, in the order in which
///   they were registered,
/// - holds every entry that was registered for the protocol, once for each
///   registration that names it, and nothing else,
/// - and exists exactly where something was registered for the protocol.
pub proof fn lemma_registration_order<H: ProtocolHandler + ?Sized>(
    registrations: Seq<Registration<H>>,
    protocol: Seq<char>,
)
    ensures
        ({
            let bucket = bucket_of(after(registrations), protocol);
            let listed = declared(registrations, protocol);
            &&& descending(bucket)
            &&& forall|priority: u8| of_priority(bucket, priority) == of_priority(listed, priority)
            &&& bucket.to_multiset() == listed.to_multiset()
            &&& after(registrations).contains_key(protocol) <==> listed.len() > 0
        }),
    decreases registrations.len(),
{
    let bucket = bucket_of(after(registrations), protocol);
    let listed = declared(registrations, protocol);
    if registrations.len() == 0 {
        assert forall|priority: u8|
            of_priority(bucket, priority) == of_priority(listed, priority) by {}
    } else {
        let earlier = registrations.drop_last();
        let last = registrations.last();
        let sooner = declared(earlier, protocol);
        let added = mentions(last.entry, last.protocols, protocol);
        lemma_registration_order(earlier, protocol);
        lemma_registered_bucket(after(earlier), last.entry, last.protocols, protocol);
        lemma_multiset_commutative(sooner, added);
        assert forall|priority: u8|
            of_priority(bucket, priority) == of_priority(listed, priority) by {
            Seq::filter_distributes_over_add(
                sooner,
                added,
                |e: Registered<H>| e.priority == priority,
            );
        }
    }
}

/// No registration is lost: whatever the order in which registrations
/// arrive, each one is in the bucket of every protocol it lists.
pub proof fn lemma_no_registration_lost<H: ProtocolHandler + ?Sized>(
    registrations: Seq<Registration<H>>,
    which: int,
    protocol: Seq<char>,
)
    requires
        0 <= which < registrations.len(),
        registrations[which].protocols.contains(protocol),
    ensures
        after(registrations).contains_key(protocol),
        bucket_of(after(registrations), protocol).contains(registrations[which].entry),
{
    let listed = declared(registrations, protocol);
    let entry = registrations[which].entry;
    lemma_declared_lists(registrations, which, protocol);
    lemma_registration_order(registrations, protocol);
    to_multiset_contains(listed, entry);
    to_multiset_contains(bucket_of(after(registrations), protocol), entry);
}

/// Each registration that lists the protocol is among those declared for
/// it.
proof fn lemma_declared_lists<H: ProtocolHandler + ?Sized>(
    registrations: Seq<Registration<H>>,
    which: int,
    protocol: Seq<char>,
)
    requires
        0 <= which < registrations.len(),
        registrations[which].protocols.contains(protocol),
    ensures
        declared(registrations, protocol).contains(registrations[which].entry),
    decreases registrations.len(),
{
    let earlier = registrations.drop_last();
    let last = registrations.last();
    let sooner = declared(earlier, protocol);
    let added = mentions(last.entry, last.protocols, protocol);
    let listed = declared(registrations, protocol);
    if which == registrations.len() - 1 {
        assert(added[0] == last.entry);
        assert(listed[sooner.len() as int] == added[0]);
    } else {
        assert(earlier[which] == registrations[which]);
        lemma_declared_lists(earlier, which, protocol);
        let i: int = choose|i: int|
            0 <= i < sooner.len() && sooner[i] == registrations[which].entry;
        assert(listed[i] == sooner[i]);
    }
}

/// A registration reaches the bucket of every protocol it lists and leaves
/// every other bucket, and whether there is one, as it was.
pub proof fn lemma_registered_reach<H: ProtocolHandler + ?Sized>(
    buckets: Map<Seq<char>, Seq<Registered<H>>>,
    entry: Registered<H>,
    protocols: Seq<Seq<char>>,
    protocol: Seq<char>,
)
    ensures
        protocols.contains(protocol) ==> registered(buckets, entry, protocols).contains_key(
            protocol,
        ) && bucket_of(registered(buckets, entry, protocols), protocol).contains(entry),
        !protocols.contains(protocol) ==> bucket_of(
            registered(buckets, entry, protocols),
            protocol,
        ) == bucket_of(buckets, protocol) && (registered(buckets, entry, protocols).contains_key(
            protocol,
        ) <==> buckets.contains_key(protocol)),
{
    if protocols.contains(protocol) {
        let before = bucket_of(buckets, protocol);
        lemma_slot(before, entry.priority);
        assert(placed(before, entry)[slot(before, entry.priority)] == entry);
    }
}

/// Only the names in a list of protocols count, not how often or in which
/// order the list gives them: two lists that name the same protocols
/// register alike.
pub proof fn lemma_registered_by_names<H: ProtocolHandler + ?Sized>(
    buckets: Map<Seq<char>, Seq<Registered<H>>>,
    entry: Registered<H>,
    protocols: Seq<Seq<char>>,
    others: Seq<Seq<char>>,
)
    requires
        forall|protocol: Seq<char>| protocols.contains(protocol) <==> others.contains(protocol),
    ensures
        registered(buckets, entry, protocols) == registered(buckets, entry, others),
{
    assert(registered(buckets, entry, protocols) =~= registered(buckets, entry, others));
}

} // verus!
