//! The registry: for every protocol the handlers that serve it, best first.

use crate::handler::{values, HandlerEntry, ProtocolHandler, Registered};
use crate::ranking::{descending, lemma_placed_descending, lemma_slot_found, placed};
use std::sync::Arc;
use vstd::hash_map::StringHashMap;
use vstd::prelude::*;

verus! {

/// The handlers registered for a protocol; none where the protocol is
/// unknown.
pub open spec fn bucket_of<H: ProtocolHandler + ?Sized>(
    buckets: Map<Seq<char>, Seq<Registered<H>>>,
    protocol: Seq<char>,
) -> Seq<Registered<H>> {
    if buckets.contains_key(protocol) {
        buckets[protocol]
    } else {
        Seq::empty()
    }
}

/// The buckets after `entry` has been registered for `protocols`: it joins
/// the bucket of every protocol that the list names, once, however often and
/// wherever the list names it. Every other bucket, and whether there is one,
/// stays as it was.
pub open spec fn registered<H: ProtocolHandler + ?Sized>(
    buckets: Map<Seq<char>, Seq<Registered<H>>>,
    entry: Registered<H>,
    protocols: Seq<Seq<char>>,
) -> Map<Seq<char>, Seq<Registered<H>>> {
    Map::new(
        |protocol: Seq<char>| buckets.contains_key(protocol) || protocols.contains(protocol),
        |protocol: Seq<char>|
            if protocols.contains(protocol) {
                placed(bucket_of(buckets, protocol), entry)
            } else {
                buckets[protocol]
            },
    )
}

/// Every bucket holds at least one handler and is in descending order of
/// priority.
pub open spec fn well_ordered<H: ProtocolHandler + ?Sized>(
    buckets: Map<Seq<char>, Seq<Registered<H>>>,
) -> bool {
    forall|protocol: Seq<char>| #[trigger]
        buckets.contains_key(protocol) ==> buckets[protocol].len() > 0 && descending(
            buckets[protocol],
        )
}

/// What a handler said of itself when asked for its name, its priority and
/// the protocols it supports.
pub open spec fn reported<H: ProtocolHandler + ?Sized>(
    handler: Arc<H>,
    name: String,
    priority: u8,
    protocols: Vec<String>,
) -> bool {
    &&& H::name.ensures((&*handler,), name)
    &&& H::priority.ensures((&*handler,), priority)
    &&& H::supported_protocols.ensures((&*handler,), protocols)
}

/// The buckets that a table of entries stands for.
spec fn contents<H: ProtocolHandler + ?Sized>(
    table: StringHashMap<Vec<HandlerEntry<H>>>,
) -> Map<Seq<char>, Seq<Registered<H>>> {
    Map::new(
        |protocol: Seq<char>| table@.contains_key(protocol),
        |protocol: Seq<char>| values(table@[protocol]@),
    )
}

/// Whether the name at `at` also stands earlier in the list.
fn listed_before(protocols: &Vec<String>, at: usize) -> (earlier: bool)
    requires
        at < protocols.len(),
    ensures
        earlier == protocols.deep_view().take(at as int).contains(protocols.deep_view()[at as int]),
{
    let ghost names = protocols.deep_view();
    let ghost front = names.take(at as int);
    let mut k: usize = 0;
    while k < at
        invariant
            k <= at < protocols.len(),
            names == protocols.deep_view(),
            front == names.take(at as int),
            forall|j: int| 0 <= j < k ==> front[j] != names[at as int],
        decreases at - k,
    {
        if protocols[k] == protocols[at] {
            assert(front[k as int] == names[at as int]);
            return true;
        }
        k += 1;
    }
    false
}

/// A copy of a run of entries, sharing the handlers.
fn snapshot<H: ProtocolHandler + ?Sized>(entries: &Vec<HandlerEntry<H>>) -> (copy: Vec<
    HandlerEntry<H>,
>)
    ensures
        values(copy@) == values(entries@),
{
    let mut copy: Vec<HandlerEntry<H>> = Vec::new();
    let mut i: usize = 0;
    while i < entries.len()
        invariant
            i <= entries.len(),
            copy.len() == i,
            forall|k: int| 0 <= k < i ==> copy[k]@ == entries[k]@,
        decreases entries.len() - i,
    {
        copy.push(entries[i].duplicate());
        i += 1;
    }
    assert(values(copy@) =~= values(entries@));
    copy
}

/// A copy of a bucket with `entry` in its place.
fn bucket_with<H: ProtocolHandler + ?Sized>(
    bucket: &Vec<HandlerEntry<H>>,
    entry: &HandlerEntry<H>,
) -> (grown: Vec<HandlerEntry<H>>)
    ensures
        values(grown@) == placed(values(bucket@), entry@),
{
    let mut at: usize = 0;
    while at < bucket.len() && bucket[at].priority >= entry.priority
        invariant
            at <= bucket.len(),
            forall|k: int| 0 <= k < at ==> bucket[k].priority >= entry.priority,
        decreases bucket.len() - at,
    {
        at += 1;
    }
    proof {
        let before = values(bucket@);
        assert forall|k: int| 0 <= k < at implies before[k].priority >= entry.priority by {}
        lemma_slot_found(before, entry.priority, at as int);
    }
    let mut grown = snapshot(bucket);
    proof {
        assert(grown@.len() == values(grown@).len());
        assert(bucket@.len() == values(bucket@).len());
    }
    let ghost copied = grown@;
    grown.insert(at, entry.duplicate());
    assert(values(grown@) =~= values(copied).insert(at as int, entry@));
    grown
}

/// Maps each protocol name to the handlers registered for it, ordered by
/// descending priority; handlers of equal priority stay in the order in
/// which they were registered.
///
/// The registry's value (`@`) is the map from protocol name to that ordered
/// run. A protocol for which no handler has registered has no bucket. One
/// registration puts a handler into the bucket of each protocol it names,
/// once; registering the same handler again adds it again.
#[verifier::reject_recursive_types(H)]
pub struct ProtocolRegistry<H: ProtocolHandler + ?Sized> {
    handlers: StringHashMap<Vec<HandlerEntry<H>>>,
}

impl<H: ProtocolHandler + ?Sized> View for ProtocolRegistry<H> {
    type V = Map<Seq<char>, Seq<Registered<H>>>;

    closed spec fn view(&self) -> Map<Seq<char>, Seq<Registered<H>>> {
        contents(self.handlers)
    }
}

impl<H: ProtocolHandler + ?Sized> ProtocolRegistry<H> {
    #[verifier::type_invariant]
    spec fn ordered(self) -> bool {
        well_ordered(contents(self.handlers))
    }

    /// A registry in which no handler is registered.
    pub fn new() -> (registry: Self)
        ensures
            registry@ == Map::<Seq<char>, Seq<Registered<H>>>::empty(),
            well_ordered(registry@),
    {
        let registry = ProtocolRegistry { handlers: StringHashMap::new() };
        assert(registry@ =~= Map::<Seq<char>, Seq<Registered<H>>>::empty());
        registry
    }

    /// Records `entry` under every protocol that `protocols` names: it joins
    /// each of those buckets once, behind the entries of equal or higher
    /// priority. A name that the list repeats counts once. No other bucket
    /// changes.
    pub fn register_entry(&mut self, entry: HandlerEntry<H>, protocols: &Vec<String>)
        ensures
            final(self)@ == registered(old(self)@, entry@, protocols.deep_view()),
            well_ordered(old(self)@),
            well_ordered(final(self)@),
    {
        proof {
            use_type_invariant(&*self);
        }
        let ghost names = protocols.deep_view();
        let ghost start = self@;
        let mut table: StringHashMap<Vec<HandlerEntry<H>>> = StringHashMap::new();
        std::mem::swap(&mut table, &mut self.handlers);
        let mut i: usize = 0;
        assert(contents(table) =~= registered(start, entry@, names.take(0)));
        while i < protocols.len()
            invariant
                i <= protocols.len(),
                names == protocols.deep_view(),
                well_ordered(start),
                contents(table) == registered(start, entry@, names.take(i as int)),
                well_ordered(contents(table)),
            decreases protocols.len() - i,
        {
            let protocol = &protocols[i];
            let ghost name = names[i as int];
            let ghost sooner = names.take(i as int);
            let ghost later = names.take(i + 1);
            let ghost before = contents(table);
            proof {
                assert(name == protocol@);
                assert(later =~= sooner.push(name));
                assert(later[i as int] == name);
                assert forall|other: Seq<char>|
                    later.contains(other) <==> sooner.contains(other) || other == name by {
                    if later.contains(other) {
                        let k: int = choose|k: int| 0 <= k < later.len() && later[k] == other;
                        if k < i {
                            assert(sooner[k] == other);
                        }
                    }
                    if sooner.contains(other) {
                        let k: int = choose|k: int| 0 <= k < sooner.len() && sooner[k] == other;
                        assert(later[k] == other);
                    }
                }
            }
            if !listed_before(protocols, i) {
                let grown = match table.get(protocol.as_str()) {
                    Some(bucket) => bucket_with(bucket, &entry),
                    None => {
                        let mut alone: Vec<HandlerEntry<H>> = Vec::new();
                        alone.push(entry.duplicate());
                        assert(values(alone@) =~= placed(
                            Seq::<Registered<H>>::empty(),
                            entry@,
                        ));
                        alone
                    },
                };
                proof {
                    assert(!sooner.contains(name));
                    assert(before.contains_key(name) == start.contains_key(name));
                    assert(bucket_of(before, name) == bucket_of(start, name));
                    assert(values(grown@) == placed(bucket_of(start, name), entry@));
                    lemma_placed_descending(bucket_of(start, name), entry@);
                }
                table.insert(protocol.clone(), grown);
                proof {
                    let now = contents(table);
                    let goal = registered(start, entry@, later);
                    assert forall|other: Seq<char>|
                        now.contains_key(other) == goal.contains_key(other) by {
                        assert(now.contains_key(other) <==> before.contains_key(other) || other
                            == name);
                    }
                    assert forall|other: Seq<char>| now.contains_key(other) implies now[other]
                        == goal[other] by {
                        if other != name {
                            assert(now[other] == before[other]);
                        }
                    }
                    assert(now =~= goal);
                    assert forall|other: Seq<char>| #[trigger]
                        now.contains_key(other) implies now[other].len() > 0 && descending(
                        now[other],
                    ) by {
                        if other != name {
                            assert(before.contains_key(other));
                            assert(now[other] == before[other]);
                        }
                    }
                }
            } else {
                assert(contents(table) =~= registered(start, entry@, later));
            }
            i += 1;
        }
        assert(names.take(i as int) =~= names);
        self.handlers = table;
    }

    /// Asks the handler for its name, its priority and the protocols it
    /// supports, and records it once under each protocol it names.
    pub fn register(&mut self, handler: Arc<H>)
        ensures
            exists|name: String, priority: u8, protocols: Vec<String>|
                #![trigger reported(handler, name, priority, protocols)]
                reported(handler, name, priority, protocols) && final(self)@ == registered(
                    old(self)@,
                    Registered { name: name@, priority, handler },
                    protocols.deep_view(),
                ),
            well_ordered(old(self)@),
            well_ordered(final(self)@),
    {
        let name = handler.name();
        let priority = handler.priority();
        let protocols = handler.supported_protocols();
        assert(reported(handler, name, priority, protocols));
        let entry = HandlerEntry { name, priority, handler };
        self.register_entry(entry, &protocols);
    }

    /// The handlers registered for `protocol`, best first, as a snapshot
    /// that later registrations do not touch; `None` where no handler has
    /// registered for it.
    pub fn get_handlers(&self, protocol: &str) -> (snapshot: Option<Vec<HandlerEntry<H>>>)
        ensures
            match snapshot {
                Some(entries) => self@.contains_key(protocol@) && values(entries@)
                    == self@[protocol@],
                None => !self@.contains_key(protocol@),
            },
            snapshot matches Some(entries) ==> entries.len() > 0 && descending(values(entries@)),
            well_ordered(self@),
    {
        proof {
            use_type_invariant(self);
        }
        match self.handlers.get(protocol) {
            Some(bucket) => {
                let entries = snapshot(bucket);
                assert(self@.contains_key(protocol@));
                assert(values(entries@).len() == entries@.len());
                Some(entries)
            },
            None => None,
        }
    }
}

} // verus!
