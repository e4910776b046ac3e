//! The factory: resolves a device configuration to the handler that is to
//! build the device, and has it built.

use crate::device::{Config, Device};
use crate::handler::{values, HandlerEntry, ProtocolHandler, Registered};
use crate::registry::{bucket_of, ProtocolRegistry};
use std::sync::Arc;
use vstd::prelude::*;

verus! {

/// Why no device was made.
#[derive(Debug, PartialEq, Eq)]
pub enum FactoryError {
    /// The preferred handler (first field) is not registered for the first
    /// protocol of the configuration that has any handler (second field).
    HandlerNotFound(String, String),
    /// None of the configuration's protocols has a handler; the field is the
    /// device's name.
    NoCompatibleHandler(String),
    /// The chosen handler failed to create the device; the field is its own
    /// message, unchanged.
    Handler(String),
}

/// The mathematical value of a [`FactoryError`].
pub enum Failure {
    HandlerNotFound(Seq<char>, Seq<char>),
    NoCompatibleHandler(Seq<char>),
    Handler(Seq<char>),
}

impl Failure {
    /// The text that describes the failure.
    pub open spec fn message(self) -> Seq<char> {
        match self {
            Failure::HandlerNotFound(handler, protocol) => "Preferred handler '"@ + handler
                + "' not found for protocol: "@ + protocol,
            Failure::NoCompatibleHandler(device) =>
                "No compatible protocol handler found for device: "@ + device,
            Failure::Handler(text) => text,
        }
    }
}

impl View for FactoryError {
    type V = Failure;

    open spec fn view(&self) -> Failure {
        match self {
            FactoryError::HandlerNotFound(handler, protocol) => Failure::HandlerNotFound(
                handler@,
                protocol@,
            ),
            FactoryError::NoCompatibleHandler(device) => Failure::NoCompatibleHandler(device@),
            FactoryError::Handler(text) => Failure::Handler(text@),
        }
    }
}

impl FactoryError {
    /// The text that describes the failure.
    pub fn message(&self) -> (text: String)
        ensures
            text@ == self@.message(),
    {
        match self {
            FactoryError::HandlerNotFound(handler, protocol) => {
                let mut text = String::from_str("Preferred handler '");
                text.append(handler.as_str());
                text.append("' not found for protocol: ");
                text.append(protocol.as_str());
                text
            },
            FactoryError::NoCompatibleHandler(device) => {
                let mut text = String::from_str(
                    "No compatible protocol handler found for device: ",
                );
                text.append(device.as_str());
                text
            },
            FactoryError::Handler(text) => text.clone(),
        }
    }
}

/// The first of `protocols` for which a handler is registered.
pub open spec fn first_served<H: ProtocolHandler + ?Sized>(
    buckets: Map<Seq<char>, Seq<Registered<H>>>,
    protocols: Seq<Seq<char>>,
) -> Option<Seq<char>>
    decreases protocols.len(),
{
    if protocols.len() == 0 {
        None
    } else if bucket_of(buckets, protocols[0]).len() > 0 {
        Some(protocols[0])
    } else {
        first_served(buckets, protocols.skip(1))
    }
}

/// The first entry of the bucket that goes by `name`.
pub open spec fn first_named<H: ProtocolHandler + ?Sized>(
    bucket: Seq<Registered<H>>,
    name: Seq<char>,
) -> Option<Registered<H>>
    decreases bucket.len(),
{
    if bucket.len() == 0 {
        None
    } else if bucket[0].name == name {
        Some(bucket[0])
    } else {
        first_named(bucket.skip(1), name)
    }
}

/// The handler that is to build a device, or why there is none.
///
/// Only the first protocol that has any handler counts. With a preference,
/// the handler of that name in that protocol's bucket is chosen, and its
/// absence is a failure whatever later protocols hold. Without one, the head
/// of the bucket is chosen.
pub open spec fn selection<H: ProtocolHandler + ?Sized>(
    buckets: Map<Seq<char>, Seq<Registered<H>>>,
    protocols: Seq<Seq<char>>,
    preference: Option<Seq<char>>,
    device: Seq<char>,
) -> Result<Registered<H>, Failure> {
    match first_served(buckets, protocols) {
        None => Err(Failure::NoCompatibleHandler(device)),
        Some(protocol) => {
            let bucket = bucket_of(buckets, protocol);
            match preference {
                None => Ok(bucket[0]),
                Some(name) => match first_named(bucket, name) {
                    Some(entry) => Ok(entry),
                    None => Err(Failure::HandlerNotFound(name, protocol)),
                },
            }
        },
    }
}

/// The protocol at `at` is the first that is served if it has a handler
/// and none of the protocols before it has one.
pub proof fn lemma_first_served<H: ProtocolHandler + ?Sized>(
    buckets: Map<Seq<char>, Seq<Registered<H>>>,
    protocols: Seq<Seq<char>>,
    at: int,
)
    requires
        0 <= at < protocols.len(),
        forall|k: int| 0 <= k < at ==> bucket_of(buckets, #[trigger] protocols[k]).len() == 0,
        bucket_of(buckets, protocols[at]).len() > 0,
    ensures
        first_served(buckets, protocols) == Some(protocols[at]),
    decreases at,
{
    if at > 0 {
        let rest = protocols.skip(1);
        assert(bucket_of(buckets, protocols[0]).len() == 0);
        assert forall|k: int| 0 <= k < at - 1 implies bucket_of(buckets, #[trigger] rest[k]).len()
            == 0 by {
            assert(rest[k] == protocols[k + 1]);
        }
        assert(rest[at - 1] == protocols[at]);
        lemma_first_served(buckets, rest, at - 1);
    }
}

/// No protocol is served where none of them has a handler.
pub proof fn lemma_none_served<H: ProtocolHandler + ?Sized>(
    buckets: Map<Seq<char>, Seq<Registered<H>>>,
    protocols: Seq<Seq<char>>,
)
    requires
        forall|k: int|
            0 <= k < protocols.len() ==> bucket_of(buckets, #[trigger] protocols[k]).len() == 0,
    ensures
        first_served(buckets, protocols) == None::<Seq<char>>,
    decreases protocols.len(),
{
    if protocols.len() > 0 {
        let rest = protocols.skip(1);
        assert(bucket_of(buckets, protocols[0]).len() == 0);
        assert forall|k: int| 0 <= k < rest.len() implies bucket_of(buckets, #[trigger] rest[k]).len()
            == 0 by {
            assert(rest[k] == protocols[k + 1]);
        }
        lemma_none_served(buckets, rest);
    }
}

/// The entry at `at` is the first of its name if no entry before it has
/// that name.
pub proof fn lemma_first_named<H: ProtocolHandler + ?Sized>(
    bucket: Seq<Registered<H>>,
    name: Seq<char>,
    at: int,
)
    requires
        0 <= at < bucket.len(),
        forall|j: int| 0 <= j < at ==> (#[trigger] bucket[j]).name != name,
        bucket[at].name == name,
    ensures
        first_named(bucket, name) == Some(bucket[at]),
    decreases at,
{
    if at > 0 {
        let rest = bucket.skip(1);
        assert(bucket[0].name != name);
        assert forall|j: int| 0 <= j < at - 1 implies (#[trigger] rest[j]).name != name by {
            assert(rest[j] == bucket[j + 1]);
        }
        assert(rest[at - 1] == bucket[at]);
        lemma_first_named(rest, name, at - 1);
    }
}

/// No entry is found under a name that no entry of the bucket has.
pub proof fn lemma_none_named<H: ProtocolHandler + ?Sized>(
    bucket: Seq<Registered<H>>,
    name: Seq<char>,
)
    requires
        forall|j: int| 0 <= j < bucket.len() ==> (#[trigger] bucket[j]).name != name,
    ensures
        first_named(bucket, name) == None::<Registered<H>>,
    decreases bucket.len(),
{
    if bucket.len() > 0 {
        let rest = bucket.skip(1);
        assert(bucket[0].name != name);
        assert forall|j: int| 0 <= j < rest.len() implies (#[trigger] rest[j]).name != name by {
            assert(rest[j] == bucket[j + 1]);
        }
        lemma_none_named(rest, name);
    }
}

/// A preferred handler that is missing from the bucket of the first served
/// protocol is a failure, whatever the buckets of the later protocols hold:
/// there is no fallback to another handler or to another protocol.
pub proof fn lemma_missing_preference_fails<H: ProtocolHandler + ?Sized>(
    buckets: Map<Seq<char>, Seq<Registered<H>>>,
    protocols: Seq<Seq<char>>,
    name: Seq<char>,
    device: Seq<char>,
    at: int,
)
    requires
        0 <= at < protocols.len(),
        forall|k: int| 0 <= k < at ==> bucket_of(buckets, #[trigger] protocols[k]).len() == 0,
        bucket_of(buckets, protocols[at]).len() > 0,
        forall|j: int|
            0 <= j < bucket_of(buckets, protocols[at]).len() ==> (#[trigger] bucket_of(
                buckets,
                protocols[at],
            )[j]).name != name,
    ensures
        selection(buckets, protocols, Some(name), device) == Err::<Registered<H>, Failure>(
            Failure::HandlerNotFound(name, protocols[at]),
        ),
{
    lemma_first_served(buckets, protocols, at);
    lemma_none_named(bucket_of(buckets, protocols[at]), name);
}

/// A preferred handler that is in the bucket of the first served protocol
/// is chosen, the first of that name if there are several, whatever its
/// priority.
pub proof fn lemma_preference_is_chosen<H: ProtocolHandler + ?Sized>(
    buckets: Map<Seq<char>, Seq<Registered<H>>>,
    protocols: Seq<Seq<char>>,
    name: Seq<char>,
    device: Seq<char>,
    at: int,
    place: int,
)
    requires
        0 <= at < protocols.len(),
        forall|k: int| 0 <= k < at ==> bucket_of(buckets, #[trigger] protocols[k]).len() == 0,
        0 <= place < bucket_of(buckets, protocols[at]).len(),
        forall|j: int|
            0 <= j < place ==> (#[trigger] bucket_of(buckets, protocols[at])[j]).name != name,
        bucket_of(buckets, protocols[at])[place].name == name,
    ensures
        selection(buckets, protocols, Some(name), device) == Ok::<Registered<H>, Failure>(
            bucket_of(buckets, protocols[at])[place],
        ),
{
    lemma_first_served(buckets, protocols, at);
    lemma_first_named(bucket_of(buckets, protocols[at]), name, place);
}

/// Without a preference the head of the bucket of the first served
/// protocol is chosen, the protocols taken in the order of the list.
pub proof fn lemma_head_is_chosen<H: ProtocolHandler + ?Sized>(
    buckets: Map<Seq<char>, Seq<Registered<H>>>,
    protocols: Seq<Seq<char>>,
    device: Seq<char>,
    at: int,
)
    requires
        0 <= at < protocols.len(),
        forall|k: int| 0 <= k < at ==> bucket_of(buckets, #[trigger] protocols[k]).len() == 0,
        bucket_of(buckets, protocols[at]).len() > 0,
    ensures
        selection(buckets, protocols, None, device) == Ok::<Registered<H>, Failure>(
            bucket_of(buckets, protocols[at])[0],
        ),
{
    lemma_first_served(buckets, protocols, at);
}

/// Where none of the listed protocols has a handler, no handler is chosen,
/// with or without a preference.
pub proof fn lemma_nothing_served_fails<H: ProtocolHandler + ?Sized>(
    buckets: Map<Seq<char>, Seq<Registered<H>>>,
    protocols: Seq<Seq<char>>,
    preference: Option<Seq<char>>,
    device: Seq<char>,
)
    requires
        forall|k: int|
            0 <= k < protocols.len() ==> bucket_of(buckets, #[trigger] protocols[k]).len() == 0,
    ensures
        selection(buckets, protocols, preference, device) == Err::<Registered<H>, Failure>(
            Failure::NoCompatibleHandler(device),
        ),
{
    lemma_none_served(buckets, protocols);
}

/// What the caller gets for what the handler returned: the device as it
/// is, or the handler's message as a [`FactoryError::Handler`].
pub open spec fn delivered<D: ?Sized>(
    created: Result<Box<D>, String>,
    made: Result<Box<D>, FactoryError>,
) -> bool {
    match created {
        Ok(device) => made == Ok::<Box<D>, FactoryError>(device),
        Err(text) => made == Err::<Box<D>, FactoryError>(FactoryError::Handler(text)),
    }
}

/// Passes on what a handler returned: the device unchanged, a failure as
/// [`FactoryError::Handler`] with the handler's message.
pub fn deliver<D: ?Sized>(created: Result<Box<D>, String>) -> (made: Result<Box<D>, FactoryError>)
    ensures
        delivered(created, made),
{
    match created {
        Ok(device) => Ok(device),
        Err(text) => Err(FactoryError::Handler(text)),
    }
}

/// The entry of `entries` that goes by `name`, the first if there are
/// several.
fn find_named<H: ProtocolHandler + ?Sized>(entries: &Vec<HandlerEntry<H>>, name: &String) -> (found:
    Option<HandlerEntry<H>>)
    ensures
        match found {
            Some(entry) => first_named(values(entries@), name@) == Some(entry@),
            None => first_named(values(entries@), name@) == None::<Registered<H>>,
        },
{
    let ghost bucket = values(entries@);
    let mut j: usize = 0;
    assert(bucket.skip(0) =~= bucket);
    while j < entries.len()
        invariant
            j <= entries.len(),
            bucket == values(entries@),
            first_named(bucket, name@) == first_named(bucket.skip(j as int), name@),
        decreases entries.len() - j,
    {
        assert(bucket.skip(j as int)[0] == entries[j as int]@);
        if entries[j].name == *name {
            return Some(entries[j].duplicate());
        }
        assert(bucket.skip(j as int).skip(1) =~= bucket.skip(j + 1));
        j += 1;
    }
    None
}

/// Chooses, among the handlers of `registry`, the one that is to build the
/// device that `config` describes. No handler is called.
pub fn select_handler<H: ProtocolHandler + ?Sized>(
    registry: &ProtocolRegistry<H>,
    config: &Config,
) -> (chosen: Result<HandlerEntry<H>, FactoryError>)
    ensures
        match chosen {
            Ok(entry) => selection(
                registry@,
                config.protocols(),
                config.preference(),
                config.name@,
            ) == Ok::<Registered<H>, Failure>(entry@),
            Err(error) => selection(
                registry@,
                config.protocols(),
                config.preference(),
                config.name@,
            ) == Err::<Registered<H>, Failure>(error@),
        },
{
    let ghost protocols = config.protocols();
    let mut i: usize = 0;
    assert(protocols.skip(0) =~= protocols);
    while i < config.supported_protocols.len()
        invariant
            i <= config.supported_protocols.len(),
            protocols == config.protocols(),
            first_served(registry@, protocols) == first_served(
                registry@,
                protocols.skip(i as int),
            ),
        decreases config.supported_protocols.len() - i,
    {
        let protocol = &config.supported_protocols[i];
        assert(protocols.skip(i as int)[0] == protocol@);
        match registry.get_handlers(protocol.as_str()) {
            Some(entries) => {
                assert(first_served(registry@, protocols) == Some(protocol@));
                match &config.preferred_handler {
                    Some(preferred) => {
                        return match find_named(&entries, preferred) {
                            Some(entry) => Ok(entry),
                            None => Err(
                                FactoryError::HandlerNotFound(
                                    preferred.clone(),
                                    protocol.clone(),
                                ),
                            ),
                        };
                    },
                    None => {
                        return Ok(entries[0].duplicate());
                    },
                }
            },
            None => {},
        }
        assert(protocols.skip(i as int).skip(1) =~= protocols.skip(i + 1));
        i += 1;
    }
    Err(FactoryError::NoCompatibleHandler(config.name.clone()))
}

/// Has the handler of `entry` create the device that `config` describes and
/// passes on what it returns.
pub fn create_with<H: ProtocolHandler + ?Sized>(entry: &HandlerEntry<H>, config: &Config) -> (made:
    Result<Box<dyn Device>, FactoryError>)
    ensures
        exists|created: Result<Box<dyn Device>, String>|
            #![trigger delivered(created, made)]
            H::create_device.ensures((&*entry.handler, config), created) && delivered(
                created,
                made,
            ),
{
    let created = entry.handler.create_device(config);
    let made = deliver(created);
    assert(delivered(created, made));
    made
}

/// Creates devices through the handlers of one registry.
///
/// The factory holds the registry as a shared, fixed value: it sees what was
/// registered before it was built and nothing that is registered afterwards.
/// Where handlers go on being registered while devices are created, keep the
/// registry behind a lock of your own and take the two steps of
/// [`DeviceFactory::register`] yourself: [`select_handler`] on the registry
/// while the lock is held, then [`create_with`] on the chosen entry once it
/// is released, so that no lock is held while a handler works.
#[verifier::reject_recursive_types(H)]
pub struct DeviceFactory<H: ProtocolHandler + ?Sized> {
    pub protocol_registry: Arc<ProtocolRegistry<H>>,
}

impl<H: ProtocolHandler + ?Sized> DeviceFactory<H> {
    /// The buckets of the registry that this factory draws on.
    pub open spec fn buckets(&self) -> Map<Seq<char>, Seq<Registered<H>>> {
        (*self.protocol_registry)@
    }

    /// A factory that draws on `protocol_registry`.
    pub fn new(protocol_registry: Arc<ProtocolRegistry<H>>) -> (factory: Self)
        ensures
            factory.protocol_registry == protocol_registry,
    {
        DeviceFactory { protocol_registry }
    }

    /// Makes the device that `config` describes: chooses the handler as
    /// [`selection`] says and returns what its `create_device` returns. Where
    /// no handler can be chosen, no handler is called.
    pub fn register(&self, config: &Config) -> (made: Result<Box<dyn Device>, FactoryError>)
        ensures
            match selection(
                self.buckets(),
                config.protocols(),
                config.preference(),
                config.name@,
            ) {
                Ok(entry) => exists|created: Result<Box<dyn Device>, String>|
                    #![trigger delivered(created, made)]
                    H::create_device.ensures((&*entry.handler, config), created) && delivered(
                        created,
                        made,
                    ),
                Err(failure) => made matches Err(error) && error@ == failure,
            },
    {
        match select_handler(&*self.protocol_registry, config) {
            Ok(entry) => create_with(&entry, config),
            Err(error) => Err(error),
        }
    }
}

} // verus!
