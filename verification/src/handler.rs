//! Protocol handlers and the record the registry keeps of each one.

use crate::device::{Config, Device};
use std::collections::HashMap;
use std::sync::Arc;
use vstd::prelude::*;

verus! {

/// The priority of a handler that does not state one.
pub const DEFAULT_PRIORITY: u8 = 0;

/// A pluggable component that creates devices and dispatches commands for
/// one or more protocols.
///
/// Handlers are shared between the registry's buckets and every snapshot a
/// caller holds, so device creation and command dispatch work through a
/// shared reference; a handler that needs to change itself while serving
/// brings its own synchronization. `initialize` runs while the handler still
/// has a single owner, before it is shared.
pub trait ProtocolHandler: Send + Sync {
    fn name(&self) -> String;

    /// Higher priorities are preferred. A handler that does not say otherwise
    /// has [`DEFAULT_PRIORITY`]; one that states its own is bound by nothing
    /// here.
    fn priority(&self) -> (priority: u8)
        default_ensures
            priority == DEFAULT_PRIORITY,
    {
        DEFAULT_PRIORITY
    }

    fn supported_protocols(&self) -> Vec<String>;

    fn create_device(&self, config: &Config) -> Result<Box<dyn Device>, String>;

    fn send_cmd(
        &self,
        device: &mut dyn Device,
        cmd: &str,
        params: Option<HashMap<String, String>>,
    ) -> Result<(), String>;

    fn initialize(&mut self) -> Result<(), String>;
}

/// What the registry records of a handler: the name and priority it had when
/// it was registered, and the handler itself.
pub struct HandlerEntry<H: ProtocolHandler + ?Sized> {
    pub name: String,
    pub priority: u8,
    pub handler: Arc<H>,
}

/// The mathematical value of a [`HandlerEntry`].
pub struct Registered<H: ProtocolHandler + ?Sized> {
    pub name: Seq<char>,
    pub priority: u8,
    pub handler: Arc<H>,
}

impl<H: ProtocolHandler + ?Sized> View for HandlerEntry<H> {
    type V = Registered<H>;

    open spec fn view(&self) -> Registered<H> {
        Registered { name: self.name@, priority: self.priority, handler: self.handler }
    }
}

/// The values of a run of entries, in the same order.
pub open spec fn values<H: ProtocolHandler + ?Sized>(entries: Seq<HandlerEntry<H>>) -> Seq<
    Registered<H>,
> {
    Seq::new(entries.len(), |i: int| entries[i]@)
}

/// `Arc::clone`: another pointer to the same allocation, so the new pointer
/// stands for the same value as the one it was made from.
#[verifier::external_body]
pub(crate) fn share<T: ?Sized>(pointer: &Arc<T>) -> (shared: Arc<T>)
    ensures
        shared == *pointer,
{
    Arc::clone(pointer)
}

impl<H: ProtocolHandler + ?Sized> HandlerEntry<H> {
    /// A second record of the same registration, sharing the handler.
    pub fn duplicate(&self) -> (copy: HandlerEntry<H>)
        ensures
            copy@ == self@,
    {
        HandlerEntry {
            name: self.name.clone(),
            priority: self.priority,
            handler: share(&self.handler),
        }
    }
}

} // verus!
