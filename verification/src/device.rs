//! The device surface: what a device can do, how one is described, and the
//! closed set of actions that can be applied to it.

use std::collections::HashMap;
use vstd::prelude::*;

verus! {

/// A device behind the uniform capability interface.
///
/// The library never looks inside a device: it hands back whatever a
/// protocol handler built and leaves state and commands to the owner.
pub trait Device {
    fn get_id(&self) -> &str;

    fn get_name(&self) -> &str;

    fn get_state(&self) -> HashMap<String, String>;

    fn set_state(&mut self, state: HashMap<String, String>);

    fn send_cmd(&mut self, command: &str, parameters: Option<HashMap<String, String>>);
}

/// Kinds of device.
#[derive(Clone, Copy, Debug, PartialEq, Eq)]
pub enum Type {
    Sensor,
    Actor,
    Switch,
    Controller,
    Cat,
}

/// States a device can report.
#[derive(Clone, Copy, Debug, PartialEq, Eq)]
pub enum State {
    ON,
    OFF,
    RUNNING,
    FINISHED,
    ERROR,
    UNKNOWN,
    PURRING,
}

/// Description of one device: who it is, how to reach it, and which
/// protocols (in order of preference) and which handler may serve it.
pub struct Config {
    pub id: String,
    pub name: String,
    pub device_type: Type,
    pub connection_details: HashMap<String, String>,
    pub supported_protocols: Vec<String>,
    pub preferred_handler: Option<String>,
}

impl Config {
    /// The protocol names, in the order the configuration lists them.
    pub open spec fn protocols(&self) -> Seq<Seq<char>> {
        self.supported_protocols.deep_view()
    }

    /// The name of the handler that must serve this device, if one is set.
    pub open spec fn preference(&self) -> Option<Seq<char>> {
        match self.preferred_handler {
            Some(name) => Some(name@),
            None => None,
        }
    }
}

/// The closed set of actions that can be applied to a device.
pub enum Action {
    TurnOn,
    TurnOff,
    SetParameters(HashMap<String, String>),
    Reset(String),
}

/// Applies something to a device through the device's command interface.
pub trait Executor {
    fn execute(&self, device: &mut dyn Device) -> Result<(), String>;
}

} // verus!
