//! A pluggable device-abstraction layer: protocol handlers are registered
//! per protocol in priority order, and a factory resolves a device
//! configuration to the handler that builds the device.

pub mod app;
pub mod device;
pub mod factory;
pub mod handler;
pub mod history;
pub mod ranking;
pub mod registry;
