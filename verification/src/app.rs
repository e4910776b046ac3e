//! The state of the application that embeds the registry.

use vstd::prelude::*;

verus! {

/// How the embedding application is doing.
#[derive(Clone, Copy, Debug, PartialEq, Eq)]
pub enum AppState {
    STARTING,
    OK,
    ERROR,
    UNKNOWN,
}

} // verus!
