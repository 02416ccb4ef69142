//! The switch that block processing consults before it writes flat state.

use vstd::prelude::*;

verus! {

/// Holds the switch for flat-state updates. While updates are off, block
/// processing leaves the flat-state column alone, so that a range of it can
/// be read and rewritten as one step.
#[derive(Debug)]
pub struct FlatStorageManager {
    updates_enabled: bool,
}

impl View for FlatStorageManager {
    type V = bool;

    /// Whether flat-state updates are on.
    closed spec fn view(&self) -> bool {
        self.updates_enabled
    }
}

impl FlatStorageManager {
    /// A manager with updates on.
    pub fn new() -> (manager: FlatStorageManager)
        ensures
            manager@,
    {
        FlatStorageManager { updates_enabled: true }
    }

    /// Turns flat-state updates on or off.
    pub fn set_flat_state_updates_mode(&mut self, enabled: bool)
        ensures
            final(self)@ == enabled,
    {
        self.updates_enabled = enabled;
    }

    /// Whether flat-state updates are on.
    pub fn flat_state_updates_enabled(&self) -> (enabled: bool)
        ensures
            enabled == self@,
    {
        self.updates_enabled
    }
}

} // verus!
