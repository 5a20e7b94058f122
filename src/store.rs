use vstd::prelude::*;

use std::collections::HashMap;

use crate::state::ControllerState;

verus! {

broadcast use vstd::std_specs::hash::group_hash_axioms;

/// The last known state of each controller that has been heard from, by id.
///
/// Entries are only ever created or overwritten, never removed.
pub struct ControllerStore {
    states: HashMap<u8, ControllerState>,
}

impl View for ControllerStore {
    type V = Map<u8, ControllerState>;

    closed spec fn view(&self) -> Map<u8, ControllerState> {
        self.states@
    }
}

impl ControllerStore {
    /// A store that has heard from no controller.
    pub fn new() -> (r: ControllerStore)
        ensures
            r@ == Map::<u8, ControllerState>::empty(),
    {
        ControllerStore { states: HashMap::new() }
    }

    /// The last state recorded for `id`, if any.
    pub fn get(&self, id: u8) -> (r: Option<ControllerState>)
        ensures
            r == (if self@.contains_key(id) {
                Some(self@[id])
            } else {
                None::<ControllerState>
            }),
    {
        match self.states.get(&id) {
            Some(st) => Some(*st),
            None => None,
        }
    }

    /// Records `state` as the last known state of controller `id`.
    pub fn put(&mut self, id: u8, state: ControllerState)
        ensures
            final(self)@ == old(self)@.insert(id, state),
    {
        self.states.insert(id, state);
    }
}

} // verus!
