//! Gamepad identifiers, buttons and axes.
use std::collections::HashMap;
use vstd::prelude::*;

verus! {

broadcast use vstd::std_specs::hash::group_hash_axioms;

/// Stable identifier assigned to a connected gamepad.
#[derive(Debug, Clone, Copy, PartialEq, Eq, Structural, Hash)]
pub struct GamepadId(pub u32);

/// Basic information about a gamepad known to the input system.
#[derive(Debug, Clone)]
pub struct GamepadInfo {
    pub id: GamepadId,
    pub name: String,
    pub connected: bool,
}

impl GamepadInfo {
    /// A copy of this information.
    pub fn duplicate(&self) -> (c: GamepadInfo)
        ensures
            c.id == self.id,
            c.name@ == self.name@,
            c.connected == self.connected,
    {
        GamepadInfo { id: self.id, name: self.name.clone(), connected: self.connected }
    }
}

/// Logical gamepad buttons.
#[derive(Debug, Clone, Copy, PartialEq, Eq, Structural, Hash)]
pub enum GamepadButton {
    South,
    East,
    West,
    North,
    C,
    Z,
    LeftShoulder,
    LeftTrigger,
    RightShoulder,
    RightTrigger,
    Select,
    Start,
    Mode,
    LeftThumb,
    RightThumb,
    DPadUp,
    DPadDown,
    DPadLeft,
    DPadRight,
    Other(u16),
}

/// Logical gamepad axes.
#[derive(Debug, Clone, Copy, PartialEq, Eq, Structural, Hash)]
pub enum GamepadAxis {
    LeftX,
    LeftY,
    LeftTrigger,
    RightX,
    RightY,
    RightTrigger,
    DPadX,
    DPadY,
    Other(u16),
}

/// Stable identifiers for the gamepads of a backend, which names them by
/// raw numbers of its own: the first raw number seen gets 0, the next new
/// one 1, and so on (the count stops at `u32::MAX`).
#[derive(Debug)]
pub struct GamepadIds {
    ids: HashMap<usize, GamepadId>,
    next_id: u32,
}

impl GamepadIds {
    /// Identifiers handed out so far, by raw number.
    pub closed spec fn assigned(&self) -> Map<usize, GamepadId> {
        self.ids@
    }

    /// Identifier the next new gamepad gets.
    pub closed spec fn next_spec(&self) -> u32 {
        self.next_id
    }

    /// No identifier handed out yet.
    pub fn new() -> (g: Self)
        ensures
            g.assigned() == Map::<usize, GamepadId>::empty(),
            g.next_spec() == 0,
    {
        GamepadIds { ids: HashMap::new(), next_id: 0 }
    }

    /// The identifier of the gamepad with raw number `raw`, handing out the
    /// next one if it is new.
    pub fn ensure_id(&mut self, raw: usize) -> (id: GamepadId)
        ensures
            old(self).assigned().contains_key(raw) ==> {
                &&& id == old(self).assigned()[raw]
                &&& final(self).assigned() == old(self).assigned()
                &&& final(self).next_spec() == old(self).next_spec()
            },
            !old(self).assigned().contains_key(raw) ==> {
                &&& id == GamepadId(old(self).next_spec())
                &&& final(self).assigned() == old(self).assigned().insert(raw, id)
                &&& final(self).next_spec() == if old(self).next_spec() == u32::MAX {
                    u32::MAX
                } else {
                    (old(self).next_spec() + 1) as u32
                }
            },
    {
        match self.ids.get(&raw) {
            Some(id) => {
                return *id;
            },
            None => {},
        }
        let id = GamepadId(self.next_id);
        self.next_id = self.next_id.saturating_add(1);
        self.ids.insert(raw, id);
        id
    }
}

} // verus!
