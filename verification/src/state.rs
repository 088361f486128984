//! Controller state.
//!
//! One record, owned by the reconciler for the process lifetime, tracks
//! which room is the current trailing empty room and which sequence
//! number the next creation will use. Every read-then-act decision
//! against it must run under exclusive access; the shell is responsible
//! for holding a lock around `should_fill` together with the remote
//! create call and `record_creation`.

use vstd::prelude::*;
use crate::naming::{room_name, room_name_seq};

verus! {

/// The controller's record: the sequence number the next created room
/// will be named for, and the identifier of the room currently believed
/// to be the sole trailing empty room.
pub struct ControllerState {
    pub next_sequence: u128,
    pub trailing_room_id: u64,
}

/// The state bootstrap commits: room number zero has just been created,
/// so the next name uses sequence number one and the new room trails.
pub open spec fn initial_state(trailing_room: u64) -> ControllerState {
    ControllerState { next_sequence: 1, trailing_room_id: trailing_room }
}

/// The join check's gate: a join fills the trailing room exactly when
/// the room joined is the one the state designates as trailing.
pub open spec fn fill_decision(s: ControllerState, joined_room: u64) -> bool {
    joined_room == s.trailing_room_id
}

/// How a committed creation moves the state: the sequence number
/// advances by one and the newly created room becomes the trailing one.
pub open spec fn fill_update(s: ControllerState, created_room: u64) -> ControllerState
    recommends
        s.next_sequence < u128::MAX,
{
    ControllerState {
        next_sequence: (s.next_sequence + 1) as u128,
        trailing_room_id: created_room,
    }
}

impl ControllerState {
    /// The state committed at the end of bootstrap, once the room named
    /// for sequence number zero exists with identifier `trailing_room`.
    pub fn initial(trailing_room: u64) -> (s: ControllerState)
        ensures
            s == initial_state(trailing_room),
    {
        ControllerState { next_sequence: 1, trailing_room_id: trailing_room }
    }

    /// The join check: whether the room just joined is the trailing
    /// room, so that a new trailing room must be created.
    pub fn should_fill(&self, joined_room: u64) -> (r: bool)
        ensures
            r == fill_decision(*self, joined_room),
    {
        self.trailing_room_id == joined_room
    }

    /// The name the next created room must carry.
    pub fn next_room_name(&self) -> (r: String)
        ensures
            r@ == room_name_seq(self.next_sequence as nat),
    {
        room_name(self.next_sequence)
    }

    /// Commits a successful creation: the room the directory handed
    /// back becomes the trailing room and the sequence number advances
    /// by exactly one, never to be reused.
    pub fn record_creation(&mut self, created_room: u64)
        requires
            old(self).next_sequence < u128::MAX,
        ensures
            *final(self) == fill_update(*old(self), created_room),
    {
        self.next_sequence = self.next_sequence + 1;
        self.trailing_room_id = created_room;
    }
}

} // verus!
