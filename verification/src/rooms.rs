//! Room snapshots.
//!
//! The remote directory owns the rooms; the library only ever sees
//! snapshots of them — identifier, category, kind and the member count
//! observed at decision time. A room is managed when it is a voice room
//! inside the designated category; only managed rooms are ever deleted.

use vstd::prelude::*;

verus! {

/// What the directory reports about one room at one moment.
pub struct RoomSnapshot {
    /// Identifier the directory assigned at creation time.
    pub id: u64,
    /// The category the room sits in, if any.
    pub parent: Option<u64>,
    /// Whether the room is a voice room.
    pub is_voice: bool,
    /// Members observed in the room at decision time.
    pub member_count: u64,
}

/// A room participates in the system exactly when it is a voice room
/// inside the managed category.
pub open spec fn managed(room: RoomSnapshot, category: u64) -> bool {
    room.parent == Some(category) && room.is_voice
}

/// A room with nobody in it.
pub open spec fn vacant(room: RoomSnapshot) -> bool {
    room.member_count == 0
}

/// Whether this snapshot shows a voice room inside `category`.
pub fn is_managed(room: &RoomSnapshot, category: u64) -> (r: bool)
    ensures
        r == managed(*room, category),
{
    let in_category = match room.parent {
        Some(p) => p == category,
        None => false,
    };
    in_category && room.is_voice
}

} // verus!
