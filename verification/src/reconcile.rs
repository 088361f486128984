//! Reconciliation decisions.
//!
//! The event reconciler runs two independent checks per membership
//! event: the join check, which may require a new trailing room, and the
//! leave check, which may require deleting the room just vacated. The
//! sweep reconciler re-scans the whole category on a timer and plans a
//! delete for every vacant managed room, a backstop for events that were
//! never delivered. Bootstrap plans a delete for every managed room,
//! occupied or not, before room number zero is created afresh.

use vstd::prelude::*;
use crate::rooms::{RoomSnapshot, is_managed, managed, vacant};

verus! {

/// One membership change: a user moved from `prior_room` (none when the
/// user was outside voice, or their old state carried no room) to
/// `new_room` (none when the user left voice entirely).
pub struct MembershipEvent {
    pub user_id: u64,
    pub prior_room: Option<u64>,
    pub new_room: Option<u64>,
    pub guild_id: Option<u64>,
}

/// The room the event's user entered, when the event is a join or a
/// move; no candidate when the user only left, or did not change rooms.
pub open spec fn join_candidate_of(ev: MembershipEvent) -> Option<u64> {
    if ev.new_room is Some && ev.prior_room != ev.new_room {
        ev.new_room
    } else {
        None
    }
}

/// The room the event's user came out of, when it carried one; the
/// leave check applies to it whether or not the user entered another.
pub open spec fn leave_candidate_of(ev: MembershipEvent) -> Option<u64> {
    ev.prior_room
}

/// The leave and sweep checks delete a room exactly when it is managed
/// and observed vacant; a room whose category or kind does not match is
/// never touched.
pub open spec fn delete_decision(room: RoomSnapshot, category: u64) -> bool {
    managed(room, category) && vacant(room)
}

/// The identifiers the sweep deletes, in listing order: one for each
/// vacant managed room.
pub open spec fn sweep_targets(rooms: Seq<RoomSnapshot>, category: u64) -> Seq<u64>
    decreases rooms.len(),
{
    if rooms.len() == 0 {
        Seq::empty()
    } else {
        let rest = sweep_targets(rooms.drop_last(), category);
        if delete_decision(rooms.last(), category) {
            rest.push(rooms.last().id)
        } else {
            rest
        }
    }
}

/// The identifiers bootstrap clears out, in listing order: one for each
/// managed room, occupied or not.
pub open spec fn bootstrap_targets(rooms: Seq<RoomSnapshot>, category: u64) -> Seq<u64>
    decreases rooms.len(),
{
    if rooms.len() == 0 {
        Seq::empty()
    } else {
        let rest = bootstrap_targets(rooms.drop_last(), category);
        if managed(rooms.last(), category) {
            rest.push(rooms.last().id)
        } else {
            rest
        }
    }
}

/// The join / move-in check's trigger: the room entered, for an event
/// whose user changed rooms into one.
pub fn join_candidate(ev: &MembershipEvent) -> (r: Option<u64>)
    ensures
        r == join_candidate_of(*ev),
{
    match ev.new_room {
        Some(c) => {
            let moved = match ev.prior_room {
                Some(p) => p != c,
                None => true,
            };
            if moved {
                Some(c)
            } else {
                None
            }
        },
        None => None,
    }
}

/// The leave / move-out check's trigger: the room vacated, for an event
/// whose user had one.
pub fn leave_candidate(ev: &MembershipEvent) -> (r: Option<u64>)
    ensures
        r == leave_candidate_of(*ev),
{
    match ev.prior_room {
        Some(p) => Some(p),
        None => None,
    }
}

/// The leave and sweep checks' rule: delete exactly a managed room
/// observed vacant.
pub fn should_delete(room: &RoomSnapshot, category: u64) -> (r: bool)
    ensures
        r == delete_decision(*room, category),
{
    is_managed(room, category) && room.member_count == 0
}

/// One sweep pass's plan over a category listing: the identifiers of
/// exactly the vacant managed rooms, in listing order.
pub fn sweep_plan(rooms: &Vec<RoomSnapshot>, category: u64) -> (r: Vec<u64>)
    ensures
        r@ == sweep_targets(rooms@, category),
{
    let mut out: Vec<u64> = Vec::new();
    let mut i: usize = 0;
    while i < rooms.len()
        invariant
            i <= rooms.len(),
            out@ == sweep_targets(rooms@.take(i as int), category),
        decreases rooms.len() - i,
    {
        proof {
            assert(rooms@.take(i + 1).drop_last() =~= rooms@.take(i as int));
            assert(rooms@.take(i + 1).last() == rooms@[i as int]);
        }
        if should_delete(&rooms[i], category) {
            out.push(rooms[i].id);
        }
        i = i + 1;
    }
    proof {
        assert(rooms@.take(rooms@.len() as int) =~= rooms@);
    }
    out
}

/// Bootstrap's cleanup plan over a category listing: the identifiers of
/// every managed room, regardless of membership.
pub fn bootstrap_plan(rooms: &Vec<RoomSnapshot>, category: u64) -> (r: Vec<u64>)
    ensures
        r@ == bootstrap_targets(rooms@, category),
{
    let mut out: Vec<u64> = Vec::new();
    let mut i: usize = 0;
    while i < rooms.len()
        invariant
            i <= rooms.len(),
            out@ == bootstrap_targets(rooms@.take(i as int), category),
        decreases rooms.len() - i,
    {
        proof {
            assert(rooms@.take(i + 1).drop_last() =~= rooms@.take(i as int));
            assert(rooms@.take(i + 1).last() == rooms@[i as int]);
        }
        if is_managed(&rooms[i], category) {
            out.push(rooms[i].id);
        }
        i = i + 1;
    }
    proof {
        assert(rooms@.take(rooms@.len() as int) =~= rooms@);
    }
    out
}

} // verus!
