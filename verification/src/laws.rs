//! The controller's guarantees.
//!
//! The category is modelled as a map from room identifier to observed
//! member count, and each reconciliation step as a function on that map.
//! The invariant maintained is that the trailing room is the only room
//! that may be vacant; "at most one vacant room in the category" follows
//! from it after bootstrap and after every step that converged.

use vstd::prelude::*;
use crate::naming::{lemma_room_name_injective, room_name_seq};
use crate::rooms::{RoomSnapshot, managed, vacant};
use crate::reconcile::{delete_decision, sweep_targets};
use crate::state::{ControllerState, fill_decision, fill_update, initial_state};

verus! {

/// The invariant the reconcilers maintain: no room other than the
/// designated trailing room is vacant.
pub open spec fn only_trailing_vacant(occupancy: Map<u64, nat>, trailing: u64) -> bool {
    forall|r: u64| #[trigger] occupancy.dom().contains(r) && occupancy[r] == 0 ==> r == trailing
}

/// What operators observe at steady state: no two distinct rooms in the
/// category are both vacant.
pub open spec fn at_most_one_vacant(occupancy: Map<u64, nat>) -> bool {
    forall|a: u64, b: u64|
        #[trigger] occupancy.dom().contains(a) && #[trigger] occupancy.dom().contains(b)
            && occupancy[a] == 0 && occupancy[b] == 0 ==> a == b
}

/// The category bootstrap leaves behind: only the freshly created room
/// number zero, empty.
pub open spec fn category_after_bootstrap(created_room: u64) -> Map<u64, nat> {
    map![created_room => 0nat]
}

/// A converged fill step: a user joined the trailing room and the fresh
/// trailing room the join check required was created empty.
pub open spec fn category_after_fill(
    occupancy: Map<u64, nat>,
    trailing: u64,
    created_room: u64,
) -> Map<u64, nat> {
    occupancy.insert(trailing, occupancy[trailing] + 1).insert(created_room, 0)
}

/// A user left `room`: its observed member count drops by one.
pub open spec fn category_after_leave(occupancy: Map<u64, nat>, room: u64) -> Map<u64, nat> {
    occupancy.insert(room, (occupancy[room] - 1) as nat)
}

/// The leave check's delete, once `room` was observed vacant.
pub open spec fn category_after_delete(occupancy: Map<u64, nat>, room: u64) -> Map<u64, nat> {
    occupancy.remove(room)
}

/// One full sweep pass converged: every vacant room is gone.
pub open spec fn category_after_sweep(occupancy: Map<u64, nat>) -> Map<u64, nat> {
    Map::new(
        |r: u64| occupancy.dom().contains(r) && occupancy[r] != 0,
        |r: u64| occupancy[r],
    )
}

/// The invariant implies what operators observe: at most one room in
/// the category is vacant.
pub proof fn lemma_invariant_bounds_vacancy(occupancy: Map<u64, nat>, trailing: u64)
    requires
        only_trailing_vacant(occupancy, trailing),
    ensures
        at_most_one_vacant(occupancy),
{
}

/// Bootstrap establishes the invariant: the one room it leaves in the
/// category is the trailing room itself.
pub proof fn lemma_bootstrap_establishes_invariant(created_room: u64)
    ensures
        only_trailing_vacant(category_after_bootstrap(created_room), created_room),
        at_most_one_vacant(category_after_bootstrap(created_room)),
{
}

/// A converged fill step preserves the invariant: the room joined is no
/// longer vacant, the fresh room is, and it is the new trailing room.
pub proof fn lemma_fill_preserves_invariant(
    occupancy: Map<u64, nat>,
    trailing: u64,
    created_room: u64,
)
    requires
        only_trailing_vacant(occupancy, trailing),
        !occupancy.dom().contains(created_room),
    ensures
        only_trailing_vacant(category_after_fill(occupancy, trailing, created_room), created_room),
        at_most_one_vacant(category_after_fill(occupancy, trailing, created_room)),
{
    lemma_invariant_bounds_vacancy(
        category_after_fill(occupancy, trailing, created_room),
        created_room,
    );
}

/// A leave that does not empty the room changes no vacancy: the
/// invariant is untouched.
pub proof fn lemma_leave_nonvacant_preserves_invariant(
    occupancy: Map<u64, nat>,
    trailing: u64,
    room: u64,
)
    requires
        only_trailing_vacant(occupancy, trailing),
        occupancy.dom().contains(room),
        occupancy[room] >= 2,
    ensures
        only_trailing_vacant(category_after_leave(occupancy, room), trailing),
        at_most_one_vacant(category_after_leave(occupancy, room)),
{
    lemma_invariant_bounds_vacancy(category_after_leave(occupancy, room), trailing);
}

/// A leave that empties the room is followed by the leave check's
/// delete, and the invariant holds again — also in the edge case where
/// the emptied room was the trailing room itself, which leaves the
/// category with no vacant room until the next fill or sweep recreates
/// one.
pub proof fn lemma_leave_cleanup_preserves_invariant(
    occupancy: Map<u64, nat>,
    trailing: u64,
    room: u64,
)
    requires
        only_trailing_vacant(occupancy, trailing),
        occupancy.dom().contains(room),
        occupancy[room] == 1,
    ensures
        only_trailing_vacant(
            category_after_delete(category_after_leave(occupancy, room), room),
            trailing,
        ),
        at_most_one_vacant(category_after_delete(category_after_leave(occupancy, room), room)),
{
    lemma_invariant_bounds_vacancy(
        category_after_delete(category_after_leave(occupancy, room), room),
        trailing,
    );
}

/// A converged sweep establishes the invariant outright, whatever the
/// event history was: no vacant room survives it.
pub proof fn lemma_sweep_establishes_invariant(occupancy: Map<u64, nat>, trailing: u64)
    ensures
        only_trailing_vacant(category_after_sweep(occupancy), trailing),
        at_most_one_vacant(category_after_sweep(occupancy)),
{
    lemma_invariant_bounds_vacancy(category_after_sweep(occupancy), trailing);
}

/// One converged reconciliation step, as the category sees it.
pub enum CategoryStep {
    /// A user joined the trailing room and the fresh room the join
    /// check required was created, empty, with an identifier the
    /// directory had not handed out before.
    Fill { created_room: u64 },
    /// A user left `room`; the leave check deleted it if that emptied
    /// it.
    Leave { room: u64 },
    /// A full sweep pass deleted every room found vacant.
    Sweep,
}

/// When a step can happen: a fill needs the trailing room present and a
/// fresh identifier for the created room; a leave needs an occupant to
/// lose; a sweep is always possible.
pub open spec fn step_enabled(
    occupancy: Map<u64, nat>,
    trailing: u64,
    step: CategoryStep,
) -> bool {
    match step {
        CategoryStep::Fill { created_room } => occupancy.dom().contains(trailing)
            && !occupancy.dom().contains(created_room),
        CategoryStep::Leave { room } => occupancy.dom().contains(room) && occupancy[room] >= 1,
        CategoryStep::Sweep => true,
    }
}

/// The category after one converged step.
pub open spec fn step_occupancy(
    occupancy: Map<u64, nat>,
    trailing: u64,
    step: CategoryStep,
) -> Map<u64, nat> {
    match step {
        CategoryStep::Fill { created_room } => category_after_fill(
            occupancy,
            trailing,
            created_room,
        ),
        CategoryStep::Leave { room } => {
            let after = category_after_leave(occupancy, room);
            if after[room] == 0 {
                category_after_delete(after, room)
            } else {
                after
            }
        },
        CategoryStep::Sweep => category_after_sweep(occupancy),
    }
}

/// Which room trails after one step: only a fill moves the designation.
pub open spec fn step_trailing(trailing: u64, step: CategoryStep) -> u64 {
    match step {
        CategoryStep::Fill { created_room } => created_room,
        CategoryStep::Leave { .. } => trailing,
        CategoryStep::Sweep => trailing,
    }
}

/// The category after bootstrap and a run of converged steps.
pub open spec fn run_occupancy(created_room: u64, steps: Seq<CategoryStep>) -> Map<u64, nat>
    decreases steps.len(),
{
    if steps.len() == 0 {
        category_after_bootstrap(created_room)
    } else {
        step_occupancy(
            run_occupancy(created_room, steps.drop_last()),
            run_trailing(created_room, steps.drop_last()),
            steps.last(),
        )
    }
}

/// The trailing room after bootstrap and a run of converged steps.
pub open spec fn run_trailing(created_room: u64, steps: Seq<CategoryStep>) -> u64
    decreases steps.len(),
{
    if steps.len() == 0 {
        created_room
    } else {
        step_trailing(run_trailing(created_room, steps.drop_last()), steps.last())
    }
}

/// Whether every step of the run was possible when it happened.
pub open spec fn run_enabled(created_room: u64, steps: Seq<CategoryStep>) -> bool
    decreases steps.len(),
{
    if steps.len() == 0 {
        true
    } else {
        run_enabled(created_room, steps.drop_last()) && step_enabled(
            run_occupancy(created_room, steps.drop_last()),
            run_trailing(created_room, steps.drop_last()),
            steps.last(),
        )
    }
}

/// The invariant, over whole histories: after bootstrap and any run of
/// converged reconciliation steps — fills, leaves with their cleanup,
/// sweeps, in any order — no room but the trailing one is vacant, so at
/// most one room in the category is vacant.
pub proof fn lemma_reconciliation_invariant(created_room: u64, steps: Seq<CategoryStep>)
    requires
        run_enabled(created_room, steps),
    ensures
        only_trailing_vacant(
            run_occupancy(created_room, steps),
            run_trailing(created_room, steps),
        ),
        at_most_one_vacant(run_occupancy(created_room, steps)),
    decreases steps.len(),
{
    if steps.len() == 0 {
        lemma_bootstrap_establishes_invariant(created_room);
    } else {
        lemma_reconciliation_invariant(created_room, steps.drop_last());
        let occupancy = run_occupancy(created_room, steps.drop_last());
        let trailing = run_trailing(created_room, steps.drop_last());
        match steps.last() {
            CategoryStep::Fill { created_room: fresh } => {
                lemma_fill_preserves_invariant(occupancy, trailing, fresh);
            },
            CategoryStep::Leave { room } => {
                if occupancy[room] == 1 {
                    lemma_leave_cleanup_preserves_invariant(occupancy, trailing, room);
                } else {
                    lemma_leave_nonvacant_preserves_invariant(occupancy, trailing, room);
                }
            },
            CategoryStep::Sweep => {
                lemma_sweep_establishes_invariant(occupancy, trailing);
            },
        }
    }
}

/// No duplicate fill: two join events into the same trailing room,
/// handled in turn under the exclusive section, create exactly one room.
/// The first fill moves the trailing designation to the fresh room, so
/// the second event's check declines, and the sequence number has
/// advanced by exactly one.
pub proof fn lemma_no_duplicate_fill(s: ControllerState, joined_room: u64, created_room: u64)
    requires
        fill_decision(s, joined_room),
        created_room != joined_room,
        s.next_sequence < u128::MAX,
    ensures
        !fill_decision(fill_update(s, created_room), joined_room),
        fill_update(s, created_room).next_sequence == s.next_sequence + 1,
{
}

/// The state after bootstrap and a run of committed fills, the fill
/// numbered `k` handing back `created_ids[k]`.
pub open spec fn state_after_fills(trailing_room: u64, created_ids: Seq<u64>) -> ControllerState
    decreases created_ids.len(),
{
    if created_ids.len() == 0 {
        initial_state(trailing_room)
    } else {
        fill_update(state_after_fills(trailing_room, created_ids.drop_last()), created_ids.last())
    }
}

/// The identifiers the fills of a run created, in order; leaves and
/// sweeps create nothing.
pub open spec fn fill_ids(steps: Seq<CategoryStep>) -> Seq<u64>
    decreases steps.len(),
{
    if steps.len() == 0 {
        Seq::empty()
    } else {
        let rest = fill_ids(steps.drop_last());
        match steps.last() {
            CategoryStep::Fill { created_room } => rest.push(created_room),
            CategoryStep::Leave { .. } => rest,
            CategoryStep::Sweep => rest,
        }
    }
}

/// The controller's record agrees with the category model: along any
/// run, the room the state designates as trailing is the run's trailing
/// room — only fills move either, and they move both to the room just
/// created.
pub proof fn lemma_state_tracks_trailing(created_room: u64, steps: Seq<CategoryStep>)
    ensures
        state_after_fills(created_room, fill_ids(steps)).trailing_room_id == run_trailing(
            created_room,
            steps,
        ),
    decreases steps.len(),
{
    if steps.len() > 0 {
        lemma_state_tracks_trailing(created_room, steps.drop_last());
    }
}

/// The names a run of `n` successful creations commits, in order:
/// bootstrap's room is the zeroth, each fill the next.
pub open spec fn run_names(n: nat) -> Seq<Seq<char>> {
    Seq::new(n, |i: int| room_name_seq(i as nat))
}

/// After `k` committed fills the sequence number reads `k + 1`:
/// bootstrap started it at one and every fill advanced it by one.
pub proof fn lemma_sequence_counts_fills(trailing_room: u64, created_ids: Seq<u64>)
    requires
        created_ids.len() + 1 < u128::MAX,
    ensures
        state_after_fills(trailing_room, created_ids).next_sequence == created_ids.len() + 1,
    decreases created_ids.len(),
{
    if created_ids.len() > 0 {
        lemma_sequence_counts_fills(trailing_room, created_ids.drop_last());
    }
}

/// Monotonic naming: over a run of bootstrap plus `created_ids.len()`
/// committed fills, the name the creation numbered `k` carries is
/// exactly `"Voice - k"` — bootstrap's room is `"Voice - 0"`, the fill
/// committed at sequence number `k` is `"Voice - k"` — and no name
/// repeats.
pub proof fn lemma_monotonic_naming(trailing_room: u64, created_ids: Seq<u64>)
    requires
        created_ids.len() + 1 < u128::MAX,
    ensures
        forall|k: int|
            0 <= k <= created_ids.len() ==> #[trigger] state_after_fills(
                trailing_room,
                created_ids.take(k),
            ).next_sequence == k + 1,
        forall|k: int|
            0 < k < run_names(created_ids.len() + 1).len() ==> #[trigger] run_names(
                created_ids.len() + 1,
            )[k] == room_name_seq(
                state_after_fills(trailing_room, created_ids.take(k - 1)).next_sequence as nat,
            ),
        run_names(created_ids.len() + 1)[0] == room_name_seq(0),
        forall|i: int, j: int|
            0 <= i < j < run_names(created_ids.len() + 1).len() ==> #[trigger] run_names(
                created_ids.len() + 1,
            )[i] != #[trigger] run_names(created_ids.len() + 1)[j],
{
    assert forall|k: int| 0 <= k <= created_ids.len() implies #[trigger] state_after_fills(
        trailing_room,
        created_ids.take(k),
    ).next_sequence == k + 1 by {
        lemma_sequence_counts_fills(trailing_room, created_ids.take(k));
    }
    assert forall|i: int, j: int|
        0 <= i < j < run_names(created_ids.len() + 1).len() implies #[trigger] run_names(
        created_ids.len() + 1,
    )[i] != #[trigger] run_names(created_ids.len() + 1)[j] by {
        lemma_room_name_injective(i as nat, j as nat);
    }
}

/// Leave-triggered cleanup: a managed room whose last occupant left —
/// one member observed before, none after — is exactly what the leave
/// check deletes.
pub proof fn lemma_leave_triggered_cleanup(
    before: RoomSnapshot,
    after: RoomSnapshot,
    category: u64,
)
    requires
        managed(before, category),
        before.member_count == 1,
        after == (RoomSnapshot { member_count: 0, ..before }),
    ensures
        delete_decision(after, category),
{
}

/// Sweep backstop: whether or not any leave event was ever delivered,
/// one sweep pass over the listing plans a delete for every vacant
/// managed room it contains.
pub proof fn lemma_sweep_backstop(rooms: Seq<RoomSnapshot>, category: u64, i: int)
    requires
        0 <= i < rooms.len(),
        managed(rooms[i], category),
        vacant(rooms[i]),
    ensures
        sweep_targets(rooms, category).contains(rooms[i].id),
    decreases rooms.len(),
{
    if i == rooms.len() - 1 {
        let targets = sweep_targets(rooms, category);
        assert(targets.last() == rooms[i].id);
        assert(targets.contains(rooms[i].id));
    } else {
        lemma_sweep_backstop(rooms.drop_last(), category, i);
        let rest = sweep_targets(rooms.drop_last(), category);
        let found = choose|j: int| 0 <= j < rest.len() && rest[j] == rooms[i].id;
        if delete_decision(rooms.last(), category) {
            assert(sweep_targets(rooms, category)[found] == rooms[i].id);
        } else {
            assert(sweep_targets(rooms, category)[found] == rooms[i].id);
        }
    }
}

/// A sweep plans no delete outside the vacant managed rooms: every
/// identifier it returns is the identifier of one of them.
pub proof fn lemma_sweep_targets_sound(rooms: Seq<RoomSnapshot>, category: u64, j: int)
    requires
        0 <= j < sweep_targets(rooms, category).len(),
    ensures
        exists|i: int|
            0 <= i < rooms.len() && delete_decision(#[trigger] rooms[i], category) && rooms[i].id
                == sweep_targets(rooms, category)[j],
    decreases rooms.len(),
{
    let targets = sweep_targets(rooms, category);
    let rest = sweep_targets(rooms.drop_last(), category);
    if j < rest.len() {
        lemma_sweep_targets_sound(rooms.drop_last(), category, j);
        assert(targets[j] == rest[j]);
        let i = choose|i: int|
            0 <= i < rooms.drop_last().len() && delete_decision(
                #[trigger] rooms.drop_last()[i],
                category,
            ) && rooms.drop_last()[i].id == rest[j];
        assert(rooms[i] == rooms.drop_last()[i]);
        assert(0 <= i < rooms.len() && delete_decision(rooms[i], category) && rooms[i].id
            == targets[j]);
    } else {
        let last = rooms.len() - 1;
        assert(delete_decision(rooms[last], category));
        assert(targets[j] == rooms[last].id);
        assert(0 <= last < rooms.len() && delete_decision(rooms[last], category) && rooms[last].id
            == targets[j]);
    }
}

/// The category listing a converged sweep leaves behind: the rooms that
/// were not vacant managed rooms, in order.
pub open spec fn surviving_rooms(rooms: Seq<RoomSnapshot>, category: u64) -> Seq<RoomSnapshot>
    decreases rooms.len(),
{
    if rooms.len() == 0 {
        Seq::empty()
    } else {
        let rest = surviving_rooms(rooms.drop_last(), category);
        if delete_decision(rooms.last(), category) {
            rest
        } else {
            rest.push(rooms.last())
        }
    }
}

/// No survivor of a sweep is a vacant managed room.
pub proof fn lemma_survivors_not_deletable(rooms: Seq<RoomSnapshot>, category: u64)
    ensures
        forall|i: int|
            0 <= i < surviving_rooms(rooms, category).len() ==> !delete_decision(
                #[trigger] surviving_rooms(rooms, category)[i],
                category,
            ),
    decreases rooms.len(),
{
    if rooms.len() > 0 {
        lemma_survivors_not_deletable(rooms.drop_last(), category);
        let rest = surviving_rooms(rooms.drop_last(), category);
        let survivors = surviving_rooms(rooms, category);
        assert forall|i: int| 0 <= i < survivors.len() implies !delete_decision(
            #[trigger] survivors[i],
            category,
        ) by {
            if i < rest.len() {
                assert(survivors[i] == rest[i]);
            } else {
                assert(survivors[i] == rooms.last());
            }
        }
    }
}

/// Idempotence of the sweep: with no membership change in between, a
/// second pass over what the first pass left behind plans no delete at
/// all — the rooms the first pass removed are simply absent.
pub proof fn lemma_sweep_idempotent(rooms: Seq<RoomSnapshot>, category: u64)
    ensures
        sweep_targets(surviving_rooms(rooms, category), category) == Seq::<u64>::empty(),
{
    lemma_survivors_not_deletable(rooms, category);
    lemma_sweep_of_occupied_is_empty(surviving_rooms(rooms, category), category);
}

/// A sweep over a listing with no vacant managed room plans nothing.
pub proof fn lemma_sweep_of_occupied_is_empty(rooms: Seq<RoomSnapshot>, category: u64)
    requires
        forall|i: int| 0 <= i < rooms.len() ==> !delete_decision(#[trigger] rooms[i], category),
    ensures
        sweep_targets(rooms, category) == Seq::<u64>::empty(),
    decreases rooms.len(),
{
    if rooms.len() > 0 {
        assert(forall|i: int|
            0 <= i < rooms.drop_last().len() ==> rooms.drop_last()[i] == #[trigger] rooms[i]);
        lemma_sweep_of_occupied_is_empty(rooms.drop_last(), category);
    }
}

/// Idempotence at the level of the occupancy model: sweeping an already
/// swept category changes nothing.
pub proof fn lemma_sweep_model_idempotent(occupancy: Map<u64, nat>)
    ensures
        category_after_sweep(category_after_sweep(occupancy)) == category_after_sweep(occupancy),
{
    assert(category_after_sweep(category_after_sweep(occupancy)) =~= category_after_sweep(
        occupancy,
    ));
}

} // verus!
