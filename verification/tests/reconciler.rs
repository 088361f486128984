use voice_rooms::reconcile::{
    MembershipEvent, bootstrap_plan, join_candidate, leave_candidate, should_delete, sweep_plan,
};
use voice_rooms::rooms::RoomSnapshot;
use voice_rooms::state::ControllerState;

const CATEGORY: u64 = 941469281730838578;

fn room(id: u64, member_count: u64) -> RoomSnapshot {
    RoomSnapshot {
        id,
        parent: Some(CATEGORY),
        is_voice: true,
        member_count,
    }
}

fn event(prior_room: Option<u64>, new_room: Option<u64>) -> MembershipEvent {
    MembershipEvent {
        user_id: 1,
        prior_room,
        new_room,
        guild_id: Some(941431307269963877),
    }
}

#[test]
fn bootstrap_commits_sequence_one_and_the_created_room() {
    let state = ControllerState::initial(100);
    assert_eq!(state.next_sequence, 1);
    assert_eq!(state.trailing_room_id, 100);
    assert_eq!(state.next_room_name(), "Voice - 1");
}

#[test]
fn join_into_trailing_room_fills() {
    let state = ControllerState::initial(100);
    assert!(state.should_fill(100));
    assert!(!state.should_fill(99));
}

#[test]
fn creation_advances_sequence_and_moves_trailing() {
    let mut state = ControllerState::initial(100);
    state.record_creation(101);
    assert_eq!(state.next_sequence, 2);
    assert_eq!(state.trailing_room_id, 101);
}

#[test]
fn concurrent_joins_create_exactly_one_room() {
    // Two events both observe the user entering the trailing room; the
    // exclusive section serializes them. The first fills; the second
    // finds the trailing designation moved and declines.
    let mut state = ControllerState::initial(100);
    let first = state.should_fill(100);
    assert!(first);
    state.record_creation(101);
    let second = state.should_fill(100);
    assert!(!second);
    assert_eq!(state.next_sequence, 2);
}

#[test]
fn successive_creations_name_rooms_in_order() {
    let mut state = ControllerState::initial(100);
    let mut names: Vec<String> = vec!["Voice - 0".to_string()];
    for k in 0..4u64 {
        names.push(state.next_room_name());
        state.record_creation(101 + k);
    }
    assert_eq!(
        names,
        ["Voice - 0", "Voice - 1", "Voice - 2", "Voice - 3", "Voice - 4"]
    );
    assert_eq!(state.next_sequence, 5);
}

#[test]
fn join_candidate_cases() {
    // Joined from outside voice.
    assert_eq!(join_candidate(&event(None, Some(5))), Some(5));
    // Moved between rooms.
    assert_eq!(join_candidate(&event(Some(4), Some(5))), Some(5));
    // Same room: membership changed without a move (mute, deafen).
    assert_eq!(join_candidate(&event(Some(5), Some(5))), None);
    // Left voice entirely.
    assert_eq!(join_candidate(&event(Some(5), None)), None);
    assert_eq!(join_candidate(&event(None, None)), None);
}

#[test]
fn leave_candidate_cases() {
    assert_eq!(leave_candidate(&event(Some(4), Some(5))), Some(4));
    assert_eq!(leave_candidate(&event(Some(4), None)), Some(4));
    assert_eq!(leave_candidate(&event(None, Some(5))), None);
}

#[test]
fn leave_deletes_only_vacant_managed_rooms() {
    assert!(should_delete(&room(6, 0), CATEGORY));
    assert!(!should_delete(&room(6, 1), CATEGORY));
    // A vacant room in another category is never touched.
    let foreign = RoomSnapshot {
        id: 7,
        parent: Some(123),
        is_voice: true,
        member_count: 0,
    };
    assert!(!should_delete(&foreign, CATEGORY));
    // A vacant room with no category at all is never touched.
    let orphan = RoomSnapshot {
        id: 8,
        parent: None,
        is_voice: true,
        member_count: 0,
    };
    assert!(!should_delete(&orphan, CATEGORY));
    // A text room in the category is never touched.
    let text = RoomSnapshot {
        id: 9,
        parent: Some(CATEGORY),
        is_voice: false,
        member_count: 0,
    };
    assert!(!should_delete(&text, CATEGORY));
}

#[test]
fn room_emptied_by_its_last_occupant_is_deleted() {
    // One member observed before the leave, none after: the next
    // processed leave event deletes the room.
    let before = room(6, 1);
    assert!(!should_delete(&before, CATEGORY));
    let after = room(6, 0);
    assert!(should_delete(&after, CATEGORY));
}

#[test]
fn at_most_one_room_stays_vacant_through_a_history() {
    // A little history of converged steps over a simulated category:
    // after each one, at most one managed room is vacant.
    let vacant_count = |cat: &Vec<RoomSnapshot>| {
        cat.iter()
            .filter(|r| should_delete(r, CATEGORY))
            .count()
    };

    // Bootstrap: category holds only the fresh trailing room.
    let mut state = ControllerState::initial(100);
    let mut category = vec![room(100, 0)];
    assert!(vacant_count(&category) <= 1);

    // A user joins the trailing room; the fill converges.
    category[0].member_count += 1;
    assert!(state.should_fill(100));
    state.record_creation(101);
    category.push(room(101, 0));
    assert!(vacant_count(&category) <= 1);

    // A second user joins the new trailing room; another fill.
    category[1].member_count += 1;
    assert!(state.should_fill(101));
    state.record_creation(102);
    category.push(room(102, 0));
    assert!(vacant_count(&category) <= 1);

    // The first user leaves room 100; the leave check deletes it.
    category[0].member_count -= 1;
    let vacated = category[0].id;
    assert!(should_delete(&category[0], CATEGORY));
    category.retain(|r| r.id != vacated);
    assert!(vacant_count(&category) <= 1);

    // A sweep pass converges: nothing vacant but the trailing room,
    // and the trailing room itself is removed if it is vacant.
    let planned = sweep_plan(&category, CATEGORY);
    category.retain(|r| !planned.contains(&r.id));
    assert!(vacant_count(&category) == 0);
}

#[test]
fn sweep_plans_exactly_the_vacant_managed_rooms() {
    let rooms = vec![
        room(1, 0),
        room(2, 3),
        room(3, 0),
        RoomSnapshot {
            id: 4,
            parent: Some(123),
            is_voice: true,
            member_count: 0,
        },
        room(5, 1),
    ];
    assert_eq!(sweep_plan(&rooms, CATEGORY), vec![1, 3]);
}

#[test]
fn sweep_backstops_a_dropped_leave_event() {
    // The only occupant of room 3 left, but the leave event was never
    // delivered. The next sweep pass still plans the delete.
    let listing_after_drop = vec![room(2, 3), room(3, 0)];
    assert_eq!(sweep_plan(&listing_after_drop, CATEGORY), vec![3]);
}

#[test]
fn sweep_twice_plans_nothing_new() {
    let rooms = vec![room(1, 0), room(2, 3), room(3, 0)];
    let first = sweep_plan(&rooms, CATEGORY);
    assert_eq!(first, vec![1, 3]);
    // No membership change in between: the second pass sees the
    // survivors only, the deleted rooms being simply absent.
    let survivors: Vec<RoomSnapshot> = rooms
        .into_iter()
        .filter(|r| !first.contains(&r.id))
        .collect();
    let second = sweep_plan(&survivors, CATEGORY);
    assert_eq!(second, Vec::<u64>::new());
}

#[test]
fn bootstrap_clears_every_managed_room_occupied_or_not() {
    let rooms = vec![
        room(1, 0),
        room(2, 3),
        RoomSnapshot {
            id: 4,
            parent: Some(123),
            is_voice: true,
            member_count: 5,
        },
        RoomSnapshot {
            id: 9,
            parent: Some(CATEGORY),
            is_voice: false,
            member_count: 0,
        },
    ];
    assert_eq!(bootstrap_plan(&rooms, CATEGORY), vec![1, 2]);
}

#[test]
fn bootstrap_of_an_empty_category_deletes_nothing() {
    assert_eq!(bootstrap_plan(&Vec::new(), CATEGORY), Vec::<u64>::new());
}

#[test]
fn end_to_end_scenario() {
    // Bootstrap with an empty category: nothing to clear, "Voice - 0"
    // is created and gets identifier 100.
    assert_eq!(bootstrap_plan(&Vec::new(), CATEGORY), Vec::<u64>::new());
    assert_eq!(voice_rooms::naming::room_name(0), "Voice - 0");
    let mut state = ControllerState::initial(100);
    assert_eq!(state.next_sequence, 1);
    assert_eq!(state.trailing_room_id, 100);

    // User A joins room 100: it is the trailing room, so "Voice - 1" is
    // created (identifier 101) and becomes the trailing room.
    let join = event(None, Some(100));
    let joined = join_candidate(&join).unwrap();
    assert!(state.should_fill(joined));
    assert_eq!(state.next_room_name(), "Voice - 1");
    state.record_creation(101);
    assert_eq!(state.next_sequence, 2);
    assert_eq!(state.trailing_room_id, 101);

    // User A leaves room 100: it is observed vacant and deleted — it
    // was not the trailing room and nobody is left in it.
    let leave = event(Some(100), None);
    let vacated = leave_candidate(&leave).unwrap();
    assert_eq!(vacated, 100);
    assert!(should_delete(&room(vacated, 0), CATEGORY));

    // The category now holds only "Voice - 1", vacant and equal to the
    // trailing room; no leave event fires for it and it stays untouched
    // until the next join.
    assert_eq!(state.trailing_room_id, 101);
    assert!(state.should_fill(101));
}
