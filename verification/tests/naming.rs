use voice_rooms::naming::{decimal_string, parse_room_name, room_name};

#[test]
fn renders_sequence_zero() {
    assert_eq!(room_name(0), "Voice - 0");
}

#[test]
fn renders_small_sequences() {
    assert_eq!(room_name(1), "Voice - 1");
    assert_eq!(room_name(9), "Voice - 9");
    assert_eq!(room_name(10), "Voice - 10");
    assert_eq!(room_name(42), "Voice - 42");
    assert_eq!(room_name(100), "Voice - 100");
}

#[test]
fn renders_wide_sequences() {
    assert_eq!(room_name(1234567890), "Voice - 1234567890");
    assert_eq!(
        room_name(u128::MAX),
        "Voice - 340282366920938463463374607431768211455"
    );
}

#[test]
fn decimal_rendering_has_no_leading_zeros() {
    assert_eq!(decimal_string(0), "0");
    assert_eq!(decimal_string(7), "7");
    assert_eq!(decimal_string(9070), "9070");
}

#[test]
fn parses_own_names_back() {
    for n in [0u128, 1, 9, 10, 99, 12345, u128::MAX] {
        assert_eq!(parse_room_name(&room_name(n)), Some(n));
    }
}

#[test]
fn parses_names_with_leading_zeros() {
    assert_eq!(parse_room_name("Voice - 007"), Some(7));
    assert_eq!(parse_room_name("Voice - 00"), Some(0));
}

#[test]
fn rejects_foreign_names() {
    assert_eq!(parse_room_name("General"), None);
    assert_eq!(parse_room_name("voice - 3"), None);
    assert_eq!(parse_room_name("Voice -  3"), None);
    assert_eq!(parse_room_name("Voice - "), None);
    assert_eq!(parse_room_name("Voice - three"), None);
    assert_eq!(parse_room_name("Voice - 3a"), None);
    assert_eq!(parse_room_name(""), None);
}

#[test]
fn rejects_values_past_the_counter_width() {
    assert_eq!(
        parse_room_name("Voice - 340282366920938463463374607431768211456"),
        None
    );
    assert_eq!(
        parse_room_name("Voice - 999999999999999999999999999999999999999999"),
        None
    );
    assert_eq!(
        parse_room_name("Voice - 340282366920938463463374607431768211455"),
        Some(u128::MAX)
    );
}

#[test]
fn names_never_collide() {
    let mut seen: Vec<String> = Vec::new();
    for n in 0u128..50 {
        let name = room_name(n);
        assert!(!seen.contains(&name));
        seen.push(name);
    }
}
