use arenas::{Arena, ArenaArray, ArenaString, CapacityExceeded};

#[test]
fn string_test_arena_string() {
    let mut arena = Arena::new(1024);
    let mut string = arena.make_string(1024).unwrap();

    assert_eq!(string.len(), 0);
    assert_eq!(string.capacity(), 1024);
    assert_eq!(string.is_empty(), true);

    let _ = string.write_str("Hello, world!");

    assert_eq!(string.len(), 13);
    assert_eq!(&string, "Hello, world!");
    assert_eq!(string.is_empty(), false);

    string.clear();

    assert_eq!(string.len(), 0);
    assert_eq!(string.capacity(), 1024);
    assert_eq!(string.is_empty(), true);
}

#[test]
fn test_arena_string_concat() {
    let mut arena = Arena::new(1024);
    let mut string = arena.make_string(1024).unwrap();

    assert_eq!(string.len(), 0);
    assert_eq!(string.capacity(), 1024);

    string.concat("Hello, ").unwrap();
    string.concat("world!").unwrap();

    assert_eq!(string.len(), 13);
    assert_eq!(&string, "Hello, world!");

    string.clear();

    assert_eq!(string.len(), 0);
    assert_eq!(string.capacity(), 1024);
}

#[test]
fn test_arena_string_write() {
    let mut arena = Arena::new(1024);
    let mut string = arena.make_string(1024).unwrap();

    assert_eq!(string.len(), 0);
    assert_eq!(string.capacity(), 1024);

    let _ = string.write_str("Hello, ").unwrap();
    let _ = string.write_str("world!").unwrap();

    assert_eq!(string.len(), 13);
    assert_eq!(&string, "Hello, world!");

    string.clear();

    assert_eq!(string.len(), 0);
    assert_eq!(string.capacity(), 1024);
}

#[test]
fn test_arena_string_clone() {
    let mut arena = Arena::new(1024);
    let mut string = arena.make_string(128).unwrap();

    let _ = string.write_str("Hello, world!");

    let clone = string.clone(&mut arena).unwrap();

    assert_eq!(string.len(), 13);
    assert_eq!(&string, "Hello, world!");

    assert_eq!(clone.len(), 13);
    assert_eq!(&clone, "Hello, world!");
}

#[test]
fn test_arena_string_eq() {
    let mut arena = Arena::new(1024);
    let mut string1 = arena.make_string(128).unwrap();
    let mut string2 = arena.make_string(128).unwrap();

    let _ = string1.write_str("Hello, world!");
    let _ = string2.write_str("Hello, world!");

    assert_eq!(string1, string2);
}

#[test]
fn test_arena_string_ord() {
    let mut arena = Arena::new(1024);
    let mut string1 = arena.make_string(128).unwrap();
    let mut string2 = arena.make_string(128).unwrap();
    let mut string3 = arena.make_string(128).unwrap();

    let _ = string1.write_str("Hello, world!");
    let _ = string2.write_str("Hello, sailor!");
    let _ = string3.write_str("Hello, world!");

    assert_eq!(string1.cmp(&string2), std::cmp::Ordering::Greater);
    assert_eq!(string1.cmp(&string3), std::cmp::Ordering::Equal);
    assert_eq!(string2.cmp(&string3), std::cmp::Ordering::Less);
}

#[test]
fn test_arena_string_as_ref() {
    let mut arena = Arena::new(1024);
    let mut string = arena.make_string(128).unwrap();

    let _ = string.write_str("Hello, world!");

    assert_eq!(&string.as_ref()[0..string.len()], "Hello, world!");
}

#[test]
fn test_arena_string_from_slice() {
    let mut arena = Arena::new(1024);
    let slice = b"Hello, world!";
    let string = ArenaString::from_slice(&mut arena, slice).unwrap();

    assert_eq!(string.len(), 13);
    assert_eq!(&string, "Hello, world!");
}

#[test]
fn test_arena_string_eq_str() {
    let mut arena = Arena::new(1024);
    let mut string = arena.make_string(128).unwrap();

    let _ = string.write_str("Hello, world!");

    assert_eq!(&string == "Hello, world!", true);
}

#[test]
fn test_arena_string_partial_ord() {
    let mut arena = Arena::new(1024);
    let mut string1 = arena.make_string(128).unwrap();
    let mut string2 = arena.make_string(128).unwrap();
    let mut string3 = arena.make_string(128).unwrap();

    let _ = string1.write_str("Hello, world!");
    let _ = string2.write_str("Hello, sailor!");
    let _ = string3.write_str("Hello, world!");

    assert_eq!(string1.partial_cmp(&string2), Some(std::cmp::Ordering::Greater));
    assert_eq!(string1.partial_cmp(&string3), Some(std::cmp::Ordering::Equal));
    assert_eq!(string2.partial_cmp(&string3), Some(std::cmp::Ordering::Less));
}

#[test]
fn test_arena_string_write_error() {
    let mut arena = Arena::new(1024);
    let mut string = arena.make_string(20).unwrap();

    assert_eq!(string.write_str("Hello, world!").is_ok(), true);
    assert_eq!(string.write_str("Hello, world!").is_err(), true);
}

#[test]
fn test_arena_string_print() {
    let mut arena = Arena::new(1024);
    let mut string = arena.make_string(128).unwrap();

    let _ = string.write_str("Hello, world!");

    assert_eq!(string.to_string(), "Hello, world!");
    assert_eq!(string.to_debug_string(), "\"Hello, world!\"");
}

#[test]
fn test_arena_string_from_array() {
    let mut arena = Arena::new(1024);
    let array = ArenaArray::from_slice(&mut arena, b"Hello, world!").unwrap();
    let string = ArenaString::from_array(array);

    assert_eq!(string.len(), 13);
    assert_eq!(&string, "Hello, world!");
}

#[test]
fn scenario_second_concat_does_not_fit() {
    let mut arena = Arena::new(1024);
    let mut string = ArenaString::new(&mut arena, 20).unwrap();
    assert_eq!(string.concat("Hello, world!"), Some(13));
    assert_eq!(string.len(), 13);
    assert_eq!(string.concat("Hello, world!"), None);
    assert_eq!(string.len(), 13);
    assert_eq!(string.as_str(), "Hello, world!");
    assert_eq!(string.as_bytes(), b"Hello, world!");
}

#[test]
fn concats_that_fit_join_their_inputs() {
    let mut arena = Arena::new(1024);
    let mut string = ArenaString::new(&mut arena, 16).unwrap();
    let inputs = ["ab", "", "cde", "\u{e9}t\u{e9}", "\u{1f600}", "xy"];
    let mut joined = String::new();
    for input in inputs.iter() {
        joined.push_str(input);
        assert_eq!(string.concat(input), Some(joined.len()));
        assert_eq!(string.as_str(), joined);
    }
    assert_eq!(string.len(), 16);
    assert_eq!(string.capacity(), 16);
    assert_eq!(string.concat(""), Some(16));
    assert_eq!(string.concat("z"), None);
    assert_eq!(string.write_str("z"), Err(CapacityExceeded));
    assert_eq!(string.as_str(), "abcde\u{e9}t\u{e9}\u{1f600}xy");
}

#[test]
fn string_of_no_capacity_takes_only_the_empty_text() {
    let mut arena = Arena::new(0);
    let mut string = ArenaString::new(&mut arena, 0).unwrap();
    assert_eq!(string.concat(""), Some(0));
    assert_eq!(string.write_str(""), Ok(()));
    assert_eq!(string.concat("a"), None);
    assert!(string.is_empty());
    assert_eq!(string.as_str(), "");
    assert!(ArenaString::new(&mut arena, 1).is_none());
    assert!(ArenaString::from_str(&mut arena, "a").is_none());
    assert!(ArenaString::from_str(&mut arena, "").is_some());
}

#[test]
fn from_str_has_room_for_no_more() {
    let mut arena = Arena::new(64);
    let mut string = ArenaString::from_str(&mut arena, "h\u{e9}llo").unwrap();
    assert_eq!(string.len(), 6);
    assert_eq!(string.capacity(), 6);
    assert_eq!(arena.occupied(), 6);
    assert_eq!(string.as_str(), "h\u{e9}llo");
    assert_eq!(string.concat("!"), None);
    assert_eq!(string.as_str(), "h\u{e9}llo");
}

#[test]
fn bytes_that_are_no_text_read_as_the_empty_text() {
    let mut arena = Arena::new(64);
    let string = ArenaString::from_slice(&mut arena, &[0x61, 0xff, 0x62]).unwrap();
    assert_eq!(string.len(), 3);
    assert_eq!(string.as_bytes(), &[0x61, 0xff, 0x62]);
    assert_eq!(string.as_str(), "");
    assert_eq!(string.as_ref(), "");
    assert_eq!(string.to_string(), "");
    assert_eq!(string.to_debug_string(), "\"\"");
    let cut = ArenaString::from_slice(&mut arena, &[0xc3]).unwrap();
    assert_eq!(cut.as_str(), "");
}

#[test]
fn debug_string_escapes_the_text() {
    let mut arena = Arena::new(64);
    let string = ArenaString::from_str(&mut arena, "a\"b\n").unwrap();
    assert_eq!(string.to_string(), "a\"b\n");
    assert_eq!(string.to_debug_string(), "\"a\\\"b\\n\"");
}

#[test]
fn order_is_byte_by_byte_and_shorter_first() {
    let mut arena = Arena::new(1024);
    let texts = ["", "a", "ab", "abc", "abd", "b", "\u{e9}"];
    for (i, left) in texts.iter().enumerate() {
        for (j, right) in texts.iter().enumerate() {
            let a = ArenaString::from_str(&mut arena, left).unwrap();
            let b = ArenaString::from_str(&mut arena, right).unwrap();
            assert_eq!(a.cmp(&b), i.cmp(&j));
            assert_eq!(a.partial_cmp(&b), Some(i.cmp(&j)));
            assert_eq!(a == b, i == j);
            assert_eq!(a < b, i < j);
            assert_eq!(a == **right, i == j);
        }
    }
}

#[test]
fn order_looks_at_the_populated_bytes_only() {
    let mut arena = Arena::new(1024);
    let mut long = ArenaString::new(&mut arena, 32).unwrap();
    long.concat("same").unwrap();
    let short = ArenaString::from_str(&mut arena, "same").unwrap();
    assert_eq!(long, short);
    assert_eq!(long.cmp(&short), std::cmp::Ordering::Equal);
    let mut cleared = ArenaString::new(&mut arena, 32).unwrap();
    cleared.concat("zzzz").unwrap();
    cleared.clear();
    cleared.concat("sa").unwrap();
    assert_eq!(cleared.cmp(&short), std::cmp::Ordering::Less);
    assert_eq!(short.cmp(&cleared), std::cmp::Ordering::Greater);
    assert!(cleared != short);
}

#[test]
fn clone_of_a_string_has_bytes_of_its_own() {
    let mut arena = Arena::new(64);
    let mut string = ArenaString::new(&mut arena, 8).unwrap();
    string.concat("abc").unwrap();
    let copy = string.clone(&mut arena).unwrap();
    assert_eq!(copy.capacity(), 3);
    assert_eq!(arena.occupied(), 11);
    string.concat("def").unwrap();
    assert_eq!(string.as_str(), "abcdef");
    assert_eq!(copy.as_str(), "abc");
    let mut full = Arena::new(2);
    assert!(string.clone(&mut full).is_none());
}

#[test]
fn string_reads_as_a_str() {
    let mut arena = Arena::new(64);
    let string = ArenaString::from_str(&mut arena, "Hello").unwrap();
    let text: &str = &string;
    assert_eq!(text, "Hello");
    assert!(string.starts_with("He"));
}
