use dircord::badge::{colour_of, create_prefix, fits_line, LINE_LIMIT};

#[test]
fn colour_is_first_code_point_plus_byte_length_modulo_twelve() {
    // 'A' is 65, three bytes: 68 mod 12.
    assert_eq!(colour_of("Ann"), 8);
    // 'b' is 98, three bytes: 101 mod 12.
    assert_eq!(colour_of("bob"), 5);
    // 'é' is 233, "été" takes five bytes: 238 mod 12.
    assert_eq!(colour_of("été"), 10);
    assert_eq!(colour_of(""), 0);
}

#[test]
fn colour_is_always_below_twelve() {
    for name in ["a", "zz", "Ann", "😀", "日本語", "x y z", "\u{10ffff}"] {
        assert!(colour_of(name) < 12);
        assert_eq!(colour_of(name), colour_of(name));
    }
}

#[test]
fn prefix_wraps_the_name() {
    let (prefix, room) = create_prefix(Some("Ann"), false);
    assert_eq!(prefix, "<\u{3}08A\u{200b}nn\u{f}> ");
    assert_eq!(room, 400 - 13);
    assert_eq!(room, LINE_LIMIT - prefix.len());
}

#[test]
fn reply_prefix_carries_the_marker() {
    let (prefix, room) = create_prefix(Some("Ann"), true);
    assert_eq!(prefix, "(reply to) <\u{3}08A\u{200b}nn\u{f}> ");
    assert_eq!(room, 400 - 24);
}

#[test]
fn prefix_of_one_character_name() {
    let (prefix, room) = create_prefix(Some("x"), false);
    // 'x' is 120, one byte: 121 mod 12 is 1.
    assert_eq!(prefix, "<\u{3}01x\u{200b}\u{f}> ");
    assert_eq!(room, 400 - 11);
}

#[test]
fn prefix_without_a_name() {
    let (prefix, room) = create_prefix(None, true);
    assert_eq!(prefix, "(reply) ");
    assert_eq!(room, 392);
    assert_eq!(create_prefix(None, false), ("(reply) ".to_string(), 392));
}

#[test]
fn long_names_are_told_apart() {
    let long = "n".repeat(390);
    assert!(fits_line(Some(long.as_str()), false));
    assert!(!fits_line(Some(long.as_str()), true));
    let (prefix, room) = create_prefix(Some(long.as_str()), false);
    assert_eq!(prefix.len(), 400);
    assert_eq!(room, 0);
    assert!(!fits_line(Some("n".repeat(391).as_str()), false));
    assert!(fits_line(None, true));
}

#[test]
fn colour_digits_follow_the_first_colour_byte() {
    for name in ["Ann", "bob", "x", "日本語", "été", "zzzzzzzzzz"] {
        for is_reply in [false, true] {
            let (prefix, _) = create_prefix(Some(name), is_reply);
            let at = prefix.find('\u{3}').unwrap();
            let digits = &prefix[at + 1..at + 3];
            assert_eq!(digits.parse::<usize>().unwrap(), colour_of(name));
            assert!(colour_of(name) < 12);
            assert_eq!(create_prefix(Some(name), is_reply), create_prefix(Some(name), is_reply));
        }
    }
}
