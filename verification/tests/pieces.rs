use dircord::lines::{
    is_whitespace, join_lines, part_of, split_lines, split_on, starts_with, trim, trim_str, Strip,
};
use dircord::pattern::{
    captures_valid, group_of, is_match, rewrite, rewrite_matches, search, splice, Capture, Rule,
};
use dircord::webhook::{parse_webhook_url, WebhookAddress, WebhookUrlError};
use dircord::text::{
    chars_of, parse_decimal, push_decimal, push_text, slice_of, str_eq, str_len, string_of,
};

fn chars(s: &str) -> Vec<char> {
    s.chars().collect()
}

#[test]
fn strings_and_characters_convert_both_ways() {
    assert_eq!(chars_of("aé😀"), vec!['a', 'é', '😀']);
    assert_eq!(string_of(&vec!['a', 'é', '😀']), "aé😀");
    assert_eq!(str_len("aé😀"), 7);
    assert!(str_eq("abc", "abc"));
    assert!(!str_eq("abc", "abd"));
    assert!(!str_eq("abc", "ab"));
}

#[test]
fn slices_are_taken_by_byte_offsets() {
    assert_eq!(slice_of("aé😀b", 1, 3), "é");
    assert_eq!(slice_of("aé😀b", 0, 8), "aé😀b");
    assert_eq!(slice_of("abc", 2, 2), "");
}

#[test]
fn decimal_numerals_are_read_and_written() {
    assert_eq!(parse_decimal("0"), Some(0));
    assert_eq!(parse_decimal("007"), Some(7));
    assert_eq!(parse_decimal("18446744073709551615"), Some(u64::MAX));
    assert_eq!(parse_decimal("18446744073709551616"), None);
    assert_eq!(parse_decimal("99999999999999999999999"), None);
    assert_eq!(parse_decimal(""), None);
    assert_eq!(parse_decimal("12a"), None);
    assert_eq!(parse_decimal("+12"), None);
    let mut s = String::from("n=");
    push_decimal(&mut s, 0);
    push_text(&mut s, ",");
    push_decimal(&mut s, 1203);
    push_text(&mut s, ",");
    push_decimal(&mut s, u64::MAX);
    assert_eq!(s, "n=0,1203,18446744073709551615");
}

#[test]
fn white_space_is_the_unicode_property() {
    for c in [' ', '\t', '\n', '\r', '\u{b}', '\u{c}', '\u{85}', '\u{a0}', '\u{2003}', '\u{3000}'] {
        assert!(is_whitespace(c));
    }
    for c in ['a', '\u{200b}', '\u{1}', '\u{f}', '_'] {
        assert!(!is_whitespace(c));
    }
    for n in 0..0x3100u32 {
        if let Some(c) = char::from_u32(n) {
            assert_eq!(is_whitespace(c), c.is_whitespace());
        }
    }
}

#[test]
fn trimming_takes_off_both_ends_only() {
    assert_eq!(trim(&chars("  a b \n"), Strip::Space), chars("a b"));
    assert_eq!(trim(&chars("   "), Strip::Space), chars(""));
    assert_eq!(trim(&chars(""), Strip::Space), chars(""));
    assert_eq!(trim_str("\u{f}\u{f}a\u{f}b\u{f}", Strip::Only('\u{f}')), "a\u{f}b");
    assert_eq!(trim_str("abc", Strip::Only('\u{f}')), "abc");
}

#[test]
fn lines_end_with_line_feeds() {
    let lines = |s: &str| -> Vec<String> {
        split_lines(&chars(s)).iter().map(|l| l.iter().collect()).collect()
    };
    assert_eq!(lines(""), Vec::<String>::new());
    assert_eq!(lines("a"), vec!["a"]);
    assert_eq!(lines("a\n"), vec!["a"]);
    assert_eq!(lines("a\nb"), vec!["a", "b"]);
    assert_eq!(lines("a\r\nb\n"), vec!["a", "b"]);
    assert_eq!(lines("a\n\nb"), vec!["a", "", "b"]);
    assert_eq!(lines("\n"), vec![""]);
    assert_eq!(lines("a\rb"), vec!["a\rb"]);
    for s in ["", "a", "a\n", "\n\n", "x\r\ny\r\n", "one\ntwo\nthree", "a\r"] {
        let expected: Vec<String> = s.lines().map(str::to_string).collect();
        assert_eq!(lines(s), expected);
    }
}

#[test]
fn line_feeds_give_way_to_spaces() {
    assert_eq!(join_lines(&chars("a\r\nb\nc")), chars("a b c"));
    assert_eq!(join_lines(&chars("a\rb")), chars("a\rb"));
    assert_eq!(join_lines(&chars("\n\n")), chars("  "));
}

#[test]
fn prefixes_and_parts() {
    assert!(starts_with(&chars("++raw"), &chars("++")));
    assert!(starts_with(&chars("++"), &chars("")));
    assert!(!starts_with(&chars("+"), &chars("++")));
    assert!(!starts_with(&chars("+-+"), &chars("++")));
    assert_eq!(part_of(&chars("abcdef"), 2, 4), chars("cd"));
}

#[test]
fn search_reports_matches_with_their_first_group() {
    let found = search("a <@12> b <@345>", "<@([0-9]+)>").unwrap();
    assert_eq!(
        found,
        vec![
            Capture { start: 2, end: 7, group: Some((4, 6)) },
            Capture { start: 10, end: 16, group: Some((12, 15)) },
        ]
    );
    assert!(captures_valid("a <@12> b <@345>", &found));
    assert_eq!(group_of("a <@12> b <@345>", &found[1]), "345");
    assert_eq!(search("nothing here", "<@([0-9]+)>"), Some(vec![]));
    assert_eq!(search("x", "\\x1f|\\x02").unwrap(), vec![]);
}

#[test]
fn search_with_a_broken_pattern_finds_nothing() {
    assert_eq!(search("abc", "("), None);
    assert!(!is_match("abc", "("));
    assert_eq!(rewrite("abc", "(", &Rule::Delete), "abc");
}

#[test]
fn matches_that_do_not_lie_in_the_text_are_refused() {
    let text = "aé";
    assert!(!captures_valid(text, &vec![Capture { start: 2, end: 3, group: None }]));
    assert!(!captures_valid(text, &vec![Capture { start: 0, end: 9, group: None }]));
    assert!(!captures_valid(
        text,
        &vec![Capture { start: 1, end: 3, group: None }, Capture { start: 0, end: 1, group: None }]
    ));
    assert!(!captures_valid(text, &vec![Capture { start: 0, end: 1, group: Some((1, 3)) }]));
    assert!(captures_valid(text, &vec![Capture { start: 0, end: 1, group: Some((0, 1)) }]));
}

#[test]
fn rewriting_replaces_every_match() {
    assert_eq!(rewrite("a<:x:1>b<:yy:22>", "<:(\\w+):[0-9]+>", &Rule::Frame { open: ":", close: ":" }), "a:x:b:yy:");
    assert_eq!(rewrite("a\u{3}04,05b\u{2}c", "\\x02|\\x03(?:\\d{1,2}(?:,\\d{1,2})?)?", &Rule::Delete), "abc");
    assert_eq!(rewrite("été <x> été", "<(x)>", &Rule::Frame { open: "", close: "" }), "été x été");
    assert!(is_match(" x", "^\\s"));
    assert!(!is_match("x ", "^\\s"));
}

#[test]
fn splicing_puts_pieces_in_the_place_of_matches() {
    let caps = vec![
        Capture { start: 0, end: 1, group: None },
        Capture { start: 2, end: 4, group: None },
    ];
    assert_eq!(splice("abcde", &caps, &vec!["X".to_string(), "".to_string()]), "Xbe");
    assert_eq!(splice("abcde", &vec![], &vec![]), "abcde");
    assert_eq!(rewrite_matches("abcde", &caps, &Rule::Delete), "be");
}

#[test]
fn webhook_address_gives_identifier_and_token() {
    assert_eq!(
        parse_webhook_url("https://discord.com/api/webhooks/123456/abc-DEF_token"),
        Ok(WebhookAddress { id: 123456, token: "abc-DEF_token".into() })
    );
    assert_eq!(
        parse_webhook_url("42/tok/more"),
        Ok(WebhookAddress { id: 42, token: "tok".into() })
    );
    assert_eq!(
        parse_webhook_url("https://discord.com/api/webhooks/https://discord.com/api/webhooks/7/"),
        Ok(WebhookAddress { id: 7, token: "".into() })
    );
    assert_eq!(parse_webhook_url("+42/tok"), Ok(WebhookAddress { id: 42, token: "tok".into() }));
    assert_eq!(parse_webhook_url("+/tok"), Err(WebhookUrlError::BadId));
    assert_eq!(parse_webhook_url("++4/tok"), Err(WebhookUrlError::BadId));
    assert_eq!(parse_webhook_url("-4/tok"), Err(WebhookUrlError::BadId));
    assert_eq!(parse_webhook_url("https://discord.com/api/webhooks/123456"), Err(WebhookUrlError::NoToken));
    assert_eq!(parse_webhook_url("https://example.com/1/t"), Err(WebhookUrlError::BadId));
    assert_eq!(parse_webhook_url(""), Err(WebhookUrlError::BadId));
    assert_eq!(parse_webhook_url("99999999999999999999999/t"), Err(WebhookUrlError::BadId));
}

#[test]
fn texts_are_cut_at_a_separator() {
    assert_eq!(split_on("a/b//c", '/'), vec!["a", "b", "", "c"]);
    assert_eq!(split_on("", '/'), vec![""]);
    assert_eq!(split_on("/", '/'), vec!["", ""]);
}
