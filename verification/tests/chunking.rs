use dircord::chunker::{split_line, StrChunks};

#[test]
fn empty_line_has_no_chunks() {
    let mut chunks = StrChunks::new("", 10);
    assert_eq!(chunks.next(), None);
    assert!(split_line("", 10).is_empty());
}

#[test]
fn short_line_is_one_chunk() {
    let mut chunks = StrChunks::new("hello", 10);
    assert_eq!(chunks.next(), Some("hello"));
    assert_eq!(chunks.next(), None);
}

#[test]
fn line_of_exactly_the_budget_is_one_chunk() {
    assert_eq!(split_line("hello", 5), vec!["hello"]);
}

#[test]
fn ascii_line_is_cut_every_budget_bytes() {
    assert_eq!(split_line("abcdefghij", 4), vec!["abcd", "efgh", "ij"]);
}

#[test]
fn multi_byte_character_is_never_cut() {
    // 'é' takes two bytes: "aé" is three bytes, so a budget of two cuts before it.
    assert_eq!(split_line("aébc", 2), vec!["a", "é", "bc"]);
    // '€' takes three bytes.
    assert_eq!(split_line("€€", 4), vec!["€", "€"]);
    // an emoji takes four.
    assert_eq!(split_line("a😀b", 4), vec!["a", "😀", "b"]);
}

#[test]
fn chunks_fit_the_budget_and_join_to_the_line() {
    let line = "Zażółć gęślą jaźń — 日本語のテキスト and some plain words 😀😀😀";
    for budget in 4..40 {
        let chunks = split_line(line, budget);
        assert!(chunks.iter().all(|c| !c.is_empty() && c.len() <= budget));
        assert_eq!(chunks.concat(), line);
    }
}

#[test]
fn character_wider_than_the_budget_stops_the_cutting() {
    assert_eq!(split_line("ab€cd", 2), vec!["ab"]);
    let mut chunks = StrChunks::new("€", 2);
    assert_eq!(chunks.next(), Some(""));
    assert_eq!(chunks.next(), Some(""));
}

#[test]
fn zero_budget_gives_no_chunks() {
    assert!(split_line("abc", 0).is_empty());
}
