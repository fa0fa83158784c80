use dircord::cache::{avatar_by_name, AvatarMemo, IdMemo};
use dircord::roster::{
    entry_by_id, entry_by_name, member_by_id, member_by_name, NamedId, Roster, RosterError,
    RosterMember,
};

fn member(id: u64, name: &str, avatar: Option<&str>) -> RosterMember {
    RosterMember { id, display_name: name.to_string(), avatar_url: avatar.map(str::to_string) }
}

#[test]
fn roster_keeps_the_order_of_arrival() {
    let mut roster = Roster::new(vec![member(1, "Ann", None)]);
    roster.add(member(2, "Bob", None));
    let names: Vec<&str> = roster.snapshot().iter().map(|m| m.display_name.as_str()).collect();
    assert_eq!(names, vec!["Ann", "Bob"]);
}

#[test]
fn update_moves_the_member_to_the_end() {
    let mut roster = Roster::new(vec![member(1, "Ann", None), member(2, "Bob", None)]);
    assert_eq!(roster.update(member(1, "Anna", None)), Ok(()));
    assert_eq!(roster.snapshot(), &vec![member(2, "Bob", None), member(1, "Anna", None)]);
}

#[test]
fn update_of_an_unknown_member_is_reported() {
    let mut roster = Roster::new(vec![member(1, "Ann", None)]);
    assert_eq!(roster.update(member(9, "Zed", None)), Err(RosterError::UnknownMember));
    assert_eq!(roster.snapshot(), &vec![member(1, "Ann", None)]);
}

#[test]
fn remove_hands_the_member_back() {
    let mut roster = Roster::new(vec![member(1, "Ann", None), member(2, "Bob", None)]);
    assert_eq!(roster.remove(1), Ok(member(1, "Ann", None)));
    assert_eq!(roster.snapshot(), &vec![member(2, "Bob", None)]);
    assert_eq!(roster.remove(1), Err(RosterError::UnknownMember));
    assert_eq!(roster.snapshot(), &vec![member(2, "Bob", None)]);
}

#[test]
fn lookups_find_the_first_match() {
    let members = vec![member(1, "Ann", None), member(2, "Ann", None), member(3, "Bob", None)];
    assert_eq!(member_by_id(&members, 2), Some(1));
    assert_eq!(member_by_id(&members, 7), None);
    assert_eq!(member_by_name(&members, "Ann"), Some(0));
    assert_eq!(member_by_name(&members, "ann"), None);
    let entries =
        vec![NamedId { id: 5, name: "general".into() }, NamedId { id: 6, name: "random".into() }];
    assert_eq!(entry_by_id(&entries, 6), Some(1));
    assert_eq!(entry_by_name(&entries, "general"), Some(0));
    assert_eq!(entry_by_name(&entries, "gen"), None);
}

#[test]
fn id_memo_remembers_hits_and_misses() {
    let mut memo = IdMemo::new();
    let members = vec![member(1, "Ann", None)];
    assert_eq!(memo.resolve("Ann", &members), Some(1));
    assert_eq!(memo.resolve("Bob", &members), None);
    // the roster changes, the memo does not
    let later = vec![member(7, "Ann", None), member(2, "Bob", None)];
    assert_eq!(memo.resolve("Ann", &later), Some(1));
    assert_eq!(memo.resolve("Bob", &later), None);
    assert_eq!(memo.peek("Ann", &later), Some(1));
    assert_eq!(memo.peek("Cid", &later), None);
    memo.clear();
    assert_eq!(memo.resolve("Ann", &later), Some(7));
    assert_eq!(memo.resolve("Bob", &later), Some(2));
}

#[test]
fn avatar_is_that_of_the_first_namesake_with_one() {
    let members = vec![
        member(1, "Ann", None),
        member(2, "Ann", Some("https://cdn.example/a.png")),
        member(3, "Bob", None),
    ];
    assert_eq!(avatar_by_name(&members, "Ann"), Some("https://cdn.example/a.png".to_string()));
    assert_eq!(avatar_by_name(&members, "Bob"), None);
    let mut memo = AvatarMemo::new();
    assert_eq!(memo.resolve("Ann", &members), Some("https://cdn.example/a.png".to_string()));
    assert_eq!(memo.resolve("Bob", &members), None);
    let later = vec![member(3, "Bob", Some("https://cdn.example/b.png"))];
    assert_eq!(memo.resolve("Ann", &later), Some("https://cdn.example/a.png".to_string()));
    assert_eq!(memo.resolve("Bob", &later), None);
    memo.clear();
    assert_eq!(memo.resolve("Bob", &later), Some("https://cdn.example/b.png".to_string()));
}
