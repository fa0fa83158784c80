use dircord::bridge::{
    drain, irc_loop, is_deliverable, msg_task, split_words, Action, Bridge, LineEvent,
    QueuedMessage, WebhookLink,
};
use dircord::cache::IdMemo;
use dircord::line_to_rich::{
    irc_to_discord_processing, mark_toggles, mention_pass, unwrap_action, write_marks, Mark,
};
use dircord::relay::ChannelLink;
use dircord::rich_to_line::discord_to_irc_processing;
use dircord::roster::{NamedId, RosterMember};

fn members() -> Vec<RosterMember> {
    vec![
        RosterMember { id: 123, display_name: "Ann".into(), avatar_url: None },
        RosterMember {
            id: 5,
            display_name: "bob".into(),
            avatar_url: Some("https://cdn.example/bob.png".into()),
        },
    ]
}

fn convert(line: &str) -> String {
    let mut memo = IdMemo::new();
    irc_to_discord_processing(
        line,
        &members(),
        &mut memo,
        &vec![NamedId { id: 456, name: "general".into() }],
        &vec![NamedId { id: 7, name: "smile".into() }],
    )
}

#[test]
fn plain_line_stays() {
    assert_eq!(convert("hello world"), "hello world");
    assert_eq!(convert(""), "");
}

#[test]
fn indented_line_is_passed_on_as_code() {
    assert_eq!(convert("  /\\_/\\  "), "`  /\\_/\\  `");
    assert_eq!(convert("\tx"), "`\tx`");
}

#[test]
fn indented_line_with_a_mention_is_converted() {
    assert_eq!(convert(" @Ann hi"), " <@123> hi");
}

#[test]
fn leading_nickname_becomes_a_mention() {
    assert_eq!(convert("Ann: hi"), "<@123> hi");
    assert_eq!(convert("Ann, hi"), "<@123> hi");
    assert_eq!(convert("Zed: hi"), "Zed: hi");
    assert_eq!(convert("hi Ann: there"), "hi Ann: there");
}

#[test]
fn name_after_an_at_sign_becomes_a_mention() {
    assert_eq!(convert("hello @Ann"), "hello <@123>");
    assert_eq!(convert("@bob @Ann @nobody"), "<@5> <@123> @nobody");
    assert_eq!(convert("mail ann@example.org"), "mail ann@example.org");
    assert_eq!(convert("@ann"), "@ann");
}

#[test]
fn channels_and_emoji_become_tokens() {
    assert_eq!(convert("see #general and #nowhere"), "see <#456> and #nowhere");
    assert_eq!(convert("ok :smile: :frown:"), "ok <:smile:7> :frown:");
}

#[test]
fn action_is_put_between_asterisks() {
    assert_eq!(convert("\u{1}ACTION waves\u{1}"), "*waves*");
    assert_eq!(unwrap_action("\u{1}ACTION waves\u{1}"), "*waves*");
    assert_eq!(unwrap_action("\u{1}ACTION \u{1}"), "**");
    assert_eq!(unwrap_action("\u{1}ACTION waves"), "\u{1}ACTION waves");
    assert_eq!(unwrap_action("\u{1}ACTION "), "\u{1}ACTION ");
    assert_eq!(unwrap_action("ACTION waves\u{1}"), "ACTION waves\u{1}");
    assert_eq!(unwrap_action(""), "");
}

#[test]
fn toggles_become_markers() {
    assert_eq!(convert("\u{2}bold\u{2} and \u{1d}italic\u{1d}"), "**bold** and *italic*");
    assert_eq!(convert("\u{2}a\u{f}b"), "**a**b");
    assert_eq!(convert("\u{1d}a\u{f}b"), "*a*b");
}

#[test]
fn open_markup_is_closed_at_the_end() {
    assert_eq!(convert("\u{2}open"), "**open**");
    assert_eq!(convert("\u{1d}open"), "*open*");
    assert_eq!(convert("\u{2}\u{1d}both"), "***both***");
    assert_eq!(convert("\u{2}a\u{1d}b\u{f}c"), "**a*b**c*");
}

#[test]
fn other_control_bytes_are_taken_out() {
    assert_eq!(convert("\u{3}04red\u{3} x \u{1f}u\u{1f} \u{16}r\u{16} \u{f}"), "red x u r ");
    assert_eq!(convert("\u{3}04,12two\u{3}9one"), "twoone");
}

#[test]
fn markers_always_come_in_pairs() {
    let inputs = [
        "", "\u{2}", "\u{1d}", "\u{f}", "\u{2}\u{2}\u{2}", "\u{2}\u{f}\u{f}\u{1d}",
        "a\u{1d}b\u{2}c\u{f}d\u{f}e\u{2}", "\u{1d}\u{1d}\u{1d}\u{f}\u{2}\u{f}\u{1d}",
    ];
    for input in inputs {
        let marks = mark_toggles(&input.chars().collect());
        let bold = marks.iter().filter(|m| **m == Mark::Bold).count();
        let italic = marks.iter().filter(|m| **m == Mark::Italic).count();
        assert_eq!(bold % 2, 0);
        assert_eq!(italic % 2, 0);
    }
    assert_eq!(
        mark_toggles(&vec!['\u{2}', 'a', '\u{1d}']),
        vec![Mark::Bold, Mark::Plain('a'), Mark::Italic, Mark::Italic, Mark::Bold]
    );
    assert_eq!(write_marks(&vec![Mark::Bold, Mark::Plain('a'), Mark::Italic]), "**a*");
}

#[test]
fn plain_message_survives_the_round_trip() {
    for message in ["hello world", "just some words, and a full stop."] {
        let line = discord_to_irc_processing(message, &vec![], &vec![], &vec![]);
        assert_eq!(line, format!("{message}\n"));
        assert_eq!(convert(line.trim_end_matches('\n')), message);
    }
    let line = discord_to_irc_processing("_x_ and **y**", &vec![], &vec![], &vec![]);
    assert_eq!(convert(line.trim_end_matches('\n')), "*x* and **y**");
}

#[test]
fn plain_words_survive_the_round_trip_whatever_the_setting() {
    let members = members();
    let channels = vec![NamedId { id: 456, name: "general".into() }];
    let emojis = vec![NamedId { id: 7, name: "smile".into() }];
    for s in ["a", "hello", "two words", "Ann and bob met 3 times", "x1 y2 z3"] {
        let line = discord_to_irc_processing(s, &members, &channels, &vec![]);
        let mut memo = IdMemo::new();
        let back = irc_to_discord_processing(
            line.trim_end_matches('\n'),
            &members,
            &mut memo,
            &channels,
            &emojis,
        );
        assert_eq!(back, s);
    }
}

#[test]
fn memo_remembers_what_a_line_mentioned() {
    let mut memo = IdMemo::new();
    let none = vec![];
    assert_eq!(irc_to_discord_processing("Ann: hi @nobody", &members(), &mut memo, &none, &none), "<@123> hi @nobody");
    // the roster no longer knows Ann, the memo does
    assert_eq!(irc_to_discord_processing("@Ann @bob", &vec![], &mut memo, &none, &none), "<@123> @bob");
    assert_eq!(memo.peek("nobody", &members()), None);
    assert_eq!(memo.peek("bob", &members()), None);
    assert_eq!(mention_pass("x @Ann", "(?<=\\s|^)@([\\w\\S]+)", &vec![], &mut memo), "x <@123>");
}

fn bridge() -> Bridge {
    Bridge::new(
        vec![
            ChannelLink { name: "#chan".into(), id: 10 },
            ChannelLink { name: "#hooked".into(), id: 11 },
        ],
        vec![WebhookLink { channel: "#hooked".into(), webhook: 77 }],
    )
}

fn names(channel: &str, users: &str) -> LineEvent {
    LineEvent::NameReply { channel: channel.into(), users: users.into() }
}

fn raw(channel_id: u64, message: &str) -> Action {
    Action::Queue(QueuedMessage::Raw { channel_id, message: message.into() })
}

fn nick(n: &str) -> Option<String> {
    Some(n.to_string())
}

#[test]
fn empty_message_body_queues_nothing() {
    let mut b = bridge();
    let event = LineEvent::Privmsg { nick: nick("ann"), channel: "#chan".into(), text: "".into() };
    assert_eq!(irc_loop(&mut b, &event, &members()), vec![]);
    assert_eq!(b.route_message("#chan", 10, "ann", String::new(), &members()), None);
    assert_eq!(b.route_message("#hooked", 11, "ann", String::new(), &members()), None);
    assert_eq!(msg_task(QueuedMessage::Raw { channel_id: 10, message: "".into() }), None);
    assert_eq!(
        msg_task(QueuedMessage::Webhook {
            webhook: 77,
            avatar_url: None,
            content: "".into(),
            nickname: "ann".into()
        }),
        None
    );
}

#[test]
fn message_is_converted_and_left_to_be_routed() {
    let mut b = bridge();
    let event =
        LineEvent::Privmsg { nick: nick("ann"), channel: "#chan".into(), text: "\u{2}hi\u{2} @Ann".into() };
    assert_eq!(
        irc_loop(&mut b, &event, &members()),
        vec![Action::Clean {
            channel: "#chan".into(),
            channel_id: 10,
            nickname: "ann".into(),
            content: "**hi** <@123>".into()
        }]
    );
}

#[test]
fn message_uses_the_fetched_channels_and_emoji() {
    let mut b = bridge();
    assert!(b.needs_guild_data());
    b.set_guild_data(
        1,
        vec![NamedId { id: 456, name: "general".into() }],
        vec![NamedId { id: 7, name: "smile".into() }],
    );
    assert!(!b.needs_guild_data());
    let event = LineEvent::Privmsg {
        nick: nick("ann"),
        channel: "#chan".into(),
        text: "#general :smile:".into(),
    };
    assert_eq!(
        irc_loop(&mut b, &event, &members()),
        vec![Action::Clean {
            channel: "#chan".into(),
            channel_id: 10,
            nickname: "ann".into(),
            content: "<#456> <:smile:7>".into()
        }]
    );
}

#[test]
fn messages_without_sender_or_mapping_are_dropped() {
    let mut b = bridge();
    let anonymous = LineEvent::Privmsg { nick: None, channel: "#chan".into(), text: "x".into() };
    assert_eq!(irc_loop(&mut b, &anonymous, &members()), vec![]);
    let elsewhere =
        LineEvent::Privmsg { nick: nick("ann"), channel: "#nope".into(), text: "x".into() };
    assert_eq!(irc_loop(&mut b, &elsewhere, &members()), vec![]);
    assert_eq!(irc_loop(&mut b, &LineEvent::Other, &members()), vec![]);
    assert_eq!(b.channel_id("#chan"), Some(10));
    assert_eq!(b.channel_id("#nope"), None);
}

#[test]
fn routed_message_goes_through_the_webhook_or_the_relay_account() {
    let mut b = bridge();
    assert_eq!(
        b.route_message("#chan", 10, "ann", "hello".into(), &members()),
        Some(QueuedMessage::Raw { channel_id: 10, message: "<ann>, hello".into() })
    );
    assert_eq!(
        b.route_message("#hooked", 11, "bob", "hello".into(), &members()),
        Some(QueuedMessage::Webhook {
            webhook: 77,
            avatar_url: Some("https://cdn.example/bob.png".into()),
            content: "hello".into(),
            nickname: "bob".into()
        })
    );
    // the avatar is remembered
    assert_eq!(
        b.route_message("#hooked", 11, "bob", "again".into(), &vec![]),
        Some(QueuedMessage::Webhook {
            webhook: 77,
            avatar_url: Some("https://cdn.example/bob.png".into()),
            content: "again".into(),
            nickname: "bob".into()
        })
    );
    // until the memo expires
    assert!(!b.expire(1800, None));
    assert!(b.expire(1801, None));
    assert_eq!(
        b.route_message("#hooked", 11, "bob", "later".into(), &vec![]),
        Some(QueuedMessage::Webhook {
            webhook: 77,
            avatar_url: None,
            content: "later".into(),
            nickname: "bob".into()
        })
    );
}

#[test]
fn caches_expire_after_the_span() {
    let mut b = bridge();
    b.set_guild_data(1, vec![], vec![NamedId { id: 7, name: "smile".into() }]);
    assert!(!b.needs_guild_data());
    assert!(!b.expire(10, Some(10)));
    assert!(!b.needs_guild_data());
    assert!(b.expire(11, Some(10)));
    assert!(b.needs_guild_data());
    b.set_guild_data(1, vec![], vec![]);
    assert!(b.needs_guild_data());
}

#[test]
fn join_is_announced_on_a_channel_with_a_list() {
    let mut b = bridge();
    let join = LineEvent::Join { nick: nick("cid"), channel: "#chan".into() };
    assert_eq!(irc_loop(&mut b, &join, &members()), vec![]);
    assert_eq!(irc_loop(&mut b, &names("#chan", "ann bob"), &members()), vec![]);
    assert_eq!(irc_loop(&mut b, &join, &members()), vec![raw(10, "*cid* has joined the channel")]);
    let unmapped = LineEvent::Join { nick: nick("cid"), channel: "#nope".into() };
    assert_eq!(irc_loop(&mut b, &names("#nope", "ann"), &members()), vec![]);
    assert_eq!(irc_loop(&mut b, &unmapped, &members()), vec![]);
    let anonymous = LineEvent::Join { nick: None, channel: "#chan".into() };
    assert_eq!(irc_loop(&mut b, &anonymous, &members()), vec![]);
}

#[test]
fn part_is_announced_once() {
    let mut b = bridge();
    irc_loop(&mut b, &names("#chan", "ann bob cid"), &members());
    let part = LineEvent::Part { nick: nick("ann"), channel: "#chan".into(), reason: None };
    assert_eq!(
        irc_loop(&mut b, &part, &members()),
        vec![raw(10, "*ann* has quit (Connection closed)")]
    );
    assert_eq!(irc_loop(&mut b, &part, &members()), vec![]);
    let part = LineEvent::Part {
        nick: nick("bob"),
        channel: "#chan".into(),
        reason: Some("gone fishing".into()),
    };
    assert_eq!(irc_loop(&mut b, &part, &members()), vec![raw(10, "*bob* has quit (gone fishing)")]);
}

#[test]
fn quit_is_announced_on_every_channel_the_nickname_was_on() {
    let mut b = bridge();
    irc_loop(&mut b, &names("#chan", "ann bob"), &members());
    irc_loop(&mut b, &names("#nope", "ann"), &members());
    irc_loop(&mut b, &names("#hooked", "cid ann"), &members());
    let quit = LineEvent::Quit { nick: nick("ann"), reason: Some("bye".into()) };
    assert_eq!(
        irc_loop(&mut b, &quit, &members()),
        vec![raw(10, "*ann* has quit (bye)"), raw(11, "*ann* has quit (bye)")]
    );
    assert_eq!(irc_loop(&mut b, &quit, &members()), vec![]);
    let quit = LineEvent::Quit { nick: nick("cid"), reason: None };
    assert_eq!(
        irc_loop(&mut b, &quit, &members()),
        vec![raw(11, "*cid* has quit (Connection closed)")]
    );
}

#[test]
fn new_nickname_takes_the_place_of_the_old() {
    let mut b = bridge();
    irc_loop(&mut b, &names("#chan", "ann bob"), &members());
    let rename = LineEvent::Nick { nick: nick("ann"), new_nick: "anna".into() };
    assert_eq!(
        irc_loop(&mut b, &rename, &members()),
        vec![raw(10, "*ann* is now known as *anna*")]
    );
    assert_eq!(irc_loop(&mut b, &rename, &members()), vec![]);
    let quit = LineEvent::Quit { nick: nick("anna"), reason: None };
    assert_eq!(
        irc_loop(&mut b, &quit, &members()),
        vec![raw(10, "*anna* has quit (Connection closed)")]
    );
}

#[test]
fn names_replace_what_was_known_of_a_channel() {
    let mut b = bridge();
    irc_loop(&mut b, &names("#chan", "ann"), &members());
    irc_loop(&mut b, &names("#chan", "bob"), &members());
    let quit = LineEvent::Quit { nick: nick("ann"), reason: None };
    assert_eq!(irc_loop(&mut b, &quit, &members()), vec![]);
    let quit = LineEvent::Quit { nick: nick("bob"), reason: None };
    assert_eq!(irc_loop(&mut b, &quit, &members()).len(), 1);
}

#[test]
fn topics_are_passed_on_to_mapped_channels() {
    let mut b = bridge();
    let told = LineEvent::TopicReply { channel: "#chan".into(), topic: "welcome".into() };
    assert_eq!(
        irc_loop(&mut b, &told, &members()),
        vec![Action::SetTopic { channel_id: 10, topic: "welcome".into() }]
    );
    let set = LineEvent::Topic {
        nick: nick("ann"),
        channel: "#hooked".into(),
        new_topic: Some("new".into()),
    };
    assert_eq!(
        irc_loop(&mut b, &set, &members()),
        vec![Action::SetTopic { channel_id: 11, topic: "new".into() }]
    );
    let unset = LineEvent::Topic { nick: nick("ann"), channel: "#chan".into(), new_topic: None };
    assert_eq!(irc_loop(&mut b, &unset, &members()), vec![]);
    let elsewhere = LineEvent::TopicReply { channel: "#nope".into(), topic: "x".into() };
    assert_eq!(irc_loop(&mut b, &elsewhere, &members()), vec![]);
}

#[test]
fn queue_is_drained_in_order_without_empty_messages() {
    let m = |s: &str| QueuedMessage::Raw { channel_id: 1, message: s.into() };
    let w = |s: &str| QueuedMessage::Webhook {
        webhook: 2,
        avatar_url: None,
        content: s.into(),
        nickname: "n".into(),
    };
    assert_eq!(
        drain(vec![m("a"), m(""), w("b"), w(""), m("c")]),
        vec![m("a"), w("b"), m("c")]
    );
    assert_eq!(drain(vec![]), vec![]);
    assert!(is_deliverable(&m("a")));
    assert!(!is_deliverable(&w("")));
    assert_eq!(msg_task(m("a")), Some(m("a")));
}

#[test]
fn names_are_cut_at_spaces() {
    assert_eq!(split_words("ann bob"), vec!["ann", "bob"]);
    assert_eq!(split_words("ann  bob "), vec!["ann", "", "bob", ""]);
    assert_eq!(split_words(""), vec![""]);
}
