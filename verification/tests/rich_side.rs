use dircord::markup::{render_events, render_markup, MarkupEvent, MarkupTag};
use dircord::relay::{fit_reply, within, ChannelLink, Handler, Incoming, MessageKind, Quoted, Relay};
use dircord::rich_to_line::discord_to_irc_processing;
use dircord::roster::{NamedId, Roster, RosterError, RosterMember};

fn member(id: u64, name: &str) -> RosterMember {
    RosterMember { id, display_name: name.to_string(), avatar_url: None }
}

fn named(id: u64, name: &str) -> NamedId {
    NamedId { id, name: name.to_string() }
}

fn convert(message: &str) -> String {
    discord_to_irc_processing(
        message,
        &vec![member(123, "Ann")],
        &vec![named(456, "general")],
        &vec![named(7, "mods")],
    )
}

fn text(s: &str) -> MarkupEvent {
    MarkupEvent::Text(s.to_string())
}

#[test]
fn bold_mention_and_channel_are_transcoded() {
    assert_eq!(convert("**hi** <@123> check <#456>"), "\u{2}hi\u{f} @Ann check #general\n");
}

#[test]
fn unresolved_mention_is_left_verbatim() {
    assert_eq!(convert("<@999>"), "<@999>\n");
    assert_eq!(convert("ping <@999> and <@123>"), "ping <@999> and @Ann\n");
}

#[test]
fn unresolved_mentions_stay_between_words() {
    for id in ["1", "999", "18446744073709551615", "0042"] {
        for (a, b) in [("hello", "there"), ("a", "b"), ("Ping", "pong")] {
            let message = format!("{a} <@{id}> {b}");
            let out = convert(&message);
            assert_eq!(out.trim_end_matches('\n'), message);
        }
    }
}

#[test]
fn mention_with_a_number_too_large_is_left_verbatim() {
    assert_eq!(convert("<@99999999999999999999999>"), "<@99999999999999999999999>\n");
}

#[test]
fn empty_message_gives_empty_text() {
    assert_eq!(convert(""), "");
}

#[test]
fn second_spelling_of_a_mention_is_resolved() {
    assert_eq!(convert("<@!123>"), "@Ann\n");
}

#[test]
fn links_lose_their_angle_brackets() {
    assert_eq!(convert("see <https://example.com/x>"), "see https://example.com/x\n");
}

#[test]
fn custom_emoji_become_shortcodes() {
    assert_eq!(convert("nice <:thumbs_up:99887766>"), "nice :thumbs_up:\n");
}

#[test]
fn channels_resolve_or_are_deleted() {
    assert_eq!(convert("in <#456>"), "in #general\n");
    assert_eq!(convert("in <#1>"), "in #deleted-channel\n");
}

#[test]
fn roles_resolve_or_stay() {
    assert_eq!(convert("hey <@&7>"), "hey @mods\n");
    assert_eq!(convert("hey <@&8>"), "hey <@&8>\n");
}

#[test]
fn emphasis_becomes_italic() {
    assert_eq!(convert("_x_ and *y*"), "\u{1d}x\u{f} and \u{1d}y\u{f}\n");
}

#[test]
fn line_breaks_are_kept() {
    assert_eq!(convert("a\nb"), "a\nb\n");
}

#[test]
fn inline_code_keeps_its_backticks() {
    assert_eq!(convert("`let x`"), "`let x`\n");
}

#[test]
fn markup_is_rendered_from_text() {
    assert_eq!(render_markup("# Title"), "# \u{2}Title\u{f}");
    assert_eq!(render_markup("- a\n- b"), "\n\u{2022} a\n\u{2022} b");
    assert_eq!(render_markup("3. a\n4. b"), "\n3. a\n4. b");
    assert_eq!(render_markup("[text](http://x.y \"T\")"), "[text]: http://x.y (T)\n");
    assert_eq!(render_markup("[text](http://x.y)"), "[text]: http://x.y\n");
    assert_eq!(render_markup("> q"), "> q\n\u{f}");
}

#[test]
fn events_render_lists_with_indentation() {
    let events = vec![
        MarkupEvent::Start(MarkupTag::List { first: None }),
        MarkupEvent::Start(MarkupTag::Item),
        text("a"),
        MarkupEvent::Start(MarkupTag::List { first: None }),
        MarkupEvent::Start(MarkupTag::Item),
        text("b"),
        MarkupEvent::End(MarkupTag::Item),
        MarkupEvent::End(MarkupTag::List { first: None }),
        MarkupEvent::End(MarkupTag::Item),
        MarkupEvent::End(MarkupTag::List { first: None }),
    ];
    assert_eq!(render_events(&events), "\n\u{2022} a\n  \u{25e6} b");
}

#[test]
fn events_render_numbered_items_counting_on() {
    let events = vec![
        MarkupEvent::Start(MarkupTag::List { first: Some(9) }),
        MarkupEvent::Start(MarkupTag::Item),
        text("a"),
        MarkupEvent::End(MarkupTag::Item),
        MarkupEvent::Start(MarkupTag::Item),
        text("b"),
        MarkupEvent::End(MarkupTag::Item),
        MarkupEvent::End(MarkupTag::List { first: Some(9) }),
    ];
    assert_eq!(render_events(&events), "\n9. a\n10. b");
}

#[test]
fn events_render_every_kind() {
    let events = vec![
        MarkupEvent::Start(MarkupTag::Heading { level: 3 }),
        text("h"),
        MarkupEvent::End(MarkupTag::Heading { level: 3 }),
        MarkupEvent::Start(MarkupTag::Paragraph),
        MarkupEvent::Start(MarkupTag::Strong),
        text("s"),
        MarkupEvent::End(MarkupTag::Strong),
        MarkupEvent::Html("<b>".to_string()),
        MarkupEvent::Code("c".to_string()),
        MarkupEvent::SoftBreak,
        MarkupEvent::HardBreak,
        MarkupEvent::Other,
        MarkupEvent::Start(MarkupTag::Other),
        MarkupEvent::End(MarkupTag::Other),
        MarkupEvent::Start(MarkupTag::Link { url: "u".into(), title: "".into() }),
        MarkupEvent::End(MarkupTag::Link { url: "u".into(), title: "".into() }),
        MarkupEvent::End(MarkupTag::Paragraph),
        MarkupEvent::Start(MarkupTag::Item),
        MarkupEvent::End(MarkupTag::List { first: None }),
    ];
    assert_eq!(
        render_events(&events),
        "### \u{2}h\u{f}\u{2}s\u{f}<b>`c`\n\n\u{f}[]: u\n\n\u{2022} "
    );
    assert_eq!(render_events(&vec![]), "");
}

#[test]
fn reply_is_truncated_with_an_ellipsis_within_the_budget() {
    let long = "x".repeat(500);
    let cut = fit_reply(&long, 50);
    assert_eq!(cut, format!("{}...", "x".repeat(47)));
    assert!(cut.len() <= 50);
    for limit in 0..60 {
        let cut = fit_reply(&long, limit);
        assert!(cut.len() <= limit);
        assert!(within(&cut, limit));
    }
}

#[test]
fn reply_that_fits_is_left_alone() {
    assert_eq!(fit_reply("hello", 5), "hello");
    assert_eq!(fit_reply("hello", 400), "hello");
    assert_eq!(fit_reply("", 0), "");
}

#[test]
fn reply_is_cut_by_bytes() {
    assert_eq!(fit_reply("hello world", 5), "he...");
    // 'é' and 'ö' take two bytes each
    assert_eq!(fit_reply("héllo wörld", 6), "hé...");
    assert_eq!(fit_reply("hello world", 3), "");
    assert_eq!(fit_reply("hello world", 2), "");
}

fn handler() -> Handler {
    Handler::new(
        None,
        vec![
            ChannelLink { name: "#chan".into(), id: 10 },
            ChannelLink { name: "#other".into(), id: 11 },
        ],
        None,
    )
}

fn incoming(content: &str) -> Incoming {
    Incoming {
        kind: MessageKind::Regular,
        author_id: 123,
        author_is_bot: false,
        channel_id: 10,
        nick: Some("Ann".into()),
        content: content.into(),
        attachments: vec![],
        reply: None,
    }
}

fn relay(h: &Handler, msg: &Incoming) -> Option<Relay> {
    h.message(msg, &vec![member(123, "Ann")], &vec![named(456, "general")], &vec![])
}

const ANN: &str = "<\u{3}08A\u{200b}nn\u{f}> ";

#[test]
fn message_goes_to_the_mapped_channel() {
    let out = relay(&handler(), &incoming("hello")).unwrap();
    assert_eq!(out.channel, "#chan");
    assert_eq!(out.lines, vec![format!("{ANN}hello")]);
}

#[test]
fn empty_message_sends_no_line() {
    let out = relay(&handler(), &incoming("")).unwrap();
    assert!(out.lines.is_empty());
}

#[test]
fn messages_that_are_not_relayed() {
    let h = handler();
    let mut bot = incoming("x");
    bot.author_is_bot = true;
    assert_eq!(relay(&h, &bot), None);
    let mut pin = incoming("x");
    pin.kind = MessageKind::Other;
    assert_eq!(relay(&h, &pin), None);
    let mut elsewhere = incoming("x");
    elsewhere.channel_id = 99;
    assert_eq!(relay(&h, &elsewhere), None);
    let mut answer = incoming("x");
    answer.kind = MessageKind::InlineReply;
    assert!(relay(&h, &answer).is_some());
}

#[test]
fn own_messages_are_not_relayed_once_ready() {
    let mut h = handler();
    assert!(relay(&h, &incoming("x")).is_some());
    h.ready(123);
    assert_eq!(relay(&h, &incoming("x")), None);
}

#[test]
fn every_line_and_attachment_gets_the_prefix() {
    let mut msg = incoming("one\ntwo");
    msg.attachments = vec!["https://cdn.example/a.png".into(), "https://cdn.example/b.png".into()];
    let out = relay(&handler(), &msg).unwrap();
    assert_eq!(
        out.lines,
        vec![
            format!("{ANN}one"),
            format!("{ANN}two"),
            format!("{ANN}https://cdn.example/a.png"),
            format!("{ANN}https://cdn.example/b.png"),
        ]
    );
}

#[test]
fn long_line_is_sent_in_chunks_within_the_limit() {
    let out = relay(&handler(), &incoming(&"a".repeat(1000))).unwrap();
    assert_eq!(
        out.lines,
        vec![
            format!("{ANN}{}", "a".repeat(387)),
            format!("{ANN}{}", "a".repeat(387)),
            format!("{ANN}{}", "a".repeat(226)),
        ]
    );
    assert!(out.lines.iter().all(|l| l.len() <= 400));
}

#[test]
fn resets_at_the_ends_of_a_chunk_are_dropped() {
    let out = relay(&handler(), &incoming("**bold**")).unwrap();
    assert_eq!(out.lines, vec![format!("{ANN}\u{2}bold")]);
}

#[test]
fn raw_message_goes_out_as_it_is() {
    let out = relay(&handler(), &incoming("++ !whois   ann ")).unwrap();
    assert_eq!(out.lines, vec![ANN.to_string(), "!whois   ann".to_string()]);
    // nothing behind the raw prefix: an ordinary message
    let out = relay(&handler(), &incoming("++  ")).unwrap();
    assert_eq!(out.lines, vec![format!("{ANN}++  ")]);
}

#[test]
fn raw_prefix_can_be_set() {
    let h = Handler::new(Some("!!".into()), vec![ChannelLink { name: "#c".into(), id: 10 }], None);
    let out = relay(&h, &incoming("!!kick")).unwrap();
    assert_eq!(out.channel, "#c");
    assert_eq!(out.lines, vec![ANN.to_string(), "kick".to_string()]);
    let out = relay(&h, &incoming("++kick")).unwrap();
    assert_eq!(out.lines, vec![format!("{ANN}++kick")]);
}

#[test]
fn quoted_message_comes_first_on_one_line() {
    let mut msg = incoming("answer");
    msg.reply = Some(Quoted {
        nick: Some("bob".into()),
        content: "first\r\nsecond\nthird".into(),
        attachments: vec!["https://cdn.example/f.txt".into()],
    });
    let out = relay(&handler(), &msg).unwrap();
    assert_eq!(
        out.lines,
        vec![
            "(reply to) <\u{3}05b\u{200b}ob\u{f}> first second third https://cdn.example/f.txt\n"
                .to_string(),
            format!("{ANN}answer"),
        ]
    );
}

#[test]
fn quoted_message_of_an_unknown_author() {
    let mut msg = incoming("answer");
    msg.reply = Some(Quoted { nick: None, content: "what".into(), attachments: vec![] });
    let out = relay(&handler(), &msg).unwrap();
    // the space that separates the content from its attachments stays
    assert_eq!(out.lines, vec!["(reply) what \n".to_string(), format!("{ANN}answer")]);
}

#[test]
fn long_quoted_message_is_cut_to_what_its_prefix_leaves() {
    let mut msg = incoming("answer");
    msg.reply =
        Some(Quoted { nick: Some("bob".into()), content: "q".repeat(500), attachments: vec![] });
    let out = relay(&handler(), &msg).unwrap();
    let prefix = "(reply to) <\u{3}05b\u{200b}ob\u{f}> ";
    assert_eq!(out.lines[0], format!("{prefix}{}...", "q".repeat(400 - prefix.len() - 3)));
    assert_eq!(out.lines[0].len(), 400);
}

#[test]
fn quoted_message_is_cut_to_the_set_limit() {
    let h = Handler::new(None, vec![ChannelLink { name: "#chan".into(), id: 10 }], Some(20));
    let mut msg = incoming("answer");
    msg.reply =
        Some(Quoted { nick: Some("bob".into()), content: "q".repeat(500), attachments: vec![] });
    let out = relay(&h, &msg).unwrap();
    assert_eq!(out.lines[0], format!("(reply to) <\u{3}05b\u{200b}ob\u{f}> {}...", "q".repeat(17)));
}

#[test]
fn set_limit_above_the_room_does_not_widen_the_line() {
    let h = Handler::new(None, vec![ChannelLink { name: "#chan".into(), id: 10 }], Some(1000));
    let mut msg = incoming("answer");
    msg.reply =
        Some(Quoted { nick: Some("bob".into()), content: "q".repeat(390), attachments: vec![] });
    let out = relay(&h, &msg).unwrap();
    let prefix = "(reply to) <\u{3}05b\u{200b}ob\u{f}> ";
    assert_eq!(out.lines[0], format!("{prefix}{}...", "q".repeat(400 - prefix.len() - 3)));
    assert_eq!(out.lines[0].len(), 400);
    // a quoted text that fits the room is sent whole
    msg.reply = Some(Quoted { nick: Some("bob".into()), content: "short".into(), attachments: vec![] });
    let out = relay(&h, &msg).unwrap();
    assert_eq!(out.lines[0], format!("{prefix}short \n"));
}

#[test]
fn reply_budget_is_that_of_the_quoted_author() {
    let mut msg = incoming("answer");
    let name = "n".repeat(100);
    msg.reply = Some(Quoted { nick: Some(name.clone()), content: "q".repeat(500), attachments: vec![] });
    let out = relay(&handler(), &msg).unwrap();
    let (prefix, room) = dircord::badge::create_prefix(Some(name.as_str()), true);
    assert_eq!(room, 400 - 121);
    assert_eq!(out.lines[0], format!("{prefix}{}...", "q".repeat(room - 3)));
    assert_eq!(out.lines[0].len(), 400);
}

#[test]
fn cut_reply_ends_with_the_ellipsis() {
    for limit in 4..40 {
        let cut = fit_reply("héllo wörld, ça va très bien aujourd'hui", limit);
        assert!(cut.is_empty() || cut.ends_with("..."));
        assert!(cut.len() <= limit);
        let kept = cut.trim_end_matches("...");
        assert!("héllo wörld, ça va très bien aujourd'hui".starts_with(kept));
    }
}

#[test]
fn messages_that_are_not_relayed_may_carry_any_name() {
    let h = handler();
    let mut bot = incoming("x");
    bot.author_is_bot = true;
    bot.nick = Some("n".repeat(5000));
    assert!(!h.is_relayed(&bot));
    assert_eq!(relay(&h, &bot), None);
    let mut elsewhere = incoming("x");
    elsewhere.channel_id = 99;
    elsewhere.reply =
        Some(Quoted { nick: Some("n".repeat(5000)), content: "q".into(), attachments: vec![] });
    assert!(!h.is_relayed(&elsewhere));
    assert_eq!(relay(&h, &elsewhere), None);
    assert!(h.is_relayed(&incoming("x")));
}

#[test]
fn member_events_keep_the_roster() {
    let h = handler();
    let mut roster = Roster::new(vec![member(1, "Ann")]);
    h.guild_member_addition(&mut roster, member(2, "Bob"));
    assert_eq!(h.guild_member_update(&mut roster, Some(member(1, "Anna"))), Ok(()));
    assert_eq!(h.guild_member_update(&mut roster, None), Ok(()));
    assert_eq!(
        h.guild_member_update(&mut roster, Some(member(5, "Eve"))),
        Err(RosterError::UnknownMember)
    );
    assert_eq!(roster.snapshot(), &vec![member(2, "Bob"), member(1, "Anna")]);
    assert_eq!(h.guild_member_removal(&mut roster, 2), Ok(()));
    assert_eq!(h.guild_member_removal(&mut roster, 2), Err(RosterError::UnknownMember));
    assert_eq!(roster.snapshot(), &vec![member(1, "Anna")]);
}
