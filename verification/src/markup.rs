//! Rich-text markup as a stream of events, and its rendering as lines with
//! control bytes.

use vstd::prelude::*;
use crate::text::{decimal, push_char, push_decimal, push_text};

verus! {

/// Control byte that toggles bold.
pub const BOLD: char = '\u{2}';

/// Control byte that toggles italic.
pub const ITALIC: char = '\u{1d}';

/// Control byte that ends all formatting.
pub const RESET: char = '\u{f}';

/// Bullet of a list item at the outermost level.
pub const BULLET: char = '\u{2022}';

/// Bullet of a list item inside another list.
pub const INNER_BULLET: char = '\u{25e6}';

/// An element that starts and ends.
#[derive(Clone, Debug, PartialEq, Eq)]
pub enum MarkupTag {
    Paragraph,
    Heading { level: u8 },
    BlockQuote,
    /// A list; `first` is the number of the first item where the list is
    /// numbered.
    List { first: Option<u64> },
    Item,
    Emphasis,
    Strong,
    Link { url: String, title: String },
    /// Any other element.
    Other,
}

/// One step of the event stream of a parsed message.
#[derive(Clone, Debug, PartialEq, Eq)]
pub enum MarkupEvent {
    Start(MarkupTag),
    End(MarkupTag),
    Text(String),
    Code(String),
    Html(String),
    SoftBreak,
    HardBreak,
    /// Any other event.
    Other,
}

/// What a `MarkupTag` holds.
pub enum TagShape {
    Paragraph,
    Heading { level: u8 },
    BlockQuote,
    List { first: Option<u64> },
    Item,
    Emphasis,
    Strong,
    Link { url: Seq<char>, title: Seq<char> },
    Other,
}

/// What a `MarkupEvent` holds.
pub enum EventShape {
    Start(TagShape),
    End(TagShape),
    Text(Seq<char>),
    Code(Seq<char>),
    Html(Seq<char>),
    SoftBreak,
    HardBreak,
    Other,
}

impl View for MarkupTag {
    type V = TagShape;

    open spec fn view(&self) -> TagShape {
        match *self {
            MarkupTag::Paragraph => TagShape::Paragraph,
            MarkupTag::Heading { level } => TagShape::Heading { level },
            MarkupTag::BlockQuote => TagShape::BlockQuote,
            MarkupTag::List { first } => TagShape::List { first },
            MarkupTag::Item => TagShape::Item,
            MarkupTag::Emphasis => TagShape::Emphasis,
            MarkupTag::Strong => TagShape::Strong,
            MarkupTag::Link { url, title } => TagShape::Link { url: url@, title: title@ },
            MarkupTag::Other => TagShape::Other,
        }
    }
}

impl View for MarkupEvent {
    type V = EventShape;

    open spec fn view(&self) -> EventShape {
        match *self {
            MarkupEvent::Start(tag) => EventShape::Start(tag@),
            MarkupEvent::End(tag) => EventShape::End(tag@),
            MarkupEvent::Text(t) => EventShape::Text(t@),
            MarkupEvent::Code(t) => EventShape::Code(t@),
            MarkupEvent::Html(t) => EventShape::Html(t@),
            MarkupEvent::SoftBreak => EventShape::SoftBreak,
            MarkupEvent::HardBreak => EventShape::HardBreak,
            MarkupEvent::Other => EventShape::Other,
        }
    }
}

/// The shapes of a list of events.
pub open spec fn shapes_of(events: Seq<MarkupEvent>) -> Seq<EventShape> {
    events.map_values(|e: MarkupEvent| e@)
}

/// The event stream that the markup parser reads out of `text`, with no
/// extension switched on.
pub uninterp spec fn markup_events(text: Seq<char>) -> Seq<EventShape>;

#[verifier::external_type_specification]
#[verifier::external_body]
pub struct ExTag<'a>(pulldown_cmark::Tag<'a>);

#[verifier::external_type_specification]
#[verifier::external_body]
pub struct ExEvent<'a>(pulldown_cmark::Event<'a>);

/// Copies out of a `pulldown_cmark::Tag` what the rendering reads.
#[verifier::external_body]
fn tag_of(tag: pulldown_cmark::Tag<'_>) -> MarkupTag {
    match tag {
        pulldown_cmark::Tag::Paragraph => MarkupTag::Paragraph,
        pulldown_cmark::Tag::Heading(level, _, _) => MarkupTag::Heading { level: level as u8 },
        pulldown_cmark::Tag::BlockQuote => MarkupTag::BlockQuote,
        pulldown_cmark::Tag::List(first) => MarkupTag::List { first },
        pulldown_cmark::Tag::Item => MarkupTag::Item,
        pulldown_cmark::Tag::Emphasis => MarkupTag::Emphasis,
        pulldown_cmark::Tag::Strong => MarkupTag::Strong,
        pulldown_cmark::Tag::Link(_, url, title) => {
            MarkupTag::Link { url: url.into_string(), title: title.into_string() }
        },
        _ => MarkupTag::Other,
    }
}

/// Copies out of a `pulldown_cmark::Event` what the rendering reads.
#[verifier::external_body]
fn event_of(event: pulldown_cmark::Event<'_>) -> MarkupEvent {
    match event {
        pulldown_cmark::Event::Start(tag) => MarkupEvent::Start(tag_of(tag)),
        pulldown_cmark::Event::End(tag) => MarkupEvent::End(tag_of(tag)),
        pulldown_cmark::Event::Text(t) => MarkupEvent::Text(t.into_string()),
        pulldown_cmark::Event::Code(t) => MarkupEvent::Code(t.into_string()),
        pulldown_cmark::Event::Html(t) => MarkupEvent::Html(t.into_string()),
        pulldown_cmark::Event::SoftBreak => MarkupEvent::SoftBreak,
        pulldown_cmark::Event::HardBreak => MarkupEvent::HardBreak,
        _ => MarkupEvent::Other,
    }
}

/// Parses `text`. Rests on `pulldown_cmark::Parser::new` and on the
/// parser's iteration: the same text always gives the same events. Nothing
/// is claimed about which events a text gives.
#[verifier::external_body]
fn parse_markup(text: &str) -> (r: Vec<MarkupEvent>)
    ensures
        shapes_of(r@) == markup_events(text@),
{
    pulldown_cmark::Parser::new(text).map(event_of).collect()
}

/// What the rendering keeps from one event to the next: how deep in lists
/// it stands, whether the innermost list seen last is numbered, and the
/// number of its next item.
pub struct ListState {
    pub level: usize,
    pub numbered: bool,
    pub next: u64,
}

/// The state before the first event.
pub open spec fn initial_state() -> ListState {
    ListState { level: 0, numbered: false, next: 0 }
}

/// `piece` written `n` times.
pub open spec fn repeated(piece: Seq<char>, n: nat) -> Seq<char>
    decreases n,
{
    if n == 0 {
        Seq::empty()
    } else {
        repeated(piece, (n - 1) as nat) + piece
    }
}

/// The marker in front of a list item: its number and a full stop in a
/// numbered list, else a bullet that tells nested lists from the outermost.
pub open spec fn item_marker(st: ListState) -> Seq<char> {
    if st.numbered {
        decimal(st.next as nat) + seq!['.']
    } else if st.level > 1 {
        seq![INNER_BULLET]
    } else {
        seq![BULLET]
    }
}

/// Two spaces for every list around the innermost.
pub open spec fn item_indent(st: ListState) -> Seq<char> {
    repeated(seq![' ', ' '], if st.level > 0 { (st.level - 1) as nat } else { 0 })
}

/// The text that one event puts out in the state `st`.
pub open spec fn event_text(st: ListState, ev: EventShape) -> Seq<char> {
    match ev {
        EventShape::Text(t) => t,
        EventShape::Html(t) => t,
        EventShape::Code(t) => seq!['`'] + t + seq!['`'],
        EventShape::SoftBreak => seq!['\n'],
        EventShape::HardBreak => seq!['\n'],
        EventShape::Other => Seq::empty(),
        EventShape::Start(tag) => match tag {
            TagShape::Emphasis => seq![ITALIC],
            TagShape::Strong => seq![BOLD],
            TagShape::Link { url, title } => seq!['['],
            TagShape::Item => seq!['\n'] + item_indent(st) + item_marker(st) + seq![' '],
            TagShape::BlockQuote => seq!['>', ' '],
            TagShape::Heading { level } => repeated(seq!['#'], level as nat) + seq![' ', BOLD],
            TagShape::List { first } => Seq::empty(),
            TagShape::Paragraph => Seq::empty(),
            TagShape::Other => Seq::empty(),
        },
        EventShape::End(tag) => match tag {
            TagShape::Link { url, title } => seq![']', ':', ' '] + url + (if title.len() > 0 {
                seq![' ', '('] + title + seq![')']
            } else {
                Seq::empty()
            }),
            TagShape::List { first } => Seq::empty(),
            TagShape::Item => Seq::empty(),
            TagShape::Paragraph => seq!['\n'],
            _ => seq![RESET],
        },
    }
}

/// The state after one event. A list that starts goes one level deeper and
/// sets the numbering; a list that ends comes one level back; an item that
/// ends in a numbered list counts on. Counting stops at the largest number.
pub open spec fn next_state(st: ListState, ev: EventShape) -> ListState {
    match ev {
        EventShape::Start(TagShape::List { first }) => ListState {
            level: if st.level < usize::MAX { (st.level + 1) as usize } else { st.level },
            numbered: first is Some,
            next: match first {
                Some(n) => n,
                None => st.next,
            },
        },
        EventShape::End(TagShape::List { first }) => ListState {
            level: if st.level > 0 { (st.level - 1) as usize } else { 0 },
            ..st
        },
        EventShape::End(TagShape::Item) => ListState {
            next: if st.numbered && st.next < u64::MAX { (st.next + 1) as u64 } else { st.next },
            ..st
        },
        _ => st,
    }
}

/// The text that the events put out one after the other, from the state
/// `st` on.
pub open spec fn rendered(events: Seq<EventShape>, st: ListState) -> Seq<char>
    decreases events.len(),
{
    if events.len() == 0 {
        Seq::empty()
    } else {
        event_text(st, events[0]) + rendered(events.drop_first(), next_state(st, events[0]))
    }
}

fn push_repeated(out: &mut String, piece: &str, n: usize)
    ensures
        final(out)@ == old(out)@ + repeated(piece@, n as nat),
{
    let mut i: usize = 0;
    while i < n
        invariant
            i <= n,
            out@ == old(out)@ + repeated(piece@, i as nat),
        decreases n - i,
    {
        push_text(out, piece);
        i += 1;
    }
}

fn push_event(out: &mut String, st: &ListState, ev: &MarkupEvent)
    ensures
        final(out)@ == old(out)@ + event_text(*st, ev@),
{
    proof {
        reveal_strlit("  ");
        reveal_strlit("#");
        reveal_strlit("> ");
        reveal_strlit("]: ");
        reveal_strlit(" (");
        reveal_strlit(" \u{2}");
    }
    match ev {
        MarkupEvent::Text(t) => push_text(out, t.as_str()),
        MarkupEvent::Html(t) => push_text(out, t.as_str()),
        MarkupEvent::Code(t) => {
            push_char(out, '`');
            push_text(out, t.as_str());
            push_char(out, '`');
        },
        MarkupEvent::SoftBreak => push_char(out, '\n'),
        MarkupEvent::HardBreak => push_char(out, '\n'),
        MarkupEvent::Other => {},
        MarkupEvent::Start(tag) => match tag {
            MarkupTag::Emphasis => push_char(out, ITALIC),
            MarkupTag::Strong => push_char(out, BOLD),
            MarkupTag::Link { url: _, title: _ } => push_char(out, '['),
            MarkupTag::Item => {
                push_char(out, '\n');
                push_repeated(out, "  ", if st.level > 0 { st.level - 1 } else { 0 });
                assert("  "@ == seq![' ', ' ']);
                if st.numbered {
                    push_decimal(out, st.next);
                    push_char(out, '.');
                } else if st.level > 1 {
                    push_char(out, INNER_BULLET);
                } else {
                    push_char(out, BULLET);
                }
                push_char(out, ' ');
            },
            MarkupTag::BlockQuote => {
                push_text(out, "> ");
                assert("> "@ == seq!['>', ' ']);
            },
            MarkupTag::Heading { level } => {
                assert("#"@ == seq!['#']);
                push_repeated(out, "#", *level as usize);
                push_text(out, " \u{2}");
                assert(" \u{2}"@ == seq![' ', BOLD]);
            },
            MarkupTag::List { first: _ } => {},
            MarkupTag::Paragraph => {},
            MarkupTag::Other => {},
        },
        MarkupEvent::End(tag) => match tag {
            MarkupTag::Link { url, title } => {
                push_text(out, "]: ");
                assert("]: "@ == seq![']', ':', ' ']);
                push_text(out, url.as_str());
                if !title.as_str().is_empty() {
                    push_text(out, " (");
                    assert(" ("@ == seq![' ', '(']);
                    push_text(out, title.as_str());
                    push_char(out, ')');
                }
            },
            MarkupTag::List { first: _ } => {},
            MarkupTag::Item => {},
            MarkupTag::Paragraph => push_char(out, '\n'),
            _ => push_char(out, RESET),
        },
    }
}

fn advance(st: ListState, ev: &MarkupEvent) -> (r: ListState)
    ensures
        r == next_state(st, ev@),
{
    match ev {
        MarkupEvent::Start(MarkupTag::List { first }) => ListState {
            level: if st.level < usize::MAX { st.level + 1 } else { st.level },
            numbered: first.is_some(),
            next: match first {
                Some(n) => *n,
                None => st.next,
            },
        },
        MarkupEvent::End(MarkupTag::List { first: _ }) => ListState {
            level: if st.level > 0 { st.level - 1 } else { 0 },
            numbered: st.numbered,
            next: st.next,
        },
        MarkupEvent::End(MarkupTag::Item) => ListState {
            level: st.level,
            numbered: st.numbered,
            next: if st.numbered && st.next < u64::MAX { st.next + 1 } else { st.next },
        },
        _ => st,
    }
}

/// Writes the events out as lines with control bytes.
pub fn render_events(events: &Vec<MarkupEvent>) -> (out: String)
    ensures
        out@ == rendered(shapes_of(events@), initial_state()),
{
    let mut out = String::new();
    let mut st = ListState { level: 0, numbered: false, next: 0 };
    let mut i: usize = 0;
    assert(shapes_of(events@).skip(0) == shapes_of(events@));
    while i < events.len()
        invariant
            i <= events.len(),
            rendered(shapes_of(events@), initial_state()) == out@ + rendered(
                shapes_of(events@).skip(i as int),
                st,
            ),
        decreases events.len() - i,
    {
        assert(shapes_of(events@).skip(i as int).drop_first() == shapes_of(events@).skip(i + 1));
        assert(shapes_of(events@).skip(i as int)[0] == events@[i as int]@);
        push_event(&mut out, &st, &events[i]);
        st = advance(st, &events[i]);
        i += 1;
    }
    out
}

/// Parses `text` as rich-text markup and writes it out as lines with
/// control bytes.
pub fn render_markup(text: &str) -> (out: String)
    ensures
        out@ == rendered(markup_events(text@), initial_state()),
{
    let events = parse_markup(text);
    render_events(&events)
}

} // verus!
