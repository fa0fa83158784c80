//! Finding the places where a pattern matches a text, and rewriting them.

use vstd::prelude::*;
use crate::cache::{resolved_id, IdMemo};
use crate::roster::{
    entry_by_id, entry_by_name, entry_id_by_name, entry_name_by_id, member_by_id,
    member_name_by_id, NamedId, RosterMember,
};
use crate::text::{
    boundary, byte_len, decimal, decimal_value, parse_decimal,
    push_char, push_decimal, push_text, slice_chars, slice_of, str_len,
};

verus! {

/// Where one match lies in the text, in bytes: the whole match, and the
/// first group of the pattern where it took part in the match.
#[derive(Clone, Copy, Debug, PartialEq, Eq)]
pub struct Capture {
    pub start: usize,
    pub end: usize,
    pub group: Option<(usize, usize)>,
}

/// The matches of `pattern` in `text`, one after the other from the left and
/// without overlap, as the regular expression engine reports them; `None`
/// where it rejects the pattern or gives the search up.
pub uninterp spec fn regex_captures(pattern: Seq<char>, text: Seq<char>) -> Option<Seq<Capture>>;

/// Runs the search. Rests on `fancy_regex::Regex::new` and
/// `Regex::captures_iter`: the same pattern and text always give the same
/// list of matches. Nothing is claimed about where the matches lie.
#[verifier::external_body]
fn find_captures(pattern: &str, text: &str) -> (r: Option<Vec<Capture>>)
    ensures
        r matches Some(v) ==> regex_captures(pattern@, text@) == Some(v@),
        r is None ==> regex_captures(pattern@, text@) is None,
{
    let re = fancy_regex::Regex::new(pattern).ok()?;
    re.captures_iter(text)
        .map(|found| {
            let caps = found.ok()?;
            let whole = caps.get(0)?;
            let group = caps.get(1).map(|g| (g.start(), g.end()));
            Some(Capture { start: whole.start(), end: whole.end(), group })
        })
        .collect()
}

/// Whether `c` lies inside the text at or after byte `from`, on character
/// boundaries, with its group inside the match.
pub open spec fn capture_ok(text: Seq<char>, c: Capture, from: int) -> bool {
    &&& from <= c.start <= c.end <= byte_len(text)
    &&& boundary(text, c.start as int)
    &&& boundary(text, c.end as int)
    &&& match c.group {
        Some((a, b)) => c.start <= a <= b <= c.end && boundary(text, a as int) && boundary(
            text,
            b as int,
        ),
        None => true,
    }
}

/// Whether the matches lie in the text one after the other from byte `from`
/// on, each of them sound.
pub open spec fn captures_ok(text: Seq<char>, caps: Seq<Capture>, from: int) -> bool
    decreases caps.len(),
{
    if caps.len() == 0 {
        true
    } else {
        capture_ok(text, caps[0], from) && captures_ok(text, caps.drop_first(), caps[0].end as int)
    }
}

/// The text that the whole match covers.
pub open spec fn whole_text(text: Seq<char>, c: Capture) -> Seq<char> {
    slice_chars(text, c.start as int, c.end as int)
}

/// The text that the first group covers; empty where the group took no part.
pub open spec fn group_text(text: Seq<char>, c: Capture) -> Seq<char> {
    match c.group {
        Some((a, b)) => slice_chars(text, a as int, b as int),
        None => Seq::empty(),
    }
}

/// What a match is replaced with.
pub enum Rule<'a> {
    /// Nothing: the match is taken out.
    Delete,
    /// The group's text between two fixed pieces.
    Frame { open: &'a str, close: &'a str },
    /// `@` and the display name of the member whose identifier the group
    /// spells; the match itself where there is no such member.
    MemberById { members: &'a Vec<RosterMember> },
    /// The mention token of the member that the group names, by what the
    /// memo remembers of the name or else by the roster; the match itself
    /// where there is no such member.
    MemberByName { members: &'a Vec<RosterMember>, memo: &'a IdMemo },
    /// `@` and the name of the role whose identifier the group spells; the
    /// match itself where there is no such role.
    RoleById { roles: &'a Vec<NamedId> },
    /// `#` and the name of the channel whose identifier the group spells;
    /// `#deleted-channel` where there is no such channel.
    ChannelById { channels: &'a Vec<NamedId> },
    /// The mention token of the channel that the group names; the match
    /// itself where there is no such channel.
    ChannelByName { channels: &'a Vec<NamedId> },
    /// The token of the custom emoji that the group names; the match itself
    /// where there is no such emoji.
    EmojiByName { emojis: &'a Vec<NamedId> },
}

/// What a `Rule` holds.
pub enum RuleShape {
    Delete,
    Frame { open: Seq<char>, close: Seq<char> },
    MemberById { members: Seq<RosterMember> },
    MemberByName { members: Seq<RosterMember>, memo: Map<Seq<char>, Option<u64>> },
    RoleById { roles: Seq<NamedId> },
    ChannelById { channels: Seq<NamedId> },
    ChannelByName { channels: Seq<NamedId> },
    EmojiByName { emojis: Seq<NamedId> },
}

impl<'a> View for Rule<'a> {
    type V = RuleShape;

    open spec fn view(&self) -> RuleShape {
        match *self {
            Rule::Delete => RuleShape::Delete,
            Rule::Frame { open, close } => RuleShape::Frame { open: open@, close: close@ },
            Rule::MemberById { members } => RuleShape::MemberById { members: members@ },
            Rule::MemberByName { members, memo } => RuleShape::MemberByName {
                members: members@,
                memo: memo@,
            },
            Rule::RoleById { roles } => RuleShape::RoleById { roles: roles@ },
            Rule::ChannelById { channels } => RuleShape::ChannelById { channels: channels@ },
            Rule::ChannelByName { channels } => RuleShape::ChannelByName { channels: channels@ },
            Rule::EmojiByName { emojis } => RuleShape::EmojiByName { emojis: emojis@ },
        }
    }
}

/// The text that takes the place of the match `c` under `rule`.
pub open spec fn replacement(text: Seq<char>, c: Capture, rule: RuleShape) -> Seq<char> {
    let group = group_text(text, c);
    let whole = whole_text(text, c);
    match rule {
        RuleShape::Delete => Seq::empty(),
        RuleShape::Frame { open, close } => open + group + close,
        RuleShape::MemberById { members } => match decimal_value(group) {
            Some(id) => match member_name_by_id(members, id) {
                Some(name) => seq!['@'] + name,
                None => whole,
            },
            None => whole,
        },
        RuleShape::MemberByName { members, memo } => match resolved_id(memo, members, group) {
            Some(id) => seq!['<', '@'] + decimal(id as nat) + seq!['>'],
            None => whole,
        },
        RuleShape::RoleById { roles } => match decimal_value(group) {
            Some(id) => match entry_name_by_id(roles, id) {
                Some(name) => seq!['@'] + name,
                None => whole,
            },
            None => whole,
        },
        RuleShape::ChannelById { channels } => match decimal_value(group) {
            Some(id) => match entry_name_by_id(channels, id) {
                Some(name) => seq!['#'] + name,
                None => "#deleted-channel"@,
            },
            None => "#deleted-channel"@,
        },
        RuleShape::ChannelByName { channels } => match entry_id_by_name(channels, group) {
            Some(id) => seq!['<', '#'] + decimal(id as nat) + seq!['>'],
            None => whole,
        },
        RuleShape::EmojiByName { emojis } => match entry_id_by_name(emojis, group) {
            Some(id) => seq!['<', ':'] + group + seq![':'] + decimal(id as nat) + seq!['>'],
            None => whole,
        },
    }
}

/// The characters of each string of a list.
pub open spec fn string_views(strings: Seq<String>) -> Seq<Seq<char>> {
    strings.map_values(|s: String| s@)
}

/// The text from byte `from` on, with each match of the list replaced by
/// the piece that stands at its place in `with`; what lies between the
/// matches stays.
pub open spec fn spliced_with(
    text: Seq<char>,
    caps: Seq<Capture>,
    with: Seq<Seq<char>>,
    from: int,
) -> Seq<char>
    decreases caps.len(),
{
    if caps.len() == 0 {
        slice_chars(text, from, byte_len(text))
    } else {
        slice_chars(text, from, caps[0].start as int) + with[0] + spliced_with(
            text,
            caps.drop_first(),
            with.drop_first(),
            caps[0].end as int,
        )
    }
}

/// The replacement of each match of the list under `rule`.
pub open spec fn replacements(text: Seq<char>, caps: Seq<Capture>, rule: RuleShape) -> Seq<
    Seq<char>,
> {
    Seq::new(caps.len(), |i: int| replacement(text, caps[i], rule))
}

/// The text with every match of the list replaced under `rule`.
pub open spec fn spliced(text: Seq<char>, caps: Seq<Capture>, rule: RuleShape) -> Seq<char> {
    spliced_with(text, caps, replacements(text, caps, rule), 0)
}

/// A text stays as it is under any rule where nothing is to be replaced.
pub proof fn lemma_spliced_without_matches(text: Seq<char>, rule: RuleShape)
    ensures
        spliced(text, Seq::empty(), rule) == text,
{
    crate::text::lemma_slice_all(text);
}

/// A text stays as it is where every match is replaced by itself.
pub proof fn lemma_splice_identity(
    text: Seq<char>,
    caps: Seq<Capture>,
    with: Seq<Seq<char>>,
    from: int,
)
    requires
        captures_ok(text, caps, from),
        boundary(text, from),
        with.len() == caps.len(),
        forall|i: int| 0 <= i < caps.len() ==> with[i] == whole_text(text, #[trigger] caps[i]),
    ensures
        spliced_with(text, caps, with, from) == slice_chars(text, from, byte_len(text)),
    decreases caps.len(),
{
    if caps.len() > 0 {
        let c = caps[0];
        let end = byte_len(text);
        vstd::utf8::encode_utf8_valid_utf8(text);
        vstd::utf8::is_char_boundary_start_end_of_seq(vstd::utf8::encode_utf8(text));
        assert forall|i: int| 0 <= i < caps.drop_first().len() implies with.drop_first()[i]
            == whole_text(text, #[trigger] caps.drop_first()[i]) by {
            assert(caps.drop_first()[i] == caps[i + 1]);
            assert(with.drop_first()[i] == with[i + 1]);
        }
        lemma_splice_identity(text, caps.drop_first(), with.drop_first(), c.end as int);
        assert(with[0] == whole_text(text, caps[0]));
        crate::text::lemma_slice_join(text, from, c.start as int, c.end as int);
        crate::text::lemma_slice_join(text, from, c.end as int, end);
    }
}

/// A pass that finds nothing leaves the text as it is, whatever the rule.
pub proof fn lemma_pass_without_matches(text: Seq<char>, pattern: Seq<char>, rule: RuleShape)
    requires
        regex_captures(pattern, text) == Some(Seq::<Capture>::empty()),
    ensures
        pass(text, pattern, rule) == text,
{
    lemma_spliced_without_matches(text, rule);
}

/// A pass over mentions of members leaves the text as it is where none of
/// the mentions names a member of the roster: an unresolved mention stays
/// character for character.
pub proof fn lemma_unknown_mentions_stay(
    text: Seq<char>,
    pattern: Seq<char>,
    members: Seq<RosterMember>,
)
    requires
        sound(text, regex_captures(pattern, text)) matches Some(caps) ==> forall|i: int|
            0 <= i < caps.len() ==> (decimal_value(group_text(text, #[trigger] caps[i]))
                matches Some(id) ==> !crate::roster::member_ids(members).contains(id)),
    ensures
        pass(text, pattern, RuleShape::MemberById { members }) == text,
{
    let rule = RuleShape::MemberById { members };
    match sound(text, regex_captures(pattern, text)) {
        Some(caps) => {
            let with = replacements(text, caps, rule);
            assert forall|i: int| 0 <= i < caps.len() implies with[i] == whole_text(
                text,
                #[trigger] caps[i],
            ) by {
                match decimal_value(group_text(text, caps[i])) {
                    Some(id) => {
                        crate::roster::member_ids(members).index_of_first_ensures(id);
                    },
                    None => {},
                }
            }
            vstd::utf8::encode_utf8_valid_utf8(text);
            vstd::utf8::is_char_boundary_start_end_of_seq(vstd::utf8::encode_utf8(text));
            lemma_splice_identity(text, caps, with, 0);
            crate::text::lemma_slice_all(text);
        },
        None => {},
    }
}

/// Every match of a sound list is sound by itself.
pub proof fn lemma_captures_each(text: Seq<char>, caps: Seq<Capture>, from: int, i: int)
    requires
        captures_ok(text, caps, from),
        0 <= from,
        0 <= i < caps.len(),
    ensures
        capture_ok(text, caps[i], 0),
    decreases caps.len(),
{
    if i > 0 {
        lemma_captures_each(text, caps.drop_first(), caps[0].end as int, i - 1);
    }
}

/// The matches that a search found, where it found any and they lie in the
/// text one after the other on character boundaries; `None` where the
/// search failed or reported anything else.
pub open spec fn sound(text: Seq<char>, found: Option<Seq<Capture>>) -> Option<Seq<Capture>> {
    match found {
        Some(caps) => if captures_ok(text, caps, 0) {
            Some(caps)
        } else {
            None
        },
        None => None,
    }
}

/// The outcome of a rewriting pass, given what the search found: the
/// spliced text where the matches are sound, else the text itself.
pub open spec fn rewritten(text: Seq<char>, found: Option<Seq<Capture>>, rule: RuleShape) -> Seq<
    char,
> {
    match sound(text, found) {
        Some(caps) => spliced(text, caps, rule),
        None => text,
    }
}

/// One rewriting pass: every match of `pattern` in `text` replaced under
/// `rule`.
pub open spec fn pass(text: Seq<char>, pattern: Seq<char>, rule: RuleShape) -> Seq<char> {
    rewritten(text, regex_captures(pattern, text), rule)
}

/// The list that a vector of matches holds, where there is one.
pub open spec fn captures_view(found: Option<Vec<Capture>>) -> Option<Seq<Capture>> {
    match found {
        Some(caps) => Some(caps@),
        None => None,
    }
}

/// Whether a search found at least one match.
pub open spec fn found_any(found: Option<Seq<Capture>>) -> bool {
    match found {
        Some(caps) => caps.len() > 0,
        None => false,
    }
}

fn boundary_at(text: &str, at: usize) -> (r: bool)
    ensures
        r == boundary(text@, at as int),
{
    at <= str_len(text) && text.is_char_boundary(at)
}

fn capture_valid(text: &str, c: &Capture, from: usize) -> (r: bool)
    ensures
        r == capture_ok(text@, *c, from as int),
{
    let span = from <= c.start && c.start <= c.end && c.end <= str_len(text) && boundary_at(
        text,
        c.start,
    ) && boundary_at(text, c.end);
    let inner = match c.group {
        Some((a, b)) => c.start <= a && a <= b && b <= c.end && boundary_at(text, a)
            && boundary_at(text, b),
        None => true,
    };
    span && inner
}

/// Whether the matches lie in the text one after the other, on character
/// boundaries.
pub fn captures_valid(text: &str, caps: &Vec<Capture>) -> (r: bool)
    ensures
        r == captures_ok(text@, caps@, 0),
{
    let mut from: usize = 0;
    let mut i: usize = 0;
    assert(caps@.skip(0) == caps@);
    while i < caps.len()
        invariant
            i <= caps.len(),
            captures_ok(text@, caps@, 0) == captures_ok(text@, caps@.skip(i as int), from as int),
        decreases caps.len() - i,
    {
        assert(caps@.skip(i as int).drop_first() == caps@.skip(i + 1));
        if !capture_valid(text, &caps[i], from) {
            return false;
        }
        from = caps[i].end;
        i += 1;
    }
    true
}

fn replacement_for(text: &str, c: &Capture, rule: &Rule) -> (r: String)
    requires
        capture_ok(text@, *c, 0),
    ensures
        r@ == replacement(text@, *c, rule@),
{
    let whole = slice_of(text, c.start, c.end);
    let group = group_of(text, c);
    let mut out = String::new();
    match rule {
        Rule::Delete => {},
        Rule::Frame { open, close } => {
            push_text(&mut out, open);
            push_text(&mut out, group);
            push_text(&mut out, close);
        },
        Rule::MemberById { members } => {
            let found = match parse_decimal(group) {
                Some(id) => member_by_id(members, id),
                None => None,
            };
            match found {
                Some(p) => {
                    push_char(&mut out, '@');
                    push_text(&mut out, members[p].display_name.as_str());
                },
                None => {
                    push_text(&mut out, whole);
                },
            }
        },
        Rule::MemberByName { members, memo } => {
            match memo.peek(group, members) {
                Some(id) => {
                    push_char(&mut out, '<');
                    push_char(&mut out, '@');
                    push_decimal(&mut out, id);
                    push_char(&mut out, '>');
                },
                None => {
                    push_text(&mut out, whole);
                },
            }
        },
        Rule::RoleById { roles } => {
            let found = match parse_decimal(group) {
                Some(id) => entry_by_id(roles, id),
                None => None,
            };
            match found {
                Some(p) => {
                    push_char(&mut out, '@');
                    push_text(&mut out, roles[p].name.as_str());
                },
                None => {
                    push_text(&mut out, whole);
                },
            }
        },
        Rule::ChannelById { channels } => {
            let found = match parse_decimal(group) {
                Some(id) => entry_by_id(channels, id),
                None => None,
            };
            match found {
                Some(p) => {
                    push_char(&mut out, '#');
                    push_text(&mut out, channels[p].name.as_str());
                },
                None => {
                    push_text(&mut out, "#deleted-channel");
                },
            }
        },
        Rule::ChannelByName { channels } => {
            match entry_by_name(channels, group) {
                Some(p) => {
                    push_char(&mut out, '<');
                    push_char(&mut out, '#');
                    push_decimal(&mut out, channels[p].id);
                    push_char(&mut out, '>');
                },
                None => {
                    push_text(&mut out, whole);
                },
            }
        },
        Rule::EmojiByName { emojis } => {
            match entry_by_name(emojis, group) {
                Some(p) => {
                    push_char(&mut out, '<');
                    push_char(&mut out, ':');
                    push_text(&mut out, group);
                    push_char(&mut out, ':');
                    push_decimal(&mut out, emojis[p].id);
                    push_char(&mut out, '>');
                },
                None => {
                    push_text(&mut out, whole);
                },
            }
        },
    }
    out
}

/// Puts the pieces of `with` in the place of the matches, one each, and
/// keeps what lies between the matches.
pub fn splice(text: &str, caps: &Vec<Capture>, with: &Vec<String>) -> (r: String)
    requires
        captures_ok(text@, caps@, 0),
        with.len() == caps.len(),
    ensures
        r@ == spliced_with(text@, caps@, string_views(with@), 0),
{
    let ghost pieces = string_views(with@);
    let mut out = String::new();
    let mut last: usize = 0;
    let mut i: usize = 0;
    proof {
        vstd::utf8::encode_utf8_valid_utf8(text@);
        vstd::utf8::is_char_boundary_start_end_of_seq(vstd::utf8::encode_utf8(text@));
        assert(caps@.skip(0) == caps@);
        assert(pieces.skip(0) == pieces);
    }
    while i < caps.len()
        invariant
            i <= caps.len(),
            with.len() == caps.len(),
            pieces == string_views(with@),
            boundary(text@, last as int),
            boundary(text@, byte_len(text@)),
            captures_ok(text@, caps@.skip(i as int), last as int),
            spliced_with(text@, caps@, pieces, 0) == out@ + spliced_with(
                text@,
                caps@.skip(i as int),
                pieces.skip(i as int),
                last as int,
            ),
        decreases caps.len() - i,
    {
        let c = &caps[i];
        assert(caps@.skip(i as int).drop_first() == caps@.skip(i + 1));
        assert(pieces.skip(i as int).drop_first() == pieces.skip(i + 1));
        assert(caps@.skip(i as int)[0] == *c);
        assert(pieces.skip(i as int)[0] == with@[i as int]@);
        push_text(&mut out, slice_of(text, last, c.start));
        push_text(&mut out, with[i].as_str());
        last = c.end;
        i += 1;
    }
    push_text(&mut out, slice_of(text, last, str_len(text)));
    out
}

/// Replaces every match of the list under `rule` and keeps what lies
/// between the matches.
pub fn rewrite_matches(text: &str, caps: &Vec<Capture>, rule: &Rule) -> (r: String)
    requires
        captures_ok(text@, caps@, 0),
    ensures
        r@ == spliced(text@, caps@, rule@),
{
    let mut with: Vec<String> = Vec::new();
    let mut i: usize = 0;
    while i < caps.len()
        invariant
            i <= caps.len(),
            with.len() == i,
            captures_ok(text@, caps@, 0),
            forall|j: int| 0 <= j < i ==> (#[trigger] with@[j])@ == replacement(text@, caps@[j], rule@),
        decreases caps.len() - i,
    {
        proof {
            lemma_captures_each(text@, caps@, 0, i as int);
        }
        let piece = replacement_for(text, &caps[i], rule);
        with.push(piece);
        i += 1;
    }
    assert(string_views(with@) =~= replacements(text@, caps@, rule@));
    splice(text, caps, &with)
}

/// Searches `text` for `pattern`. The matches come back where the search
/// succeeds and they lie in the text one after the other on character
/// boundaries.
pub fn search(text: &str, pattern: &str) -> (r: Option<Vec<Capture>>)
    ensures
        captures_view(r) == sound(text@, regex_captures(pattern@, text@)),
{
    match find_captures(pattern, text) {
        Some(caps) => {
            if captures_valid(text, &caps) {
                Some(caps)
            } else {
                None
            }
        },
        None => None,
    }
}

/// The text that the first group of the match covers.
pub fn group_of<'a>(text: &'a str, c: &Capture) -> (r: &'a str)
    requires
        capture_ok(text@, *c, 0),
    ensures
        r@ == group_text(text@, *c),
{
    proof {
        reveal_strlit("");
    }
    match c.group {
        Some((a, b)) => slice_of(text, a, b),
        None => "",
    }
}

/// Searches `text` for `pattern` and replaces every match under `rule`.
/// The text comes back unchanged where the search fails.
pub fn rewrite(text: &str, pattern: &str, rule: &Rule) -> (r: String)
    ensures
        r@ == pass(text@, pattern@, rule@),
{
    match search(text, pattern) {
        Some(caps) => rewrite_matches(text, &caps, rule),
        None => text.to_owned(),
    }
}

/// Whether `pattern` matches somewhere in `text`.
pub fn is_match(text: &str, pattern: &str) -> (r: bool)
    ensures
        r == found_any(regex_captures(pattern@, text@)),
{
    match find_captures(pattern, text) {
        Some(caps) => caps.len() > 0,
        None => false,
    }
}

} // verus!
