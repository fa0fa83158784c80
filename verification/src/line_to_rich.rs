//! From a line with control bytes to rich-text markup.

use vstd::prelude::*;
use crate::cache::{resolved_id, IdMemo};
use crate::markup::{BOLD, ITALIC, RESET};
use crate::pattern::{
    found_any, group_of, group_text, is_match, lemma_captures_each, pass, regex_captures,
    rewrite, rewrite_matches, search, sound, Capture, Rule, RuleShape,
};
use crate::roster::{NamedId, RosterMember};
use crate::text::{chars_of, push_char, push_text};

verus! {

/// A nickname at the start of the line, followed by a colon or a comma.
pub const PING_NICK_1: &'static str = "^([\\w+]+)(?::|,)";

/// An `@` and a name, at the start of the line or after white space.
pub const PING_RE_2: &'static str = "(?<=\\s|^)@([\\w\\S]+)";

/// A control byte, with the colour numbers that may follow it.
pub const CONTROL_CHAR_RE: &'static str =
    "\\x1f|\\x02|\\x12|\\x0f|\\x16|\\x03(?:\\d{1,2}(?:,\\d{1,2})?)?";

/// White space at the start of the line.
pub const WHITESPACE_RE: &'static str = "^\\s";

/// A `#` and a channel name.
pub const CHANNEL_RE: &'static str = "#([A-Za-z-*]+)";

/// An emoji shortcode between colons.
pub const EMOJI_RE: &'static str = ":(\\w+):";

/// A piece of converted text: a character that stays, or a marker of the
/// rich-text markup.
#[derive(Clone, Copy, Debug, PartialEq, Eq)]
pub enum Mark {
    Plain(char),
    /// The two asterisks that open or close bold.
    Bold,
    /// The asterisk that opens or closes italic.
    Italic,
}

/// The piece that the character `c` gives while bold and italic are open
/// as the flags say: a bold toggle, or a reset while bold is open, gives a
/// bold marker; else an italic toggle, or a reset while italic is open,
/// gives an italic marker; any other character stays.
pub open spec fn piece_of(c: char, bold: bool, italic: bool) -> Mark {
    if c == BOLD || (c == RESET && bold) {
        Mark::Bold
    } else if c == ITALIC || (c == RESET && italic) {
        Mark::Italic
    } else {
        Mark::Plain(c)
    }
}

/// The markers that close what is still open at the end of a text, italic
/// first.
pub open spec fn closing(bold: bool, italic: bool) -> Seq<Mark> {
    (if italic {
        seq![Mark::Italic]
    } else {
        Seq::empty()
    }) + (if bold {
        seq![Mark::Bold]
    } else {
        Seq::empty()
    })
}

/// The pieces that a text gives when its toggles are turned into markers.
/// `bold` and `italic` say what is open before the text: a bold marker
/// flips the first, an italic marker the second. At the end of the text
/// what is still open is closed.
pub open spec fn marked(input: Seq<char>, bold: bool, italic: bool) -> Seq<Mark>
    decreases input.len(),
{
    if input.len() == 0 {
        closing(bold, italic)
    } else {
        let piece = piece_of(input[0], bold, italic);
        seq![piece] + marked(
            input.drop_first(),
            bold != (piece is Bold),
            italic != (piece is Italic),
        )
    }
}

/// The characters of one piece.
pub open spec fn mark_chars(m: Mark) -> Seq<char> {
    match m {
        Mark::Plain(c) => seq![c],
        Mark::Bold => seq!['*', '*'],
        Mark::Italic => seq!['*'],
    }
}

/// The characters of the pieces, one after the other.
pub open spec fn mark_text(marks: Seq<Mark>) -> Seq<char>
    decreases marks.len(),
{
    if marks.len() == 0 {
        Seq::empty()
    } else {
        mark_text(marks.drop_last()) + mark_chars(marks.last())
    }
}

/// How many bold markers there are among the pieces.
pub open spec fn bold_count(marks: Seq<Mark>) -> nat
    decreases marks.len(),
{
    if marks.len() == 0 {
        0
    } else {
        bold_count(marks.drop_first()) + (if marks[0] is Bold { 1nat } else { 0nat })
    }
}

/// How many italic markers there are among the pieces.
pub open spec fn italic_count(marks: Seq<Mark>) -> nat
    decreases marks.len(),
{
    if marks.len() == 0 {
        0
    } else {
        italic_count(marks.drop_first()) + (if marks[0] is Italic { 1nat } else { 0nat })
    }
}

proof fn lemma_count_first(m: Mark, rest: Seq<Mark>)
    ensures
        bold_count(seq![m] + rest) == bold_count(rest) + (if m is Bold { 1nat } else { 0nat }),
        italic_count(seq![m] + rest) == italic_count(rest) + (if m is Italic { 1nat } else { 0nat }),
{
    assert((seq![m] + rest).drop_first() =~= rest);
}

proof fn lemma_count_closing(bold: bool, italic: bool)
    ensures
        bold_count(closing(bold, italic)) == (if bold { 1nat } else { 0nat }),
        italic_count(closing(bold, italic)) == (if italic { 1nat } else { 0nat }),
{
    let none = Seq::<Mark>::empty();
    assert(bold_count(none) == 0 && italic_count(none) == 0);
    lemma_count_first(Mark::Bold, none);
    assert(seq![Mark::Bold] + none =~= seq![Mark::Bold]);
    if italic {
        if bold {
            lemma_count_first(Mark::Italic, seq![Mark::Bold]);
        } else {
            lemma_count_first(Mark::Italic, none);
        }
    } else {
        if bold {
            assert(none + seq![Mark::Bold] =~= seq![Mark::Bold]);
        } else {
            assert(none + none =~= none);
        }
    }
}

/// The markers of a converted text close what they open: there is an odd
/// number of bold markers exactly where bold was open before the text, and
/// likewise for italic.
pub proof fn lemma_marks_parity(input: Seq<char>, bold: bool, italic: bool)
    ensures
        bold_count(marked(input, bold, italic)) % 2 == (if bold { 1nat } else { 0nat }),
        italic_count(marked(input, bold, italic)) % 2 == (if italic { 1nat } else { 0nat }),
    decreases input.len(),
{
    if input.len() == 0 {
        lemma_count_closing(bold, italic);
    } else {
        let piece = piece_of(input[0], bold, italic);
        let rest = marked(input.drop_first(), bold != (piece is Bold), italic != (piece is Italic));
        lemma_marks_parity(input.drop_first(), bold != (piece is Bold), italic != (piece is Italic));
        lemma_count_first(piece, rest);
    }
}

/// Whatever toggles a line holds, its conversion has an even number of bold
/// markers and an even number of italic markers: no marker is left without
/// its partner.
pub proof fn lemma_markup_balanced(input: Seq<char>)
    ensures
        bold_count(marked(input, false, false)) % 2 == 0,
        italic_count(marked(input, false, false)) % 2 == 0,
{
    lemma_marks_parity(input, false, false);
}

/// Turns the toggles of a text into markers and closes what is left open.
pub fn mark_toggles(input: &Vec<char>) -> (marks: Vec<Mark>)
    ensures
        marks@ == marked(input@, false, false),
{
    let mut marks: Vec<Mark> = Vec::new();
    let mut bold = false;
    let mut italic = false;
    let mut i: usize = 0;
    assert(input@.skip(0) =~= input@);
    while i < input.len()
        invariant
            i <= input.len(),
            marked(input@, false, false) == marks@ + marked(input@.skip(i as int), bold, italic),
        decreases input.len() - i,
    {
        let c = input[i];
        let ghost before = marks@;
        let ghost rest = input@.skip(i + 1);
        let ghost piece = piece_of(c, bold, italic);
        assert(input@.skip(i as int).drop_first() =~= rest);
        assert(marked(input@.skip(i as int), bold, italic) == seq![piece] + marked(
            rest,
            bold != (piece is Bold),
            italic != (piece is Italic),
        ));
        if c == BOLD || (c == RESET && bold) {
            marks.push(Mark::Bold);
            bold = !bold;
        } else if c == ITALIC || (c == RESET && italic) {
            marks.push(Mark::Italic);
            italic = !italic;
        } else {
            marks.push(Mark::Plain(c));
        }
        assert(marks@ =~= before + seq![piece]);
        assert(marks@ + marked(rest, bold, italic) =~= before + (seq![piece] + marked(
            rest,
            bold,
            italic,
        )));
        i += 1;
    }
    let ghost before = marks@;
    if italic {
        marks.push(Mark::Italic);
    }
    if bold {
        marks.push(Mark::Bold);
    }
    assert(marks@ =~= before + closing(bold, italic));
    marks
}

/// Writes the pieces out as text.
pub fn write_marks(marks: &Vec<Mark>) -> (s: String)
    ensures
        s@ == mark_text(marks@),
{
    let mut s = String::new();
    let mut i: usize = 0;
    while i < marks.len()
        invariant
            i <= marks.len(),
            s@ == mark_text(marks@.take(i as int)),
        decreases marks.len() - i,
    {
        assert(marks@.take(i + 1).drop_last() == marks@.take(i as int));
        match marks[i] {
            Mark::Plain(c) => push_char(&mut s, c),
            Mark::Bold => {
                push_char(&mut s, '*');
                push_char(&mut s, '*');
            },
            Mark::Italic => push_char(&mut s, '*'),
        }
        i += 1;
    }
    assert(marks@.take(marks@.len() as int) == marks@);
    s
}

/// What opens an action line.
pub open spec fn action_opening() -> Seq<char> {
    seq!['\u{1}', 'A', 'C', 'T', 'I', 'O', 'N', ' ']
}

/// An action line, framed by its opening and a closing control byte, gives
/// its inside between asterisks; any other text stays as it is.
pub open spec fn unwrapped_action(text: Seq<char>) -> Seq<char> {
    if text.len() > 8 && text.take(8) == action_opening() && text.last() == '\u{1}' {
        seq!['*'] + text.subrange(8, text.len() - 1) + seq!['*']
    } else {
        text
    }
}

/// Takes an action line out of its frame and puts it between asterisks.
pub fn unwrap_action(text: &str) -> (r: String)
    ensures
        r@ == unwrapped_action(text@),
{
    let chars = chars_of(text);
    let n = chars.len();
    let framed = n > 8 && chars[0] == '\u{1}' && chars[1] == 'A' && chars[2] == 'C' && chars[3]
        == 'T' && chars[4] == 'I' && chars[5] == 'O' && chars[6] == 'N' && chars[7] == ' '
        && chars[n - 1] == '\u{1}';
    if !framed {
        assert(!(text@.len() > 8 && text@.take(8) == action_opening() && text@.last() == '\u{1}'))
            by {
            if text@.len() > 8 && text@.take(8) == action_opening() {
                assert(forall|j: int| 0 <= j < 8 ==> text@[j] == text@.take(8)[j]);
            }
        }
        return text.to_owned();
    }
    assert(text@.take(8) =~= action_opening());
    let mut out = String::new();
    push_char(&mut out, '*');
    let mut i: usize = 8;
    while i < n - 1
        invariant
            8 <= i <= n - 1,
            n == chars.len(),
            out@ == seq!['*'] + chars@.subrange(8, i as int),
        decreases n - i,
    {
        push_char(&mut out, chars[i]);
        assert(chars@.subrange(8, i + 1) == chars@.subrange(8, i as int).push(chars@[i as int]));
        i += 1;
    }
    push_char(&mut out, '*');
    out
}

/// What the memo holds after it has looked up, one after the other, the
/// names that the matches of the list capture.
pub open spec fn learned(
    memo: Map<Seq<char>, Option<u64>>,
    members: Seq<RosterMember>,
    text: Seq<char>,
    caps: Seq<Capture>,
) -> Map<Seq<char>, Option<u64>>
    decreases caps.len(),
{
    if caps.len() == 0 {
        memo
    } else {
        let name = group_text(text, caps[0]);
        learned(
            memo.insert(name, resolved_id(memo, members, name)),
            members,
            text,
            caps.drop_first(),
        )
    }
}

/// What the memo holds after a pass over `text` that found `found`.
pub open spec fn memo_after_pass(
    memo: Map<Seq<char>, Option<u64>>,
    members: Seq<RosterMember>,
    text: Seq<char>,
    found: Option<Seq<Capture>>,
) -> Map<Seq<char>, Option<u64>> {
    match sound(text, found) {
        Some(caps) => learned(memo, members, text, caps),
        None => memo,
    }
}

/// Replaces the names that `pattern` finds in `text` by mention tokens,
/// and remembers what each name resolved to.
pub fn mention_pass(text: &str, pattern: &str, members: &Vec<RosterMember>, memo: &mut IdMemo) -> (r:
    String)
    ensures
        r@ == pass(
            text@,
            pattern@,
            RuleShape::MemberByName { members: members@, memo: old(memo)@ },
        ),
        final(memo)@ == memo_after_pass(
            old(memo)@,
            members@,
            text@,
            regex_captures(pattern@, text@),
        ),
{
    match search(text, pattern) {
        Some(caps) => {
            let out = rewrite_matches(text, &caps, &Rule::MemberByName { members, memo: &*memo });
            let mut i: usize = 0;
            assert(caps@.skip(0) == caps@);
            while i < caps.len()
                invariant
                    i <= caps.len(),
                    crate::pattern::captures_ok(text@, caps@, 0),
                    learned(old(memo)@, members@, text@, caps@) == learned(
                        memo@,
                        members@,
                        text@,
                        caps@.skip(i as int),
                    ),
                decreases caps.len() - i,
            {
                proof {
                    lemma_captures_each(text@, caps@, 0, i as int);
                    assert(caps@.skip(i as int).drop_first() == caps@.skip(i + 1));
                }
                let name = group_of(text, &caps[i]);
                let _ = memo.resolve(name, members);
                i += 1;
            }
            out
        },
        None => text.to_owned(),
    }
}

/// Whether a line is passed on as it is, as fixed-width text: it starts
/// with white space and mentions nobody.
pub open spec fn is_literal(message: Seq<char>) -> bool {
    found_any(regex_captures(WHITESPACE_RE@, message)) && !found_any(
        regex_captures(PING_RE_2@, message),
    )
}

/// The rich-text form of a line. A line that starts with white space and
/// mentions nobody goes between backticks as it is. In any other line,
/// in this order: a nickname that leads the line, and every name after an
/// `@`, becomes a mention token where a member is called so; channel names
/// after `#` and emoji shortcodes between colons become tokens where they
/// are known; an action line is put between asterisks; bold and italic
/// toggles become markers, and what is left open is closed; and the control
/// bytes that are left are taken out.
pub open spec fn line_to_rich(
    message: Seq<char>,
    members: Seq<RosterMember>,
    memo: Map<Seq<char>, Option<u64>>,
    channels: Seq<NamedId>,
    emojis: Seq<NamedId>,
) -> Seq<char> {
    if is_literal(message) {
        seq!['`'] + message + seq!['`']
    } else {
        let s1 = pass(message, PING_NICK_1@, RuleShape::MemberByName { members, memo });
        let m1 = memo_after_pass(memo, members, message, regex_captures(PING_NICK_1@, message));
        let s2 = pass(s1, PING_RE_2@, RuleShape::MemberByName { members, memo: m1 });
        let s3 = pass(s2, CHANNEL_RE@, RuleShape::ChannelByName { channels });
        let s4 = pass(s3, EMOJI_RE@, RuleShape::EmojiByName { emojis });
        let s5 = unwrapped_action(s4);
        let s6 = mark_text(marked(s5, false, false));
        pass(s6, CONTROL_CHAR_RE@, RuleShape::Delete)
    }
}

/// What the memo holds after a line has been converted.
pub open spec fn memo_after_line(
    message: Seq<char>,
    members: Seq<RosterMember>,
    memo: Map<Seq<char>, Option<u64>>,
) -> Map<Seq<char>, Option<u64>> {
    if is_literal(message) {
        memo
    } else {
        let s1 = pass(message, PING_NICK_1@, RuleShape::MemberByName { members, memo });
        let m1 = memo_after_pass(memo, members, message, regex_captures(PING_NICK_1@, message));
        memo_after_pass(m1, members, s1, regex_captures(PING_RE_2@, s1))
    }
}

/// Turns a line with control bytes into rich-text markup.
pub fn irc_to_discord_processing(
    message: &str,
    members: &Vec<RosterMember>,
    id_cache: &mut IdMemo,
    channels: &Vec<NamedId>,
    emojis: &Vec<NamedId>,
) -> (r: String)
    ensures
        r@ == line_to_rich(message@, members@, old(id_cache)@, channels@, emojis@),
        final(id_cache)@ == memo_after_line(message@, members@, old(id_cache)@),
{
    if is_match(message, WHITESPACE_RE) && !is_match(message, PING_RE_2) {
        let mut out = String::new();
        push_char(&mut out, '`');
        push_text(&mut out, message);
        push_char(&mut out, '`');
        return out;
    }
    let s1 = mention_pass(message, PING_NICK_1, members, id_cache);
    let s2 = mention_pass(s1.as_str(), PING_RE_2, members, id_cache);
    let s3 = rewrite(s2.as_str(), CHANNEL_RE, &Rule::ChannelByName { channels });
    let s4 = rewrite(s3.as_str(), EMOJI_RE, &Rule::EmojiByName { emojis });
    let s5 = unwrap_action(s4.as_str());
    let s6 = write_marks(&mark_toggles(&chars_of(s5.as_str())));
    rewrite(s6.as_str(), CONTROL_CHAR_RE, &Rule::Delete)
}

} // verus!
