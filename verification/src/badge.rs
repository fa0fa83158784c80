//! The coloured name in front of every relayed line, and the room that it
//! leaves for the message.

use vstd::prelude::*;
use crate::text::{
    byte_len, chars_of, digit_char, digit_of, lemma_byte_len_concat, lemma_byte_len_single, push_char,
    push_text, str_len,
};

verus! {

/// Bytes that one relayed line may take, prefix and all.
pub const LINE_LIMIT: usize = 400;

/// Control byte that starts a colour.
pub const COLOUR: char = '\u{3}';

/// The invisible character that keeps a name from being read as a
/// nickname of the other side.
pub const ZERO_WIDTH_SPACE: char = '\u{200b}';

/// Colour of a display name: the code point of its first character plus
/// its length in bytes, modulo twelve. An empty name has the colour zero.
pub open spec fn colour_index(nick: Seq<char>) -> int {
    if nick.len() == 0 {
        0
    } else {
        (nick[0] as int + byte_len(nick)) % 12
    }
}

/// Every display name has one colour, and it is one of twelve.
pub proof fn lemma_colour_in_range(nick: Seq<char>)
    ensures
        0 <= colour_index(nick) < 12,
{
}

/// The colour of `nick`, always below twelve.
pub fn colour_of(nick: &str) -> (r: usize)
    ensures
        r == colour_index(nick@),
        0 <= r < 12,
{
    let chars = chars_of(nick);
    if chars.len() == 0 {
        return 0;
    }
    let sum = code_point(chars[0]) as u128 + str_len(nick) as u128;
    (sum % 12) as usize
}

fn code_point(c: char) -> (n: u32)
    ensures
        n == c as int,
{
    c as u32
}

/// `n` in two decimal digits.
pub open spec fn two_digits(n: int) -> Seq<char> {
    seq![digit_char(n / 10), digit_char(n % 10)]
}

/// What stands in front of a quoted message.
pub open spec fn reply_marker() -> Seq<char> {
    seq!['(', 'r', 'e', 'p', 'l', 'y', ' ', 't', 'o', ')', ' ']
}

/// What stands in front of a quoted message whose author is unknown.
pub open spec fn plain_reply_marker() -> Seq<char> {
    seq!['(', 'r', 'e', 'p', 'l', 'y', ')', ' ']
}

/// The first character of a name, as a text.
pub open spec fn first_of(nick: Seq<char>) -> Seq<char> {
    if nick.len() == 0 {
        nick
    } else {
        nick.take(1)
    }
}

/// A name without its first character.
pub open spec fn rest_of(nick: Seq<char>) -> Seq<char> {
    if nick.len() == 0 {
        nick
    } else {
        nick.skip(1)
    }
}

/// The prefix for an author called `nick`: the reply marker where a
/// quoted message follows, then, between angle brackets, the colour code
/// and the name with a zero-width space after its first character, a reset
/// after the name, and a space after the closing bracket.
pub open spec fn badge(nick: Seq<char>, is_reply: bool) -> Seq<char> {
    (if is_reply {
        reply_marker()
    } else {
        Seq::empty()
    }) + seq!['<', COLOUR] + two_digits(colour_index(nick)) + first_of(nick) + seq![
        ZERO_WIDTH_SPACE,
    ] + rest_of(nick) + seq![crate::markup::RESET, '>', ' ']
}

/// The prefix for an author: the badge of the author's name, or the plain
/// reply marker where the name is not known.
pub open spec fn prefix_for(nick: Option<Seq<char>>, is_reply: bool) -> Seq<char> {
    match nick {
        Some(n) => badge(n, is_reply),
        None => plain_reply_marker(),
    }
}

proof fn lemma_ascii_len(s: Seq<char>)
    requires
        forall|i: int| 0 <= i < s.len() ==> (#[trigger] s[i]) as u32 <= 0x7f,
    ensures
        byte_len(s) == s.len(),
    decreases s.len(),
{
    if s.len() > 0 {
        lemma_ascii_len(s.drop_first());
    }
}

/// A badge is ten bytes longer than the name, and the reply marker adds
/// eleven.
pub proof fn lemma_badge_len(nick: Seq<char>, is_reply: bool)
    ensures
        byte_len(badge(nick, is_reply)) == byte_len(nick) + 10 + (if is_reply { 11int } else { 0 }),
        byte_len(plain_reply_marker()) == 8,
{
    let a = if is_reply { reply_marker() } else { Seq::empty() };
    let b = seq!['<', COLOUR];
    let c = two_digits(colour_index(nick));
    let d = first_of(nick);
    let e = seq![ZERO_WIDTH_SPACE];
    let f = rest_of(nick);
    let g = seq![crate::markup::RESET, '>', ' '];
    lemma_ascii_len(a);
    lemma_ascii_len(b);
    lemma_ascii_len(c);
    lemma_ascii_len(g);
    lemma_ascii_len(plain_reply_marker());
    lemma_byte_len_single(ZERO_WIDTH_SPACE);
    assert(d + f =~= nick);
    lemma_byte_len_concat(d, f);
    lemma_byte_len_concat(a, b);
    lemma_byte_len_concat(a + b, c);
    lemma_byte_len_concat(a + b + c, d);
    lemma_byte_len_concat(a + b + c + d, e);
    lemma_byte_len_concat(a + b + c + d + e, f);
    lemma_byte_len_concat(a + b + c + d + e + f, g);
}

/// In every badge the first colour byte stands right after the opening
/// bracket, and the two digits after it are those of the name's colour, a
/// number below twelve that depends on the name alone.
pub proof fn lemma_badge_colour(nick: Seq<char>, is_reply: bool)
    ensures
        ({
            let at = if is_reply { 11int } else { 0int };
            let b = badge(nick, is_reply);
            let c = colour_index(nick);
            &&& 0 <= c < 12
            &&& c == colour_index(nick)
            &&& b.len() >= at + 4
            &&& b[at] == '<'
            &&& b[at + 1] == COLOUR
            &&& b[at + 2] == digit_char(c / 10)
            &&& b[at + 3] == digit_char(c % 10)
            &&& forall|i: int| 0 <= i <= at ==> b[i] != COLOUR
        }),
{
    let lead = if is_reply { reply_marker() } else { Seq::empty() };
    let head = lead + seq!['<', COLOUR] + two_digits(colour_index(nick));
    let tail = first_of(nick) + seq![ZERO_WIDTH_SPACE] + rest_of(nick) + seq![
        crate::markup::RESET,
        '>',
        ' ',
    ];
    assert(badge(nick, is_reply) =~= head + tail);
    assert(head.len() == lead.len() + 4);
    assert forall|i: int| 0 <= i < head.len() implies badge(nick, is_reply)[i] == head[i] by {}
}

/// Whether the prefix for `nick` leaves room on a line.
pub open spec fn prefix_fits(nick: Option<Seq<char>>, is_reply: bool) -> bool {
    byte_len(prefix_for(nick, is_reply)) <= LINE_LIMIT
}

/// The characters of a string slice, where there is one.
pub open spec fn str_view(s: Option<&str>) -> Option<Seq<char>> {
    match s {
        Some(t) => Some(t@),
        None => None,
    }
}

/// Whether the prefix for `nick` leaves room on a line.
pub fn fits_line(nick: Option<&str>, is_reply: bool) -> (r: bool)
    ensures
        r == prefix_fits(str_view(nick), is_reply),
{
    match nick {
        Some(n) => {
            proof {
                lemma_badge_len(n@, is_reply);
            }
            let extra: usize = if is_reply {
                21
            } else {
                10
            };
            str_len(n) <= LINE_LIMIT - extra
        },
        None => {
            proof {
                lemma_badge_len(Seq::empty(), is_reply);
            }
            true
        },
    }
}

/// The prefix for a message of the author called `nick`, and the bytes
/// that it leaves for the message on a line.
pub fn create_prefix(nick: Option<&str>, is_reply: bool) -> (r: (String, usize))
    requires
        prefix_fits(str_view(nick), is_reply),
    ensures
        r.0@ == prefix_for(str_view(nick), is_reply),
        r.1 == LINE_LIMIT - byte_len(r.0@),
{
    let mut out = String::new();
    match nick {
        None => {
            push_text(&mut out, "(reply) ");
            proof {
                reveal_strlit("(reply) ");
                assert(out@ =~= plain_reply_marker());
            }
        },
        Some(n) => {
            let colour = colour_of(n);
            let chars = chars_of(n);
            if is_reply {
                push_text(&mut out, "(reply to) ");
                proof {
                    reveal_strlit("(reply to) ");
                    assert(out@ =~= reply_marker());
                }
            }
            push_char(&mut out, '<');
            push_char(&mut out, COLOUR);
            push_char(&mut out, digit_of((colour / 10) as u64));
            push_char(&mut out, digit_of((colour % 10) as u64));
            if chars.len() > 0 {
                push_char(&mut out, chars[0]);
            }
            push_char(&mut out, ZERO_WIDTH_SPACE);
            let mut i: usize = 1;
            let ghost head = out@;
            while i < chars.len()
                invariant
                    1 <= i,
                    chars.len() > 0 ==> i <= chars.len(),
                    chars.len() > 0 ==> out@ == head + chars@.subrange(1, i as int),
                    chars.len() == 0 ==> out@ == head,
                decreases chars.len() - i,
            {
                push_char(&mut out, chars[i]);
                assert(chars@.subrange(1, i + 1) =~= chars@.subrange(1, i as int).push(
                    chars@[i as int],
                ));
                i += 1;
            }
            push_char(&mut out, crate::markup::RESET);
            push_char(&mut out, '>');
            push_char(&mut out, ' ');
            assert(out@ =~= badge(n@, is_reply));
        },
    }
    let used = str_len(out.as_str());
    (out, LINE_LIMIT - used)
}

} // verus!
