//! Cutting and trimming text, character by character.

use vstd::prelude::*;
use crate::text::{chars_of, push_char, push_text, string_of};

verus! {

/// Which characters a trimming takes off the ends of a text.
#[derive(Clone, Copy, Debug, PartialEq, Eq)]
pub enum Strip {
    /// White space.
    Space,
    /// One given character.
    Only(char),
}

/// Whether `c` is white space: a character with the Unicode property
/// `White_Space`.
pub open spec fn is_space(c: char) -> bool {
    let n = c as u32;
    (0x9 <= n <= 0xd) || n == 0x20 || n == 0x85 || n == 0xa0 || n == 0x1680 || (0x2000 <= n
        <= 0x200a) || n == 0x2028 || n == 0x2029 || n == 0x202f || n == 0x205f || n == 0x3000
}

/// Whether a trimming takes `c` off.
pub open spec fn strips(kind: Strip, c: char) -> bool {
    match kind {
        Strip::Space => is_space(c),
        Strip::Only(x) => c == x,
    }
}

/// How many characters a trimming takes off the front of `s`.
pub open spec fn leading(s: Seq<char>, kind: Strip) -> nat
    decreases s.len(),
{
    if s.len() > 0 && strips(kind, s[0]) {
        1 + leading(s.drop_first(), kind)
    } else {
        0
    }
}

/// How many characters a trimming takes off the back of `s`.
pub open spec fn trailing(s: Seq<char>, kind: Strip) -> nat
    decreases s.len(),
{
    if s.len() > 0 && strips(kind, s.last()) {
        1 + trailing(s.drop_last(), kind)
    } else {
        0
    }
}

/// `s` without the characters that a trimming takes off its two ends.
pub open spec fn trimmed(s: Seq<char>, kind: Strip) -> Seq<char> {
    let rest = s.skip(leading(s, kind) as int);
    rest.take(rest.len() - trailing(rest, kind))
}

/// Whether `c` is white space.
pub fn is_whitespace(c: char) -> (r: bool)
    ensures
        r == is_space(c),
{
    let n = c as u32;
    (0x9 <= n && n <= 0xd) || n == 0x20 || n == 0x85 || n == 0xa0 || n == 0x1680 || (0x2000 <= n
        && n <= 0x200a) || n == 0x2028 || n == 0x2029 || n == 0x202f || n == 0x205f || n
        == 0x3000
}

fn is_stripped(kind: Strip, c: char) -> (r: bool)
    ensures
        r == strips(kind, c),
{
    match kind {
        Strip::Space => is_whitespace(c),
        Strip::Only(x) => c == x,
    }
}

/// The part of `v` from `from` up to `to`.
pub fn part_of(v: &Vec<char>, from: usize, to: usize) -> (r: Vec<char>)
    requires
        from <= to <= v.len(),
    ensures
        r@ == v@.subrange(from as int, to as int),
{
    let mut r: Vec<char> = Vec::new();
    let mut i: usize = from;
    while i < to
        invariant
            from <= i <= to <= v.len(),
            r@ == v@.subrange(from as int, i as int),
        decreases to - i,
    {
        r.push(v[i]);
        assert(v@.subrange(from as int, i + 1) =~= v@.subrange(from as int, i as int).push(
            v@[i as int],
        ));
        i += 1;
    }
    r
}

/// Takes the characters of `kind` off both ends of `v`.
pub fn trim(v: &Vec<char>, kind: Strip) -> (r: Vec<char>)
    ensures
        r@ == trimmed(v@, kind),
{
    let mut a: usize = 0;
    assert(v@.skip(0) =~= v@);
    while a < v.len() && is_stripped(kind, v[a])
        invariant
            a <= v.len(),
            leading(v@, kind) == a + leading(v@.skip(a as int), kind),
        decreases v.len() - a,
    {
        assert(v@.skip(a as int).drop_first() =~= v@.skip(a + 1));
        a += 1;
    }
    assert(leading(v@, kind) == a) by {
        if a < v.len() {
            assert(v@.skip(a as int)[0] == v@[a as int]);
        }
    }
    let ghost rest = v@.skip(a as int);
    let mut b: usize = v.len();
    assert(rest.take(rest.len() as int) =~= rest);
    while b > a && is_stripped(kind, v[b - 1])
        invariant
            a <= b <= v.len(),
            rest == v@.skip(a as int),
            trailing(rest, kind) == (v.len() - b) + trailing(rest.take(b - a), kind),
        decreases b - a,
    {
        assert(rest.take(b - a).drop_last() =~= rest.take(b - 1 - a));
        assert(rest.take(b - a).last() == v@[b - 1]);
        b -= 1;
    }
    assert(trailing(rest, kind) == v.len() - b) by {
        if b > a {
            assert(rest.take(b - a).last() == v@[b - 1]);
        }
    }
    let r = part_of(v, a, b);
    assert(r@ =~= trimmed(v@, kind));
    r
}

/// Whether `s` begins with `p`.
pub open spec fn has_prefix(s: Seq<char>, p: Seq<char>) -> bool {
    p.len() <= s.len() && s.take(p.len() as int) == p
}

/// Whether `v` begins with `p`.
pub fn starts_with(v: &Vec<char>, p: &Vec<char>) -> (r: bool)
    ensures
        r == has_prefix(v@, p@),
{
    if p.len() > v.len() {
        return false;
    }
    let mut i: usize = 0;
    while i < p.len()
        invariant
            i <= p.len() <= v.len(),
            forall|j: int| 0 <= j < i ==> v@[j] == p@[j],
        decreases p.len() - i,
    {
        if v[i] != p[i] {
            assert(v@.take(p.len() as int)[i as int] != p@[i as int]);
            return false;
        }
        i += 1;
    }
    assert(v@.take(p.len() as int) =~= p@);
    true
}

/// A line without the carriage return that stood before its line feed.
pub open spec fn without_return(line: Seq<char>) -> Seq<char> {
    if line.len() > 0 && line.last() == '\r' {
        line.drop_last()
    } else {
        line
    }
}

/// The lines of a text. A line ends with a line feed, or with a carriage
/// return and a line feed, neither of which belongs to it; the last line
/// needs no such ending. An empty text has no lines.
pub open spec fn lines_of(s: Seq<char>) -> Seq<Seq<char>>
    decreases s.len(),
    via lines_of_decreases
{
    if s.len() == 0 {
        Seq::empty()
    } else {
        let k = piece_end(s, '\n') as int;
        if k < s.len() {
            seq![without_return(s.take(k))] + lines_of(s.skip(k + 1))
        } else {
            seq![s]
        }
    }
}

#[via_fn]
proof fn lines_of_decreases(s: Seq<char>) {
    lemma_piece_end_bound(s, '\n');
}

/// Cuts a text into its lines.
pub fn split_lines(v: &Vec<char>) -> (r: Vec<Vec<char>>)
    ensures
        vec_views(r@) == lines_of(v@),
{
    let mut out: Vec<Vec<char>> = Vec::new();
    let mut start: usize = 0;
    assert(v@.skip(0) =~= v@);
    while start < v.len()
        invariant
            start <= v.len(),
            lines_of(v@) == vec_views(out@) + lines_of(v@.skip(start as int)),
        decreases v.len() - start,
    {
        let ghost rest = v@.skip(start as int);
        let ghost had = out@;
        let mut end: usize = start;
        while end < v.len() && v[end] != '\n'
            invariant
                start <= end <= v.len(),
                forall|j: int| start <= j < end ==> v@[j] != '\n',
            decreases v.len() - end,
        {
            end += 1;
        }
        proof {
            assert forall|j: int| 0 <= j < end - start implies rest[j] != '\n' by {
                assert(rest[j] == v@[start + j]);
            }
            lemma_piece_end_is(rest, '\n', end - start);
        }
        if end < v.len() {
            let stop = if end > start && v[end - 1] == '\r' {
                end - 1
            } else {
                end
            };
            let line = part_of(v, start, stop);
            assert(rest.take(end - start) =~= v@.subrange(start as int, end as int));
            assert(line@ =~= without_return(rest.take(end - start)));
            out.push(line);
            assert(rest.skip(end - start + 1) =~= v@.skip(end + 1));
            assert(vec_views(out@) =~= vec_views(had) + seq![line@]);
            start = end + 1;
        } else {
            let line = part_of(v, start, end);
            assert(line@ =~= rest);
            out.push(line);
            assert(vec_views(out@) =~= vec_views(had) + seq![line@]);
            assert(v@.skip(end as int).len() == 0);
            start = end;
        }
    }
    assert(v@.skip(start as int).len() == 0);
    out
}

/// The character sequences of a list of character vectors.
pub open spec fn vec_views(list: Seq<Vec<char>>) -> Seq<Seq<char>> {
    list.map_values(|v: Vec<char>| v@)
}

/// A text on one line: every line feed, together with a carriage return
/// right before it, gives way to one space.
pub open spec fn on_one_line(s: Seq<char>) -> Seq<char>
    decreases s.len(),
{
    if s.len() == 0 {
        Seq::empty()
    } else if s.len() >= 2 && s[0] == '\r' && s[1] == '\n' {
        seq![' '] + on_one_line(s.skip(2))
    } else if s[0] == '\n' {
        seq![' '] + on_one_line(s.skip(1))
    } else {
        seq![s[0]] + on_one_line(s.skip(1))
    }
}

/// Puts a text on one line.
pub fn join_lines(v: &Vec<char>) -> (r: Vec<char>)
    ensures
        r@ == on_one_line(v@),
{
    let mut out: Vec<char> = Vec::new();
    let mut i: usize = 0;
    assert(v@.skip(0) =~= v@);
    while i < v.len()
        invariant
            i <= v.len(),
            on_one_line(v@) == out@ + on_one_line(v@.skip(i as int)),
        decreases v.len() - i,
    {
        let ghost rest = v@.skip(i as int);
        let ghost had = out@;
        assert(rest[0] == v@[i as int]);
        if i + 1 < v.len() && v[i] == '\r' && v[i + 1] == '\n' {
            assert(rest[1] == v@[i + 1]);
            assert(rest.skip(2) =~= v@.skip(i + 2));
            out.push(' ');
            assert(out@ + on_one_line(v@.skip(i + 2)) =~= had + (seq![' '] + on_one_line(
                v@.skip(i + 2),
            )));
            i += 2;
        } else {
            assert(rest.skip(1) =~= v@.skip(i + 1));
            proof {
                if rest.len() >= 2 {
                    assert(rest[1] == v@[i + 1]);
                }
            }
            let c = if v[i] == '\n' {
                ' '
            } else {
                v[i]
            };
            out.push(c);
            assert(out@ + on_one_line(v@.skip(i + 1)) =~= had + (seq![c] + on_one_line(
                v@.skip(i + 1),
            )));
            i += 1;
        }
    }
    out
}

/// The texts of a list, each followed by what comes after it, with `sep`
/// between one and the next.
pub open spec fn joined(list: Seq<Seq<char>>, sep: Seq<char>) -> Seq<char>
    decreases list.len(),
{
    if list.len() == 0 {
        Seq::empty()
    } else if list.len() == 1 {
        list[0]
    } else {
        joined(list.drop_last(), sep) + sep + list.last()
    }
}

/// Appends the strings of `list` to `out`, with a space between one and
/// the next.
pub fn push_joined(out: &mut String, list: &Vec<String>)
    ensures
        final(out)@ == old(out)@ + joined(crate::pattern::string_views(list@), seq![' ']),
{
    let ghost views = crate::pattern::string_views(list@);
    let mut i: usize = 0;
    assert(views.take(0) =~= Seq::<Seq<char>>::empty());
    while i < list.len()
        invariant
            i <= list.len(),
            views == crate::pattern::string_views(list@),
            out@ == old(out)@ + joined(views.take(i as int), seq![' ']),
        decreases list.len() - i,
    {
        assert(views.take(i + 1).drop_last() =~= views.take(i as int));
        assert(views.take(i + 1).last() == list@[i as int]@);
        if i > 0 {
            push_char(out, ' ');
        }
        push_text(out, list[i].as_str());
        i += 1;
    }
    assert(views.take(list.len() as int) =~= views);
}

/// Position of the first `sep` of `s`, or the length of `s` where it has
/// none.
pub open spec fn piece_end(s: Seq<char>, sep: char) -> nat
    decreases s.len(),
{
    if s.len() == 0 || s[0] == sep {
        0
    } else {
        1 + piece_end(s.drop_first(), sep)
    }
}

pub proof fn lemma_piece_end_bound(s: Seq<char>, sep: char)
    ensures
        piece_end(s, sep) <= s.len(),
    decreases s.len(),
{
    if s.len() == 0 || s[0] == sep {
    } else {
        lemma_piece_end_bound(s.drop_first(), sep);
    }
}

/// The position that ends the piece at the front of `s` is the one that
/// holds the first `sep`.
pub proof fn lemma_piece_end_is(s: Seq<char>, sep: char, k: int)
    requires
        0 <= k <= s.len(),
        forall|j: int| 0 <= j < k ==> s[j] != sep,
        k < s.len() ==> s[k] == sep,
    ensures
        piece_end(s, sep) == k,
    decreases s.len(),
{
    if s.len() == 0 || s[0] == sep {
    } else {
        let rest = s.drop_first();
        assert forall|j: int| 0 <= j < k - 1 implies rest[j] != sep by {
            assert(rest[j] == s[j + 1]);
        }
        lemma_piece_end_is(rest, sep, k - 1);
    }
}

/// The pieces of `s` between the characters `sep`. A text without a `sep`
/// is one piece, also where it is empty.
pub open spec fn pieces_of(s: Seq<char>, sep: char) -> Seq<Seq<char>>
    decreases s.len(),
    via pieces_of_decreases
{
    let k = piece_end(s, sep) as int;
    if k < s.len() {
        seq![s.take(k)] + pieces_of(s.skip(k + 1), sep)
    } else {
        seq![s]
    }
}

#[via_fn]
proof fn pieces_of_decreases(s: Seq<char>, sep: char) {
    lemma_piece_end_bound(s, sep);
}

/// Cuts a character vector at every `sep`.
pub fn split_chars(v: &Vec<char>, sep: char) -> (r: Vec<Vec<char>>)
    ensures
        vec_views(r@) == pieces_of(v@, sep),
        r.len() > 0,
{
    let mut out: Vec<Vec<char>> = Vec::new();
    let mut start: usize = 0;
    let mut done = false;
    assert(v@.skip(0) =~= v@);
    while !done
        invariant
            start <= v.len(),
            !done ==> pieces_of(v@, sep) == vec_views(out@) + pieces_of(v@.skip(start as int), sep),
            done ==> pieces_of(v@, sep) == vec_views(out@) && out.len() > 0,
        decreases v.len() - start + (if done { 0int } else { 1int }),
    {
        let ghost rest = v@.skip(start as int);
        let ghost had = out@;
        let mut end: usize = start;
        while end < v.len() && v[end] != sep
            invariant
                start <= end <= v.len(),
                forall|j: int| start <= j < end ==> v@[j] != sep,
            decreases v.len() - end,
        {
            end += 1;
        }
        proof {
            assert forall|j: int| 0 <= j < end - start implies rest[j] != sep by {
                assert(rest[j] == v@[start + j]);
            }
            lemma_piece_end_is(rest, sep, end - start);
        }
        let piece = part_of(v, start, end);
        out.push(piece);
        assert(vec_views(out@) =~= vec_views(had) + seq![piece@]);
        if end < v.len() {
            assert(rest.take(end - start) =~= v@.subrange(start as int, end as int));
            assert(rest.skip(end - start + 1) =~= v@.skip(end + 1));
            start = end + 1;
        } else {
            assert(rest =~= v@.subrange(start as int, end as int));
            done = true;
        }
    }
    out
}

/// Cuts a text at every `sep`.
pub fn split_on(text: &str, sep: char) -> (r: Vec<String>)
    ensures
        crate::pattern::string_views(r@) == pieces_of(text@, sep),
{
    let pieces = split_chars(&chars_of(text), sep);
    let mut out: Vec<String> = Vec::new();
    let mut i: usize = 0;
    while i < pieces.len()
        invariant
            i <= pieces.len(),
            crate::pattern::string_views(out@) == vec_views(pieces@).take(i as int),
        decreases pieces.len() - i,
    {
        let ghost had = out@;
        let s = string_of(&pieces[i]);
        out.push(s);
        assert(crate::pattern::string_views(out@) =~= crate::pattern::string_views(had).push(s@));
        assert(vec_views(pieces@).take(i + 1) =~= vec_views(pieces@).take(i as int).push(
            pieces@[i as int]@,
        ));
        i += 1;
    }
    assert(vec_views(pieces@).take(pieces@.len() as int) =~= vec_views(pieces@));
    out
}

/// The characters of `s` with those of `kind` taken off both ends.
pub fn trim_str(s: &str, kind: Strip) -> (r: String)
    ensures
        r@ == trimmed(s@, kind),
{
    string_of(&trim(&chars_of(s), kind))
}

} // verus!
