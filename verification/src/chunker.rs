//! Splitting a line into pieces that fit a byte budget without cutting a
//! character in two.

use vstd::prelude::*;
use vstd::utf8::*;
use crate::text::{byte_len, char_width, lemma_byte_len_concat, lemma_byte_len_single, lemma_char_width_bounds, lemma_prefix_is_boundary, str_len};

verus! {

/// Number of leading characters of `s` that fit together into `size` bytes.
pub open spec fn fitting_prefix(s: Seq<char>, size: int) -> nat
    decreases s.len(),
{
    if s.len() == 0 || char_width(s[0]) > size {
        0
    } else {
        1 + fitting_prefix(s.drop_first(), size - char_width(s[0]))
    }
}

/// The fitting prefix lies within the text and within the budget.
pub proof fn lemma_fitting_prefix_fits(s: Seq<char>, size: int)
    ensures
        fitting_prefix(s, size) <= s.len(),
        size >= 0 ==> byte_len(s.take(fitting_prefix(s, size) as int)) <= size,
        s.len() > 0 && char_width(s[0]) <= size ==> fitting_prefix(s, size) > 0,
    decreases s.len(),
{
    if s.len() == 0 || char_width(s[0]) > size {
        assert(s.take(0).len() == 0);
    } else {
        let rest = s.drop_first();
        let k = fitting_prefix(rest, size - char_width(s[0])) as int;
        lemma_fitting_prefix_fits(rest, size - char_width(s[0]));
        assert(s.take(k + 1) == seq![s[0]] + rest.take(k));
        lemma_byte_len_concat(seq![s[0]], rest.take(k));
        lemma_byte_len_single(s[0]);
    }
}

/// The pieces that a line falls into under a byte budget: each is the
/// longest prefix of whole characters of what is left that fits. The cutting
/// ends with the text, or where the next character alone is over the budget.
pub open spec fn chunks_of(s: Seq<char>, size: int) -> Seq<Seq<char>>
    decreases s.len(),
    via chunks_of_decreases
{
    let k = fitting_prefix(s, size) as int;
    if s.len() == 0 || k == 0 {
        Seq::empty()
    } else {
        seq![s.take(k)] + chunks_of(s.skip(k), size)
    }
}

#[via_fn]
proof fn chunks_of_decreases(s: Seq<char>, size: int) {
    lemma_fitting_prefix_fits(s, size);
}

/// The character sequences of a list of string slices.
pub open spec fn views_of(pieces: Seq<&str>) -> Seq<Seq<char>> {
    Seq::new(pieces.len(), |i: int| pieces[i]@)
}

/// Under a positive budget that every single character of the line fits,
/// the chunks are non-empty, each within the budget, and joined in order
/// they give back the line, character for character.
pub proof fn lemma_chunks_cover(s: Seq<char>, size: int)
    requires
        size > 0,
        forall|i: int| 0 <= i < s.len() ==> char_width(#[trigger] s[i]) <= size,
    ensures
        chunks_of(s, size).flatten() == s,
        forall|i: int|
            0 <= i < chunks_of(s, size).len() ==> 0 < byte_len(#[trigger] chunks_of(s, size)[i])
                <= size,
        forall|i: int|
            0 <= i < chunks_of(s, size).len() ==> (#[trigger] chunks_of(s, size)[i]).len() > 0,
    decreases s.len(),
{
    let k = fitting_prefix(s, size) as int;
    lemma_fitting_prefix_fits(s, size);
    if s.len() == 0 {
        assert(chunks_of(s, size).flatten() == s);
    } else {
        let head = s.take(k);
        let rest = s.skip(k);
        let tail = chunks_of(rest, size);
        lemma_chunks_cover(rest, size);
        assert(chunks_of(s, size) == seq![head] + tail);
        assert((seq![head] + tail).drop_first() == tail);
        assert(chunks_of(s, size).flatten() == head + tail.flatten());
        assert(head + rest == s);
        assert(head == seq![s[0]] + head.drop_first());
        lemma_byte_len_concat(seq![s[0]], head.drop_first());
        lemma_byte_len_single(s[0]);
        lemma_char_width_bounds(s[0]);
        assert forall|i: int| 0 <= i < chunks_of(s, size).len() implies 0 < byte_len(
            #[trigger] chunks_of(s, size)[i],
        ) <= size && chunks_of(s, size)[i].len() > 0 by {
            if i > 0 {
                assert(chunks_of(s, size)[i] == tail[i - 1]);
            }
        }
    }
}

/// Any budget of four bytes or more fits every character, so the chunks
/// then always give back the whole line.
pub proof fn lemma_chunks_cover_wide(s: Seq<char>, size: int)
    requires
        size >= 4,
    ensures
        chunks_of(s, size).flatten() == s,
        forall|i: int|
            0 <= i < chunks_of(s, size).len() ==> 0 < byte_len(#[trigger] chunks_of(s, size)[i])
                <= size,
{
    assert forall|i: int| 0 <= i < s.len() implies char_width(#[trigger] s[i]) <= size by {
        lemma_char_width_bounds(s[i]);
    }
    lemma_chunks_cover(s, size);
}

/// `fitting_prefix` is the one count of characters that fits while one more
/// character would not.
pub proof fn lemma_fitting_prefix_is(s: Seq<char>, size: int, k: int)
    requires
        0 <= k <= s.len(),
        byte_len(s.take(k)) <= size,
        k < s.len() ==> byte_len(s.take(k + 1)) > size,
    ensures
        fitting_prefix(s, size) == k,
    decreases s.len(),
{
    if s.len() == 0 {
    } else {
        let rest = s.drop_first();
        lemma_byte_len_single(s[0]);
        lemma_char_width_bounds(s[0]);
        if k == 0 {
            assert(s.take(1) == seq![s[0]]);
        } else {
            assert(s.take(k) == seq![s[0]] + rest.take(k - 1));
            lemma_byte_len_concat(seq![s[0]], rest.take(k - 1));
            if k < s.len() {
                assert(s.take(k + 1) == seq![s[0]] + rest.take(k));
                lemma_byte_len_concat(seq![s[0]], rest.take(k));
            }
            lemma_fitting_prefix_is(rest, size - char_width(s[0]), k - 1);
        }
    }
}

/// Cutting encoded text at a character boundary cuts the characters into a
/// prefix and the rest.
pub proof fn lemma_cut_at_boundary(s: Seq<char>, head: Seq<char>, tail: Seq<char>, at: int)
    requires
        is_char_boundary(encode_utf8(s), at),
        0 <= at <= byte_len(s),
        encode_utf8(head) == encode_utf8(s).subrange(0, at),
        encode_utf8(tail) == encode_utf8(s).subrange(at, byte_len(s)),
    ensures
        s == head + tail,
        head == s.take(head.len() as int),
        tail == s.skip(head.len() as int),
        byte_len(head) == at,
{
    broadcast use encode_utf8_valid_utf8, encode_utf8_decode_utf8;

    let bytes = encode_utf8(s);
    decode_utf8_split(bytes, at);
    assert(decode_utf8(bytes) == s);
    assert(decode_utf8(encode_utf8(head)) == head);
    assert(decode_utf8(encode_utf8(tail)) == tail);
    assert(s == head + tail);
    assert(head == s.take(head.len() as int));
    assert(tail == s.skip(head.len() as int));
}

/// Cursor over the part of a line that has not been handed out yet.
pub struct StrChunks<'a> {
    v: &'a str,
    size: usize,
}

impl<'a> StrChunks<'a> {
    /// The text that is still to be handed out.
    pub closed spec fn remaining(&self) -> Seq<char> {
        self.v@
    }

    /// The byte budget of every chunk.
    pub closed spec fn budget(&self) -> nat {
        self.size as nat
    }

    pub fn new(v: &'a str, size: usize) -> (r: Self)
        ensures
            r.remaining() == v@,
            r.budget() == size,
    {
        Self { v, size }
    }

    /// Hands out the longest prefix of whole characters that fits the
    /// budget, or everything that is left when that is shorter than the
    /// budget. Nothing is handed out once the text is used up. Where not
    /// even the first character fits, the chunk is empty and the cursor
    /// stays where it is.
    pub fn next(&mut self) -> (r: Option<&'a str>)
        ensures
            final(self).budget() == old(self).budget(),
            old(self).remaining().len() == 0 ==> r is None && final(self).remaining() == old(
                self,
            ).remaining(),
            old(self).remaining().len() > 0 ==> r is Some && ({
                let k = fitting_prefix(old(self).remaining(), old(self).budget() as int) as int;
                &&& r->0@ == old(self).remaining().take(k)
                &&& final(self).remaining() == old(self).remaining().skip(k)
            }),
    {
        broadcast use encode_utf8_valid_utf8, is_char_boundary_start_end_of_seq;

        if self.v.is_empty() {
            return None;
        }
        let ghost s = self.v@;
        let ghost bytes = encode_utf8(s);
        let len = str_len(self.v);
        let mut offset = if len < self.size {
            len
        } else {
            self.size
        };
        while !self.v.is_char_boundary(offset)
            invariant
                self.v@ == s,
                bytes == encode_utf8(s),
                valid_utf8(bytes),
                len == bytes.len(),
                offset <= self.size,
                offset <= len,
                len < self.size ==> offset == len,
                forall|j: int| offset < j <= self.size && j <= len ==> !is_char_boundary(bytes, j),
            decreases offset,
        {
            proof {
                is_char_boundary_start_end_of_seq(bytes);
            }
            offset -= 1;
        }
        let (head, tail) = self.v.split_at(offset);
        proof {
            lemma_cut_at_boundary(s, head@, tail@, offset as int);
            let k = head@.len() as int;
            if k < s.len() {
                lemma_prefix_is_boundary(s, k + 1);
                assert(s.take(k + 1) == s.take(k) + seq![s[k]]);
                lemma_byte_len_concat(s.take(k), seq![s[k]]);
                lemma_byte_len_single(s[k]);
                lemma_char_width_bounds(s[k]);
                lemma_byte_len_concat(s.take(k + 1), s.skip(k + 1));
                assert(s.take(k + 1) + s.skip(k + 1) == s);
            }
            lemma_fitting_prefix_is(s, self.size as int, k);
        }
        self.v = tail;
        Some(head)
    }
}

/// All the chunks of `line` under the byte budget `size`, in order.
pub fn split_line<'a>(line: &'a str, size: usize) -> (r: Vec<&'a str>)
    ensures
        views_of(r@) == chunks_of(line@, size as int),
{
    let mut cursor = StrChunks::new(line, size);
    let mut out: Vec<&'a str> = Vec::new();
    let mut done = false;
    while !done
        invariant
            cursor.budget() == size,
            chunks_of(line@, size as int) == views_of(out@) + (if done {
                Seq::<Seq<char>>::empty()
            } else {
                chunks_of(cursor.remaining(), size as int)
            }),
        decreases cursor.remaining().len() + (if done { 0int } else { 1int }),
    {
        let ghost before = cursor.remaining();
        let ghost had = out@;
        proof {
            lemma_fitting_prefix_fits(before, size as int);
        }
        match cursor.next() {
            None => {
                done = true;
            },
            Some(piece) => {
                if piece.is_empty() {
                    done = true;
                } else {
                    out.push(piece);
                    assert(views_of(out@) == views_of(had) + seq![piece@]);
                }
            },
        }
    }
    out
}

} // verus!
