//! What a rich-text message becomes on the line side: which channel it
//! goes to, and the lines that are sent there.

use vstd::prelude::*;
use crate::badge::{create_prefix, prefix_fits, prefix_for, str_view, LINE_LIMIT};
use crate::chunker::{chunks_of, split_line, views_of};
use crate::lines::{
    has_prefix, join_lines, joined, lines_of, on_one_line, part_of, push_joined, split_lines,
    starts_with, trim, trim_str, trimmed, vec_views, Strip,
};
use crate::markup::RESET;
use crate::pattern::string_views;
use crate::rich_to_line::{discord_to_irc_processing, rich_to_line};
use crate::roster::{lemma_first_index, lemma_no_index, NamedId, Roster, RosterError, RosterMember};
use crate::text::{
    byte_len, chars_of, push_char, push_text, str_len, string_of, text_of,
};

verus! {

/// One pair of the channel mapping: a channel of the line side by name,
/// and the channel of the rich side that goes with it.
#[derive(Clone, Debug, PartialEq, Eq)]
pub struct ChannelLink {
    pub name: String,
    pub id: u64,
}

/// What kind of message an event carries.
#[derive(Clone, Copy, Debug, PartialEq, Eq)]
pub enum MessageKind {
    Regular,
    InlineReply,
    /// Anything else: pins, joins, boosts and the like.
    Other,
}

/// A message that another message answers.
#[derive(Clone, Debug, PartialEq, Eq)]
pub struct Quoted {
    /// Display name of the author, where it could be found.
    pub nick: Option<String>,
    pub content: String,
    /// Addresses of the attached files.
    pub attachments: Vec<String>,
}

/// A message that arrived on the rich side.
#[derive(Clone, Debug, PartialEq, Eq)]
pub struct Incoming {
    pub kind: MessageKind,
    pub author_id: u64,
    pub author_is_bot: bool,
    pub channel_id: u64,
    /// Display name of the author, where it could be found.
    pub nick: Option<String>,
    pub content: String,
    /// Addresses of the attached files.
    pub attachments: Vec<String>,
    /// The message that this one answers, where it answers one and that
    /// one could be fetched.
    pub reply: Option<Quoted>,
}

/// The lines to send for one message, and the channel to send them to.
#[derive(Clone, Debug, PartialEq, Eq)]
pub struct Relay {
    pub channel: String,
    pub lines: Vec<String>,
}

/// The identifiers of the rich-side channels of a mapping.
pub open spec fn link_ids(links: Seq<ChannelLink>) -> Seq<u64> {
    links.map_values(|l: ChannelLink| l.id)
}

/// The names of the line-side channels of a mapping.
pub open spec fn link_names(links: Seq<ChannelLink>) -> Seq<Seq<char>> {
    links.map_values(|l: ChannelLink| l.name@)
}

/// What the truncation to `len` grapheme clusters gives: `text` itself
/// where it has no more clusters than that, else its first `len` clusters
/// and three full stops.
pub uninterp spec fn ellipsized(text: Seq<char>, len: nat) -> Seq<char>;

/// The three full stops that mark a cut.
pub open spec fn ellipsis() -> Seq<char> {
    seq!['.', '.', '.']
}

/// Whether `cut` is some of the characters at the front of `text`, at
/// least one and not all of them, with the ellipsis after them.
pub open spec fn is_cut_of(text: Seq<char>, cut: Seq<char>) -> bool {
    exists|k: int| 0 < k < text.len() && cut == #[trigger] text.take(k) + ellipsis()
}

/// Truncates a text. Rests on `ellipse::Ellipse::truncate_ellipse` for
/// string slices: the same text and length always give the same result; a
/// length of zero gives the empty text; and every result is the text
/// itself, or empty, or a cut of the text that ends with the ellipsis.
#[verifier::external_body]
fn truncate_ellipse(text: &str, len: usize) -> (r: String)
    ensures
        r@ == ellipsized(text@, len as nat),
        len == 0 ==> r@.len() == 0,
        r@ == text@ || r@.len() == 0 || is_cut_of(text@, r@),
{
    ellipse::Ellipse::truncate_ellipse(&text, len).into_owned()
}

/// The longest truncation of `content`, to `keep` clusters or fewer, that
/// fits `limit` bytes; the truncation to nothing where none fits.
pub open spec fn shortened(content: Seq<char>, limit: int, keep: nat) -> Seq<char>
    decreases keep,
{
    let cut = ellipsized(content, keep);
    if keep == 0 || byte_len(cut) <= limit {
        cut
    } else {
        shortened(content, limit, (keep - 1) as nat)
    }
}

/// The text of a quoted message as it is sent: the content itself where
/// it fits `limit` bytes, else its longest truncation that fits with its
/// ellipsis, starting three clusters under the limit.
pub open spec fn reply_text(content: Seq<char>, limit: nat) -> Seq<char> {
    if byte_len(content) <= limit {
        content
    } else {
        shortened(content, limit as int, if limit >= 3 { (limit - 3) as nat } else { 0 })
    }
}

/// Whether `text` takes `limit` bytes at most.
pub fn within(text: &str, limit: usize) -> (r: bool)
    ensures
        r == (byte_len(text@) <= limit),
{
    str_len(text) <= limit
}

/// Cuts a quoted message down to `limit` bytes, ellipsis and all. A
/// message that fits stays as it is; one that does not comes back as a
/// cut that ends with the ellipsis, or empty where no cut fits.
pub fn fit_reply(content: &str, limit: usize) -> (r: String)
    ensures
        r@ == reply_text(content@, limit as nat),
        byte_len(r@) <= limit,
        byte_len(content@) <= limit ==> r@ == content@,
        byte_len(content@) > limit ==> r@.len() == 0 || is_cut_of(content@, r@),
{
    if within(content, limit) {
        return content.to_owned();
    }
    let mut keep: usize = if limit >= 3 {
        limit - 3
    } else {
        0
    };
    let mut cut = truncate_ellipse(content, keep);
    while keep > 0 && !within(cut.as_str(), limit)
        invariant
            cut@ == ellipsized(content@, keep as nat),
            keep == 0 ==> cut@.len() == 0,
            cut@ == content@ || cut@.len() == 0 || is_cut_of(content@, cut@),
            byte_len(content@) > limit,
            reply_text(content@, limit as nat) == shortened(content@, limit as int, keep as nat),
        decreases keep,
    {
        keep -= 1;
        cut = truncate_ellipse(content, keep);
    }
    proof {
        if keep == 0 {
            assert(cut@ =~= Seq::<char>::empty());
        }
    }
    cut
}

/// A quoted message on one line, with the addresses of its attachments
/// after a space.
pub open spec fn quoted_text(content: Seq<char>, attachments: Seq<Seq<char>>) -> Seq<char> {
    on_one_line(content) + seq![' '] + joined(attachments, seq![' '])
}

/// Each chunk behind the prefix, without the resets at its ends.
pub open spec fn prefixed(prefix: Seq<char>, chunks: Seq<Seq<char>>) -> Seq<Seq<char>> {
    chunks.map_values(|c: Seq<char>| prefix + trimmed(c, Strip::Only(RESET)))
}

/// The lines to send for the lines of a message: each line cut to chunks
/// of `limit` bytes, each chunk behind the prefix.
pub open spec fn chunk_lines(prefix: Seq<char>, limit: int, lines: Seq<Seq<char>>) -> Seq<
    Seq<char>,
>
    decreases lines.len(),
{
    if lines.len() == 0 {
        Seq::empty()
    } else {
        chunk_lines(prefix, limit, lines.drop_last()) + prefixed(
            prefix,
            chunks_of(lines.last(), limit),
        )
    }
}

/// What follows the raw prefix in a message, without the white space
/// around it.
pub open spec fn raw_payload(raw_prefix: Seq<char>, computed: Seq<char>) -> Seq<char> {
    trimmed(computed.skip(raw_prefix.len() as int), Strip::Space)
}

/// Whether a message goes out as it is: it starts with the raw prefix and
/// more than white space follows.
pub open spec fn is_raw(raw_prefix: Seq<char>, computed: Seq<char>) -> bool {
    has_prefix(computed, raw_prefix) && raw_payload(raw_prefix, computed).len() > 0
}

/// The lines to send for the body of a message. A raw message gives the
/// prefix on a line of its own and then its payload; any other message
/// gives its lines in chunks behind the prefix.
pub open spec fn body_lines(
    prefix: Seq<char>,
    limit: int,
    raw_prefix: Seq<char>,
    computed: Seq<char>,
) -> Seq<Seq<char>> {
    if is_raw(raw_prefix, computed) {
        seq![prefix, trimmed(raw_payload(raw_prefix, computed), Strip::Only(RESET))]
    } else {
        chunk_lines(prefix, limit, lines_of(computed))
    }
}

/// One line for every attachment: its address behind the prefix.
pub open spec fn attachment_lines(prefix: Seq<char>, attachments: Seq<Seq<char>>) -> Seq<
    Seq<char>,
> {
    attachments.map_values(|a: Seq<char>| prefix + a)
}

/// The bytes that a quoted message may take behind the reply prefix of
/// its author: what the prefix leaves of a line, or the set limit where
/// that is less.
pub open spec fn reply_budget(prefix: Seq<char>, fixed_limit: Option<usize>) -> nat {
    let room = (LINE_LIMIT - byte_len(prefix)) as nat;
    match fixed_limit {
        Some(l) => if l <= room {
            l as nat
        } else {
            room
        },
        None => room,
    }
}

/// The text of a quoted message before it is cut: on one line with its
/// attachments, converted.
pub open spec fn quoted_body(
    quoted: Quoted,
    members: Seq<RosterMember>,
    channels: Seq<NamedId>,
    roles: Seq<NamedId>,
) -> Seq<char> {
    rich_to_line(
        quoted_text(quoted.content@, string_views(quoted.attachments@)),
        members,
        channels,
        roles,
    )
}

/// The line to send for a quoted message: its text, cut to the reply
/// budget, behind the reply prefix of its author.
pub open spec fn reply_line(
    quoted: Quoted,
    fixed_limit: Option<usize>,
    members: Seq<RosterMember>,
    channels: Seq<NamedId>,
    roles: Seq<NamedId>,
) -> Seq<char> {
    let prefix = prefix_for(text_of(quoted.nick), true);
    prefix + reply_text(
        quoted_body(quoted, members, channels, roles),
        reply_budget(prefix, fixed_limit),
    )
}

/// What holds of the line of a quoted message whatever the message: it
/// starts with the reply prefix of the quoted author; it takes no more
/// than a line; and what follows the prefix is the quoted text itself
/// where that fits the reply budget, else a cut of it that ends with the
/// ellipsis, or nothing where no cut fits.
pub open spec fn reply_line_sound(
    line: Seq<char>,
    quoted: Quoted,
    fixed_limit: Option<usize>,
    members: Seq<RosterMember>,
    channels: Seq<NamedId>,
    roles: Seq<NamedId>,
) -> bool {
    let prefix = prefix_for(text_of(quoted.nick), true);
    let budget = reply_budget(prefix, fixed_limit);
    let body = quoted_body(quoted, members, channels, roles);
    let sent = line.skip(prefix.len() as int);
    &&& byte_len(line) <= LINE_LIMIT
    &&& line == prefix + sent
    &&& byte_len(sent) <= budget
    &&& byte_len(body) <= budget ==> sent == body
    &&& byte_len(body) > budget ==> sent.len() == 0 || is_cut_of(body, sent)
}

/// What the relay keeps for the rich side: its own identifier once it is
/// known, the raw prefix, the channel mapping, and the limit for quoted
/// messages where one is set.
pub struct Handler {
    user_id: Option<u64>,
    raw_prefix: String,
    mapping: Vec<ChannelLink>,
    ref_content_limit: Option<usize>,
}

/// The lines to send for a message, quoted message first, then the body,
/// then the attachments.
pub open spec fn message_lines(
    msg: Incoming,
    raw_prefix: Seq<char>,
    fixed_limit: Option<usize>,
    members: Seq<RosterMember>,
    channels: Seq<NamedId>,
    roles: Seq<NamedId>,
) -> Seq<Seq<char>> {
    let prefix = prefix_for(text_of(msg.nick), false);
    let limit = LINE_LIMIT - byte_len(prefix);
    let computed = rich_to_line(msg.content@, members, channels, roles);
    (match msg.reply {
        Some(quoted) => seq![reply_line(quoted, fixed_limit, members, channels, roles)],
        None => Seq::empty(),
    }) + body_lines(prefix, limit, raw_prefix, computed) + attachment_lines(
        prefix,
        string_views(msg.attachments@),
    )
}

/// Whether the prefixes of a message and of the message it answers leave
/// room on a line.
pub open spec fn prefixes_fit(msg: Incoming) -> bool {
    &&& prefix_fits(text_of(msg.nick), false)
    &&& match msg.reply {
        Some(quoted) => prefix_fits(text_of(quoted.nick), true),
        None => true,
    }
}

fn nick_of(nick: &Option<String>) -> (r: Option<&str>)
    ensures
        str_view(r) == text_of(*nick),
{
    match nick {
        Some(n) => Some(n.as_str()),
        None => None,
    }
}

fn concat(a: &str, b: &str) -> (r: String)
    ensures
        r@ == a@ + b@,
{
    let mut out = a.to_owned();
    push_text(&mut out, b);
    out
}

fn push_chunk_lines(out: &mut Vec<String>, prefix: &str, limit: usize, line: &str)
    ensures
        string_views(final(out)@) == string_views(old(out)@) + prefixed(
            prefix@,
            chunks_of(line@, limit as int),
        ),
{
    let chunks = split_line(line, limit);
    let ghost all = chunks_of(line@, limit as int);
    let mut i: usize = 0;
    assert(prefixed(prefix@, all.take(0)) =~= Seq::<Seq<char>>::empty());
    while i < chunks.len()
        invariant
            i <= chunks.len(),
            views_of(chunks@) == all,
            string_views(out@) == string_views(old(out)@) + prefixed(prefix@, all.take(i as int)),
        decreases chunks.len() - i,
    {
        let ghost had = out@;
        let piece = trim_str(chunks[i], Strip::Only(RESET));
        assert(all[i as int] == chunks@[i as int]@);
        let line_out = concat(prefix, piece.as_str());
        out.push(line_out);
        assert(string_views(out@) =~= string_views(had).push(line_out@));
        assert(prefixed(prefix@, all.take(i + 1)) =~= prefixed(prefix@, all.take(i as int)).push(
            prefix@ + trimmed(all[i as int], Strip::Only(RESET)),
        ));
        i += 1;
    }
    assert(all.take(chunks@.len() as int) =~= all);
}

fn push_body_lines(
    out: &mut Vec<String>,
    prefix: &str,
    limit: usize,
    raw_prefix: &str,
    computed: &str,
)
    ensures
        string_views(final(out)@) == string_views(old(out)@) + body_lines(
            prefix@,
            limit as int,
            raw_prefix@,
            computed@,
        ),
{
    let chars = chars_of(computed);
    let lead = chars_of(raw_prefix);
    let ghost had = out@;
    if starts_with(&chars, &lead) {
        let rest = part_of(&chars, lead.len(), chars.len());
        assert(rest@ =~= computed@.skip(raw_prefix@.len() as int));
        let payload = trim(&rest, Strip::Space);
        if payload.len() > 0 {
            let line = string_of(&trim(&payload, Strip::Only(RESET)));
            let first = prefix.to_owned();
            out.push(first);
            out.push(line);
            assert(string_views(out@) =~= string_views(had) + seq![prefix@, line@]);
            return ;
        }
    }
    assert(!is_raw(raw_prefix@, computed@));
    let lines = split_lines(&chars);
    let ghost all = lines_of(computed@);
    let mut i: usize = 0;
    assert(chunk_lines(prefix@, limit as int, all.take(0)) =~= Seq::<Seq<char>>::empty());
    while i < lines.len()
        invariant
            i <= lines.len(),
            vec_views(lines@) == all,
            string_views(out@) == string_views(had) + chunk_lines(
                prefix@,
                limit as int,
                all.take(i as int),
            ),
        decreases lines.len() - i,
    {
        let line = string_of(&lines[i]);
        assert(all[i as int] == lines@[i as int]@);
        assert(all.take(i + 1).drop_last() =~= all.take(i as int));
        assert(all.take(i + 1).last() == line@);
        push_chunk_lines(out, prefix, limit, line.as_str());
        i += 1;
    }
    assert(all.take(lines@.len() as int) =~= all);
}

fn push_attachment_lines(out: &mut Vec<String>, prefix: &str, attachments: &Vec<String>)
    ensures
        string_views(final(out)@) == string_views(old(out)@) + attachment_lines(
            prefix@,
            string_views(attachments@),
        ),
{
    let ghost all = string_views(attachments@);
    let mut i: usize = 0;
    assert(attachment_lines(prefix@, all.take(0)) =~= Seq::<Seq<char>>::empty());
    while i < attachments.len()
        invariant
            i <= attachments.len(),
            all == string_views(attachments@),
            string_views(out@) == string_views(old(out)@) + attachment_lines(
                prefix@,
                all.take(i as int),
            ),
        decreases attachments.len() - i,
    {
        let ghost had = out@;
        let line = concat(prefix, attachments[i].as_str());
        out.push(line);
        assert(string_views(out@) =~= string_views(had).push(line@));
        assert(attachment_lines(prefix@, all.take(i + 1)) =~= attachment_lines(
            prefix@,
            all.take(i as int),
        ).push(prefix@ + all[i as int]));
        i += 1;
    }
    assert(all.take(attachments@.len() as int) =~= all);
}

fn quoted_line(
    quoted: &Quoted,
    fixed_limit: Option<usize>,
    members: &Vec<RosterMember>,
    channels: &Vec<NamedId>,
    roles: &Vec<NamedId>,
) -> (r: String)
    requires
        prefix_fits(text_of(quoted.nick), true),
    ensures
        r@ == reply_line(*quoted, fixed_limit, members@, channels@, roles@),
        reply_line_sound(r@, *quoted, fixed_limit, members@, channels@, roles@),
{
    let (prefix, room) = create_prefix(nick_of(&quoted.nick), true);
    let limit = match fixed_limit {
        Some(l) => if l <= room {
            l
        } else {
            room
        },
        None => room,
    };
    let mut body = string_of(&join_lines(&chars_of(quoted.content.as_str())));
    push_char(&mut body, ' ');
    push_joined(&mut body, &quoted.attachments);
    assert(body@ =~= quoted_text(quoted.content@, string_views(quoted.attachments@)));
    let converted = discord_to_irc_processing(body.as_str(), members, channels, roles);
    let cut = fit_reply(converted.as_str(), limit);
    let line = concat(prefix.as_str(), cut.as_str());
    proof {
        crate::text::lemma_byte_len_concat(prefix@, cut@);
        assert(line@.skip(prefix@.len() as int) =~= cut@);
    }
    line
}

impl Handler {
    /// The relay's own identifier on the rich side, once it is known.
    pub closed spec fn own_id(&self) -> Option<u64> {
        self.user_id
    }

    /// The prefix that marks a message to be passed on as it is.
    pub closed spec fn raw_prefix(&self) -> Seq<char> {
        self.raw_prefix@
    }

    /// The channel mapping.
    pub closed spec fn links(&self) -> Seq<ChannelLink> {
        self.mapping@
    }

    /// The limit for quoted messages, where one is set.
    pub closed spec fn reply_limit(&self) -> Option<usize> {
        self.ref_content_limit
    }

    /// A relay that does not know its own identifier yet. Where no raw
    /// prefix is given it is `++`.
    pub fn new(
        raw_prefix: Option<String>,
        mapping: Vec<ChannelLink>,
        ref_content_limit: Option<usize>,
    ) -> (r: Self)
        ensures
            r.own_id() is None,
            r.raw_prefix() == (match raw_prefix {
                Some(p) => p@,
                None => seq!['+', '+'],
            }),
            r.links() == mapping@,
            r.reply_limit() == ref_content_limit,
    {
        let raw_prefix = match raw_prefix {
            Some(p) => p,
            None => {
                let mut p = String::new();
                push_char(&mut p, '+');
                push_char(&mut p, '+');
                p
            },
        };
        Handler { user_id: None, raw_prefix, mapping, ref_content_limit }
    }

    /// Takes note of the relay's own identifier.
    pub fn ready(&mut self, id: u64)
        ensures
            final(self).own_id() == Some(id),
            final(self).raw_prefix() == old(self).raw_prefix(),
            final(self).links() == old(self).links(),
            final(self).reply_limit() == old(self).reply_limit(),
    {
        self.user_id = Some(id);
    }

    /// A member joined the guild.
    pub fn guild_member_addition(&self, roster: &mut Roster, new_member: RosterMember)
        ensures
            final(roster)@ == old(roster)@.push(new_member),
    {
        roster.add(new_member);
    }

    /// A member changed. Without the new state of the member nothing
    /// happens. A member that the roster does not hold is reported, and
    /// the roster stays as it is.
    pub fn guild_member_update(&self, roster: &mut Roster, new: Option<RosterMember>) -> (r: Result<
        (),
        RosterError,
    >)
        ensures
            match new {
                Some(member) => match crate::roster::member_ids(old(roster)@).index_of_first(
                    member.id,
                ) {
                    Some(p) => r is Ok && final(roster)@ == old(roster)@.remove(p).push(member),
                    None => r == Err::<(), RosterError>(RosterError::UnknownMember)
                        && final(roster)@ == old(roster)@,
                },
                None => r is Ok && final(roster)@ == old(roster)@,
            },
    {
        match new {
            Some(member) => roster.update(member),
            None => Ok(()),
        }
    }

    /// A member left the guild. A member that the roster does not hold is
    /// reported, and the roster stays as it is.
    pub fn guild_member_removal(&self, roster: &mut Roster, id: u64) -> (r: Result<
        (),
        RosterError,
    >)
        ensures
            match crate::roster::member_ids(old(roster)@).index_of_first(id) {
                Some(p) => r is Ok && final(roster)@ == old(roster)@.remove(p),
                None => r == Err::<(), RosterError>(RosterError::UnknownMember) && final(roster)@
                    == old(roster)@,
            },
    {
        match roster.remove(id) {
            Ok(_) => Ok(()),
            Err(e) => Err(e),
        }
    }

    /// Whether a message is relayed at all: it is an ordinary message or
    /// an answer, its author is neither the relay itself nor another bot,
    /// and its channel is mapped.
    pub open spec fn relays(&self, msg: Incoming) -> bool {
        &&& !(msg.kind is Other)
        &&& self.own_id() != Some(msg.author_id)
        &&& !msg.author_is_bot
        &&& link_ids(self.links()).index_of_first(msg.channel_id) is Some
    }

    fn link_by_id(&self, id: u64) -> (r: Option<usize>)
        ensures
            match r {
                Some(p) => p < self.links().len() && link_ids(self.links()).index_of_first(id)
                    == Some(p as int),
                None => link_ids(self.links()).index_of_first(id) is None,
            },
    {
        let mut i: usize = 0;
        while i < self.mapping.len()
            invariant
                i <= self.mapping.len(),
                forall|j: int| 0 <= j < i ==> link_ids(self.mapping@)[j] != id,
            decreases self.mapping.len() - i,
        {
            if self.mapping[i].id == id {
                proof {
                    lemma_first_index(link_ids(self.mapping@), id, i as int);
                }
                return Some(i);
            }
            i += 1;
        }
        proof {
            lemma_no_index(link_ids(self.mapping@), id);
        }
        None
    }

    /// Whether a message is relayed at all.
    pub fn is_relayed(&self, msg: &Incoming) -> (r: bool)
        ensures
            r == self.relays(*msg),
    {
        match msg.kind {
            MessageKind::Other => {
                return false;
            },
            _ => {},
        }
        let own = match self.user_id {
            Some(id) => id == msg.author_id,
            None => false,
        };
        !own && !msg.author_is_bot && self.link_by_id(msg.channel_id).is_some()
    }

    /// The lines to send for a message, and the line-side channel to send
    /// them to: the first of the mapping that goes with the message's
    /// channel. Nothing where the message is not relayed; such a message
    /// may carry any names.
    pub fn message(
        &self,
        msg: &Incoming,
        members: &Vec<RosterMember>,
        channels: &Vec<NamedId>,
        roles: &Vec<NamedId>,
    ) -> (r: Option<Relay>)
        requires
            self.relays(*msg) ==> prefixes_fit(*msg),
        ensures
            r is Some == self.relays(*msg),
            r matches Some(relay) ==> {
                &&& relay.channel@ == self.links()[link_ids(self.links()).index_of_first(
                    msg.channel_id,
                )->0].name@
                &&& string_views(relay.lines@) == message_lines(
                    *msg,
                    self.raw_prefix(),
                    self.reply_limit(),
                    members@,
                    channels@,
                    roles@,
                )
                &&& msg.reply matches Some(quoted) ==> relay.lines@.len() > 0 && reply_line_sound(
                    relay.lines@[0]@,
                    quoted,
                    self.reply_limit(),
                    members@,
                    channels@,
                    roles@,
                )
            },
    {
        match msg.kind {
            MessageKind::Other => {
                return None;
            },
            _ => {},
        }
        let own = match self.user_id {
            Some(id) => id == msg.author_id,
            None => false,
        };
        if own || msg.author_is_bot {
            return None;
        }
        let channel = match self.link_by_id(msg.channel_id) {
            Some(p) => self.mapping[p].name.clone(),
            None => {
                return None;
            },
        };
        let (prefix, limit) = create_prefix(nick_of(&msg.nick), false);
        let computed = discord_to_irc_processing(msg.content.as_str(), members, channels, roles);
        let mut lines: Vec<String> = Vec::new();
        match &msg.reply {
            Some(quoted) => {
                let line = quoted_line(quoted, self.ref_content_limit, members, channels, roles);
                lines.push(line);
                assert(string_views(lines@) =~= seq![line@]);
            },
            None => {
                assert(string_views(lines@) =~= Seq::<Seq<char>>::empty());
            },
        }
        let ghost first = string_views(lines@);
        proof {
            if msg.reply is Some {
                assert(first.len() == 1);
                assert(reply_line_sound(
                    first[0],
                    msg.reply->0,
                    self.reply_limit(),
                    members@,
                    channels@,
                    roles@,
                ));
            }
        }
        push_body_lines(
            &mut lines,
            prefix.as_str(),
            limit,
            self.raw_prefix.as_str(),
            computed.as_str(),
        );
        let ghost second = string_views(lines@);
        push_attachment_lines(&mut lines, prefix.as_str(), &msg.attachments);
        proof {
            if msg.reply is Some {
                assert(second[0] == first[0]);
                assert(string_views(lines@)[0] == second[0]);
                assert(string_views(lines@).len() == lines@.len());
                assert(lines@[0]@ == first[0]);
            }
        }
        Some(Relay { channel, lines })
    }
}

} // verus!
