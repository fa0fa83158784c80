//! The line side of the relay: what each event of the line protocol does
//! to the presence lists, and what is sent to the rich side for it.

use vstd::prelude::*;
use crate::cache::{resolved_avatar, AvatarMemo, IdMemo};
use crate::line_to_rich::{irc_to_discord_processing, line_to_rich, memo_after_line};
use crate::pattern::string_views;
use crate::relay::{link_names, ChannelLink};
use crate::roster::{lemma_first_index, lemma_no_index, NamedId, RosterMember};
use crate::lines::{pieces_of, split_on};
use crate::text::{push_char, push_text, str_eq, text_of};

verus! {

/// Seconds after which the lookups are forgotten where no other span is
/// set.
pub const DEFAULT_CACHE_TTL: u64 = 1800;

/// A message on its way to the rich side.
#[derive(Clone, Debug, PartialEq, Eq)]
pub enum QueuedMessage {
    /// Sent through a webhook under the sender's own name and avatar.
    Webhook { webhook: u64, avatar_url: Option<String>, content: String, nickname: String },
    /// Posted to a channel by the relay account.
    Raw { channel_id: u64, message: String },
}

/// What a `QueuedMessage` holds.
pub enum QueuedModel {
    Webhook { webhook: u64, avatar_url: Option<Seq<char>>, content: Seq<char>, nickname: Seq<char> },
    Raw { channel_id: u64, message: Seq<char> },
}

impl View for QueuedMessage {
    type V = QueuedModel;

    open spec fn view(&self) -> QueuedModel {
        match *self {
            QueuedMessage::Webhook { webhook, avatar_url, content, nickname } => {
                QueuedModel::Webhook {
                    webhook,
                    avatar_url: text_of(avatar_url),
                    content: content@,
                    nickname: nickname@,
                }
            },
            QueuedMessage::Raw { channel_id, message } => QueuedModel::Raw {
                channel_id,
                message: message@,
            },
        }
    }
}

/// What the caller is to do next.
#[derive(Clone, Debug, PartialEq, Eq)]
pub enum Action {
    /// Put the message on the delivery queue.
    Queue(QueuedMessage),
    /// Set the topic of a channel of the rich side.
    SetTopic { channel_id: u64, topic: String },
    /// Make the converted text safe against mass mentions, then hand it
    /// to `route_message`.
    Clean { channel: String, channel_id: u64, nickname: String, content: String },
}

/// What an `Action` holds.
pub enum ActionModel {
    Queue(QueuedModel),
    SetTopic { channel_id: u64, topic: Seq<char> },
    Clean { channel: Seq<char>, channel_id: u64, nickname: Seq<char>, content: Seq<char> },
}

impl View for Action {
    type V = ActionModel;

    open spec fn view(&self) -> ActionModel {
        match *self {
            Action::Queue(m) => ActionModel::Queue(m@),
            Action::SetTopic { channel_id, topic } => ActionModel::SetTopic {
                channel_id,
                topic: topic@,
            },
            Action::Clean { channel, channel_id, nickname, content } => ActionModel::Clean {
                channel: channel@,
                channel_id,
                nickname: nickname@,
                content: content@,
            },
        }
    }
}

/// What each action of a list holds.
pub open spec fn actions_view(actions: Seq<Action>) -> Seq<ActionModel> {
    actions.map_values(|a: Action| a@)
}

/// What each message of a list holds.
pub open spec fn queue_view(queue: Seq<QueuedMessage>) -> Seq<QueuedModel> {
    queue.map_values(|m: QueuedMessage| m@)
}

/// An event of the line protocol, as far as the relay reads it.
#[derive(Clone, Debug, PartialEq, Eq)]
pub enum LineEvent {
    /// The reply that lists who is on a channel, the names with spaces
    /// between them.
    NameReply { channel: String, users: String },
    /// The reply that tells the topic of a channel.
    TopicReply { channel: String, topic: String },
    /// A message to a channel. `nick` is the sender, where the line names
    /// one.
    Privmsg { nick: Option<String>, channel: String, text: String },
    Join { nick: Option<String>, channel: String },
    Part { nick: Option<String>, channel: String, reason: Option<String> },
    Quit { nick: Option<String>, reason: Option<String> },
    Nick { nick: Option<String>, new_nick: String },
    Topic { nick: Option<String>, channel: String, new_topic: Option<String> },
    /// Any other line.
    Other,
}

/// Who is on one channel of the line side.
#[derive(Clone, Debug, PartialEq, Eq)]
pub struct ChannelUsers {
    pub channel: String,
    pub users: Vec<String>,
}

/// What a `ChannelUsers` holds.
pub struct UsersModel {
    pub channel: Seq<char>,
    pub users: Seq<Seq<char>>,
}

impl View for ChannelUsers {
    type V = UsersModel;

    open spec fn view(&self) -> UsersModel {
        UsersModel { channel: self.channel@, users: string_views(self.users@) }
    }
}

/// What each presence list holds.
pub open spec fn presence_view(lists: Seq<ChannelUsers>) -> Seq<UsersModel> {
    lists.map_values(|e: ChannelUsers| e@)
}

/// The channels that the presence lists are about.
pub open spec fn presence_names(lists: Seq<UsersModel>) -> Seq<Seq<char>> {
    lists.map_values(|e: UsersModel| e.channel)
}

/// A line-side channel with the webhook that speaks for it.
#[derive(Clone, Debug, PartialEq, Eq)]
pub struct WebhookLink {
    pub channel: String,
    pub webhook: u64,
}

/// The channels that have a webhook.
pub open spec fn hook_names(hooks: Seq<WebhookLink>) -> Seq<Seq<char>> {
    hooks.map_values(|h: WebhookLink| h.channel@)
}

/// The rich-side channel that the mapping gives for a line-side channel.
pub open spec fn channel_id_of(links: Seq<ChannelLink>, channel: Seq<char>) -> Option<u64> {
    match link_names(links).index_of_first(channel) {
        Some(p) => Some(links[p].id),
        None => None,
    }
}

/// The webhook that speaks for a line-side channel.
pub open spec fn webhook_of(hooks: Seq<WebhookLink>, channel: Seq<char>) -> Option<u64> {
    match hook_names(hooks).index_of_first(channel) {
        Some(p) => Some(hooks[p].webhook),
        None => None,
    }
}

/// The pieces of `s` between its spaces. A text without a space is one
/// piece, also where it is empty.
pub open spec fn words_of(s: Seq<char>) -> Seq<Seq<char>> {
    pieces_of(s, ' ')
}

/// Cuts a text at its spaces.
pub fn split_words(text: &str) -> (r: Vec<String>)
    ensures
        string_views(r@) == words_of(text@),
{
    split_on(text, ' ')
}

/// The notice that someone joined.
pub open spec fn joined_notice(nick: Seq<char>) -> Seq<char> {
    seq!['*'] + nick + "* has joined the channel"@
}

/// The notice that someone left, with the reason given or else
/// `Connection closed`.
pub open spec fn quit_notice(nick: Seq<char>, reason: Option<Seq<char>>) -> Seq<char> {
    seq!['*'] + nick + "* has quit ("@ + (match reason {
        Some(r) => r,
        None => "Connection closed"@,
    }) + seq![')']
}

/// The notice that someone took another nickname.
pub open spec fn renamed_notice(nick: Seq<char>, new_nick: Seq<char>) -> Seq<char> {
    seq!['*'] + nick + "* is now known as *"@ + new_nick + seq!['*']
}

/// A message as the relay account posts it: the sender between angle
/// brackets, a comma, and the text.
pub open spec fn raw_line(nick: Seq<char>, content: Seq<char>) -> Seq<char> {
    seq!['<'] + nick + ">, "@ + content
}

/// A presence list without the first entry of `nick`, the last name
/// standing in its place.
pub open spec fn without_nick(e: UsersModel, nick: Seq<char>) -> UsersModel {
    match e.users.index_of_first(nick) {
        Some(p) => UsersModel {
            channel: e.channel,
            users: e.users.update(p, e.users.last()).drop_last(),
        },
        None => e,
    }
}

/// A presence list with `new_nick` in the place of the first entry of
/// `nick`.
pub open spec fn with_renamed(e: UsersModel, nick: Seq<char>, new_nick: Seq<char>) -> UsersModel {
    match e.users.index_of_first(nick) {
        Some(p) => UsersModel { channel: e.channel, users: e.users.update(p, new_nick) },
        None => e,
    }
}

/// Whether an event about `nick` touches a presence list: its channel is
/// mapped and `nick` is on it.
pub open spec fn touches(e: UsersModel, links: Seq<ChannelLink>, nick: Seq<char>) -> bool {
    channel_id_of(links, e.channel) is Some && e.users.index_of_first(nick) is Some
}

/// The notice for one presence list that an event about `nick` touches.
pub open spec fn notice_for(e: UsersModel, links: Seq<ChannelLink>, text: Seq<char>) -> ActionModel {
    ActionModel::Queue(
        QueuedModel::Raw { channel_id: channel_id_of(links, e.channel)->0, message: text },
    )
}

/// One notice with `text` for every presence list that an event about
/// `nick` touches, in the order of the lists.
pub open spec fn notices(
    lists: Seq<UsersModel>,
    links: Seq<ChannelLink>,
    nick: Seq<char>,
    text: Seq<char>,
) -> Seq<ActionModel>
    decreases lists.len(),
{
    if lists.len() == 0 {
        Seq::empty()
    } else {
        notices(lists.drop_last(), links, nick, text) + (if touches(lists.last(), links, nick) {
            seq![notice_for(lists.last(), links, text)]
        } else {
            Seq::empty()
        })
    }
}

/// One presence list after an event about `nick` that touches it: with
/// the new nickname in the place of the old one, or without the nickname
/// where no new one is given.
pub open spec fn changed(e: UsersModel, nick: Seq<char>, new_nick: Option<Seq<char>>) -> UsersModel {
    match new_nick {
        Some(n) => with_renamed(e, nick, n),
        None => without_nick(e, nick),
    }
}

/// The presence lists after `nick` left everything, or took a new
/// nickname: every list that the event touches is changed.
pub open spec fn after_sweep(
    lists: Seq<UsersModel>,
    links: Seq<ChannelLink>,
    nick: Seq<char>,
    new_nick: Option<Seq<char>>,
) -> Seq<UsersModel> {
    lists.map_values(
        |e: UsersModel|
            if touches(e, links, nick) {
                changed(e, nick, new_nick)
            } else {
                e
            },
    )
}

/// The presence lists after the names of a channel were told: the list of
/// the channel holds these names, as a new list at the end where the
/// channel had none.
pub open spec fn after_names(lists: Seq<UsersModel>, channel: Seq<char>, users: Seq<Seq<char>>) -> Seq<
    UsersModel,
> {
    match presence_names(lists).index_of_first(channel) {
        Some(p) => lists.update(p, UsersModel { channel, users }),
        None => lists.push(UsersModel { channel, users }),
    }
}

/// The presence lists after `nick` joined `channel`: the name goes to the
/// end of the channel's list, where the channel is mapped and has a list.
pub open spec fn after_join(
    lists: Seq<UsersModel>,
    links: Seq<ChannelLink>,
    nick: Seq<char>,
    channel: Seq<char>,
) -> Seq<UsersModel> {
    match (channel_id_of(links, channel), presence_names(lists).index_of_first(channel)) {
        (Some(_), Some(p)) => lists.update(
            p,
            UsersModel { channel: lists[p].channel, users: lists[p].users.push(nick) },
        ),
        _ => lists,
    }
}

/// The presence lists after `nick` left `channel`, where the channel is
/// mapped and `nick` was on its list.
pub open spec fn after_part(
    lists: Seq<UsersModel>,
    links: Seq<ChannelLink>,
    nick: Seq<char>,
    channel: Seq<char>,
) -> Seq<UsersModel> {
    match presence_names(lists).index_of_first(channel) {
        Some(p) => if touches(lists[p], links, nick) && channel_id_of(links, channel) is Some {
            lists.update(p, without_nick(lists[p], nick))
        } else {
            lists
        },
        None => lists,
    }
}

/// The presence lists after an event.
pub open spec fn presence_after(lists: Seq<UsersModel>, links: Seq<ChannelLink>, event: LineEvent) -> Seq<
    UsersModel,
> {
    match event {
        LineEvent::NameReply { channel, users } => after_names(lists, channel@, words_of(users@)),
        LineEvent::Join { nick: Some(n), channel } => after_join(lists, links, n@, channel@),
        LineEvent::Part { nick: Some(n), channel, reason } => after_part(
            lists,
            links,
            n@,
            channel@,
        ),
        LineEvent::Quit { nick: Some(n), reason } => after_sweep(lists, links, n@, None),
        LineEvent::Nick { nick: Some(n), new_nick } => after_sweep(
            lists,
            links,
            n@,
            Some(new_nick@),
        ),
        _ => lists,
    }
}

/// The topic change that goes with a channel and a topic: none where the
/// channel is not mapped.
pub open spec fn topic_actions(links: Seq<ChannelLink>, channel: Seq<char>, topic: Seq<char>) -> Seq<
    ActionModel,
> {
    match channel_id_of(links, channel) {
        Some(id) => seq![ActionModel::SetTopic { channel_id: id, topic }],
        None => Seq::empty(),
    }
}

/// What is left to the caller after an event that is no message: topic
/// changes and notices.
pub open spec fn notice_actions(lists: Seq<UsersModel>, links: Seq<ChannelLink>, event: LineEvent) -> Seq<
    ActionModel,
> {
    match event {
        LineEvent::TopicReply { channel, topic } => topic_actions(links, channel@, topic@),
        LineEvent::Topic { nick: Some(n), channel, new_topic: Some(t) } => topic_actions(
            links,
            channel@,
            t@,
        ),
        LineEvent::Join { nick: Some(n), channel } => match (
            channel_id_of(links, channel@),
            presence_names(lists).index_of_first(channel@),
        ) {
            (Some(id), Some(_)) => seq![
                ActionModel::Queue(
                    QueuedModel::Raw { channel_id: id, message: joined_notice(n@) },
                ),
            ],
            _ => Seq::empty(),
        },
        LineEvent::Part { nick: Some(n), channel, reason } => match presence_names(
            lists,
        ).index_of_first(channel@) {
            Some(p) => if touches(lists[p], links, n@) && channel_id_of(links, channel@) is Some {
                seq![
                    ActionModel::Queue(
                        QueuedModel::Raw {
                            channel_id: channel_id_of(links, channel@)->0,
                            message: quit_notice(n@, text_of(reason)),
                        },
                    ),
                ]
            } else {
                Seq::empty()
            },
            None => Seq::empty(),
        },
        LineEvent::Quit { nick: Some(n), reason } => notices(
            lists,
            links,
            n@,
            quit_notice(n@, text_of(reason)),
        ),
        LineEvent::Nick { nick: Some(n), new_nick } => notices(
            lists,
            links,
            n@,
            renamed_notice(n@, new_nick@),
        ),
        _ => Seq::empty(),
    }
}

/// Whether an event is a message that is converted: it names its sender,
/// it has a text, and its channel is mapped.
pub open spec fn is_conversion(links: Seq<ChannelLink>, event: LineEvent) -> bool {
    event matches LineEvent::Privmsg { nick: Some(n), channel, text } && text@.len() > 0
        && channel_id_of(links, channel@) is Some
}

/// The channels known by name, or none where they were not fetched.
pub open spec fn known_channels(channels: Option<Vec<NamedId>>) -> Seq<NamedId> {
    match channels {
        Some(c) => c@,
        None => Seq::empty(),
    }
}

/// What the line side of the relay keeps from one event to the next.
pub struct Bridge {
    mapping: Vec<ChannelLink>,
    webhooks: Vec<WebhookLink>,
    avatar_cache: AvatarMemo,
    id_cache: IdMemo,
    emoji_cache: Vec<NamedId>,
    channels_cache: Option<Vec<NamedId>>,
    guild: Option<u64>,
    channel_users: Vec<ChannelUsers>,
}

fn find_text(list: &Vec<String>, needle: &str) -> (r: Option<usize>)
    ensures
        match r {
            Some(p) => p < list.len() && string_views(list@).index_of_first(needle@) == Some(
                p as int,
            ),
            None => string_views(list@).index_of_first(needle@) is None,
        },
{
    let mut i: usize = 0;
    while i < list.len()
        invariant
            i <= list.len(),
            forall|j: int| 0 <= j < i ==> string_views(list@)[j] != needle@,
        decreases list.len() - i,
    {
        if str_eq(list[i].as_str(), needle) {
            proof {
                lemma_first_index(string_views(list@), needle@, i as int);
            }
            return Some(i);
        }
        i += 1;
    }
    proof {
        lemma_no_index(string_views(list@), needle@);
    }
    None
}

fn joined_text(nick: &str) -> (r: String)
    ensures
        r@ == joined_notice(nick@),
{
    let mut out = String::new();
    push_char(&mut out, '*');
    push_text(&mut out, nick);
    push_text(&mut out, "* has joined the channel");
    out
}

fn quit_text(nick: &str, reason: &Option<String>) -> (r: String)
    ensures
        r@ == quit_notice(nick@, text_of(*reason)),
{
    let mut out = String::new();
    push_char(&mut out, '*');
    push_text(&mut out, nick);
    push_text(&mut out, "* has quit (");
    match reason {
        Some(r) => push_text(&mut out, r.as_str()),
        None => push_text(&mut out, "Connection closed"),
    }
    push_char(&mut out, ')');
    out
}

fn renamed_text(nick: &str, new_nick: &str) -> (r: String)
    ensures
        r@ == renamed_notice(nick@, new_nick@),
{
    let mut out = String::new();
    push_char(&mut out, '*');
    push_text(&mut out, nick);
    push_text(&mut out, "* is now known as *");
    push_text(&mut out, new_nick);
    push_char(&mut out, '*');
    out
}

fn raw_text(nick: &str, content: &str) -> (r: String)
    ensures
        r@ == raw_line(nick@, content@),
{
    let mut out = String::new();
    push_char(&mut out, '<');
    push_text(&mut out, nick);
    push_text(&mut out, ">, ");
    push_text(&mut out, content);
    out
}

fn notice(channel_id: u64, text: &str) -> (r: Action)
    ensures
        r@ == ActionModel::Queue(QueuedModel::Raw { channel_id, message: text@ }),
{
    Action::Queue(QueuedMessage::Raw { channel_id, message: text.to_owned() })
}

impl Bridge {
    /// The channel mapping.
    pub closed spec fn links(&self) -> Seq<ChannelLink> {
        self.mapping@
    }

    /// The webhooks by channel.
    pub closed spec fn hooks(&self) -> Seq<WebhookLink> {
        self.webhooks@
    }

    /// Who is on which channel.
    pub closed spec fn presence(&self) -> Seq<UsersModel> {
        presence_view(self.channel_users@)
    }

    /// The remembered identifiers by display name.
    pub closed spec fn ids(&self) -> Map<Seq<char>, Option<u64>> {
        self.id_cache@
    }

    /// The remembered avatars by display name.
    pub closed spec fn avatars(&self) -> Map<Seq<char>, Option<Seq<char>>> {
        self.avatar_cache@
    }

    /// The custom emoji of the guild, as far as fetched.
    pub closed spec fn emojis(&self) -> Seq<NamedId> {
        self.emoji_cache@
    }

    /// The channels of the guild, where they were fetched.
    pub closed spec fn channels(&self) -> Option<Vec<NamedId>> {
        self.channels_cache
    }

    /// The guild, where it is known.
    pub closed spec fn guild(&self) -> Option<u64> {
        self.guild
    }

    /// Whether everything but the presence lists and the remembered
    /// identifiers is as in `other`.
    pub open spec fn same_setup(&self, other: &Bridge) -> bool {
        &&& self.links() == other.links()
        &&& self.hooks() == other.hooks()
        &&& self.avatars() == other.avatars()
        &&& self.emojis() == other.emojis()
        &&& self.channels() == other.channels()
        &&& self.guild() == other.guild()
    }

    /// A bridge that has seen nothing yet.
    pub fn new(mapping: Vec<ChannelLink>, webhooks: Vec<WebhookLink>) -> (r: Self)
        ensures
            r.links() == mapping@,
            r.hooks() == webhooks@,
            r.presence() == Seq::<UsersModel>::empty(),
            r.ids() == Map::<Seq<char>, Option<u64>>::empty(),
            r.avatars() == Map::<Seq<char>, Option<Seq<char>>>::empty(),
            r.emojis() == Seq::<NamedId>::empty(),
            r.channels() is None,
            r.guild() is None,
    {
        let r = Bridge {
            mapping,
            webhooks,
            avatar_cache: AvatarMemo::new(),
            id_cache: IdMemo::new(),
            emoji_cache: Vec::new(),
            channels_cache: None,
            guild: None,
            channel_users: Vec::new(),
        };
        assert(presence_view(r.channel_users@) =~= Seq::<UsersModel>::empty());
        r
    }

    /// Forgets the avatars, the channels, the guild and the emoji where
    /// more seconds have gone by than the span allows; the span is
    /// `DEFAULT_CACHE_TTL` where none is set. Says whether it forgot.
    pub fn expire(&mut self, elapsed_secs: u64, cache_ttl: Option<u64>) -> (r: bool)
        ensures
            r == (elapsed_secs > (match cache_ttl {
                Some(t) => t,
                None => DEFAULT_CACHE_TTL,
            })),
            final(self).links() == old(self).links(),
            final(self).hooks() == old(self).hooks(),
            final(self).presence() == old(self).presence(),
            final(self).ids() == old(self).ids(),
            r ==> final(self).avatars() == Map::<Seq<char>, Option<Seq<char>>>::empty()
                && final(self).channels() is None && final(self).guild() is None
                && final(self).emojis() == Seq::<NamedId>::empty(),
            !r ==> final(self).same_setup(old(self)),
    {
        let span = match cache_ttl {
            Some(t) => t,
            None => DEFAULT_CACHE_TTL,
        };
        if elapsed_secs > span {
            self.avatar_cache.clear();
            self.channels_cache = None;
            self.guild = None;
            self.emoji_cache.clear();
            true
        } else {
            false
        }
    }

    /// Whether the channels, the guild or the emoji have to be fetched
    /// before a message can be converted.
    pub fn needs_guild_data(&self) -> (r: bool)
        ensures
            r == (self.channels() is None || self.guild() is None || self.emojis().len() == 0),
    {
        self.channels_cache.is_none() || self.guild.is_none() || self.emoji_cache.len() == 0
    }

    /// Takes in what was fetched.
    pub fn set_guild_data(&mut self, guild: u64, channels: Vec<NamedId>, emojis: Vec<NamedId>)
        ensures
            final(self).guild() == Some(guild),
            final(self).channels() == Some(channels),
            final(self).emojis() == emojis@,
            final(self).links() == old(self).links(),
            final(self).hooks() == old(self).hooks(),
            final(self).presence() == old(self).presence(),
            final(self).ids() == old(self).ids(),
            final(self).avatars() == old(self).avatars(),
    {
        self.guild = Some(guild);
        self.channels_cache = Some(channels);
        self.emoji_cache = emojis;
    }

    /// The rich-side channel that goes with a line-side channel.
    pub fn channel_id(&self, channel: &str) -> (r: Option<u64>)
        ensures
            r == channel_id_of(self.links(), channel@),
    {
        let mut i: usize = 0;
        while i < self.mapping.len()
            invariant
                i <= self.mapping.len(),
                forall|j: int| 0 <= j < i ==> link_names(self.mapping@)[j] != channel@,
            decreases self.mapping.len() - i,
        {
            if str_eq(self.mapping[i].name.as_str(), channel) {
                proof {
                    lemma_first_index(link_names(self.mapping@), channel@, i as int);
                }
                return Some(self.mapping[i].id);
            }
            i += 1;
        }
        proof {
            lemma_no_index(link_names(self.mapping@), channel@);
        }
        None
    }

    fn webhook(&self, channel: &str) -> (r: Option<u64>)
        ensures
            r == webhook_of(self.hooks(), channel@),
    {
        let mut i: usize = 0;
        while i < self.webhooks.len()
            invariant
                i <= self.webhooks.len(),
                forall|j: int| 0 <= j < i ==> hook_names(self.webhooks@)[j] != channel@,
            decreases self.webhooks.len() - i,
        {
            if str_eq(self.webhooks[i].channel.as_str(), channel) {
                proof {
                    lemma_first_index(hook_names(self.webhooks@), channel@, i as int);
                }
                return Some(self.webhooks[i].webhook);
            }
            i += 1;
        }
        proof {
            lemma_no_index(hook_names(self.webhooks@), channel@);
        }
        None
    }

    fn list_of(&self, channel: &str) -> (r: Option<usize>)
        ensures
            match r {
                Some(p) => p < self.channel_users.len() && presence_names(
                    self.presence(),
                ).index_of_first(channel@) == Some(p as int),
                None => presence_names(self.presence()).index_of_first(channel@) is None,
            },
    {
        let ghost names = presence_names(presence_view(self.channel_users@));
        let mut i: usize = 0;
        while i < self.channel_users.len()
            invariant
                i <= self.channel_users.len(),
                names == presence_names(presence_view(self.channel_users@)),
                forall|j: int| 0 <= j < i ==> names[j] != channel@,
            decreases self.channel_users.len() - i,
        {
            if str_eq(self.channel_users[i].channel.as_str(), channel) {
                proof {
                    lemma_first_index(names, channel@, i as int);
                }
                return Some(i);
            }
            i += 1;
        }
        proof {
            lemma_no_index(names, channel@);
        }
        None
    }

    /// The names of a channel were told.
    fn on_names(&mut self, channel: &str, users: &str)
        ensures
            final(self).same_setup(old(self)),
            final(self).ids() == old(self).ids(),
            final(self).presence() == after_names(old(self).presence(), channel@, words_of(users@)),
    {
        let names = split_words(users);
        let ghost before = self.channel_users@;
        match self.list_of(channel) {
            Some(p) => {
                proof {
                    presence_names(presence_view(before)).index_of_first_ensures(channel@);
                }
                let entry = &mut self.channel_users[p];
                entry.users = names;
                assert(presence_view(self.channel_users@) =~= presence_view(before).update(
                    p as int,
                    UsersModel { channel: channel@, users: words_of(users@) },
                ));
            },
            None => {
                let entry = ChannelUsers { channel: channel.to_owned(), users: names };
                self.channel_users.push(entry);
                assert(presence_view(self.channel_users@) =~= presence_view(before).push(
                    UsersModel { channel: channel@, users: words_of(users@) },
                ));
            },
        }
    }

    /// Someone joined a channel.
    fn on_join(&mut self, nick: &str, channel: &str) -> (r: Vec<Action>)
        ensures
            final(self).same_setup(old(self)),
            final(self).ids() == old(self).ids(),
            final(self).presence() == after_join(
                old(self).presence(),
                old(self).links(),
                nick@,
                channel@,
            ),
            actions_view(r@) == (match (
                channel_id_of(old(self).links(), channel@),
                presence_names(old(self).presence()).index_of_first(channel@),
            ) {
                (Some(id), Some(_)) => seq![
                    ActionModel::Queue(
                        QueuedModel::Raw { channel_id: id, message: joined_notice(nick@) },
                    ),
                ],
                _ => Seq::empty(),
            }),
    {
        let mut out: Vec<Action> = Vec::new();
        assert(actions_view(out@) =~= Seq::<ActionModel>::empty());
        let id = match self.channel_id(channel) {
            Some(id) => id,
            None => {
                return out;
            },
        };
        let p = match self.list_of(channel) {
            Some(p) => p,
            None => {
                return out;
            },
        };
        let ghost before = self.channel_users@;
        let entry = &mut self.channel_users[p];
        entry.users.push(nick.to_owned());
        assert(string_views(self.channel_users@[p as int].users@) =~= string_views(
            before[p as int].users@,
        ).push(nick@));
        assert(presence_view(self.channel_users@) =~= presence_view(before).update(
            p as int,
            UsersModel {
                channel: presence_view(before)[p as int].channel,
                users: presence_view(before)[p as int].users.push(nick@),
            },
        ));
        let text = joined_text(nick);
        let act = notice(id, text.as_str());
        out.push(act);
        assert(actions_view(out@) =~= seq![act@]);
        out
    }

    /// Someone left a channel.
    fn on_part(&mut self, nick: &str, channel: &str, reason: &Option<String>) -> (r: Vec<Action>)
        ensures
            final(self).same_setup(old(self)),
            final(self).ids() == old(self).ids(),
            final(self).presence() == after_part(
                old(self).presence(),
                old(self).links(),
                nick@,
                channel@,
            ),
            actions_view(r@) == (match presence_names(old(self).presence()).index_of_first(
                channel@,
            ) {
                Some(p) => if touches(old(self).presence()[p], old(self).links(), nick@)
                    && channel_id_of(old(self).links(), channel@) is Some {
                    seq![
                        ActionModel::Queue(
                            QueuedModel::Raw {
                                channel_id: channel_id_of(old(self).links(), channel@)->0,
                                message: quit_notice(nick@, text_of(*reason)),
                            },
                        ),
                    ]
                } else {
                    Seq::empty()
                },
                None => Seq::empty(),
            }),
    {
        let mut out: Vec<Action> = Vec::new();
        assert(actions_view(out@) =~= Seq::<ActionModel>::empty());
        let p = match self.list_of(channel) {
            Some(p) => p,
            None => {
                return out;
            },
        };
        proof {
            presence_names(self.presence()).index_of_first_ensures(channel@);
        }
        let id = match self.channel_id(channel) {
            Some(id) => id,
            None => {
                return out;
            },
        };
        let pos = match find_text(&self.channel_users[p].users, nick) {
            Some(pos) => pos,
            None => {
                return out;
            },
        };
        let ghost before = self.channel_users@;
        let entry = &mut self.channel_users[p];
        let _ = entry.users.swap_remove(pos);
        proof {
            let users = string_views(before[p as int].users@);
            assert(string_views(self.channel_users@[p as int].users@) =~= users.update(
                pos as int,
                users.last(),
            ).drop_last());
            assert(presence_view(self.channel_users@) =~= presence_view(before).update(
                p as int,
                without_nick(presence_view(before)[p as int], nick@),
            ));
        }
        let text = quit_text(nick, reason);
        let act = notice(id, text.as_str());
        out.push(act);
        assert(actions_view(out@) =~= seq![act@]);
        out
    }

    /// Someone left everything, or took a new nickname.
    fn on_sweep(&mut self, nick: &str, new_nick: Option<&str>, text: &str) -> (r: Vec<Action>)
        ensures
            final(self).same_setup(old(self)),
            final(self).ids() == old(self).ids(),
            final(self).presence() == after_sweep(
                old(self).presence(),
                old(self).links(),
                nick@,
                crate::badge::str_view(new_nick),
            ),
            actions_view(r@) == notices(old(self).presence(), old(self).links(), nick@, text@),
    {
        let ghost lists = self.presence();
        let ghost links = self.links();
        let ghost change = crate::badge::str_view(new_nick);
        let ghost goal = after_sweep(lists, links, nick@, change);
        let n = self.channel_users.len();
        let mut out: Vec<Action> = Vec::new();
        let mut i: usize = 0;
        assert(actions_view(out@) =~= Seq::<ActionModel>::empty());
        assert(lists.take(0) =~= Seq::<UsersModel>::empty());
        while i < n
            invariant
                i <= n,
                n == self.channel_users.len(),
                n == lists.len(),
                self.same_setup(old(self)),
                self.ids() == old(self).ids(),
                links == self.links(),
                change == crate::badge::str_view(new_nick),
                goal == after_sweep(lists, links, nick@, change),
                forall|j: int| 0 <= j < i ==> (#[trigger] self.channel_users@[j])@ == goal[j],
                forall|j: int| i <= j < n ==> (#[trigger] self.channel_users@[j])@ == lists[j],
                actions_view(out@) == notices(lists.take(i as int), links, nick@, text@),
            decreases n - i,
        {
            let ghost before = self.channel_users@;
            let ghost had = out@;
            assert(lists.take(i + 1).drop_last() =~= lists.take(i as int));
            assert(lists.take(i + 1).last() == lists[i as int]);
            assert(before[i as int]@ == lists[i as int]);
            let id = self.channel_id(self.channel_users[i].channel.as_str());
            let pos = find_text(&self.channel_users[i].users, nick);
            match (id, pos) {
                (Some(id), Some(pos)) => {
                    let entry = &mut self.channel_users[i];
                    match new_nick {
                        Some(new) => {
                            entry.users[pos] = new.to_owned();
                        },
                        None => {
                            let _ = entry.users.swap_remove(pos);
                        },
                    }
                    proof {
                        let users = string_views(before[i as int].users@);
                        match new_nick {
                            Some(new) => {
                                assert(string_views(self.channel_users@[i as int].users@)
                                    =~= users.update(pos as int, new@));
                            },
                            None => {
                                assert(string_views(self.channel_users@[i as int].users@)
                                    =~= users.update(pos as int, users.last()).drop_last());
                            },
                        }
                        assert(self.channel_users@[i as int]@ == changed(
                            lists[i as int],
                            nick@,
                            change,
                        ));
                    }
                    let act = notice(id, text);
                    out.push(act);
                    assert(actions_view(out@) =~= actions_view(had).push(act@));
                },
                _ => {},
            }
            i += 1;
        }
        assert(lists.take(n as int) =~= lists);
        assert(presence_view(self.channel_users@) =~= goal);
        out
    }

    /// A message came in.
    fn on_privmsg(
        &mut self,
        nick: &str,
        channel: &str,
        text: &str,
        members: &Vec<RosterMember>,
    ) -> (r: Vec<Action>)
        ensures
            final(self).same_setup(old(self)),
            final(self).presence() == old(self).presence(),
            text@.len() > 0 && channel_id_of(old(self).links(), channel@) is Some ==> {
                &&& actions_view(r@) == seq![
                    ActionModel::Clean {
                        channel: channel@,
                        channel_id: channel_id_of(old(self).links(), channel@)->0,
                        nickname: nick@,
                        content: line_to_rich(
                            text@,
                            members@,
                            old(self).ids(),
                            known_channels(old(self).channels()),
                            old(self).emojis(),
                        ),
                    },
                ]
                &&& final(self).ids() == memo_after_line(text@, members@, old(self).ids())
            },
            !(text@.len() > 0 && channel_id_of(old(self).links(), channel@) is Some) ==> r@.len()
                == 0 && final(self).ids() == old(self).ids(),
    {
        let mut out: Vec<Action> = Vec::new();
        if text.is_empty() {
            return out;
        }
        let id = match self.channel_id(channel) {
            Some(id) => id,
            None => {
                return out;
            },
        };
        let none: Vec<NamedId> = Vec::new();
        let content = match &self.channels_cache {
            Some(channels) => irc_to_discord_processing(
                text,
                members,
                &mut self.id_cache,
                channels,
                &self.emoji_cache,
            ),
            None => irc_to_discord_processing(
                text,
                members,
                &mut self.id_cache,
                &none,
                &self.emoji_cache,
            ),
        };
        let act = Action::Clean {
            channel: channel.to_owned(),
            channel_id: id,
            nickname: nick.to_owned(),
            content,
        };
        out.push(act);
        assert(actions_view(out@) =~= seq![act@]);
        out
    }

    /// The message to queue for a converted text that was made safe:
    /// none for an empty text; through the webhook of the channel where it
    /// has one, with the sender's avatar as the memo or else the roster
    /// gives it, which is then remembered; else as a post of the relay
    /// account.
    pub fn route_message(
        &mut self,
        channel: &str,
        channel_id: u64,
        nickname: &str,
        content: String,
        members: &Vec<RosterMember>,
    ) -> (r: Option<QueuedMessage>)
        ensures
            final(self).links() == old(self).links(),
            final(self).hooks() == old(self).hooks(),
            final(self).presence() == old(self).presence(),
            final(self).ids() == old(self).ids(),
            final(self).emojis() == old(self).emojis(),
            final(self).channels() == old(self).channels(),
            final(self).guild() == old(self).guild(),
            content@.len() == 0 ==> r is None && final(self).avatars() == old(self).avatars(),
            content@.len() > 0 ==> r is Some && (match webhook_of(old(self).hooks(), channel@) {
                Some(w) => {
                    let avatar = resolved_avatar(old(self).avatars(), members@, nickname@);
                    &&& r->0@ == QueuedModel::Webhook {
                        webhook: w,
                        avatar_url: avatar,
                        content: content@,
                        nickname: nickname@,
                    }
                    &&& final(self).avatars() == old(self).avatars().insert(nickname@, avatar)
                },
                None => {
                    &&& r->0@ == QueuedModel::Raw {
                        channel_id,
                        message: raw_line(nickname@, content@),
                    }
                    &&& final(self).avatars() == old(self).avatars()
                },
            }),
    {
        if content.as_str().is_empty() {
            return None;
        }
        match self.webhook(channel) {
            Some(webhook) => {
                let avatar_url = self.avatar_cache.resolve(nickname, members);
                Some(
                    QueuedMessage::Webhook {
                        webhook,
                        avatar_url,
                        content,
                        nickname: nickname.to_owned(),
                    },
                )
            },
            None => Some(
                QueuedMessage::Raw { channel_id, message: raw_text(nickname, content.as_str()) },
            ),
        }
    }
}

/// The action that a converted message leaves to the caller.
pub open spec fn conversion_actions(
    links: Seq<ChannelLink>,
    event: LineEvent,
    members: Seq<RosterMember>,
    ids: Map<Seq<char>, Option<u64>>,
    channels: Seq<NamedId>,
    emojis: Seq<NamedId>,
) -> Seq<ActionModel> {
    match event {
        LineEvent::Privmsg { nick: Some(n), channel, text } => seq![
            ActionModel::Clean {
                channel: channel@,
                channel_id: channel_id_of(links, channel@)->0,
                nickname: n@,
                content: line_to_rich(text@, members, ids, channels, emojis),
            },
        ],
        _ => Seq::empty(),
    }
}

/// The remembered identifiers after an event: a converted message makes
/// the memo learn the names that it mentions.
pub open spec fn ids_after(
    links: Seq<ChannelLink>,
    event: LineEvent,
    members: Seq<RosterMember>,
    ids: Map<Seq<char>, Option<u64>>,
) -> Map<Seq<char>, Option<u64>> {
    match event {
        LineEvent::Privmsg { nick: Some(n), channel, text } => if is_conversion(links, event) {
            memo_after_line(text@, members, ids)
        } else {
            ids
        },
        _ => ids,
    }
}

/// One turn of the loop of the line side: takes in one event and says what
/// is to be done for it. A message with a sender, a text and a mapped
/// channel is converted and left to be made safe and routed; a message
/// without a text leaves nothing to do. Joins, parts, quits and changes
/// of nickname keep the presence lists and give a notice for every mapped
/// channel that they touch. A topic, told or set, is passed on to the
/// mapped channel. Any other line, and any line without a sender where one
/// is needed, changes nothing.
pub fn irc_loop(bridge: &mut Bridge, event: &LineEvent, members: &Vec<RosterMember>) -> (r: Vec<
    Action,
>)
    ensures
        final(bridge).same_setup(old(bridge)),
        final(bridge).presence() == presence_after(
            old(bridge).presence(),
            old(bridge).links(),
            *event,
        ),
        final(bridge).ids() == ids_after(old(bridge).links(), *event, members@, old(bridge).ids()),
        actions_view(r@) == (if is_conversion(old(bridge).links(), *event) {
            conversion_actions(
                old(bridge).links(),
                *event,
                members@,
                old(bridge).ids(),
                known_channels(old(bridge).channels()),
                old(bridge).emojis(),
            )
        } else {
            notice_actions(old(bridge).presence(), old(bridge).links(), *event)
        }),
        event matches LineEvent::Privmsg { nick, channel, text } && text@.len() == 0 ==> r@.len()
            == 0,
{
    let mut none: Vec<Action> = Vec::new();
    assert(actions_view(none@) =~= Seq::<ActionModel>::empty());
    match event {
        LineEvent::NameReply { channel, users } => {
            bridge.on_names(channel.as_str(), users.as_str());
            none
        },
        LineEvent::TopicReply { channel, topic } => {
            match bridge.channel_id(channel.as_str()) {
                Some(channel_id) => {
                    let act = Action::SetTopic { channel_id, topic: topic.clone() };
                    none.push(act);
                    assert(actions_view(none@) =~= seq![act@]);
                    none
                },
                None => none,
            }
        },
        LineEvent::Topic { nick: Some(_), channel, new_topic: Some(topic) } => {
            match bridge.channel_id(channel.as_str()) {
                Some(channel_id) => {
                    let act = Action::SetTopic { channel_id, topic: topic.clone() };
                    none.push(act);
                    assert(actions_view(none@) =~= seq![act@]);
                    none
                },
                None => none,
            }
        },
        LineEvent::Privmsg { nick: Some(nick), channel, text } => {
            let out = bridge.on_privmsg(nick.as_str(), channel.as_str(), text.as_str(), members);
            assert(actions_view(out@).len() == out@.len());
            assert(out@.len() == 0 ==> actions_view(out@) =~= Seq::<ActionModel>::empty());
            out
        },
        LineEvent::Join { nick: Some(nick), channel } => bridge.on_join(
            nick.as_str(),
            channel.as_str(),
        ),
        LineEvent::Part { nick: Some(nick), channel, reason } => bridge.on_part(
            nick.as_str(),
            channel.as_str(),
            reason,
        ),
        LineEvent::Quit { nick: Some(nick), reason } => {
            let text = quit_text(nick.as_str(), reason);
            bridge.on_sweep(nick.as_str(), None, text.as_str())
        },
        LineEvent::Nick { nick: Some(nick), new_nick } => {
            let text = renamed_text(nick.as_str(), new_nick.as_str());
            bridge.on_sweep(nick.as_str(), Some(new_nick.as_str()), text.as_str())
        },
        _ => none,
    }
}

/// What a message holds that is worth sending: a text that is not empty.
pub open spec fn deliverable(m: QueuedModel) -> bool {
    match m {
        QueuedModel::Webhook { webhook, avatar_url, content, nickname } => content.len() > 0,
        QueuedModel::Raw { channel_id, message } => message.len() > 0,
    }
}

/// The messages of a queue that are worth sending, in their order.
pub open spec fn deliveries(queue: Seq<QueuedModel>) -> Seq<QueuedModel>
    decreases queue.len(),
{
    if queue.len() == 0 {
        Seq::empty()
    } else {
        deliveries(queue.drop_last()) + (if deliverable(queue.last()) {
            seq![queue.last()]
        } else {
            Seq::empty()
        })
    }
}

/// Whether a message is worth sending.
pub fn is_deliverable(m: &QueuedMessage) -> (r: bool)
    ensures
        r == deliverable(m@),
{
    match m {
        QueuedMessage::Webhook { webhook: _, avatar_url: _, content, nickname: _ } => {
            !content.as_str().is_empty()
        },
        QueuedMessage::Raw { channel_id: _, message } => !message.as_str().is_empty(),
    }
}

/// What the consumer of the queue does with one message: it sends it
/// where it has a text, and lets it go where it has none.
pub fn msg_task(msg: QueuedMessage) -> (r: Option<QueuedMessage>)
    ensures
        r == (if deliverable(msg@) {
            Some(msg)
        } else {
            None
        }),
{
    if is_deliverable(&msg) {
        Some(msg)
    } else {
        None
    }
}

/// What the consumer sends of a whole queue: every message with a text, in
/// the order in which the messages were queued.
pub fn drain(queue: Vec<QueuedMessage>) -> (r: Vec<QueuedMessage>)
    ensures
        queue_view(r@) == deliveries(queue_view(queue@)),
{
    let ghost all = queue_view(queue@);
    let mut out: Vec<QueuedMessage> = Vec::new();
    assert(all.take(0) =~= Seq::<QueuedModel>::empty());
    for m in it: queue
        invariant
            queue_view(it.seq()) == all,
            queue_view(out@) == deliveries(all.take(it.index())),
    {
        let ghost o0 = out@;
        assert(all.take(it.index() + 1).drop_last() =~= all.take(it.index()));
        assert(all.take(it.index() + 1).last() == m@);
        match msg_task(m) {
            Some(kept) => {
                out.push(kept);
                assert(queue_view(out@) =~= queue_view(o0).push(kept@));
            },
            None => {},
        }
    }
    assert(all.take(all.len() as int) =~= all);
    out
}

} // verus!
