//! From a rich-text message body to lines with control bytes.

use vstd::prelude::*;
use crate::markup::{initial_state, markup_events, render_markup, rendered};
use crate::pattern::{pass, rewrite, Rule, RuleShape};
use crate::roster::{NamedId, RosterMember};

verus! {

/// A link between angle brackets.
pub const URL_ESCAPE_RE: &'static str = "<(https?://[^\\s/$.?#].\\S*)>";

/// A mention of a member.
pub const PING_RE_1: &'static str = "<@([0-9]+)>";

/// A mention of a member, in its second spelling.
pub const PING_RE_2: &'static str = "<@!([0-9]+)>";

/// A mention of a member that was set aside in braces.
pub const PING_RE_3: &'static str = "\\{@([0-9]+)\\}";

/// A custom emoji.
pub const EMOJI_RE: &'static str = "<:(\\w+):[0-9]+>";

/// A mention of a channel.
pub const CHANNEL_RE: &'static str = "<#([0-9]+)>";

/// A mention of a role.
pub const ROLE_RE: &'static str = "<@&([0-9]+)>";

/// The text between two fixed pieces.
pub open spec fn frame(open: &str, close: &str) -> RuleShape {
    RuleShape::Frame { open: open@, close: close@ }
}

/// The line form of a rich-text message. An empty message stays empty.
/// Otherwise, in this order: links lose their angle brackets; mentions of
/// known members become `@` and the display name, in both spellings; custom
/// emoji become `:name:`; channel mentions become `#` and the channel's
/// name; mentions of known roles become `@` and the role's name; the
/// member mentions that are left are set aside in braces; the markup is
/// parsed and rendered with control bytes; and the mentions set aside get
/// their angle brackets back.
pub open spec fn rich_to_line(
    message: Seq<char>,
    members: Seq<RosterMember>,
    channels: Seq<NamedId>,
    roles: Seq<NamedId>,
) -> Seq<char> {
    if message.len() == 0 {
        message
    } else {
        let s1 = pass(message, URL_ESCAPE_RE@, frame("", ""));
        let s2 = pass(s1, PING_RE_1@, RuleShape::MemberById { members });
        let s3 = pass(s2, PING_RE_2@, RuleShape::MemberById { members });
        let s4 = pass(s3, EMOJI_RE@, frame(":", ":"));
        let s5 = pass(s4, CHANNEL_RE@, RuleShape::ChannelById { channels });
        let s6 = pass(s5, ROLE_RE@, RuleShape::RoleById { roles });
        let s7 = pass(s6, PING_RE_1@, frame("{@", "}"));
        let s8 = rendered(markup_events(s7), initial_state());
        pass(s8, PING_RE_3@, frame("<@", ">"))
    }
}

/// Turns a rich-text message body into lines with control bytes.
pub fn discord_to_irc_processing(
    message: &str,
    members: &Vec<RosterMember>,
    channels: &Vec<NamedId>,
    roles: &Vec<NamedId>,
) -> (r: String)
    ensures
        r@ == rich_to_line(message@, members@, channels@, roles@),
        message@.len() == 0 ==> r@.len() == 0,
{
    if message.is_empty() {
        return message.to_owned();
    }
    let s1 = rewrite(message, URL_ESCAPE_RE, &Rule::Frame { open: "", close: "" });
    let s2 = rewrite(s1.as_str(), PING_RE_1, &Rule::MemberById { members });
    let s3 = rewrite(s2.as_str(), PING_RE_2, &Rule::MemberById { members });
    let s4 = rewrite(s3.as_str(), EMOJI_RE, &Rule::Frame { open: ":", close: ":" });
    let s5 = rewrite(s4.as_str(), CHANNEL_RE, &Rule::ChannelById { channels });
    let s6 = rewrite(s5.as_str(), ROLE_RE, &Rule::RoleById { roles });
    let s7 = rewrite(s6.as_str(), PING_RE_1, &Rule::Frame { open: "{@", close: "}" });
    let s8 = render_markup(s7.as_str());
    rewrite(s8.as_str(), PING_RE_3, &Rule::Frame { open: "<@", close: ">" })
}

} // verus!
