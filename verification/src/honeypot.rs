use vstd::prelude::*;
use crate::number::{id_from_var, id_in};
use crate::text::{contains, str_contains};

verus! {

/// The reason recorded with a ban from the honeypot channel.
pub const HONEYPOT_BAN_REASON: &'static str = "honeypot channel trigger";

/// How many days of the banned author's messages a honeypot ban deletes.
pub const HONEYPOT_PURGE_DAYS: u8 = 0;

/// What the moderation logic reads of a message.
pub struct IncomingMessage {
    pub channel_id: u64,
    pub author_id: u64,
    pub author_is_bot: bool,
    pub guild_id: Option<u64>,
    pub attachment_count: usize,
    pub content: String,
}

/// What to do with a message.
#[derive(PartialEq, Eq, Structural, Clone, Copy, Debug)]
pub enum ModerationAction {
    /// Ban the author from the guild (deleting none of their past messages), then delete the
    /// message.
    BanAndDelete { guild_id: u64, user_id: u64 },
    /// Delete the message.
    Delete,
    /// Leave the message alone.
    Ignore,
}

/// A message that scam bots typically send: four or more attachments, or a Discord invite link.
pub open spec fn violates(attachment_count: usize, content: Seq<char>) -> bool {
    ||| attachment_count >= 4
    ||| contains(content, "discord.gg/"@)
    ||| contains(content, "discord.com/invite/"@)
    ||| contains(content, "discordapp.com/invite/"@)
}

/// Whether a message with `attachment_count` attachments and text `content` breaks the rules.
pub fn is_violation(attachment_count: usize, content: &str) -> (r: bool)
    ensures
        r == violates(attachment_count, content@),
{
    attachment_count >= 4 || str_contains(content, "discord.gg/") || str_contains(
        content,
        "discord.com/invite/",
    ) || str_contains(content, "discordapp.com/invite/")
}

/// The honeypot channel that the value of `HONEYPOT_CHANNEL` names.
pub fn honeypot_channel_from_env(value: Option<&str>) -> (r: Option<u64>)
    ensures
        r == id_in(
            match value {
                Some(v) => Some(v@),
                None => None,
            },
        ),
{
    id_from_var(value)
}

/// The action for `msg`: anything posted in the honeypot channel is deleted and its human
/// author banned; elsewhere, messages of bots are left alone and the others are deleted when
/// they break the rules.
pub open spec fn moderation(
    honeypot_channel: Option<u64>,
    channel_id: u64,
    author_id: u64,
    author_is_bot: bool,
    guild_id: Option<u64>,
    attachment_count: usize,
    content: Seq<char>,
) -> ModerationAction {
    if honeypot_channel == Some(channel_id) {
        match guild_id {
            Some(g) if !author_is_bot => ModerationAction::BanAndDelete { guild_id: g, user_id: author_id },
            _ => ModerationAction::Delete,
        }
    } else if author_is_bot {
        ModerationAction::Ignore
    } else if violates(attachment_count, content) {
        ModerationAction::Delete
    } else {
        ModerationAction::Ignore
    }
}

/// Decides what to do with a new message.
pub fn handle(msg: &IncomingMessage, honeypot_channel: Option<u64>) -> (action: ModerationAction)
    ensures
        action == moderation(
            honeypot_channel,
            msg.channel_id,
            msg.author_id,
            msg.author_is_bot,
            msg.guild_id,
            msg.attachment_count,
            msg.content@,
        ),
{
    let in_honeypot = match honeypot_channel {
        Some(c) => c == msg.channel_id,
        None => false,
    };
    if in_honeypot {
        if !msg.author_is_bot {
            if let Some(g) = msg.guild_id {
                return ModerationAction::BanAndDelete { guild_id: g, user_id: msg.author_id };
            }
        }
        return ModerationAction::Delete;
    }
    if msg.author_is_bot {
        return ModerationAction::Ignore;
    }
    if is_violation(msg.attachment_count, msg.content.as_str()) {
        ModerationAction::Delete
    } else {
        ModerationAction::Ignore
    }
}

/// Every message posted in the honeypot channel is deleted, whoever wrote it.
pub proof fn law_honeypot_messages_are_deleted(
    channel_id: u64,
    author_id: u64,
    author_is_bot: bool,
    guild_id: Option<u64>,
    attachment_count: usize,
    content: Seq<char>,
)
    ensures
        moderation(
            Some(channel_id),
            channel_id,
            author_id,
            author_is_bot,
            guild_id,
            attachment_count,
            content,
        ) != ModerationAction::Ignore,
{
}

/// Bots are never banned, wherever they post.
pub proof fn law_bots_are_never_banned(
    honeypot_channel: Option<u64>,
    channel_id: u64,
    author_id: u64,
    guild_id: Option<u64>,
    attachment_count: usize,
    content: Seq<char>,
)
    ensures
        moderation(
            honeypot_channel,
            channel_id,
            author_id,
            true,
            guild_id,
            attachment_count,
            content,
        ) is Ignore || moderation(
            honeypot_channel,
            channel_id,
            author_id,
            true,
            guild_id,
            attachment_count,
            content,
        ) is Delete,
{
}

/// Outside the honeypot channel nobody is banned, and a human's message is deleted exactly when
/// it breaks the rules.
pub proof fn law_outside_honeypot_only_violations_are_deleted(
    honeypot_channel: Option<u64>,
    channel_id: u64,
    author_id: u64,
    guild_id: Option<u64>,
    attachment_count: usize,
    content: Seq<char>,
)
    requires
        honeypot_channel != Some(channel_id),
    ensures
        (moderation(
            honeypot_channel,
            channel_id,
            author_id,
            false,
            guild_id,
            attachment_count,
            content,
        ) == ModerationAction::Delete) == violates(attachment_count, content),
        !(moderation(
            honeypot_channel,
            channel_id,
            author_id,
            false,
            guild_id,
            attachment_count,
            content,
        ) is BanAndDelete),
{
}

/// A message is a violation whenever an invite link stands anywhere in its text, whatever comes
/// before or after it (other lines included), and whenever it has four or more attachments.
pub proof fn law_invites_anywhere_are_violations(
    attachment_count: usize,
    before: Seq<char>,
    after: Seq<char>,
)
    ensures
        violates(attachment_count, before + "discord.gg/"@ + after),
        violates(attachment_count, before + "discord.com/invite/"@ + after),
        violates(attachment_count, before + "discordapp.com/invite/"@ + after),
        attachment_count >= 4 ==> violates(attachment_count, before),
{
    crate::text::lemma_occurs_between(before, "discord.gg/"@, after);
    crate::text::lemma_occurs_between(before, "discord.com/invite/"@, after);
    crate::text::lemma_occurs_between(before, "discordapp.com/invite/"@, after);
}

/// A message with fewer than four attachments and no invite link anywhere in its text is no
/// violation.
pub proof fn law_clean_messages_are_not_violations(attachment_count: usize, content: Seq<char>)
    requires
        attachment_count < 4,
        forall|i: int|
            0 <= i && i + 11 <= content.len() ==> #[trigger] content.subrange(i, i + 11) != "discord.gg/"@,
        forall|i: int|
            0 <= i && i + 19 <= content.len() ==> #[trigger] content.subrange(i, i + 19)
                != "discord.com/invite/"@,
        forall|i: int|
            0 <= i && i + 22 <= content.len() ==> #[trigger] content.subrange(i, i + 22)
                != "discordapp.com/invite/"@,
    ensures
        !violates(attachment_count, content),
{
    reveal_strlit("discord.gg/");
    reveal_strlit("discord.com/invite/");
    reveal_strlit("discordapp.com/invite/");
}

} // verus!
