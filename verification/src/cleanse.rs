use vstd::prelude::*;
use crate::command::{new_command, new_option, option_is, CommandSpec, OptionKind};
use crate::number::{decimal, parse_u64, parsed_u64, u64_to_string};

verus! {

/// How many days of the target's messages `/cleanse` deletes.
pub const PURGE_DAYS: u8 = 7;

/// The reason recorded with a `/cleanse` ban.
pub const BAN_REASON: &'static str = "User was a confirmed spam bot";

/// Whether `invoker` is the owner that the value of `OWNER_ID` names.
pub fn is_owner(owner_id: Option<&str>, invoker: u64) -> (r: bool)
    ensures
        r == match owner_id {
            Some(v) => parsed_u64(v@) == Some(invoker),
            None => false,
        },
{
    match owner_id {
        Some(v) => match parse_u64(v) {
            Some(id) => id == invoker,
            None => false,
        },
        None => false,
    }
}

/// The `/cleanse` command: one required user option.
pub fn register() -> (c: CommandSpec)
    ensures
        c.name@ == "cleanse"@,
        c.description@ == "Only Bryson can do this command :-)"@,
        c.options@.len() == 1,
        option_is(c.options@[0], OptionKind::User, "user"@, "User to cleanse"@, true),
{
    let mut c = new_command("cleanse", "Only Bryson can do this command :-)");
    c.options.push(new_option(OptionKind::User, "user", "User to cleanse", true));
    c
}

/// A ban to carry out: the guild, the user, and how many days of their messages to delete.
pub struct BanRequest {
    pub guild_id: u64,
    pub user_id: u64,
    pub delete_message_days: u8,
}

/// The ban that `/cleanse` asks for, given the guild it was run in and the user its option
/// names; or the reply when either is missing.
pub fn ban_request(guild_id: Option<u64>, target: Option<u64>) -> (r: Result<BanRequest, String>)
    ensures
        match (guild_id, target) {
            (None, _) => r matches Err(e) && e@ == "This command only works in a server."@,
            (Some(_), None) => r matches Err(e) && e@ == "Missing or invalid `user` option."@,
            (Some(g), Some(t)) => r matches Ok(b) && b.guild_id == g && b.user_id == t
                && b.delete_message_days == PURGE_DAYS,
        },
{
    let g = match guild_id {
        Some(g) => g,
        None => {
            return Err(String::from_str("This command only works in a server."));
        },
    };
    let t = match target {
        Some(t) => t,
        None => {
            return Err(String::from_str("Missing or invalid `user` option."));
        },
    };
    Ok(BanRequest { guild_id: g, user_id: t, delete_message_days: PURGE_DAYS })
}

/// The result of `/cleanse` once the ban of `target` has been tried: the target, or why the ban
/// failed.
pub fn ban_outcome(target: u64, ban: Result<(), String>) -> (r: Result<u64, String>)
    ensures
        match ban {
            Ok(()) => r == Ok::<u64, String>(target),
            Err(e) => r matches Err(m) && m@ == "Ban failed: "@ + e@,
        },
{
    match ban {
        Ok(()) => Ok(target),
        Err(e) => {
            let mut m = String::from_str("Ban failed: ");
            m.append(e.as_str());
            Err(m)
        },
    }
}

/// The reply to `/cleanse`: `None` when the invoker is not the owner, else the result of the
/// command.
pub open spec fn reply_text(outcome: Option<Result<u64, Seq<char>>>) -> Seq<char> {
    match outcome {
        None => "Only the bot owner can run this command."@,
        Some(Ok(target)) => "Deleted the last "@ + decimal(PURGE_DAYS as nat) + " days of messages from <@"@
            + decimal(target as nat) + "> and banned them."@,
        Some(Err(e)) => e,
    }
}

/// The reply that the bot sends for `/cleanse`.
pub fn reply(outcome: Option<&Result<u64, String>>) -> (text: String)
    ensures
        text@ == reply_text(
            match outcome {
                None => None,
                Some(Ok(t)) => Some(Ok(*t)),
                Some(Err(e)) => Some(Err(e@)),
            },
        ),
{
    match outcome {
        None => String::from_str("Only the bot owner can run this command."),
        Some(Ok(target)) => {
            let mut s = String::from_str("Deleted the last ");
            s.append(u64_to_string(PURGE_DAYS as u64).as_str());
            s.append(" days of messages from <@");
            s.append(u64_to_string(*target).as_str());
            s.append("> and banned them.");
            s
        },
        Some(Err(e)) => e.clone(),
    }
}

/// What `/cleanse` does before any ban is tried.
pub enum CleanseStep {
    /// Reply with this text; nobody is banned.
    Reply(String),
    /// Carry out this ban, then reply with the outcome.
    Ban(BanRequest),
}

/// The first step of `/cleanse`, run by the owner (`owner`) or not, in the guild `guild_id`,
/// with the user option naming `target`.
pub fn plan(owner: bool, guild_id: Option<u64>, target: Option<u64>) -> (step: CleanseStep)
    ensures
        !owner ==> (step matches CleanseStep::Reply(text) && text@ == reply_text(None)),
        owner ==> match (guild_id, target) {
            (None, _) => step matches CleanseStep::Reply(text) && text@
                == "This command only works in a server."@,
            (Some(_), None) => step matches CleanseStep::Reply(text) && text@
                == "Missing or invalid `user` option."@,
            (Some(g), Some(t)) => step matches CleanseStep::Ban(b) && b.guild_id == g && b.user_id
                == t && b.delete_message_days == PURGE_DAYS,
        },
{
    if !owner {
        return CleanseStep::Reply(reply(None));
    }
    match ban_request(guild_id, target) {
        Ok(b) => CleanseStep::Ban(b),
        Err(e) => CleanseStep::Reply(e),
    }
}

} // verus!
