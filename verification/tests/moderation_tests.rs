use uess::cleanse;
use uess::command::OptionKind;
use uess::honeypot::{handle, honeypot_channel_from_env, is_violation, IncomingMessage, ModerationAction};
use uess::source_code;
use uess::{dispatch, register_commands, Route};

fn message(channel: u64, bot: bool, guild: Option<u64>, attachments: usize, content: &str) -> IncomingMessage {
    IncomingMessage {
        channel_id: channel,
        author_id: 77,
        author_is_bot: bot,
        guild_id: guild,
        attachment_count: attachments,
        content: content.to_string(),
    }
}

#[test]
fn violations_are_invites_or_many_attachments() {
    assert!(is_violation(4, "hello"));
    assert!(is_violation(9, ""));
    assert!(!is_violation(3, "hello"));
    assert!(is_violation(0, "free nitro discord.gg/abc"));
    assert!(is_violation(0, "https://discord.com/invite/xyz"));
    assert!(is_violation(0, "discordapp.com/invite/q"));
    assert!(!is_violation(0, "discord.com/channels/1/2"));
}

#[test]
fn honeypot_bans_humans_and_deletes() {
    let m = message(5, false, Some(9), 0, "hi");
    assert_eq!(handle(&m, Some(5)), ModerationAction::BanAndDelete { guild_id: 9, user_id: 77 });
    let bot = message(5, true, Some(9), 0, "hi");
    assert_eq!(handle(&bot, Some(5)), ModerationAction::Delete);
    let dm = message(5, false, None, 0, "hi");
    assert_eq!(handle(&dm, Some(5)), ModerationAction::Delete);
}

#[test]
fn other_channels_delete_only_violations() {
    let spam = message(6, false, Some(9), 0, "discord.gg/x");
    assert_eq!(handle(&spam, Some(5)), ModerationAction::Delete);
    assert_eq!(handle(&spam, None), ModerationAction::Delete);
    let fine = message(6, false, Some(9), 1, "hello");
    assert_eq!(handle(&fine, Some(5)), ModerationAction::Ignore);
    let bot_spam = message(6, true, Some(9), 5, "discord.gg/x");
    assert_eq!(handle(&bot_spam, Some(5)), ModerationAction::Ignore);
}

#[test]
fn honeypot_channel_comes_from_the_variable() {
    assert_eq!(honeypot_channel_from_env(Some("1234")), Some(1234));
    assert_eq!(honeypot_channel_from_env(Some("x")), None);
    assert_eq!(honeypot_channel_from_env(None), None);
}

#[test]
fn owner_is_read_from_the_variable() {
    assert!(cleanse::is_owner(Some("42"), 42));
    assert!(!cleanse::is_owner(Some("42"), 43));
    assert!(!cleanse::is_owner(Some("abc"), 42));
    assert!(!cleanse::is_owner(None, 42));
}

#[test]
fn cleanse_needs_a_guild_and_a_user() {
    assert_eq!(cleanse::ban_request(None, Some(1)).err().unwrap(), "This command only works in a server.");
    assert_eq!(cleanse::ban_request(Some(2), None).err().unwrap(), "Missing or invalid `user` option.");
    let b = cleanse::ban_request(Some(2), Some(3)).ok().unwrap();
    assert_eq!((b.guild_id, b.user_id, b.delete_message_days), (2, 3, 7));
}

#[test]
fn cleanse_reports_the_ban() {
    assert_eq!(cleanse::ban_outcome(3, Ok(())), Ok(3));
    assert_eq!(cleanse::ban_outcome(3, Err("Missing Permissions".to_string())), Err("Ban failed: Missing Permissions".to_string()));
    assert_eq!(cleanse::reply(None), "Only the bot owner can run this command.");
    assert_eq!(
        cleanse::reply(Some(&Ok(123456789012345678))),
        "Deleted the last 7 days of messages from <@123456789012345678> and banned them."
    );
    assert_eq!(cleanse::reply(Some(&Err("Ban failed: x".to_string()))), "Ban failed: x");
}

#[test]
fn command_specs() {
    let c = cleanse::register();
    assert_eq!(c.name, "cleanse");
    assert_eq!(c.description, "Only Bryson can do this command :-)");
    assert_eq!(c.options[0].kind, OptionKind::User);
    assert_eq!(c.options[0].name, "user");
    assert_eq!(c.options[0].description, "User to cleanse");
    assert!(c.options[0].required);
    let s = source_code::register();
    assert_eq!(s.name, "source-code");
    assert_eq!(s.description, "Get a link to the bot's source code");
    assert!(s.options.is_empty());
    assert_eq!(source_code::SOURCE_CODE_REPLY, "The source code for this bot can be found at: https://github.com/brysonak/UESS");
    let all = register_commands();
    assert_eq!(all.len(), 1);
    assert_eq!(all[0].name, "aur-check");
}

#[test]
fn only_aur_check_is_dispatched() {
    assert_eq!(dispatch("aur-check"), Route::AurCheck);
    assert_eq!(dispatch("cleanse"), Route::Ignore);
    assert_eq!(dispatch("source-code"), Route::Ignore);
    assert_eq!(dispatch(""), Route::Ignore);
}

#[test]
fn only_the_owner_gets_a_ban() {
    match cleanse::plan(false, Some(1), Some(2)) {
        cleanse::CleanseStep::Reply(text) => assert_eq!(text, "Only the bot owner can run this command."),
        cleanse::CleanseStep::Ban(_) => panic!("a non-owner must not ban"),
    }
    match cleanse::plan(true, None, Some(2)) {
        cleanse::CleanseStep::Reply(text) => assert_eq!(text, "This command only works in a server."),
        cleanse::CleanseStep::Ban(_) => panic!("no guild"),
    }
    match cleanse::plan(true, Some(1), None) {
        cleanse::CleanseStep::Reply(text) => assert_eq!(text, "Missing or invalid `user` option."),
        cleanse::CleanseStep::Ban(_) => panic!("no target"),
    }
    match cleanse::plan(true, Some(1), Some(2)) {
        cleanse::CleanseStep::Ban(b) => assert_eq!((b.guild_id, b.user_id, b.delete_message_days), (1, 2, 7)),
        cleanse::CleanseStep::Reply(_) => panic!("expected a ban"),
    }
}
