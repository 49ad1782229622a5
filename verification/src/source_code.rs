use vstd::prelude::*;
use crate::command::{new_command, CommandSpec};

verus! {

/// The reply to `/source-code`.
pub const SOURCE_CODE_REPLY: &'static str =
    "The source code for this bot can be found at: https://github.com/brysonak/UESS";

/// The `/source-code` command: no options.
pub fn register() -> (c: CommandSpec)
    ensures
        c.name@ == "source-code"@,
        c.description@ == "Get a link to the bot's source code"@,
        c.options@.len() == 0,
{
    new_command("source-code", "Get a link to the bot's source code")
}

} // verus!
