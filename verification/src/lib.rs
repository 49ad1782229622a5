use vstd::prelude::*;

pub mod text;
pub mod number;
pub mod command;
pub mod aur_check;
pub mod cleanse;
pub mod source_code;
pub mod honeypot;
pub mod compile;
pub mod qotd;

use command::{option_is, CommandSpec, OptionKind};

verus! {

/// The slash commands that the bot registers: `/aur-check` alone.
pub fn register_commands() -> (cs: Vec<CommandSpec>)
    ensures
        cs@.len() == 1,
        cs@[0].name@ == "aur-check"@,
        cs@[0].description@ == "Check a package name against known malware/spam lists"@,
        cs@[0].options@.len() == 1,
        option_is(cs@[0].options@[0], OptionKind::String, "package"@, "Package name"@, true),
{
    let mut cs: Vec<CommandSpec> = Vec::new();
    cs.push(aur_check::register());
    cs
}

/// Where an invoked slash command goes.
#[derive(PartialEq, Eq, Structural, Clone, Copy, Debug)]
pub enum Route {
    /// `/aur-check`.
    AurCheck,
    /// Any other command: nothing happens.
    Ignore,
}

/// The handler for the slash command named `name`.
pub fn dispatch(name: &str) -> (r: Route)
    ensures
        r == (if name@ == "aur-check"@ {
            Route::AurCheck
        } else {
            Route::Ignore
        }),
{
    if text::str_eq(name, "aur-check") {
        Route::AurCheck
    } else {
        Route::Ignore
    }
}

} // verus!
