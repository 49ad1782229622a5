use vstd::prelude::*;

verus! {

/// The type of value that a slash-command option takes.
#[derive(PartialEq, Eq, Structural, Clone, Copy, Debug)]
pub enum OptionKind {
    String,
    User,
}

/// One option of a slash command.
pub struct CommandOption {
    pub kind: OptionKind,
    pub name: String,
    pub description: String,
    pub required: bool,
}

/// A slash command as it is registered with Discord.
pub struct CommandSpec {
    pub name: String,
    pub description: String,
    pub options: Vec<CommandOption>,
}

/// `c` is an option of the given kind, name and description, required or not as `required` says.
pub open spec fn option_is(
    c: CommandOption,
    kind: OptionKind,
    name: Seq<char>,
    description: Seq<char>,
    required: bool,
) -> bool {
    &&& c.kind == kind
    &&& c.name@ == name
    &&& c.description@ == description
    &&& c.required == required
}

/// A command option built from its parts.
pub fn new_option(kind: OptionKind, name: &str, description: &str, required: bool) -> (c:
    CommandOption)
    ensures
        option_is(c, kind, name@, description@, required),
{
    CommandOption {
        kind,
        name: String::from_str(name),
        description: String::from_str(description),
        required,
    }
}

/// A command with a name, a description and no options yet.
pub fn new_command(name: &str, description: &str) -> (c: CommandSpec)
    ensures
        c.name@ == name@,
        c.description@ == description@,
        c.options@.len() == 0,
{
    CommandSpec {
        name: String::from_str(name),
        description: String::from_str(description),
        options: Vec::new(),
    }
}

} // verus!
