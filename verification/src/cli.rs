//! The commands of the program: what its arguments ask for.

use vstd::prelude::*;
use vstd::string::*;
use crate::server::text;

verus! {

/// The model of a command.
pub enum CommandValue {
    Welcome,
    Compile { assets_dir: Seq<char>, release: bool },
    Demo,
    Unknown,
}

/// What the program is asked to do.
pub enum Command {
    /// No command was given: greet.
    Welcome,
    /// `compile <dir> [--release]`: write the asset module for the files of
    /// `<dir>` and build.
    Compile { assets_dir: String, release: bool },
    /// `demo`: run the demonstration server.
    Demo,
    /// Anything else.
    Unknown,
}

impl View for Command {
    type V = CommandValue;

    open spec fn view(&self) -> CommandValue {
        match self {
            Command::Welcome => CommandValue::Welcome,
            Command::Compile { assets_dir, release } => CommandValue::Compile {
                assets_dir: assets_dir@,
                release: *release,
            },
            Command::Demo => CommandValue::Demo,
            Command::Unknown => CommandValue::Unknown,
        }
    }
}

/// The command that the arguments `args` give; the first of them is the name
/// of the program.
pub open spec fn command_for(args: Seq<Seq<char>>) -> CommandValue {
    if args.len() <= 1 {
        CommandValue::Welcome
    } else if args[1] == "compile"@ && args.len() >= 3 {
        CommandValue::Compile {
            assets_dir: args[2],
            release: args.len() >= 4 && args[3] == "--release"@,
        }
    } else if args[1] == "demo"@ {
        CommandValue::Demo
    } else {
        CommandValue::Unknown
    }
}

/// The texts of `args`.
pub open spec fn texts(args: Seq<String>) -> Seq<Seq<char>> {
    Seq::new(args.len(), |i: int| args[i]@)
}

/// The command that the arguments `args` give.
pub fn command_of(args: &Vec<String>) -> (command: Command)
    ensures
        command@ == command_for(texts(args@)),
{
    if args.len() <= 1 {
        Command::Welcome
    } else if text::str_eq(args[1].as_str(), "compile") && args.len() >= 3 {
        Command::Compile {
            assets_dir: args[2].clone(),
            release: args.len() >= 4 && text::str_eq(args[3].as_str(), "--release"),
        }
    } else if text::str_eq(args[1].as_str(), "demo") {
        Command::Demo
    } else {
        Command::Unknown
    }
}

} // verus!
