//! The command vocabulary of the first release: help, name, info and stop.
use vstd::prelude::*;
use crate::text::{chars_of, lower, lower_chars, string_of};

verus! {

/// A command of the short vocabulary, compared without ASCII case.
#[derive(Clone, Copy, Debug, PartialEq, Eq, Structural)]
pub enum Command {
    H,
    Name,
    Info,
    Stop,
}

/// The first word of a message names no command.
#[derive(Clone, Copy, Debug, PartialEq, Eq, Structural)]
pub struct UnknownCommand;

struct ParameterDoc {
    example: String,
    description: String,
}

/// The command whose word is `w`, if any.
pub open spec fn command_of(w: Seq<char>) -> Option<Command> {
    if w == "h"@ {
        Some(Command::H)
    } else if w == "name"@ {
        Some(Command::Name)
    } else if w == "info"@ {
        Some(Command::Info)
    } else if w == "stop"@ {
        Some(Command::Stop)
    } else {
        None
    }
}

impl Command {
    pub open spec fn spec_word(self) -> Seq<char> {
        match self {
            Command::H => "h"@,
            Command::Name => "name"@,
            Command::Info => "info"@,
            Command::Stop => "stop"@,
        }
    }

    pub open spec fn spec_description(self) -> Seq<char> {
        match self {
            Command::H => "Show a list of available commands "@,
            Command::Info => "See information about a command"@,
            Command::Name => "Set your preferred name"@,
            Command::Stop => "Stop receiving messages and remove yourself from the database"@,
        }
    }

    /// The example value and the description of the command's parameter.
    pub open spec fn spec_parameter(self) -> Option<(Seq<char>, Seq<char>)> {
        match self {
            Command::H => None,
            Command::Info => Some(("name"@, "the command you want to see help for"@)),
            Command::Name => Some(("John S."@, "your name"@)),
            Command::Stop => None,
        }
    }

    pub open spec fn spec_usage(self) -> Seq<char> {
        match self.spec_parameter() {
            Some((e, d)) => "Reply \""@ + self.spec_word() + " X\", where X is "@ + d
                + ".\nExample: \""@ + self.spec_word() + " "@ + e + "\"."@,
            None => "Reply \""@ + self.spec_word() + "\""@,
        }
    }

    pub fn as_str(&self) -> (r: &'static str)
        ensures
            r@ == self.spec_word(),
    {
        match self {
            Command::H => "h",
            Command::Name => "name",
            Command::Info => "info",
            Command::Stop => "stop",
        }
    }

    /// The command's word.
    pub fn to_string(&self) -> (r: String)
        ensures
            r@ == self.spec_word(),
    {
        String::from_str(self.as_str())
    }

    /// The command whose word is `value`, compared without ASCII case.
    pub fn try_from(value: &str) -> (r: Result<Command, UnknownCommand>)
        ensures
            r == match command_of(lower(value@)) {
                Some(c) => Ok::<Command, UnknownCommand>(c),
                None => Err(UnknownCommand),
            },
    {
        let cs = chars_of(value);
        let low = lower_chars(&cs);
        let w = string_of(&low, 0, low.len());
        assert(low@.subrange(0, low@.len() as int) =~= low@);
        if w == Command::H.to_string() {
            Ok(Command::H)
        } else if w == Command::Name.to_string() {
            Ok(Command::Name)
        } else if w == Command::Info.to_string() {
            Ok(Command::Info)
        } else if w == Command::Stop.to_string() {
            Ok(Command::Stop)
        } else {
            Err(UnknownCommand)
        }
    }

    pub fn description(&self) -> (r: String)
        ensures
            r@ == self.spec_description(),
    {
        String::from_str(
            match self {
                Command::H => "Show a list of available commands ",
                Command::Info => "See information about a command",
                Command::Name => "Set your preferred name",
                Command::Stop => "Stop receiving messages and remove yourself from the database",
            },
        )
    }

    fn parameter_doc(&self) -> (r: Option<ParameterDoc>)
        ensures
            match (r, self.spec_parameter()) {
                (Some(p), Some((e, d))) => p.example@ == e && p.description@ == d,
                (None, None) => true,
                _ => false,
            },
    {
        match self {
            Command::H => None,
            Command::Info => Some(
                ParameterDoc {
                    example: Command::Name.to_string(),
                    description: String::from_str("the command you want to see help for"),
                },
            ),
            Command::Name => Some(
                ParameterDoc {
                    example: String::from_str("John S."),
                    description: String::from_str("your name"),
                },
            ),
            Command::Stop => None,
        }
    }

    /// How to reply with this command, with an example for a command that
    /// takes a parameter.
    pub fn usage(&self) -> (r: String)
        ensures
            r@ == self.spec_usage(),
    {
        let mut r = String::from_str("Reply \"");
        r.append(self.as_str());
        match self.parameter_doc() {
            Some(p) => {
                r.append(" X\", where X is ");
                r.append(p.description.as_str());
                r.append(".\nExample: \"");
                r.append(self.as_str());
                r.append(" ");
                r.append(p.example.as_str());
                r.append("\".");
            },
            None => {
                r.append("\"");
            },
        }
        r
    }
}

} // verus!
