//! The fixed vocabulary of command words that lead a message.
use vstd::prelude::*;
use crate::text::{chars_of, lower, lower_chars, string_of};

verus! {

/// A command word; the first word of a message, compared without ASCII case.
#[derive(Clone, Copy, Debug, PartialEq, Eq, Structural)]
pub enum CommandWord {
    H,
    Name,
    Info,
    Stop,
    Contacts,
    Delete,
    Confirm,
    Group,
}

/// The first word of a message names no command.
#[derive(Clone, Copy, Debug, PartialEq, Eq, Structural)]
pub struct UnknownWord;

/// What a command takes: an example value and what the value is.
struct ParameterDoc {
    example: String,
    description: String,
}

/// The command whose word is `w`, if any.
pub open spec fn word_command(w: Seq<char>) -> Option<CommandWord> {
    if w == "h"@ {
        Some(CommandWord::H)
    } else if w == "name"@ {
        Some(CommandWord::Name)
    } else if w == "info"@ {
        Some(CommandWord::Info)
    } else if w == "stop"@ {
        Some(CommandWord::Stop)
    } else if w == "contacts"@ {
        Some(CommandWord::Contacts)
    } else if w == "delete"@ {
        Some(CommandWord::Delete)
    } else if w == "confirm"@ {
        Some(CommandWord::Confirm)
    } else if w == "group"@ {
        Some(CommandWord::Group)
    } else {
        None
    }
}

impl CommandWord {
    /// The command's word, in lower case.
    pub open spec fn spec_word(self) -> Seq<char> {
        match self {
            CommandWord::H => "h"@,
            CommandWord::Name => "name"@,
            CommandWord::Info => "info"@,
            CommandWord::Stop => "stop"@,
            CommandWord::Contacts => "contacts"@,
            CommandWord::Delete => "delete"@,
            CommandWord::Confirm => "confirm"@,
            CommandWord::Group => "group"@,
        }
    }

    pub open spec fn spec_description(self) -> Seq<char> {
        match self {
            CommandWord::H => "show a list of available commands"@,
            CommandWord::Info => "see information about a command"@,
            CommandWord::Name => "set your preferred name"@,
            CommandWord::Stop => "stop receiving messages and remove yourself from the database"@,
            CommandWord::Contacts => "see a list of your groups and contacts"@,
            CommandWord::Delete => "delete a contact by name"@,
            CommandWord::Confirm => "confirm pending action(s)"@,
            CommandWord::Group => "create a new group from your contacts"@,
        }
    }

    /// The example value and the description of the command's parameter,
    /// for the commands that take one.
    pub open spec fn spec_parameter(self) -> Option<(Seq<char>, Seq<char>)> {
        match self {
            CommandWord::H => None,
            CommandWord::Info => Some(("name"@, "a command"@)),
            CommandWord::Name => Some(("John S."@, "your name"@)),
            CommandWord::Delete => Some(("John"@, "contact name to delete"@)),
            CommandWord::Confirm => Some(("2,3"@, "number(s) from a list of pending actions"@)),
            CommandWord::Stop => None,
            CommandWord::Contacts => None,
            CommandWord::Group => Some(
                ("John, Alice"@, "comma-separated list of contact name fragments"@),
            ),
        }
    }

    pub open spec fn spec_usage(self) -> Seq<char> {
        match self.spec_parameter() {
            Some((_, d)) => "Reply \""@ + self.spec_word() + " X\", where X is "@ + d,
            None => "Reply \""@ + self.spec_word() + "\""@,
        }
    }

    pub open spec fn spec_example(self) -> Seq<char> {
        match self.spec_parameter() {
            Some((e, _)) => "\nExample: \""@ + self.spec_word() + " "@ + e + "\""@,
            None => Seq::empty(),
        }
    }

    pub open spec fn spec_hint(self) -> Seq<char> {
        self.spec_usage() + ", to "@ + self.spec_description() + "."@ + self.spec_example()
    }

    pub fn as_str(&self) -> (r: &'static str)
        ensures
            r@ == self.spec_word(),
    {
        match self {
            CommandWord::H => "h",
            CommandWord::Name => "name",
            CommandWord::Info => "info",
            CommandWord::Stop => "stop",
            CommandWord::Contacts => "contacts",
            CommandWord::Delete => "delete",
            CommandWord::Confirm => "confirm",
            CommandWord::Group => "group",
        }
    }

    /// The command's word.
    pub fn to_string(&self) -> (r: String)
        ensures
            r@ == self.spec_word(),
    {
        String::from_str(self.as_str())
    }

    /// The command whose word is `value`, compared without ASCII case.
    pub fn try_from(value: &str) -> (r: Result<CommandWord, UnknownWord>)
        ensures
            r == match word_command(lower(value@)) {
                Some(c) => Ok::<CommandWord, UnknownWord>(c),
                None => Err(UnknownWord),
            },
    {
        let cs = chars_of(value);
        let low = lower_chars(&cs);
        let w = string_of(&low, 0, low.len());
        assert(low@.subrange(0, low@.len() as int) =~= low@);
        let all = [
            CommandWord::H,
            CommandWord::Name,
            CommandWord::Info,
            CommandWord::Stop,
            CommandWord::Contacts,
            CommandWord::Delete,
            CommandWord::Confirm,
            CommandWord::Group,
        ];
        let mut i: usize = 0;
        while i < 8
            invariant
                w@ == lower(value@),
                all@ == seq![
                    CommandWord::H,
                    CommandWord::Name,
                    CommandWord::Info,
                    CommandWord::Stop,
                    CommandWord::Contacts,
                    CommandWord::Delete,
                    CommandWord::Confirm,
                    CommandWord::Group,
                ],
                i <= 8,
                forall|k: int| 0 <= k < i ==> w@ != (#[trigger] all@[k]).spec_word(),
            decreases 8 - i,
        {
            let c = all[i];
            if w == c.to_string() {
                return Ok(c);
            }
            i = i + 1;
        }
        Err(UnknownWord)
    }

    pub fn description(&self) -> (r: String)
        ensures
            r@ == self.spec_description(),
    {
        String::from_str(
            match self {
                CommandWord::H => "show a list of available commands",
                CommandWord::Info => "see information about a command",
                CommandWord::Name => "set your preferred name",
                CommandWord::Stop => "stop receiving messages and remove yourself from the database",
                CommandWord::Contacts => "see a list of your groups and contacts",
                CommandWord::Delete => "delete a contact by name",
                CommandWord::Confirm => "confirm pending action(s)",
                CommandWord::Group => "create a new group from your contacts",
            },
        )
    }

    fn parameter_doc(&self) -> (r: Option<ParameterDoc>)
        ensures
            match (r, self.spec_parameter()) {
                (Some(p), Some((e, d))) => p.example@ == e && p.description@ == d,
                (None, None) => true,
                _ => false,
            },
    {
        match self {
            CommandWord::H => None,
            CommandWord::Info => Some(
                ParameterDoc {
                    example: CommandWord::Name.to_string(),
                    description: String::from_str("a command"),
                },
            ),
            CommandWord::Name => Some(
                ParameterDoc {
                    example: String::from_str("John S."),
                    description: String::from_str("your name"),
                },
            ),
            CommandWord::Delete => Some(
                ParameterDoc {
                    example: String::from_str("John"),
                    description: String::from_str("contact name to delete"),
                },
            ),
            CommandWord::Confirm => Some(
                ParameterDoc {
                    example: String::from_str("2,3"),
                    description: String::from_str("number(s) from a list of pending actions"),
                },
            ),
            CommandWord::Stop => None,
            CommandWord::Contacts => None,
            CommandWord::Group => Some(
                ParameterDoc {
                    example: String::from_str("John, Alice"),
                    description: String::from_str(
                        "comma-separated list of contact name fragments",
                    ),
                },
            ),
        }
    }

    /// How to reply with this command: `Reply "word X", where X is ...`, or
    /// `Reply "word"` for a command without a parameter.
    pub fn usage(&self) -> (r: String)
        ensures
            r@ == self.spec_usage(),
    {
        let mut r = String::from_str("Reply \"");
        r.append(self.as_str());
        match self.parameter_doc() {
            Some(p) => {
                r.append(" X\", where X is ");
                r.append(p.description.as_str());
            },
            None => {
                r.append("\"");
            },
        }
        r
    }

    /// An example reply on a line of its own, or nothing for a command
    /// without a parameter.
    pub fn example(&self) -> (r: String)
        ensures
            r@ == self.spec_example(),
    {
        match self.parameter_doc() {
            Some(p) => {
                let mut r = String::from_str("\nExample: \"");
                r.append(self.as_str());
                r.append(" ");
                r.append(p.example.as_str());
                r.append("\"");
                r
            },
            None => String::new(),
        }
    }

    /// The usage, what the command is for, and an example.
    pub fn hint(&self) -> (r: String)
        ensures
            r@ == self.spec_hint(),
    {
        let mut r = self.usage();
        r.append(", to ");
        r.append(self.description().as_str());
        r.append(".");
        r.append(self.example().as_str());
        r
    }
}

} // verus!
