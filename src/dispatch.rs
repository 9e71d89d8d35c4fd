//! Routing of an inbound message: onboarding of unknown senders, name
//! validation, and the command that the first word names.
use vstd::prelude::*;
use crate::command_word::{word_command, CommandWord};
use crate::text::{chars_of, join, join_strings, lower, push_dec, trim, trim_range, views, words, words_of};

verus! {

/// The longest name accepted, in characters.
pub const MAX_NAME_LEN: usize = 20;

/// The name that `words` spell, or the reply that rejects them.
pub open spec fn name_result(ws: Seq<Seq<char>>) -> Result<Seq<char>, Seq<char>> {
    let name = join(ws, " "@);
    if name.len() == 0 {
        Err(CommandWord::Name.spec_usage())
    } else if name.len() > MAX_NAME_LEN {
        Err(
            "That name is "@ + crate::text::dec(name.len()) + " characters long.\nPlease shorten it to 20 characters or less."@,
        )
    } else {
        Ok(name)
    }
}

/// The words after the command word, joined by single spaces, as a name:
/// empty is refused with the usage of `name`, longer than twenty characters
/// with a message that gives the length.
pub fn process_name(words: &Vec<String>) -> (r: Result<String, String>)
    ensures
        match (r, name_result(views(words@))) {
            (Ok(a), Ok(b)) => a@ == b,
            (Err(a), Err(b)) => a@ == b,
            _ => false,
        },
{
    let name = join_strings(words, " ");
    let len = name.as_str().unicode_len();
    if len == 0 {
        return Err(CommandWord::Name.usage());
    }
    if len > MAX_NAME_LEN {
        let mut e = String::from_str("That name is ");
        push_dec(&mut e, len as u64);
        e.append(" characters long.\nPlease shorten it to 20 characters or less.");
        return Err(e);
    }
    Ok(name)
}

/// What to do with a message: the reply, and the store work that goes
/// with it.
pub enum Step {
    /// Send the reply; nothing is stored.
    Reply(String),
    /// Register the sender under the name, then send the reply.
    Register(String, String),
    /// Change the sender's name, then send the reply.
    Rename(String, String),
    /// Remove the sender, then send the reply.
    Unsubscribe(String),
    /// List the sender's groups and contacts.
    ListContacts,
    /// Look for groups and contacts to delete that match the fragment.
    Delete(String),
    /// Confirm the pending action with the selections.
    Confirm(String),
    /// Look for contacts to group that match the fragments.
    Group(String),
}

pub ghost enum StepView {
    Reply(Seq<char>),
    Register(Seq<char>, Seq<char>),
    Rename(Seq<char>, Seq<char>),
    Unsubscribe(Seq<char>),
    ListContacts,
    Delete(Seq<char>),
    Confirm(Seq<char>),
    Group(Seq<char>),
}

impl View for Step {
    type V = StepView;

    open spec fn view(&self) -> StepView {
        match self {
            Step::Reply(r) => StepView::Reply(r@),
            Step::Register(n, r) => StepView::Register(n@, r@),
            Step::Rename(n, r) => StepView::Rename(n@, r@),
            Step::Unsubscribe(r) => StepView::Unsubscribe(r@),
            Step::ListContacts => StepView::ListContacts,
            Step::Delete(f) => StepView::Delete(f@),
            Step::Confirm(s) => StepView::Confirm(s@),
            Step::Group(f) => StepView::Group(f@),
        }
    }
}

pub open spec fn banner() -> Seq<char> {
    "Greetings! This is Decision Bot (https://github.com/samcarey/decisionbot).\nTo participate:\n"@
}

/// The list of commands, one hint per line.
pub open spec fn help_text() -> Seq<char> {
    "Available commands:\n"@ + CommandWord::H.spec_hint() + "\n"@ + CommandWord::Info.spec_hint()
        + "\n"@ + CommandWord::Name.spec_hint() + "\n"@ + CommandWord::Stop.spec_hint() + "\n"@
        + CommandWord::Contacts.spec_hint() + "\n"@ + CommandWord::Delete.spec_hint() + "\n"@
        + CommandWord::Confirm.spec_hint() + "\n"@ + CommandWord::Group.spec_hint()
}

/// The step for a message from a sender who is not registered: only
/// `name` registers; anything else gets the greeting and the hint of `name`.
pub open spec fn onboarding_step(ws: Seq<Seq<char>>) -> StepView {
    if ws.len() > 0 && word_command(lower(ws[0])) == Some(CommandWord::Name) {
        match name_result(ws.drop_first()) {
            Ok(name) => StepView::Register(
                name,
                "Hello, "@ + name + "! "@ + CommandWord::H.spec_hint(),
            ),
            Err(e) => StepView::Reply(e),
        }
    } else {
        StepView::Reply(banner() + CommandWord::Name.spec_hint())
    }
}

/// The step for a command that takes free text after its word: its hint
/// when the text is empty.
pub open spec fn with_text(c: CommandWord, text: Seq<char>, step: StepView) -> StepView {
    if text.len() == 0 {
        StepView::Reply(c.spec_hint())
    } else {
        step
    }
}

/// The step for a message from a registered sender.
pub open spec fn command_step(ws: Seq<Seq<char>>) -> StepView {
    if ws.len() == 0 {
        StepView::Reply(CommandWord::H.spec_hint())
    } else {
        let rest = ws.drop_first();
        let text = join(rest, " "@);
        match word_command(lower(ws[0])) {
            None => StepView::Reply(
                "We didn't recognize that command word: \""@ + ws[0] + "\".\n"@
                    + CommandWord::H.spec_hint(),
            ),
            Some(CommandWord::H) => StepView::Reply(help_text()),
            Some(CommandWord::Name) => match name_result(rest) {
                Ok(name) => StepView::Rename(
                    name,
                    "Your name has been updated to \""@ + name + "\""@,
                ),
                Err(e) => StepView::Reply(e),
            },
            Some(CommandWord::Stop) => StepView::Unsubscribe("You've been unsubscribed. Goodbye!"@),
            Some(CommandWord::Info) => if rest.len() == 0 {
                StepView::Reply(CommandWord::Info.spec_hint())
            } else {
                match word_command(lower(rest[0])) {
                    Some(c) => StepView::Reply(c.spec_hint()),
                    None => StepView::Reply("Command \""@ + rest[0] + "\" not recognized"@),
                }
            },
            Some(CommandWord::Contacts) => StepView::ListContacts,
            Some(CommandWord::Delete) => with_text(CommandWord::Delete, text, StepView::Delete(text)),
            Some(CommandWord::Confirm) => with_text(
                CommandWord::Confirm,
                text,
                StepView::Confirm(text),
            ),
            Some(CommandWord::Group) => with_text(CommandWord::Group, text, StepView::Group(text)),
        }
    }
}

/// The words of a message body: trimmed, then split at ASCII whitespace.
pub open spec fn body_words(body: Seq<char>) -> Seq<Seq<char>> {
    words(trim(body))
}

pub fn help() -> (r: String)
    ensures
        r@ == help_text(),
{
    let mut r = String::from_str("Available commands:\n");
    r.append(CommandWord::H.hint().as_str());
    r.append("\n");
    r.append(CommandWord::Info.hint().as_str());
    r.append("\n");
    r.append(CommandWord::Name.hint().as_str());
    r.append("\n");
    r.append(CommandWord::Stop.hint().as_str());
    r.append("\n");
    r.append(CommandWord::Contacts.hint().as_str());
    r.append("\n");
    r.append(CommandWord::Delete.hint().as_str());
    r.append("\n");
    r.append(CommandWord::Confirm.hint().as_str());
    r.append("\n");
    r.append(CommandWord::Group.hint().as_str());
    r
}

fn tail(ws: &Vec<String>) -> (r: Vec<String>)
    requires
        ws@.len() > 0,
    ensures
        views(r@) == views(ws@).drop_first(),
{
    let mut r: Vec<String> = Vec::new();
    let mut i: usize = 1;
    while i < ws.len()
        invariant
            1 <= i <= ws@.len(),
            views(r@) =~= views(ws@).subrange(1, i as int),
        decreases ws@.len() - i,
    {
        let ghost before = r@;
        r.push(ws[i].clone());
        assert(views(r@) =~= views(before).push(ws@[i as int]@));
        i = i + 1;
    }
    r
}

/// What to do with a message from a sender who is not registered.
pub fn onboard_new_user(ws: &Vec<String>) -> (r: Step)
    ensures
        r@ == onboarding_step(views(ws@)),
{
    if ws.len() > 0 {
        assert(views(ws@)[0] == ws@[0]@);
        if matches!(CommandWord::try_from(ws[0].as_str()), Ok(CommandWord::Name)) {
            let rest = tail(ws);
            return match process_name(&rest) {
                Ok(name) => {
                    let mut reply = String::from_str("Hello, ");
                    reply.append(name.as_str());
                    reply.append("! ");
                    reply.append(CommandWord::H.hint().as_str());
                    Step::Register(name, reply)
                },
                Err(e) => Step::Reply(e),
            };
        }
    }
    let mut reply = String::from_str(
        "Greetings! This is Decision Bot (https://github.com/samcarey/decisionbot).\nTo participate:\n",
    );
    reply.append(CommandWord::Name.hint().as_str());
    Step::Reply(reply)
}

fn text_step(c: CommandWord, rest: &Vec<String>) -> (r: Step)
    requires
        c == CommandWord::Delete || c == CommandWord::Confirm || c == CommandWord::Group,
    ensures
        r@ == with_text(
            c,
            join(views(rest@), " "@),
            match c {
                CommandWord::Delete => StepView::Delete(join(views(rest@), " "@)),
                CommandWord::Confirm => StepView::Confirm(join(views(rest@), " "@)),
                _ => StepView::Group(join(views(rest@), " "@)),
            },
        ),
{
    let text = join_strings(rest, " ");
    if text.as_str().unicode_len() == 0 {
        return Step::Reply(c.hint());
    }
    match c {
        CommandWord::Delete => Step::Delete(text),
        CommandWord::Confirm => Step::Confirm(text),
        _ => Step::Group(text),
    }
}

/// What to do with a message from a registered sender, by its words.
#[verifier::spinoff_prover]
pub fn command_step_of(ws: &Vec<String>) -> (r: Step)
    ensures
        r@ == command_step(views(ws@)),
{
    if ws.len() == 0 {
        return Step::Reply(CommandWord::H.hint());
    }
    assert(views(ws@)[0] == ws@[0]@);
    let rest = tail(ws);
    match CommandWord::try_from(ws[0].as_str()) {
        Err(_) => {
            let mut reply = String::from_str("We didn't recognize that command word: \"");
            reply.append(ws[0].as_str());
            reply.append("\".\n");
            reply.append(CommandWord::H.hint().as_str());
            Step::Reply(reply)
        },
        Ok(CommandWord::H) => Step::Reply(help()),
        Ok(CommandWord::Name) => match process_name(&rest) {
            Ok(name) => {
                let mut reply = String::from_str("Your name has been updated to \"");
                reply.append(name.as_str());
                reply.append("\"");
                Step::Rename(name, reply)
            },
            Err(e) => Step::Reply(e),
        },
        Ok(CommandWord::Stop) => Step::Unsubscribe(
            String::from_str("You've been unsubscribed. Goodbye!"),
        ),
        Ok(CommandWord::Info) => {
            if rest.len() == 0 {
                Step::Reply(CommandWord::Info.hint())
            } else {
                assert(views(rest@)[0] == rest@[0]@);
                match CommandWord::try_from(rest[0].as_str()) {
                    Ok(c) => Step::Reply(c.hint()),
                    Err(_) => {
                        let mut reply = String::from_str("Command \"");
                        reply.append(rest[0].as_str());
                        reply.append("\" not recognized");
                        Step::Reply(reply)
                    },
                }
            }
        },
        Ok(CommandWord::Contacts) => Step::ListContacts,
        Ok(c) => text_step(c, &rest),
    }
}

/// Routes a message body: a sender who is not registered goes through
/// onboarding; a registered sender's first word picks the command.
pub fn process_message(body: &str, registered: bool) -> (r: Step)
    ensures
        r@ == if registered {
            command_step(body_words(body@))
        } else {
            onboarding_step(body_words(body@))
        },
{
    let chars = chars_of(body);
    let trimmed = trim_range(&chars, 0, chars.len());
    assert(chars@.subrange(0, chars@.len() as int) =~= body@);
    let tchars = chars_of(trimmed.as_str());
    let ws = words_of(&tchars);
    if registered {
        command_step_of(&ws)
    } else {
        onboard_new_user(&ws)
    }
}

pub open spec fn opt_chars(o: Option<String>) -> Option<Seq<char>> {
    match o {
        Some(s) => Some(s@),
        None => None,
    }
}

pub open spec fn is_card_attachment(count: Option<Seq<char>>, kind: Option<Seq<char>>) -> bool {
    match (count, kind) {
        (Some(c), Some(t)) => c == "1"@ && (t == "text/vcard"@ || t == "text/x-vcard"@),
        _ => false,
    }
}

/// Whether a message carries a contact card: exactly one attachment, of
/// type `text/vcard` or `text/x-vcard`.
pub fn is_contact_card(media_count: &Option<String>, media_type: &Option<String>) -> (r: bool)
    ensures
        r == is_card_attachment(opt_chars(*media_count), opt_chars(*media_type)),
{
    match (media_count, media_type) {
        (Some(c), Some(t)) => {
            *c == String::from_str("1") && (*t == String::from_str("text/vcard") || *t
                == String::from_str("text/x-vcard"))
        },
        _ => false,
    }
}

} // verus!
