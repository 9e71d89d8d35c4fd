use decisionbot::command::Command;
use decisionbot::command_word::CommandWord;
use decisionbot::dispatch::{is_contact_card, process_message, process_name, Step};
use decisionbot::models::ApiPeriodV2010PeriodAccountPeriodQueuePeriodMember;

#[test]
fn command_command() {
    let command_text = "name";
    assert_eq!(
        Command::try_from(command_text).unwrap().to_string(),
        command_text
    );
}

#[test]
fn command_word_command() {
    let command_text = "name";
    assert_eq!(
        CommandWord::try_from(command_text).unwrap().to_string(),
        command_text
    );
}

#[test]
fn command_words_ignore_ascii_case() {
    assert_eq!(CommandWord::try_from("CoNfIrM"), Ok(CommandWord::Confirm));
    assert_eq!(CommandWord::try_from("GROUP"), Ok(CommandWord::Group));
    assert!(CommandWord::try_from("help").is_err());
    assert!(CommandWord::try_from("").is_err());
    assert_eq!(Command::try_from("STOP"), Ok(Command::Stop));
    assert!(Command::try_from("delete").is_err());
}

#[test]
fn command_word_texts() {
    assert_eq!(CommandWord::H.usage(), "Reply \"h\"");
    assert_eq!(
        CommandWord::H.hint(),
        "Reply \"h\", to show a list of available commands."
    );
    assert_eq!(
        CommandWord::Name.hint(),
        "Reply \"name X\", where X is your name, to set your preferred name.\nExample: \"name John S.\""
    );
    assert_eq!(CommandWord::Info.example(), "\nExample: \"info name\"");
    assert_eq!(CommandWord::Contacts.example(), "");
    assert_eq!(
        CommandWord::Group.usage(),
        "Reply \"group X\", where X is comma-separated list of contact name fragments"
    );
    assert_eq!(CommandWord::Delete.description(), "delete a contact by name");
}

#[test]
fn command_texts() {
    assert_eq!(
        Command::Name.usage(),
        "Reply \"name X\", where X is your name.\nExample: \"name John S.\"."
    );
    assert_eq!(
        Command::Info.usage(),
        "Reply \"info X\", where X is the command you want to see help for.\nExample: \"info name\"."
    );
    assert_eq!(Command::Stop.usage(), "Reply \"stop\"");
    assert_eq!(Command::H.description(), "Show a list of available commands ");
}

fn words(ws: &[&str]) -> Vec<String> {
    ws.iter().map(|w| w.to_string()).collect()
}

#[test]
fn name_empty_gives_usage() {
    assert_eq!(process_name(&words(&[])), Err(CommandWord::Name.usage()));
}

#[test]
fn name_too_long_is_rejected() {
    let r = process_name(&words(&["Abcdefghij", "Klmnopqrst"]));
    assert_eq!(
        r,
        Err("That name is 21 characters long.\nPlease shorten it to 20 characters or less.".to_string())
    );
}

#[test]
fn name_counts_characters() {
    let twenty = "é".repeat(20);
    assert_eq!(process_name(&words(&[&twenty])), Ok(twenty.clone()));
    let twenty_one = "é".repeat(21);
    assert_eq!(
        process_name(&words(&[&twenty_one])),
        Err("That name is 21 characters long.\nPlease shorten it to 20 characters or less.".to_string())
    );
}

#[test]
fn onboarding_accepts_accented_name() {
    match process_message("name ééééééééééé", false) {
        Step::Register(name, _) => assert_eq!(name, "ééééééééééé"),
        _ => panic!("expected a registration"),
    }
}

#[test]
fn name_joins_words() {
    assert_eq!(process_name(&words(&["John", "S."])), Ok("John S.".to_string()));
}

#[test]
fn onboarding_registers_with_name() {
    match process_message("  NaMe   John  S. ", false) {
        Step::Register(name, reply) => {
            assert_eq!(name, "John S.");
            assert_eq!(
                reply,
                format!("Hello, John S.! {}", CommandWord::H.hint())
            );
        }
        _ => panic!("expected a registration"),
    }
}

#[test]
fn onboarding_rejects_other_words() {
    match process_message("hello there", false) {
        Step::Reply(r) => assert_eq!(
            r,
            format!(
                "Greetings! This is Decision Bot (https://github.com/samcarey/decisionbot).\nTo participate:\n{}",
                CommandWord::Name.hint()
            )
        ),
        _ => panic!("expected a reply"),
    }
    match process_message("name", false) {
        Step::Reply(r) => assert_eq!(r, CommandWord::Name.usage()),
        _ => panic!("expected a reply"),
    }
}

#[test]
fn registered_sender_routing() {
    match process_message("   ", true) {
        Step::Reply(r) => assert_eq!(r, CommandWord::H.hint()),
        _ => panic!(),
    }
    match process_message("frobnicate now", true) {
        Step::Reply(r) => assert_eq!(
            r,
            format!(
                "We didn't recognize that command word: \"frobnicate\".\n{}",
                CommandWord::H.hint()
            )
        ),
        _ => panic!(),
    }
    match process_message("delete", true) {
        Step::Reply(r) => assert_eq!(r, CommandWord::Delete.hint()),
        _ => panic!(),
    }
    match process_message("Delete  John   Smith", true) {
        Step::Delete(f) => assert_eq!(f, "John Smith"),
        _ => panic!(),
    }
    match process_message("confirm 1, 2", true) {
        Step::Confirm(s) => assert_eq!(s, "1, 2"),
        _ => panic!(),
    }
    match process_message("group John, Alice", true) {
        Step::Group(s) => assert_eq!(s, "John, Alice"),
        _ => panic!(),
    }
    assert!(matches!(process_message("contacts", true), Step::ListContacts));
    match process_message("stop", true) {
        Step::Unsubscribe(r) => assert_eq!(r, "You've been unsubscribed. Goodbye!"),
        _ => panic!(),
    }
    match process_message("name Jo", true) {
        Step::Rename(n, r) => {
            assert_eq!(n, "Jo");
            assert_eq!(r, "Your name has been updated to \"Jo\"");
        }
        _ => panic!(),
    }
}

#[test]
fn info_describes_a_command() {
    match process_message("info group", true) {
        Step::Reply(r) => assert_eq!(r, CommandWord::Group.hint()),
        _ => panic!(),
    }
    match process_message("info nothing", true) {
        Step::Reply(r) => assert_eq!(r, "Command \"nothing\" not recognized"),
        _ => panic!(),
    }
    match process_message("info", true) {
        Step::Reply(r) => assert_eq!(r, CommandWord::Info.hint()),
        _ => panic!(),
    }
}

#[test]
fn help_lists_every_command() {
    match process_message("H", true) {
        Step::Reply(r) => {
            assert!(r.starts_with("Available commands:\n"));
            assert!(r.contains(&CommandWord::Group.hint()));
            assert!(r.contains(&CommandWord::Stop.hint()));
        }
        _ => panic!(),
    }
}

#[test]
fn contact_card_attachments() {
    let one = Some("1".to_string());
    assert!(is_contact_card(&one, &Some("text/vcard".to_string())));
    assert!(is_contact_card(&one, &Some("text/x-vcard".to_string())));
    assert!(!is_contact_card(&one, &Some("image/png".to_string())));
    assert!(!is_contact_card(&Some("2".to_string()), &Some("text/vcard".to_string())));
    assert!(!is_contact_card(&None, &Some("text/vcard".to_string())));
}

#[test]
fn queue_member_new_is_empty() {
    let m = ApiPeriodV2010PeriodAccountPeriodQueuePeriodMember::new();
    assert_eq!(m.call_sid, None);
    assert_eq!(m.position, None);
    assert_eq!(m.queue_sid, None);
}
