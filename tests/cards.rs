use decisionbot::import::{import_reply, import_summary, ImportResult};
use decisionbot::records::DeferredContact;
use decisionbot::vcard::parse_cards;

#[test]
fn parses_cards_with_labels() {
    let text = "BEGIN:VCARD\r\nVERSION:3.0\r\nFN:Dana Scully\r\nTEL;TYPE=CELL:+15550000001\r\nTEL;type=WORK;VOICE:+15550000002\r\nEND:VCARD\r\nbegin:vcard\r\nfn: Fox \r\ntel:+15550000003\r\nTEL;HOME:+15550000004\r\nend:vcard\r\n";
    let cards = parse_cards(text);
    assert_eq!(cards.len(), 2);
    assert_eq!(cards[0].name, "Dana Scully");
    assert_eq!(cards[0].phones.len(), 2);
    assert_eq!(cards[0].phones[0].number, "+15550000001");
    assert_eq!(cards[0].phones[0].description, Some("CELL".to_string()));
    assert_eq!(cards[0].phones[1].number, "+15550000002");
    assert_eq!(cards[0].phones[1].description, Some("WORK".to_string()));
    assert_eq!(cards[1].name, "Fox");
    assert_eq!(cards[1].phones[0].description, None);
    assert_eq!(cards[1].phones[1].description, Some("HOME".to_string()));
}

#[test]
fn skips_cards_without_name_and_lines_outside_cards() {
    let text = "FN:Nobody\nTEL:+1\nBEGIN:VCARD\nTEL:+15550000001\nEND:VCARD\nBEGIN:VCARD\nFN:Ann\nTEL:\nEND:VCARD";
    let cards = parse_cards(text);
    assert_eq!(cards.len(), 1);
    assert_eq!(cards[0].name, "Ann");
    assert!(cards[0].phones.is_empty());
    assert!(parse_cards("").is_empty());
}

#[test]
fn summary_counts() {
    let results = vec![
        Some(ImportResult::Added),
        Some(ImportResult::Added),
        Some(ImportResult::Updated),
        None,
        Some(ImportResult::Deferred),
    ];
    assert_eq!(
        import_summary(&results),
        "Contacts added: 2, updated: 1, unchanged: 0, to choose: 1."
    );
}

#[test]
fn reply_lists_choices_in_name_order() {
    let rows = vec![
        DeferredContact { name: "Zoe".to_string(), number: "+1".to_string(), description: None },
        DeferredContact { name: "Amy".to_string(), number: "+2".to_string(), description: Some("cell".to_string()) },
        DeferredContact { name: "Zoe".to_string(), number: "+3".to_string(), description: None },
    ];
    let reply = import_reply(&vec![Some(ImportResult::Deferred), Some(ImportResult::Added)], &rows);
    assert_eq!(
        reply,
        "Contacts added: 1, updated: 0, unchanged: 0, to choose: 1.\nChoose a number for each contact: reply \"confirm\" with the contact's number and the number's letter, for example \"confirm 1a\".\n1. Amy\n   a. +2 (cell)\n2. Zoe\n   a. +1\n   b. +3\n"
    );
    assert_eq!(
        import_reply(&vec![Some(ImportResult::Unchanged)], &vec![]),
        "Contacts added: 0, updated: 0, unchanged: 1, to choose: 0."
    );
}

#[test]
fn card_numbers_become_e164() {
    let text = "BEGIN:VCARD\nFN:Ann\nTEL;TYPE=CELL:(555) 123-4567\nTEL:1 555 123 4568\nTEL:+44 20 7946 0958\nTEL:12345\nEND:VCARD\n";
    let cards = parse_cards(text);
    assert_eq!(cards.len(), 1);
    let numbers: Vec<&str> = cards[0].phones.iter().map(|p| p.number.as_str()).collect();
    assert_eq!(numbers, vec!["+15551234567", "+15551234568", "+442079460958", "12345"]);
}
