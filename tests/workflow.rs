use decisionbot::confirm::{confirm_deferred, confirm_deletion, create_group, handle_confirm, Pending};
use decisionbot::import::{import_card, Card, ImportResult, Phone};
use decisionbot::records::{ActionKind, Contact, DeferredContact, GroupRecord, Write};
use decisionbot::reply::area_code_text;
use decisionbot::requests::{handle_delete, handle_group, list_contacts};

fn contact(id: i64, name: &str, number: &str) -> Contact {
    Contact { id, name: name.to_string(), number: number.to_string() }
}

fn group(id: i64, name: &str, members: u64) -> GroupRecord {
    GroupRecord { id, name: name.to_string(), member_count: members }
}

fn deferred(name: &str, number: &str) -> DeferredContact {
    DeferredContact { name: name.to_string(), number: number.to_string(), description: None }
}

#[test]
fn area_codes() {
    assert_eq!(area_code_text("+15551234567"), "555");
    assert_eq!(area_code_text("+4930123456"), "???");
    assert_eq!(area_code_text("+1555123456x"), "???");
}

#[test]
fn group_request_then_confirm() {
    let contacts = vec![
        contact(1, "John Smith", "+15551230001"),
        contact(2, "Bob Brown", "+16461230002"),
        contact(3, "Alice Jones", "+12121230003"),
    ];
    let out = handle_group("John, Alice", &contacts);
    assert_eq!(
        out.reply,
        "Found these contacts:\n1. Alice Jones (212)\n2. John Smith (555)\n\nTo create a group with these contacts, reply \"confirm NUM1, NUM2, ...\""
    );
    assert_eq!(out.writes.len(), 4);
    assert!(matches!(out.writes[0], Write::ClearPending));
    assert!(matches!(out.writes[1], Write::SetPending(ActionKind::Group)));
    assert!(matches!(out.writes[2], Write::AddPendingMember(3)));
    assert!(matches!(out.writes[3], Write::AddPendingMember(1)));

    let candidates = vec![contact(1, "John Smith", "+15551230001"), contact(3, "Alice Jones", "+12121230003")];
    let done = handle_confirm("1, 2", &Pending::Group(candidates, vec![]));
    assert_eq!(
        done.reply,
        "Created group \"group0\" with 2 members:\n• Alice Jones (212)\n• John Smith (555)\n"
    );
    assert_eq!(done.writes.len(), 2);
    match &done.writes[0] {
        Write::CreateGroup(name, numbers) => {
            assert_eq!(name, "group0");
            assert_eq!(numbers, &vec!["+12121230003".to_string(), "+15551230001".to_string()]);
        }
        _ => panic!("expected a new group"),
    }
    assert!(matches!(done.writes[1], Write::ClearPending));
}

#[test]
fn group_request_without_match() {
    let contacts = vec![contact(1, "John Smith", "+15551230001")];
    let out = handle_group("Zed ,  Yan", &contacts);
    assert_eq!(out.reply, "No contacts found matching: Zed, Yan");
    assert!(out.writes.is_empty());
}

#[test]
fn group_request_lists_each_contact_once() {
    let contacts = vec![contact(7, "John Johnson", "+15551230001")];
    let out = handle_group("john, JOHNSON", &contacts);
    assert_eq!(out.writes.len(), 3);
    assert!(out.reply.starts_with("Found these contacts:\n1. John Johnson (555)\n\n"));
}

#[test]
fn group_confirm_reports_bad_numbers() {
    let candidates = vec![contact(1, "John Smith", "+15551230001")];
    let existing = vec!["group0".to_string(), "group2".to_string()];
    let done = handle_confirm("1, 5, x", &Pending::Group(candidates, existing));
    assert_eq!(
        done.reply,
        "Created group \"group1\" with 1 members:\n• John Smith (555)\n\nErrors:\nInvalid selection: 5\nInvalid number: x"
    );
}

#[test]
fn first_free_group_name() {
    let members = vec![contact(1, "A", "+15551230001")];
    let out = create_group(&members, &vec![], &vec!["group0".to_string(), "group1".to_string()]);
    assert!(out.reply.starts_with("Created group \"group2\" with 1 members:\n"));
}

#[test]
fn delete_request_then_confirm_group_only() {
    let groups = vec![group(10, "group0", 2), group(11, "family", 3)];
    let contacts = vec![contact(1, "John Smith", "+15551230001"), contact(2, "Bob", "+15551230002")];
    let out = handle_delete("O", &groups, &contacts);
    assert_eq!(
        out.reply,
        "Found these groups:\n1. group0 (2 members)\n\nFound these contacts:\n2. Bob (555)\n3. John Smith (555)\n\nTo delete items, reply \"confirm NUM1, NUM2, ...\", where NUM1, NUM2, etc. are numbers from the lists above."
    );
    assert_eq!(out.writes.len(), 5);
    assert!(matches!(out.writes[1], Write::SetPending(ActionKind::Deletion)));
    assert!(matches!(out.writes[2], Write::AddPendingGroup(10)));
    assert!(matches!(out.writes[3], Write::AddPendingContact(2)));
    assert!(matches!(out.writes[4], Write::AddPendingContact(1)));

    let pending = Pending::Deletion(vec![group(10, "group0", 2)], vec![contact(1, "John Smith", "+15551230001")]);
    let done = handle_confirm("1", &pending);
    assert_eq!(done.reply, "Deleted 1 group:\n• group0 (2 members)\n");
    assert_eq!(done.writes.len(), 2);
    assert!(matches!(done.writes[0], Write::DeleteGroup(10)));
    assert!(matches!(done.writes[1], Write::ClearPending));
}

#[test]
fn delete_request_without_match() {
    let out = handle_delete("zzz", &vec![group(1, "group0", 0)], &vec![]);
    assert_eq!(out.reply, "No groups or contacts found matching \"zzz\"");
    assert!(out.writes.is_empty());
}

#[test]
fn deletion_index_mapping() {
    let groups = vec![group(10, "a", 1), group(11, "b", 0)];
    let contacts = vec![contact(5, "Carl", "+15551230001")];
    let done = confirm_deletion("3, 2, +1, 4, 0, x", &groups, &contacts);
    assert_eq!(
        done.reply,
        "Deleted 2 groups:\n• b (0 members)\n• a (1 members)\n\nDeleted 1 contact:\n• Carl (555)\n\nErrors:\nInvalid selection: 4\nInvalid selection: 0\nInvalid selection: x"
    );
    assert_eq!(done.writes.len(), 4);
    assert!(matches!(done.writes[0], Write::DeleteGroup(11)));
    assert!(matches!(done.writes[1], Write::DeleteGroup(10)));
    assert!(matches!(done.writes[2], Write::DeleteContact(5)));
    assert!(matches!(done.writes[3], Write::ClearPending));
}

#[test]
fn confirm_with_nothing_pending_twice() {
    let first = handle_confirm("1", &Pending::Nothing);
    let second = handle_confirm("1", &Pending::Nothing);
    assert_eq!(first.reply, "No pending actions to confirm.");
    assert_eq!(second.reply, first.reply);
    assert!(first.writes.is_empty());
    assert!(second.writes.is_empty());
}

#[test]
fn deferred_tokens() {
    let rows = vec![
        deferred("Zoe", "+15550000001"),
        deferred("Amy", "+15550000002"),
        deferred("Zoe", "+15550000003"),
        deferred("Amy", "+15550000004"),
    ];
    // Names are numbered in name order: 1 is Amy, 2 is Zoe.
    let done = confirm_deferred("2b", &rows);
    assert_eq!(done.reply, "Successfully added 1 contact:\n• Zoe (+15550000003)\n");
    assert_eq!(done.writes.len(), 2);
    match &done.writes[0] {
        Write::AddContact(n, p) => {
            assert_eq!(n, "Zoe");
            assert_eq!(p, "+15550000003");
        }
        _ => panic!(),
    }
    assert!(matches!(&done.writes[1], Write::DropDeferred(n) if n == "Zoe"));

    let bad = confirm_deferred("0a, 2z, 3a, b, 1", &rows);
    assert_eq!(
        bad.reply,
        "Failed to process:\n• Invalid contact number: 0\n• Invalid letter selection: z\n• Contact number 3 not found\n• Invalid contact number: \n• Invalid selection format: 1\n"
    );
    assert!(bad.writes.is_empty());
}

#[test]
fn deferred_all_resolved_clears_pending() {
    let rows = vec![deferred("Zoe", "+15550000001"), deferred("Amy", "+15550000002")];
    let done = confirm_deferred("1a, 2a", &rows);
    assert_eq!(
        done.reply,
        "Successfully added 2 contacts:\n• Amy (+15550000002)\n• Zoe (+15550000001)\n"
    );
    assert_eq!(done.writes.len(), 5);
    assert!(matches!(done.writes[4], Write::ClearPending));
}

#[test]
fn card_round_trip() {
    let card = Card {
        name: "Dana".to_string(),
        phones: vec![
            Phone { number: "+15550000001".to_string(), description: Some("cell".to_string()) },
            Phone { number: "+15550000002".to_string(), description: None },
        ],
    };
    let (result, writes) = import_card(&card, &vec![], None);
    assert_eq!(result, Some(ImportResult::Deferred));
    assert_eq!(writes.len(), 4);
    assert!(matches!(writes[0], Write::ClearPending));
    assert!(matches!(writes[1], Write::SetPending(ActionKind::DeferredContacts)));
    assert!(matches!(&writes[2], Write::AddDeferred(n, p, Some(d)) if n == "Dana" && p == "+15550000001" && d == "cell"));
    assert!(matches!(&writes[3], Write::AddDeferred(n, p, None) if n == "Dana" && p == "+15550000002"));

    let rows = vec![deferred("Dana", "+15550000001"), deferred("Dana", "+15550000002")];
    let done = handle_confirm("1a", &Pending::DeferredContacts(rows));
    assert_eq!(done.writes.len(), 3);
    assert!(matches!(&done.writes[0], Write::AddContact(n, p) if n == "Dana" && p == "+15550000001"));
    assert!(matches!(&done.writes[1], Write::DropDeferred(n) if n == "Dana"));
    assert!(matches!(done.writes[2], Write::ClearPending));
}

#[test]
fn second_card_joins_pending_deferred() {
    let card = Card {
        name: "Eve".to_string(),
        phones: vec![
            Phone { number: "+1".to_string(), description: None },
            Phone { number: "+2".to_string(), description: None },
        ],
    };
    let (_, writes) = import_card(&card, &vec![], Some(ActionKind::DeferredContacts));
    assert_eq!(writes.len(), 2);
    assert!(matches!(writes[0], Write::AddDeferred(..)));
}

#[test]
fn single_number_cards() {
    let existing = vec![contact(4, "Fay", "+15550000009")];
    let same = Card { name: "Fay".to_string(), phones: vec![Phone { number: "+15550000009".to_string(), description: None }] };
    let (r, w) = import_card(&same, &existing, None);
    assert_eq!(r, Some(ImportResult::Unchanged));
    assert!(w.is_empty());
    let other = Card { name: "Fay".to_string(), phones: vec![Phone { number: "+15550000008".to_string(), description: None }] };
    let (r, w) = import_card(&other, &existing, None);
    assert_eq!(r, Some(ImportResult::Updated));
    assert!(matches!(&w[0], Write::UpdateContact(4, p) if p == "+15550000008"));
    let new = Card { name: "Gus".to_string(), phones: vec![Phone { number: "+15550000007".to_string(), description: None }] };
    let (r, w) = import_card(&new, &existing, None);
    assert_eq!(r, Some(ImportResult::Added));
    assert!(matches!(&w[0], Write::AddContact(n, _) if n == "Gus"));
    let empty = Card { name: "Hal".to_string(), phones: vec![] };
    let (r, w) = import_card(&empty, &existing, None);
    assert_eq!(r, None);
    assert!(w.is_empty());
}

#[test]
fn contacts_listing() {
    assert_eq!(list_contacts(&vec![], &vec![]), "You don't have any groups or contacts.");
    let r = list_contacts(
        &vec![group(1, "group0", 2)],
        &vec![contact(1, "Amy", "+15551230001"), contact(2, "Bo", "bad")],
    );
    assert_eq!(r, "Your groups:\n1. group0 (2 members)\n\nYour contacts:\n2. Amy (555)\n3. Bo (???)");
}

#[test]
fn name_order_is_binary() {
    let contacts = vec![
        contact(3, "bob", "+15551230003"),
        contact(2, "alice", "+15551230002"),
        contact(1, "Alice", "+15551230001"),
    ];
    let out = handle_group("", &contacts);
    assert!(out.reply.starts_with("Found these contacts:\n1. Alice (555)\n2. alice (555)\n3. bob (555)"));
}

#[test]
fn unknown_pending_kind() {
    let done = handle_confirm("1", &Pending::Unrecognized);
    assert_eq!(done.reply, "Invalid action type");
    assert!(done.writes.is_empty());
}
