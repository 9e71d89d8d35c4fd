//! The requests that open a workflow (delete, group) and the listing of a
//! submitter's groups and contacts.
use vstd::prelude::*;
use crate::matcher::{
    arranged_contacts, arranged_groups, contact_flags_any, group_flags, contact_flags,
    matching_contacts, matching_contacts_any, matching_groups,
};
use crate::records::{plan_view, ActionKind, Contact, GroupRecord, Outcome, Write, WriteView};
use crate::reply::{
    after, contact_lines, contact_list, group_lines, push_after, push_contact_lines,
    push_contact_list, push_group_lines,
};
use crate::text::{chars_of, join, join_strings, split_on, split_trimmed, trim, views};

verus! {

/// The section that lists the groups found, numbered from one.
pub open spec fn found_groups(gs: Seq<GroupRecord>) -> Seq<char> {
    if gs.len() == 0 {
        Seq::empty()
    } else {
        "Found these groups:\n"@ + group_lines(gs, true, 1)
    }
}

/// The section that lists the contacts found, numbered on from the groups.
pub open spec fn found_contacts(cs: Seq<Contact>, n_groups: nat) -> Seq<char> {
    if cs.len() == 0 {
        Seq::empty()
    } else {
        "Found these contacts:\n"@ + contact_lines(cs, true, n_groups + 1)
    }
}

pub open spec fn deletion_listing_reply(
    fragment: Seq<char>,
    gs: Seq<GroupRecord>,
    cs: Seq<Contact>,
) -> Seq<char> {
    if gs.len() == 0 && cs.len() == 0 {
        "No groups or contacts found matching \""@ + fragment + "\""@
    } else {
        after(found_groups(gs), found_contacts(cs, gs.len())) + "\nTo delete items, reply \"confirm NUM1, NUM2, ...\", where NUM1, NUM2, etc. are numbers from the lists above."@
    }
}

/// Replace any pending action by a deletion with the given candidates.
pub open spec fn deletion_plan(gs: Seq<GroupRecord>, cs: Seq<Contact>) -> Seq<WriteView> {
    if gs.len() == 0 && cs.len() == 0 {
        Seq::empty()
    } else {
        seq![WriteView::ClearPending, WriteView::SetPending(ActionKind::Deletion)] + Seq::new(
            gs.len(),
            |i: int| WriteView::AddPendingGroup(gs[i].id as int),
        ) + Seq::new(cs.len(), |i: int| WriteView::AddPendingContact(cs[i].id as int))
    }
}

/// The reply and writes for deletion candidates `gs` and `cs`, listed in
/// the given order: groups first, contacts numbered on after them.
#[verifier::spinoff_prover]
pub fn deletion_listing(fragment: &str, gs: &Vec<GroupRecord>, cs: &Vec<Contact>) -> (r: Outcome)
    requires
        gs@.len() + cs@.len() < u64::MAX,
    ensures
        r.reply@ == deletion_listing_reply(fragment@, gs@, cs@),
        plan_view(r.writes@) == deletion_plan(gs@, cs@),
{
    if gs.len() == 0 && cs.len() == 0 {
        let mut reply = String::from_str("No groups or contacts found matching \"");
        reply.append(fragment);
        reply.append("\"");
        let writes: Vec<Write> = Vec::new();
        assert(plan_view(writes@) =~= deletion_plan(gs@, cs@));
        return Outcome { reply, writes };
    }
    let mut writes: Vec<Write> = Vec::new();
    writes.push(Write::ClearPending);
    writes.push(Write::SetPending(ActionKind::Deletion));
    let ghost head = seq![WriteView::ClearPending, WriteView::SetPending(ActionKind::Deletion)];
    let ghost fg = |i: int| WriteView::AddPendingGroup(gs@[i].id as int);
    let ghost fc = |i: int| WriteView::AddPendingContact(cs@[i].id as int);
    assert(plan_view(writes@) =~= head);
    let mut i: usize = 0;
    while i < gs.len()
        invariant
            i <= gs@.len(),
            fg == (|i: int| WriteView::AddPendingGroup(gs@[i].id as int)),
            plan_view(writes@) =~= head + Seq::new(i as nat, fg),
        decreases gs@.len() - i,
    {
        let ghost before = writes@;
        writes.push(Write::AddPendingGroup(gs[i].id));
        assert(plan_view(writes@) =~= plan_view(before).push(fg(i as int)));
        assert(head + Seq::new((i + 1) as nat, fg) =~= (head + Seq::new(i as nat, fg)).push(fg(i as int)));
        i = i + 1;
    }
    let mut k: usize = 0;
    while k < cs.len()
        invariant
            k <= cs@.len(),
            fg == (|i: int| WriteView::AddPendingGroup(gs@[i].id as int)),
            fc == (|i: int| WriteView::AddPendingContact(cs@[i].id as int)),
            plan_view(writes@) =~= head + Seq::new(gs@.len(), fg) + Seq::new(k as nat, fc),
        decreases cs@.len() - k,
    {
        let ghost before = writes@;
        writes.push(Write::AddPendingContact(cs[k].id));
        assert(plan_view(writes@) =~= plan_view(before).push(fc(k as int)));
        assert(head + Seq::new(gs@.len(), fg) + Seq::new((k + 1) as nat, fc) =~= (head + Seq::new(gs@.len(), fg) + Seq::new(k as nat, fc)).push(fc(k as int)));
        k = k + 1;
    }
    let mut reply = String::new();
    if gs.len() > 0 {
        reply.append("Found these groups:\n");
        push_group_lines(&mut reply, gs, true, 1);
    }
    let mut contacts = String::new();
    if cs.len() > 0 {
        contacts.append("Found these contacts:\n");
        push_contact_lines(&mut contacts, cs, true, gs.len() as u64 + 1);
    }
    push_after(&mut reply, &contacts);
    reply.append(
        "\nTo delete items, reply \"confirm NUM1, NUM2, ...\", where NUM1, NUM2, etc. are numbers from the lists above.",
    );
    Outcome { reply, writes }
}

/// A delete request: the groups and contacts whose names match
/// `fragment`, each in name order, become the deletion candidates.
pub fn handle_delete(fragment: &str, groups: &Vec<GroupRecord>, contacts: &Vec<Contact>) -> (r: Outcome)
    requires
        groups@.len() + contacts@.len() < u64::MAX,
    ensures
        exists|gs: Seq<GroupRecord>, cs: Seq<Contact>|
            arranged_groups(groups@, group_flags(groups@, fragment@), gs) && arranged_contacts(
                contacts@,
                contact_flags(contacts@, fragment@),
                cs,
            ) && r.reply@ == deletion_listing_reply(fragment@, gs, cs) && plan_view(r.writes@)
                == deletion_plan(gs, cs),
{
    let gs = matching_groups(fragment, groups);
    let cs = matching_contacts(fragment, contacts);
    deletion_listing(fragment, &gs, &cs)
}

/// The trimmed comma-separated name fragments of a group request.
pub open spec fn name_fragments(names: Seq<char>) -> Seq<Seq<char>> {
    split_on(names, ',').map_values(|f: Seq<char>| trim(f))
}

pub open spec fn group_listing_reply(fragments: Seq<Seq<char>>, cs: Seq<Contact>) -> Seq<char> {
    if cs.len() == 0 {
        "No contacts found matching: "@ + join(fragments, ", "@)
    } else {
        "Found these contacts:\n"@ + contact_list(cs, 1)
            + "\n\nTo create a group with these contacts, reply \"confirm NUM1, NUM2, ...\""@
    }
}

/// Replace any pending action by a group with the given candidate members.
pub open spec fn group_plan(cs: Seq<Contact>) -> Seq<WriteView> {
    if cs.len() == 0 {
        Seq::empty()
    } else {
        seq![WriteView::ClearPending, WriteView::SetPending(ActionKind::Group)] + Seq::new(
            cs.len(),
            |i: int| WriteView::AddPendingMember(cs[i].id as int),
        )
    }
}

/// The reply and writes for group candidates `cs`, listed in the given
/// order.
pub fn group_listing(fragments: &Vec<String>, cs: &Vec<Contact>) -> (r: Outcome)
    requires
        cs@.len() < u64::MAX,
    ensures
        r.reply@ == group_listing_reply(views(fragments@), cs@),
        plan_view(r.writes@) == group_plan(cs@),
{
    if cs.len() == 0 {
        let mut reply = String::from_str("No contacts found matching: ");
        let joined = join_strings(fragments, ", ");
        reply.append(joined.as_str());
        let writes: Vec<Write> = Vec::new();
        assert(plan_view(writes@) =~= group_plan(cs@));
        return Outcome { reply, writes };
    }
    let mut writes: Vec<Write> = Vec::new();
    writes.push(Write::ClearPending);
    writes.push(Write::SetPending(ActionKind::Group));
    let ghost head = seq![WriteView::ClearPending, WriteView::SetPending(ActionKind::Group)];
    let ghost fc = |i: int| WriteView::AddPendingMember(cs@[i].id as int);
    assert(plan_view(writes@) =~= head);
    let mut k: usize = 0;
    while k < cs.len()
        invariant
            k <= cs@.len(),
            fc == (|i: int| WriteView::AddPendingMember(cs@[i].id as int)),
            plan_view(writes@) =~= head + Seq::new(k as nat, fc),
        decreases cs@.len() - k,
    {
        let ghost before = writes@;
        writes.push(Write::AddPendingMember(cs[k].id));
        assert(plan_view(writes@) =~= plan_view(before).push(fc(k as int)));
        assert(head + Seq::new((k + 1) as nat, fc) =~= (head + Seq::new(k as nat, fc)).push(fc(k as int)));
        k = k + 1;
    }
    let mut reply = String::from_str("Found these contacts:\n");
    push_contact_list(&mut reply, cs, 1);
    reply.append("\n\nTo create a group with these contacts, reply \"confirm NUM1, NUM2, ...\"");
    Outcome { reply, writes }
}

/// A group request: the contacts whose names match any of the
/// comma-separated fragments, each once and in name order, become the
/// candidate members.
pub fn handle_group(names: &str, contacts: &Vec<Contact>) -> (r: Outcome)
    requires
        contacts@.len() < u64::MAX,
    ensures
        exists|cs: Seq<Contact>|
            arranged_contacts(contacts@, contact_flags_any(contacts@, name_fragments(names@)), cs)
                && r.reply@ == group_listing_reply(name_fragments(names@), cs) && plan_view(
                r.writes@,
            ) == group_plan(cs),
{
    let chars = chars_of(names);
    let fragments = split_trimmed(&chars, ',');
    assert(views(fragments@) =~= name_fragments(names@));
    let cs = matching_contacts_any(&fragments, contacts);
    group_listing(&fragments, &cs)
}

/// The section that lists a submitter's groups.
pub open spec fn your_groups(gs: Seq<GroupRecord>) -> Seq<char> {
    if gs.len() == 0 {
        Seq::empty()
    } else {
        "Your groups:\n"@ + group_lines(gs, true, 1)
    }
}

/// The section that lists a submitter's contacts, numbered on from the groups.
pub open spec fn your_contacts(cs: Seq<Contact>, n_groups: nat) -> Seq<char> {
    if cs.len() == 0 {
        Seq::empty()
    } else {
        "Your contacts:\n"@ + contact_list(cs, n_groups + 1)
    }
}

pub open spec fn contacts_reply(gs: Seq<GroupRecord>, cs: Seq<Contact>) -> Seq<char> {
    if gs.len() == 0 && cs.len() == 0 {
        "You don't have any groups or contacts."@
    } else {
        after(your_groups(gs), your_contacts(cs, gs.len()))
    }
}

/// The reply to the contacts command: the submitter's groups, then the
/// contacts numbered on after them, in the given order.
pub fn list_contacts(gs: &Vec<GroupRecord>, cs: &Vec<Contact>) -> (r: String)
    requires
        gs@.len() + cs@.len() < u64::MAX,
    ensures
        r@ == contacts_reply(gs@, cs@),
{
    if gs.len() == 0 && cs.len() == 0 {
        return String::from_str("You don't have any groups or contacts.");
    }
    let mut reply = String::new();
    if gs.len() > 0 {
        reply.append("Your groups:\n");
        push_group_lines(&mut reply, gs, true, 1);
    }
    let mut contacts = String::new();
    if cs.len() > 0 {
        contacts.append("Your contacts:\n");
        push_contact_list(&mut contacts, cs, gs.len() as u64 + 1);
    }
    push_after(&mut reply, &contacts);
    reply
}

} // verus!
