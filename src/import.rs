//! Contact cards: each card either resolves at once or defers to the
//! submitter's choice among its numbers.
use vstd::prelude::*;
use crate::records::{opt_view, plan_view, ActionKind, Contact, DeferredContact, Write, WriteView};
use crate::confirm::{deferred_names, distinct_names};
use crate::reply::concat_all;
use crate::text::{dec, views};
use crate::text::push_dec;

verus! {

/// A phone number of a card, with its type label if it has one.
pub struct Phone {
    pub number: String,
    pub description: Option<String>,
}

/// A contact card: a display name and its phone numbers, in card order.
pub struct Card {
    pub name: String,
    pub phones: Vec<Phone>,
}

/// What importing a card did.
#[derive(Clone, Copy, Debug, PartialEq, Eq, Structural)]
pub enum ImportResult {
    Added,
    Updated,
    Unchanged,
    Deferred,
}

/// The position of the first contact named `name`, if any.
pub open spec fn first_named(existing: Seq<Contact>, name: Seq<char>) -> Option<int>
    decreases existing.len(),
{
    if existing.len() == 0 {
        None
    } else {
        match first_named(existing.drop_last(), name) {
            Some(i) => Some(i),
            None => if existing.last().name@ == name {
                Some(existing.len() - 1)
            } else {
                None
            },
        }
    }
}

pub open spec fn import_result(card: Card, existing: Seq<Contact>) -> Option<ImportResult> {
    if card.phones@.len() == 0 {
        None
    } else if card.phones@.len() == 1 {
        match first_named(existing, card.name@) {
            Some(i) => if existing[i].number@ == card.phones@[0].number@ {
                Some(ImportResult::Unchanged)
            } else {
                Some(ImportResult::Updated)
            },
            None => Some(ImportResult::Added),
        }
    } else {
        Some(ImportResult::Deferred)
    }
}

/// One deferred row per number of the card, in card order.
pub open spec fn deferred_rows(card: Card) -> Seq<WriteView> {
    Seq::new(
        card.phones@.len(),
        |k: int|
            WriteView::AddDeferred(
                card.name@,
                card.phones@[k].number@,
                opt_view(card.phones@[k].description),
            ),
    )
}

/// The writes for a card, given the kind of the pending action.
pub open spec fn import_plan(card: Card, existing: Seq<Contact>, pending: Option<ActionKind>) -> Seq<WriteView> {
    if card.phones@.len() == 0 {
        Seq::empty()
    } else if card.phones@.len() == 1 {
        match first_named(existing, card.name@) {
            Some(i) => if existing[i].number@ == card.phones@[0].number@ {
                Seq::empty()
            } else {
                seq![WriteView::UpdateContact(existing[i].id as int, card.phones@[0].number@)]
            },
            None => seq![WriteView::AddContact(card.name@, card.phones@[0].number@)],
        }
    } else if pending == Some(ActionKind::DeferredContacts) {
        deferred_rows(card)
    } else {
        seq![WriteView::ClearPending, WriteView::SetPending(ActionKind::DeferredContacts)]
            + deferred_rows(card)
    }
}

fn find_named(existing: &Vec<Contact>, name: &String) -> (r: Option<usize>)
    ensures
        match r {
            Some(i) => i < existing@.len() && first_named(existing@, name@) == Some(i as int),
            None => first_named(existing@, name@) is None,
        },
{
    let mut i: usize = 0;
    while i < existing.len()
        invariant
            i <= existing@.len(),
            first_named(existing@.subrange(0, i as int), name@) is None,
        decreases existing@.len() - i,
    {
        assert(existing@.subrange(0, i + 1).drop_last() =~= existing@.subrange(0, i as int));
        if existing[i].name == *name {
            proof {
                lemma_first_named_prefix(existing@, name@, i as int + 1, i as int);
            }
            return Some(i);
        }
        i = i + 1;
    }
    assert(existing@.subrange(0, existing@.len() as int) =~= existing@);
    None
}

proof fn lemma_first_named_prefix(s: Seq<Contact>, name: Seq<char>, k: int, i: int)
    requires
        0 < k <= s.len(),
        first_named(s.subrange(0, k), name) == Some(i),
    ensures
        first_named(s, name) == Some(i),
    decreases s.len() - k,
{
    if k < s.len() {
        let t = s.subrange(0, k + 1);
        assert(t.drop_last() =~= s.subrange(0, k));
        assert(first_named(t, name) == Some(i));
        lemma_first_named_prefix(s, name, k + 1, i);
    } else {
        assert(s.subrange(0, k) =~= s);
    }
}

/// Imports one card: no number skips it; one number adds the contact or
/// updates the number of the first contact of that name; several numbers
/// are recorded for the submitter to choose from, joining a deferred-contact
/// action that is already pending or replacing any other.
pub fn import_card(card: &Card, existing: &Vec<Contact>, pending: Option<ActionKind>) -> (r: (
    Option<ImportResult>,
    Vec<Write>,
))
    ensures
        r.0 == import_result(*card, existing@),
        plan_view(r.1@) == import_plan(*card, existing@, pending),
{
    let n = card.phones.len();
    let mut writes: Vec<Write> = Vec::new();
    if n == 0 {
        assert(plan_view(writes@) =~= import_plan(*card, existing@, pending));
        return (None, writes);
    }
    if n == 1 {
        let number = &card.phones[0].number;
        return match find_named(existing, &card.name) {
            Some(i) => {
                if existing[i].number == *number {
                    assert(plan_view(writes@) =~= import_plan(*card, existing@, pending));
                    (Some(ImportResult::Unchanged), writes)
                } else {
                    writes.push(Write::UpdateContact(existing[i].id, number.clone()));
                    assert(plan_view(writes@) =~= import_plan(*card, existing@, pending));
                    (Some(ImportResult::Updated), writes)
                }
            },
            None => {
                writes.push(Write::AddContact(card.name.clone(), number.clone()));
                assert(plan_view(writes@) =~= import_plan(*card, existing@, pending));
                (Some(ImportResult::Added), writes)
            },
        };
    }
    let ghost head: Seq<WriteView> = Seq::empty();
    if pending != Some(ActionKind::DeferredContacts) {
        writes.push(Write::ClearPending);
        writes.push(Write::SetPending(ActionKind::DeferredContacts));
        proof {
            head = seq![WriteView::ClearPending, WriteView::SetPending(ActionKind::DeferredContacts)];
        }
    }
    assert(plan_view(writes@) =~= head);
    let ghost f = |k: int|
        WriteView::AddDeferred(
            card.name@,
            card.phones@[k].number@,
            opt_view(card.phones@[k].description),
        );
    let mut k: usize = 0;
    while k < n
        invariant
            n == card.phones@.len(),
            k <= n,
            f == (|k: int|
                WriteView::AddDeferred(
                    card.name@,
                    card.phones@[k].number@,
                    opt_view(card.phones@[k].description),
                )),
            plan_view(writes@) =~= head + Seq::new(k as nat, f),
        decreases n - k,
    {
        let p = &card.phones[k];
        let d = match &p.description {
            Some(d) => Some(d.clone()),
            None => None,
        };
        let ghost before = writes@;
        writes.push(Write::AddDeferred(card.name.clone(), p.number.clone(), d));
        assert(plan_view(writes@) =~= plan_view(before).push(f(k as int)));
        assert(head + Seq::new((k + 1) as nat, f) =~= (head + Seq::new(k as nat, f)).push(f(k as int)));
        k = k + 1;
    }
    assert(Seq::new(n as nat, f) =~= deferred_rows(*card));
    (Some(ImportResult::Deferred), writes)
}

/// How many of `results` are `Some(k)`.
pub open spec fn count_of(results: Seq<Option<ImportResult>>, k: ImportResult) -> nat
    decreases results.len(),
{
    if results.len() == 0 {
        0
    } else {
        count_of(results.drop_last(), k) + if results.last() == Some(k) {
            1nat
        } else {
            0nat
        }
    }
}

pub open spec fn summary_text(results: Seq<Option<ImportResult>>) -> Seq<char> {
    "Contacts added: "@ + dec(count_of(results, ImportResult::Added)) + ", updated: "@ + dec(
        count_of(results, ImportResult::Updated),
    ) + ", unchanged: "@ + dec(count_of(results, ImportResult::Unchanged)) + ", to choose: "@
        + dec(count_of(results, ImportResult::Deferred)) + "."@
}

/// A one-line account of an import: how many cards were added, updated,
/// unchanged, and left to choose.
pub fn import_summary(results: &Vec<Option<ImportResult>>) -> (r: String)
    ensures
        r@ == summary_text(results@),
{
    let mut added: u64 = 0;
    let mut updated: u64 = 0;
    let mut unchanged: u64 = 0;
    let mut deferred: u64 = 0;
    let mut i: usize = 0;
    while i < results.len()
        invariant
            i <= results@.len(),
            added as nat == count_of(results@.subrange(0, i as int), ImportResult::Added),
            updated as nat == count_of(results@.subrange(0, i as int), ImportResult::Updated),
            unchanged as nat == count_of(results@.subrange(0, i as int), ImportResult::Unchanged),
            deferred as nat == count_of(results@.subrange(0, i as int), ImportResult::Deferred),
            added + updated + unchanged + deferred <= i,
        decreases results@.len() - i,
    {
        assert(results@.subrange(0, i + 1).drop_last() =~= results@.subrange(0, i as int));
        match results[i] {
            Some(ImportResult::Added) => added = added + 1,
            Some(ImportResult::Updated) => updated = updated + 1,
            Some(ImportResult::Unchanged) => unchanged = unchanged + 1,
            Some(ImportResult::Deferred) => deferred = deferred + 1,
            None => {},
        }
        i = i + 1;
    }
    assert(results@.subrange(0, results@.len() as int) =~= results@);
    let mut r = String::from_str("Contacts added: ");
    push_dec(&mut r, added);
    r.append(", updated: ");
    push_dec(&mut r, updated);
    r.append(", unchanged: ");
    push_dec(&mut r, unchanged);
    r.append(", to choose: ");
    push_dec(&mut r, deferred);
    r.append(".");
    r
}

/// The rows recorded under `name`, in insertion order.
pub open spec fn rows_named(rows: Seq<DeferredContact>, name: Seq<char>) -> Seq<DeferredContact>
    decreases rows.len(),
{
    if rows.len() == 0 {
        Seq::empty()
    } else if rows.last().name@ == name {
        rows_named(rows.drop_last(), name).push(rows.last())
    } else {
        rows_named(rows.drop_last(), name)
    }
}

/// The letter that selects the `j`-th number of a name.
pub open spec fn letter(j: nat) -> char {
    ((97 + j) as u8) as char
}

/// `   {letter}. {number}`, the label in parentheses if there is one.
pub open spec fn number_line(r: DeferredContact, j: nat) -> Seq<char> {
    "   "@ + seq![letter(j)] + ". "@ + r.number@ + match opt_view(r.description) {
        Some(d) => " ("@ + d + ")"@,
        None => Seq::empty(),
    } + "\n"@
}

/// A name's line and the lines of its first 26 numbers.
pub open spec fn name_block(k: nat, name: Seq<char>, rows: Seq<DeferredContact>) -> Seq<char> {
    let rs = rows_named(rows, name);
    let shown = if rs.len() > 26 {
        26
    } else {
        rs.len()
    };
    dec(k) + ". "@ + name + "\n"@ + concat_all(Seq::new(shown, |j: int| number_line(rs[j], j as nat)))
}

pub open spec fn choices_text(names: Seq<Seq<char>>, rows: Seq<DeferredContact>) -> Seq<char> {
    "Choose a number for each contact: reply \"confirm\" with the contact's number and the number's letter, for example \"confirm 1a\".\n"@
        + concat_all(Seq::new(names.len(), |k: int| name_block((k + 1) as nat, names[k], rows)))
}

fn rows_for(rows: &Vec<DeferredContact>, name: &String) -> (r: Vec<DeferredContact>)
    ensures
        r@ == rows_named(rows@, name@),
{
    let mut r: Vec<DeferredContact> = Vec::new();
    let mut i: usize = 0;
    while i < rows.len()
        invariant
            i <= rows@.len(),
            r@ == rows_named(rows@.subrange(0, i as int), name@),
        decreases rows@.len() - i,
    {
        assert(rows@.subrange(0, i + 1).drop_last() =~= rows@.subrange(0, i as int));
        if rows[i].name == *name {
            r.push(rows[i].copy());
        }
        i = i + 1;
    }
    assert(rows@.subrange(0, rows@.len() as int) =~= rows@);
    r
}

fn push_name_block(out: &mut String, k: u64, name: &String, rows: &Vec<DeferredContact>)
    ensures
        final(out)@ == old(out)@ + name_block(k as nat, name@, rows@),
{
    let rs = rows_for(rows, name);
    let shown: usize = if rs.len() > 26 {
        26
    } else {
        rs.len()
    };
    push_dec(out, k);
    out.append(". ");
    out.append(name.as_str());
    out.append("\n");
    let ghost start = out@;
    let ghost f = |j: int| number_line(rs@[j], j as nat);
    let mut j: usize = 0;
    while j < shown
        invariant
            shown <= rs@.len(),
            shown <= 26,
            j <= shown,
            f == (|j: int| number_line(rs@[j], j as nat)),
            out@ == start + concat_all(Seq::new(j as nat, f)),
        decreases shown - j,
    {
        out.append("   ");
        out.push((97u8 + j as u8) as char);
        out.append(". ");
        out.append(rs[j].number.as_str());
        match &rs[j].description {
            Some(d) => {
                out.append(" (");
                out.append(d.as_str());
                out.append(")");
            },
            None => {},
        }
        out.append("\n");
        assert(Seq::new((j + 1) as nat, f).drop_last() =~= Seq::new(j as nat, f));
        j = j + 1;
    }
}

/// The choices that deferred contacts leave: each name numbered in the
/// given order, with its numbers lettered in insertion order, as a
/// deferred-contact confirmation reads them.
pub fn deferred_choices(names: &Vec<String>, rows: &Vec<DeferredContact>) -> (r: String)
    ensures
        r@ == choices_text(views(names@), rows@),
{
    let mut r = String::from_str(
        "Choose a number for each contact: reply \"confirm\" with the contact's number and the number's letter, for example \"confirm 1a\".\n",
    );
    let ghost start = r@;
    let ghost nv = views(names@);
    let ghost f = |k: int| name_block((k + 1) as nat, nv[k], rows@);
    let mut k: usize = 0;
    while k < names.len()
        invariant
            nv == views(names@),
            k <= names@.len(),
            f == (|k: int| name_block((k + 1) as nat, nv[k], rows@)),
            r@ == start + concat_all(Seq::new(k as nat, f)),
        decreases names@.len() - k,
    {
        push_name_block(&mut r, k as u64 + 1, &names[k], rows);
        assert(nv[k as int] == names@[k as int]@);
        assert(Seq::new((k + 1) as nat, f).drop_last() =~= Seq::new(k as nat, f));
        k = k + 1;
    }
    r
}

pub open spec fn import_reply_text(
    results: Seq<Option<ImportResult>>,
    names: Seq<Seq<char>>,
    rows: Seq<DeferredContact>,
) -> Seq<char> {
    if rows.len() == 0 {
        summary_text(results)
    } else {
        summary_text(results) + "\n"@ + choices_text(names, rows)
    }
}

/// The reply to a contact-card submission: the summary, then the choices
/// that the submitter's deferred rows leave, names in name order.
pub fn import_reply(results: &Vec<Option<ImportResult>>, rows: &Vec<DeferredContact>) -> (r: String)
    ensures
        exists|names: Seq<Seq<char>>|
            deferred_names(rows@, names) && r@ == import_reply_text(results@, names, rows@),
{
    let names = distinct_names(rows);
    let mut r = import_summary(results);
    if rows.len() > 0 {
        r.append("\n");
        let choices = deferred_choices(&names, rows);
        r.append(choices.as_str());
    }
    assert(deferred_names(rows@, views(names@)));
    r
}

} // verus!
