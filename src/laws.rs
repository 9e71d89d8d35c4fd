//! Properties that hold across handlers and across calls, stated over the
//! model of a submitter's pending-state rows.
use vstd::prelude::*;
use crate::confirm::{
    created_plan, deferred_names, deferred_plan, deferred_take, deferred_takes,
    deletion_confirm_plan, deletion_pick, deletion_picks, group_name, has_row_named,
    items, member_numbers, numbers_of, rows_left, takes, taken_names, tally, Pick, Take,
};
use crate::number::{all_digits, digits_value, parse_number, unsigned_part};
use crate::confirm::all_true;
use crate::matcher::{arranged_contacts, arranged_groups, contact_ids, contact_names, group_ids, group_names};
use crate::order::{before, key_lt, key_of, lemma_key_facts, lemma_lex_irreflexive, lex_lt, picks};
use crate::reply::is_digit;
use crate::text::{dec, digit_char, split_on, trim_end, trim_start};
use crate::import::{deferred_rows, import_plan, Card};
use crate::records::{
    apply, apply_all, opt_view, well_formed, ActionKind, Candidate, Contact, DeferredContact,
    DeferredRow, GroupRecord, PendingState, WriteView,
};
use crate::requests::{deletion_plan, group_plan};

verus! {

/// A write that leaves the pending-state rows as they are.
pub open spec fn is_neutral(w: WriteView) -> bool {
    match w {
        WriteView::DeleteGroup(_) => true,
        WriteView::DeleteContact(_) => true,
        WriteView::CreateGroup(_, _) => true,
        WriteView::AddContact(_, _) => true,
        WriteView::UpdateContact(_, _) => true,
        _ => false,
    }
}

pub proof fn lemma_apply_concat(s: PendingState, p: Seq<WriteView>, q: Seq<WriteView>)
    ensures
        apply_all(s, p + q) == apply_all(apply_all(s, p), q),
    decreases q.len(),
{
    if q.len() == 0 {
        assert(p + q =~= p);
    } else {
        assert((p + q).drop_last() =~= p + q.drop_last());
        lemma_apply_concat(s, p, q.drop_last());
    }
}

pub proof fn lemma_apply_neutral(s: PendingState, p: Seq<WriteView>)
    requires
        forall|k: int| 0 <= k < p.len() ==> is_neutral(#[trigger] p[k]),
    ensures
        apply_all(s, p) == s,
    decreases p.len(),
{
    if p.len() > 0 {
        lemma_apply_neutral(s, p.drop_last());
        assert(is_neutral(p[p.len() - 1]));
    }
}

pub open spec fn with_deletions(s: PendingState, d: Seq<Candidate>) -> PendingState {
    PendingState { deletions: d, ..s }
}

pub open spec fn with_members(s: PendingState, m: Seq<int>) -> PendingState {
    PendingState { members: m, ..s }
}

pub proof fn lemma_apply_two(s: PendingState, a: WriteView, b: WriteView)
    ensures
        apply_all(s, seq![a, b]) == apply(apply(s, a), b),
        apply_all(s, seq![a]) == apply(s, a),
{
    assert(seq![a, b].drop_last() =~= seq![a]);
    assert(seq![a].drop_last() =~= Seq::<WriteView>::empty());
    assert(apply_all(s, Seq::<WriteView>::empty()) == s);
    assert(apply_all(s, seq![a]) == apply(apply_all(s, Seq::<WriteView>::empty()), a));
}

/// Appending deletion candidates of groups.
proof fn lemma_apply_group_candidates(s: PendingState, ids: Seq<int>)
    ensures
        apply_all(s, Seq::new(ids.len(), |i: int| WriteView::AddPendingGroup(ids[i])))
            == with_deletions(s, s.deletions + Seq::new(ids.len(), |i: int| Candidate::Group(ids[i]))),
    decreases ids.len(),
{
    let p = Seq::new(ids.len(), |i: int| WriteView::AddPendingGroup(ids[i]));
    if ids.len() == 0 {
        assert(s.deletions + Seq::new(ids.len(), |i: int| Candidate::Group(ids[i])) =~= s.deletions);
    } else {
        let d = ids.drop_last();
        lemma_apply_group_candidates(s, d);
        assert(p.drop_last() =~= Seq::new(d.len(), |i: int| WriteView::AddPendingGroup(d[i])));
        assert(s.deletions + Seq::new(ids.len(), |i: int| Candidate::Group(ids[i])) =~= (s.deletions
            + Seq::new(d.len(), |i: int| Candidate::Group(d[i]))).push(Candidate::Group(ids.last())));
    }
}

/// Appending deletion candidates of contacts.
proof fn lemma_apply_contact_candidates(s: PendingState, ids: Seq<int>)
    ensures
        apply_all(s, Seq::new(ids.len(), |i: int| WriteView::AddPendingContact(ids[i])))
            == with_deletions(s, s.deletions + Seq::new(ids.len(), |i: int| Candidate::Contact(ids[i]))),
    decreases ids.len(),
{
    let p = Seq::new(ids.len(), |i: int| WriteView::AddPendingContact(ids[i]));
    if ids.len() == 0 {
        assert(s.deletions + Seq::new(ids.len(), |i: int| Candidate::Contact(ids[i])) =~= s.deletions);
    } else {
        let d = ids.drop_last();
        lemma_apply_contact_candidates(s, d);
        assert(p.drop_last() =~= Seq::new(d.len(), |i: int| WriteView::AddPendingContact(d[i])));
        assert(s.deletions + Seq::new(ids.len(), |i: int| Candidate::Contact(ids[i])) =~= (s.deletions
            + Seq::new(d.len(), |i: int| Candidate::Contact(d[i]))).push(Candidate::Contact(ids.last())));
    }
}

/// Appending candidate members.
proof fn lemma_apply_members(s: PendingState, ids: Seq<int>)
    ensures
        apply_all(s, Seq::new(ids.len(), |i: int| WriteView::AddPendingMember(ids[i])))
            == with_members(s, s.members + ids),
    decreases ids.len(),
{
    let p = Seq::new(ids.len(), |i: int| WriteView::AddPendingMember(ids[i]));
    if ids.len() == 0 {
        assert(s.members + ids =~= s.members);
    } else {
        let d = ids.drop_last();
        lemma_apply_members(s, d);
        assert(p.drop_last() =~= Seq::new(d.len(), |i: int| WriteView::AddPendingMember(d[i])));
        assert(s.members + ids =~= (s.members + d).push(ids.last()));
    }
}

pub open spec fn group_id_list(gs: Seq<GroupRecord>) -> Seq<int> {
    Seq::new(gs.len(), |i: int| gs[i].id as int)
}

pub open spec fn contact_id_list(cs: Seq<Contact>) -> Seq<int> {
    Seq::new(cs.len(), |i: int| cs[i].id as int)
}

/// A delete request that finds candidates leaves exactly one pending
/// action, a deletion, whose candidates are exactly the ones found: the
/// candidates of any earlier action are gone, deferred contact rows
/// included. One that finds nothing changes nothing.
pub proof fn lemma_delete_request_replaces(s: PendingState, gs: Seq<GroupRecord>, cs: Seq<Contact>)
    requires
        well_formed(s),
    ensures
        ({
            let t = apply_all(s, deletion_plan(gs, cs));
            &&& well_formed(t)
            &&& gs.len() + cs.len() > 0 ==> {
                &&& t.actions == seq![ActionKind::Deletion]
                &&& t.deletions == Seq::new(gs.len(), |i: int| Candidate::Group(gs[i].id as int))
                    + Seq::new(cs.len(), |i: int| Candidate::Contact(cs[i].id as int))
                &&& t.members.len() == 0
                &&& t.deferred.len() == 0
            }
            &&& gs.len() + cs.len() == 0 ==> t == s
        }),
{
    if gs.len() + cs.len() > 0 {
        let head = seq![WriteView::ClearPending, WriteView::SetPending(ActionKind::Deletion)];
        let pg = Seq::new(gs.len(), |i: int| WriteView::AddPendingGroup(gs[i].id as int));
        let pc = Seq::new(cs.len(), |i: int| WriteView::AddPendingContact(cs[i].id as int));
        let gi = group_id_list(gs);
        let ci = contact_id_list(cs);
        assert(pg =~= Seq::new(gi.len(), |i: int| WriteView::AddPendingGroup(gi[i])));
        assert(pc =~= Seq::new(ci.len(), |i: int| WriteView::AddPendingContact(ci[i])));
        lemma_apply_concat(s, head + pg, pc);
        lemma_apply_concat(s, head, pg);
        lemma_apply_two(s, WriteView::ClearPending, WriteView::SetPending(ActionKind::Deletion));
        let s1 = apply_all(s, head);
        assert(s1.actions =~= seq![ActionKind::Deletion]);
        assert(s1.deletions =~= Seq::<Candidate>::empty());
        lemma_apply_group_candidates(s1, gi);
        let s2 = apply_all(s1, pg);
        lemma_apply_contact_candidates(s2, ci);
        assert(Seq::<Candidate>::empty() + Seq::new(gi.len(), |i: int| Candidate::Group(gi[i]))
            =~= Seq::new(gs.len(), |i: int| Candidate::Group(gs[i].id as int)));
        assert(Seq::new(ci.len(), |i: int| Candidate::Contact(ci[i])) =~= Seq::new(
            cs.len(),
            |i: int| Candidate::Contact(cs[i].id as int),
        ));
    }
}

/// A group request that finds candidates leaves exactly one pending action,
/// a group, whose candidates are exactly the ones found; no deletion
/// candidates and no deferred contact rows remain.
pub proof fn lemma_group_request_replaces(s: PendingState, cs: Seq<Contact>)
    requires
        well_formed(s),
    ensures
        ({
            let t = apply_all(s, group_plan(cs));
            &&& well_formed(t)
            &&& cs.len() > 0 ==> {
                &&& t.actions == seq![ActionKind::Group]
                &&& t.members == contact_id_list(cs)
                &&& t.deletions.len() == 0
                &&& t.deferred.len() == 0
            }
            &&& cs.len() == 0 ==> t == s
        }),
{
    if cs.len() > 0 {
        let head = seq![WriteView::ClearPending, WriteView::SetPending(ActionKind::Group)];
        let pm = Seq::new(cs.len(), |i: int| WriteView::AddPendingMember(cs[i].id as int));
        let ci = contact_id_list(cs);
        assert(pm =~= Seq::new(ci.len(), |i: int| WriteView::AddPendingMember(ci[i])));
        lemma_apply_concat(s, head, pm);
        lemma_apply_two(s, WriteView::ClearPending, WriteView::SetPending(ActionKind::Group));
        let s1 = apply_all(s, head);
        assert(s1.actions =~= seq![ActionKind::Group]);
        lemma_apply_members(s1, ci);
        assert(Seq::<int>::empty() + ci =~= ci);
    }
}

pub open spec fn with_deferred(s: PendingState, d: Seq<DeferredRow>) -> PendingState {
    PendingState { deferred: d, ..s }
}

/// The pending-state rows with the pending action and its candidates gone.
pub open spec fn cleared(s: PendingState) -> PendingState {
    PendingState {
        actions: Seq::empty(),
        deletions: Seq::empty(),
        members: Seq::empty(),
        deferred: Seq::empty(),
    }
}

proof fn lemma_neutral_then_clear(s: PendingState, q: Seq<WriteView>)
    requires
        forall|k: int| 0 <= k < q.len() ==> is_neutral(#[trigger] q[k]),
    ensures
        apply_all(s, q + seq![WriteView::ClearPending]) == cleared(s),
{
    lemma_apply_concat(s, q, seq![WriteView::ClearPending]);
    lemma_apply_neutral(s, q);
    lemma_apply_two(s, WriteView::ClearPending, WriteView::ClearPending);
}

/// Confirming a deletion clears the pending action and its candidates; a
/// confirmation with no selection at all
/// changes nothing.
pub proof fn lemma_confirm_deletion_clears(
    s: PendingState,
    sel: Seq<char>,
    gs: Seq<GroupRecord>,
    cs: Seq<Contact>,
)
    requires
        well_formed(s),
    ensures
        ({
            let p = deletion_confirm_plan(sel, gs, cs);
            let t = apply_all(s, p);
            &&& well_formed(t)
            &&& p.len() > 0 ==> t == cleared(s)
            &&& p.len() == 0 ==> t == s
        }),
{
    let p = deletion_confirm_plan(sel, gs, cs);
    if p.len() > 0 {
        let (g, c, b) = tally(deletion_picks(items(sel), gs.len() as int, cs.len() as int));
        let q = Seq::new(g.len(), |k: int| WriteView::DeleteGroup(gs[g[k]].id as int)) + Seq::new(
            c.len(),
            |k: int| WriteView::DeleteContact(cs[c[k]].id as int),
        );
        assert(p == q + seq![WriteView::ClearPending]);
        assert forall|k: int| 0 <= k < q.len() implies is_neutral(#[trigger] q[k]) by {}
        lemma_neutral_then_clear(s, q);
    }
}

/// Creating a group clears the pending action and its candidates.
pub proof fn lemma_create_group_clears(s: PendingState, n: nat, members: Seq<Contact>)
    ensures
        apply_all(s, created_plan(n, members)) == cleared(s),
        well_formed(cleared(s)),
{
    let q = seq![WriteView::CreateGroup(group_name(n), member_numbers(members))];
    assert(created_plan(n, members) =~= q + seq![WriteView::ClearPending]);
    assert forall|k: int| 0 <= k < q.len() implies is_neutral(#[trigger] q[k]) by {}
    lemma_neutral_then_clear(s, q);
}

proof fn lemma_apply_drops(s: PendingState, names: Seq<Seq<char>>)
    ensures
        ({
            let t = apply_all(s, Seq::new(names.len(), |k: int| WriteView::DropDeferred(names[k])));
            &&& t.actions == s.actions && t.deletions == s.deletions && t.members == s.members
            &&& s.deferred.len() == 0 ==> t.deferred.len() == 0
        }),
    decreases names.len(),
{
    if names.len() > 0 {
        let d = names.drop_last();
        lemma_apply_drops(s, d);
        assert(Seq::new(names.len(), |k: int| WriteView::DropDeferred(names[k])).drop_last()
            =~= Seq::new(d.len(), |k: int| WriteView::DropDeferred(d[k])));
        let t0 = apply_all(s, Seq::new(d.len(), |k: int| WriteView::DropDeferred(d[k])));
        if t0.deferred.len() == 0 {
            reveal_with_fuel(Seq::<DeferredRow>::filter, 1);
            assert(t0.deferred.filter(|r: DeferredRow| r.0 != names.last()).len() == 0);
        }
    }
}

/// Confirming deferred contacts keeps at most one pending action with no
/// orphaned candidates: the pending action is either kept or cleared.
pub proof fn lemma_confirm_deferred_well_formed(
    s: PendingState,
    sel: Seq<char>,
    names: Seq<Seq<char>>,
    rows: Seq<DeferredContact>,
)
    requires
        well_formed(s),
    ensures
        well_formed(apply_all(s, deferred_plan(sel, names, rows))),
{
    let t = takes(deferred_takes(items(sel), names, rows)).0;
    let adds = Seq::new(t.len(), |k: int| WriteView::AddContact(t[k].0, t[k].1));
    let tn = taken_names(t);
    let drops = Seq::new(t.len(), |k: int| WriteView::DropDeferred(t[k].0));
    assert(drops =~= Seq::new(tn.len(), |k: int| WriteView::DropDeferred(tn[k])));
    let tail = if rows_left(rows, tn) == 0 {
        seq![WriteView::ClearPending]
    } else {
        Seq::empty()
    };
    assert(deferred_plan(sel, names, rows) == adds + drops + tail);
    lemma_apply_concat(s, adds + drops, tail);
    lemma_apply_concat(s, adds, drops);
    assert forall|k: int| 0 <= k < adds.len() implies is_neutral(#[trigger] adds[k]) by {}
    lemma_apply_neutral(s, adds);
    lemma_apply_drops(s, tn);
    let s2 = apply_all(s, adds + drops);
    if rows_left(rows, tn) == 0 {
        lemma_apply_two(s2, WriteView::ClearPending, WriteView::ClearPending);
    } else {
        assert(apply_all(s2, tail) == s2);
    }
}

/// The deferred rows of a card, in card order.
pub open spec fn card_rows(card: Card) -> Seq<DeferredRow> {
    Seq::new(
        card.phones@.len(),
        |k: int| (card.name@, card.phones@[k].number@, opt_view(card.phones@[k].description)),
    )
}

proof fn lemma_apply_deferred(s: PendingState, rows: Seq<DeferredRow>)
    ensures
        apply_all(s, Seq::new(rows.len(), |i: int| WriteView::AddDeferred(rows[i].0, rows[i].1, rows[i].2)))
            == with_deferred(s, s.deferred + rows),
    decreases rows.len(),
{
    let p = Seq::new(rows.len(), |i: int| WriteView::AddDeferred(rows[i].0, rows[i].1, rows[i].2));
    if rows.len() == 0 {
        assert(s.deferred + rows =~= s.deferred);
    } else {
        let d = rows.drop_last();
        lemma_apply_deferred(s, d);
        assert(p.drop_last() =~= Seq::new(d.len(), |i: int| WriteView::AddDeferred(d[i].0, d[i].1, d[i].2)));
        assert(s.deferred + rows =~= (s.deferred + d).push(rows.last()));
    }
}

/// The kind of the pending action that `s` holds, if any.
pub open spec fn pending_kind(s: PendingState) -> Option<ActionKind> {
    if s.actions.len() == 0 {
        None
    } else {
        Some(s.actions[0])
    }
}

/// Importing a card keeps at most one pending action. A card with several
/// numbers adds its rows after the deferred rows already recorded, and
/// leaves a deferred-contact action pending with no deletion or group
/// candidates; a card with fewer numbers leaves the pending state alone.
pub proof fn lemma_import_accumulates(s: PendingState, card: Card, existing: Seq<Contact>)
    requires
        well_formed(s),
    ensures
        ({
            let t = apply_all(s, import_plan(card, existing, pending_kind(s)));
            &&& well_formed(t)
            &&& card.phones@.len() > 1 ==> {
                &&& t.actions == seq![ActionKind::DeferredContacts]
                &&& t.deferred == s.deferred + card_rows(card)
                &&& t.deletions.len() == 0
                &&& t.members.len() == 0
            }
            &&& card.phones@.len() <= 1 ==> t == s
        }),
{
    let rows = card_rows(card);
    let adds = Seq::new(rows.len(), |i: int| WriteView::AddDeferred(rows[i].0, rows[i].1, rows[i].2));
    assert(adds =~= deferred_rows(card));
    if card.phones@.len() > 1 {
        if pending_kind(s) != Some(ActionKind::DeferredContacts) {
            assert(s.deferred =~= Seq::<DeferredRow>::empty());
        }
        if pending_kind(s) == Some(ActionKind::DeferredContacts) {
            assert(s.actions =~= seq![ActionKind::DeferredContacts]);
            assert(s.deletions.len() == 0 && s.members.len() == 0);
            lemma_apply_deferred(s, rows);
        } else {
            let head = seq![WriteView::ClearPending, WriteView::SetPending(ActionKind::DeferredContacts)];
            lemma_apply_concat(s, head, adds);
            lemma_apply_two(s, WriteView::ClearPending, WriteView::SetPending(ActionKind::DeferredContacts));
            let s1 = apply_all(s, head);
            assert(s1.actions =~= seq![ActionKind::DeferredContacts]);
            lemma_apply_deferred(s1, rows);
            assert(s1.deferred + rows =~= s.deferred + rows);
        }
    } else {
        let p = import_plan(card, existing, pending_kind(s));
        assert forall|k: int| 0 <= k < p.len() implies is_neutral(#[trigger] p[k]) by {}
        lemma_apply_neutral(s, p);
    }
}

/// With no pending action, a confirmation writes nothing, so the state it
/// leaves still has no pending action and a second confirmation meets the
/// same state and gives the same reply.
pub proof fn lemma_confirm_without_pending(s: PendingState)
    requires
        s.actions.len() == 0,
    ensures
        apply_all(s, Seq::empty()) == s,
        apply_all(apply_all(s, Seq::empty()), Seq::empty()) == s,
{
}

proof fn lemma_digit_value(d: nat)
    requires
        d < 10,
    ensures
        digit_char(d) as u32 == 48 + d,
        is_digit(digit_char(d)),
{
}

proof fn lemma_dec_digits(i: nat)
    ensures
        all_digits(dec(i)),
        digits_value(dec(i)) == i,
        dec(i).len() >= 1,
    decreases i,
{
    if i < 10 {
        lemma_digit_value(i);
        assert(dec(i) == seq![digit_char(i)]);
        assert(dec(i).drop_last() =~= Seq::<char>::empty());
        assert(digits_value(dec(i)) == digits_value(dec(i).drop_last()) * 10 + ((dec(i).last() as u32) - 48) as nat);
        assert(digits_value(Seq::<char>::empty()) == 0);
    } else {
        lemma_dec_digits(i / 10);
        let d = (i % 10) as nat;
        lemma_digit_value(d);
        assert(dec(i) == dec(i / 10).push(digit_char(d)));
        assert(dec(i).drop_last() =~= dec(i / 10));
        assert(digits_value(dec(i)) == digits_value(dec(i).drop_last()) * 10 + ((dec(i).last() as u32) - 48) as nat);
        assert(i == (i / 10) * 10 + d);
    }
}

proof fn lemma_parse_dec(i: nat)
    requires
        i <= usize::MAX,
    ensures
        parse_number(dec(i)) == Some(i),
{
    lemma_dec_digits(i);
    assert(is_digit(dec(i)[0]));
    assert(unsigned_part(dec(i)) == dec(i));
}

/// The combined numbering of deletion candidates: with `n` groups and `m`
/// contacts, selection `i` picks group `i - 1` for `1 <= i <= n`, contact
/// `i - n - 1` for `n < i <= n + m`, and is reported invalid otherwise.
pub proof fn lemma_deletion_index(i: nat, n: nat, m: nat)
    requires
        1 <= i <= usize::MAX,
    ensures
        1 <= i <= n ==> deletion_pick(dec(i), n as int, m as int) == Pick::Group(i - 1),
        n < i <= n + m ==> deletion_pick(dec(i), n as int, m as int) == Pick::Contact(i - n - 1),
        i > n + m ==> deletion_pick(dec(i), n as int, m as int) == Pick::Bad(
            "Invalid selection: "@ + dec(i),
        ),
{
    lemma_parse_dec(i);
}

proof fn lemma_one_digit(c: char, d: nat)
    requires
        d < 10,
        c as u32 == 48 + d,
    ensures
        parse_number(seq![c]) == Some(d),
        all_digits(seq![c]),
{
    assert(seq![c].drop_last() =~= Seq::<char>::empty());
    assert(digits_value(seq![c]) == digits_value(seq![c].drop_last()) * 10 + ((seq![c].last() as u32) - 48) as nat);
    assert(digits_value(Seq::<char>::empty()) == 0);
    assert(is_digit(seq![c][0]));
    assert(unsigned_part(seq![c]) == seq![c]);
}

/// Deferred-contact tokens: `2b` picks the second name and its second
/// number; `0a` names no contact; `2z` asks for a 26th number, which a name
/// with fewer numbers does not have.
pub proof fn lemma_deferred_tokens(names: Seq<Seq<char>>, rows: Seq<DeferredContact>)
    ensures
        names.len() >= 2 && numbers_of(rows, names[1]).len() >= 2 ==> deferred_take(
            "2b"@,
            names,
            rows,
        ) == Take::Contact(names[1], numbers_of(rows, names[1])[1]),
        deferred_take("0a"@, names, rows) is Bad,
        names.len() < 2 || numbers_of(rows, names[1]).len() < 26 ==> deferred_take(
            "2z"@,
            names,
            rows,
        ) is Bad,
{
    reveal_strlit("2b");
    reveal_strlit("0a");
    reveal_strlit("2z");
    assert("2b"@ =~= seq!['2', 'b']);
    assert("0a"@ =~= seq!['0', 'a']);
    assert("2z"@ =~= seq!['2', 'z']);
    assert(seq!['2', 'b'].drop_last() =~= seq!['2']);
    assert(seq!['0', 'a'].drop_last() =~= seq!['0']);
    assert(seq!['2', 'z'].drop_last() =~= seq!['2']);
    lemma_one_digit('2', 2);
    lemma_one_digit('0', 0);
}

proof fn lemma_single_name(rows: Seq<DeferredContact>, names: Seq<Seq<char>>, x: Seq<char>)
    requires
        rows.len() > 0,
        forall|i: int| 0 <= i < rows.len() ==> (#[trigger] rows[i]).name@ == x,
        deferred_names(rows, names),
    ensures
        names == seq![x],
{
    assert(names.contains(rows[0].name@));
    assert forall|k: int| 0 <= k < names.len() implies #[trigger] names[k] == x by {
        assert(has_row_named(rows, names[k]));
    }
    if names.len() >= 2 {
        assert(lex_lt(names[0], names[1]));
        lemma_lex_irreflexive(x);
    }
    assert(names =~= seq![x]);
}

proof fn lemma_apply_three(s: PendingState, a: WriteView, b: WriteView, c: WriteView)
    ensures
        apply_all(s, seq![a, b, c]) == apply(apply(apply(s, a), b), c),
{
    assert(seq![a, b, c].drop_last() =~= seq![a, b]);
    lemma_apply_two(s, a, b);
}

/// Round trip: a card with two numbers, imported while no deferred rows
/// are recorded, leaves exactly its two rows and a deferred-contact action;
/// confirming `1a` against those rows adds exactly one contact, with the
/// first number, drops both rows and clears the pending action.
#[verifier::spinoff_prover]
pub proof fn lemma_card_round_trip(
    s: PendingState,
    card: Card,
    existing: Seq<Contact>,
    rows: Seq<DeferredContact>,
    names: Seq<Seq<char>>,
)
    requires
        well_formed(s),
        s.deferred.len() == 0,
        card.phones@.len() == 2,
        rows.len() == 2,
        forall|k: int| 0 <= k < 2 ==> (#[trigger] rows[k]).name@ == card.name@,
        forall|k: int| 0 <= k < 2 ==> (#[trigger] rows[k]).number@ == card.phones@[k].number@,
        deferred_names(rows, names),
    ensures
        ({
            let t = apply_all(s, import_plan(card, existing, pending_kind(s)));
            let p = deferred_plan("1a"@, names, rows);
            let u = apply_all(t, p);
            &&& t.deferred.len() == 2
            &&& t.actions == seq![ActionKind::DeferredContacts]
            &&& p == seq![
                WriteView::AddContact(card.name@, card.phones@[0].number@),
                WriteView::DropDeferred(card.name@),
                WriteView::ClearPending,
            ]
            &&& u.deferred.len() == 0
            &&& u.actions.len() == 0
        }),
{
    let x = card.name@;
    lemma_import_accumulates(s, card, existing);
    let t = apply_all(s, import_plan(card, existing, pending_kind(s)));
    assert(t.deferred =~= card_rows(card));
    assert forall|i: int| 0 <= i < rows.len() implies (#[trigger] rows[i]).name@ == x by {}
    lemma_single_name(rows, names, x);
    reveal_strlit("1a");
    let tok = seq!['1', 'a'];
    assert("1a"@ =~= tok);
    assert(tok.drop_last() =~= seq!['1']);
    assert(seq!['1'].drop_last() =~= Seq::<char>::empty());
    let e = Seq::<char>::empty();
    assert(split_on(e, ',') == seq![e]);
    assert(split_on(seq!['1'], ',') == split_on(e, ',').update(0, e.push('1')));
    assert(e.push('1') =~= seq!['1']);
    assert(split_on(seq!['1'], ',') =~= seq![seq!['1']]);
    assert(split_on(tok, ',') == split_on(seq!['1'], ',').update(0, seq!['1'].push('a')));
    assert(seq!['1'].push('a') =~= tok);
    assert(split_on(tok, ',') =~= seq![tok]);
    assert(trim_start(tok) == tok);
    assert(trim_end(tok) == tok);
    assert(items(tok) =~= seq![tok]);
    lemma_one_digit('1', 1);
    assert(rows.drop_last().drop_last() =~= Seq::<DeferredContact>::empty());
    let r1 = rows.drop_last();
    assert(r1.last() == rows[0]);
    assert(rows.last() == rows[1]);
    assert(numbers_of(r1.drop_last(), x) == Seq::<Seq<char>>::empty());
    assert(numbers_of(r1, x) == Seq::<Seq<char>>::empty().push(rows[0].number@));
    assert(numbers_of(rows, x) == numbers_of(r1, x).push(rows[1].number@));
    assert(numbers_of(rows, x) =~= seq![rows[0].number@, rows[1].number@]);
    let take = Take::Contact(x, rows[0].number@);
    assert(deferred_take(tok, names, rows) == take);
    let ts = deferred_takes(items(tok), names, rows);
    assert(ts =~= seq![take]);
    assert(ts.drop_last() =~= Seq::<Take>::empty());
    assert(takes(Seq::<Take>::empty()) == (Seq::<(Seq<char>, Seq<char>)>::empty(), Seq::<Seq<char>>::empty()));
    assert(ts.last() == take);
    let tk = takes(ts).0;
    assert(tk == Seq::<(Seq<char>, Seq<char>)>::empty().push((x, rows[0].number@)));
    assert(tk =~= seq![(x, rows[0].number@)]);
    assert(taken_names(tk) =~= seq![x]);
    assert(seq![x].contains(x));
    assert(rows_left(r1.drop_last(), seq![x]) == 0);
    assert(rows_left(r1, seq![x]) == rows_left(r1.drop_last(), seq![x]));
    assert(rows_left(rows, seq![x]) == rows_left(r1, seq![x]));
    assert(rows_left(rows, seq![x]) == 0);
    let p = deferred_plan("1a"@, names, rows);
    assert(p =~= seq![
        WriteView::AddContact(x, card.phones@[0].number@),
        WriteView::DropDeferred(x),
        WriteView::ClearPending,
    ]);
    lemma_apply_three(t, WriteView::AddContact(x, card.phones@[0].number@), WriteView::DropDeferred(x), WriteView::ClearPending);
    let f = |r: DeferredRow| r.0 != x;
    let d = t.deferred;
    assert(d.drop_last().drop_last() =~= Seq::<DeferredRow>::empty());
    assert(d.len() == 2);
    assert(d[0].0 == x && d[1].0 == x);
    let d1 = d.drop_last();
    assert(d1.last() == d[0]);
    assert(d.last() == d[1]);
    reveal_with_fuel(Seq::<DeferredRow>::filter, 3);
    assert(d1.drop_last().filter(f) == Seq::<DeferredRow>::empty());
    assert(d1.filter(f) == d1.drop_last().filter(f));
    assert(d.filter(f) == d1.filter(f));
    assert(d.filter(f) =~= Seq::<DeferredRow>::empty());
}

/// A row's place in name order: its name and its id.
pub type SortKey = (Seq<char>, int);

pub open spec fn group_keys(gs: Seq<GroupRecord>) -> Seq<SortKey> {
    gs.map_values(|g: GroupRecord| (g.name@, g.id as int))
}

pub open spec fn contact_keys(cs: Seq<Contact>) -> Seq<SortKey> {
    cs.map_values(|c: Contact| (c.name@, c.id as int))
}

/// Strictly increasing in name order.
pub open spec fn keys_sorted(ks: Seq<SortKey>) -> bool {
    forall|a: int, b: int|
        0 <= a < b < ks.len() ==> key_lt(#[trigger] ks[a].0, ks[a].1, #[trigger] ks[b].0, ks[b].1)
}

/// Two strictly sorted key lists with the same keys are the same list.
#[verifier::spinoff_prover]
proof fn lemma_sorted_keys_unique(a: Seq<SortKey>, b: Seq<SortKey>)
    requires
        keys_sorted(a),
        keys_sorted(b),
        forall|x: SortKey| a.contains(x) <==> b.contains(x),
    ensures
        a == b,
    decreases a.len(),
{
    lemma_key_facts();
    if a.len() == 0 {
        if b.len() > 0 {
            assert(b.contains(b[0]));
        }
        assert(a =~= b);
    } else {
        assert(a.contains(a[0]));
        assert(b.contains(a[0]));
        let j = choose|j: int| 0 <= j < b.len() && b[j] == a[0];
        assert(b.contains(b[0]));
        assert(a.contains(b[0]));
        let i = choose|i: int| 0 <= i < a.len() && a[i] == b[0];
        if j > 0 {
            assert(key_lt(b[0].0, b[0].1, b[j].0, b[j].1));
            if i > 0 {
                assert(key_lt(a[0].0, a[0].1, a[i].0, a[i].1));
            }
            assert(false);
        }
        let a1 = a.drop_first();
        let b1 = b.drop_first();
        assert forall|x: SortKey| a1.contains(x) <==> b1.contains(x) by {
            if a1.contains(x) {
                let k = choose|k: int| 0 <= k < a1.len() && a1[k] == x;
                assert(key_lt(a[0].0, a[0].1, a[k + 1].0, a[k + 1].1));
                assert(b.contains(x));
                let m = choose|m: int| 0 <= m < b.len() && b[m] == x;
                assert(m != 0);
                assert(b1[m - 1] == x);
            }
            if b1.contains(x) {
                let k = choose|k: int| 0 <= k < b1.len() && b1[k] == x;
                assert(key_lt(b[0].0, b[0].1, b[k + 1].0, b[k + 1].1));
                assert(a.contains(x));
                let m = choose|m: int| 0 <= m < a.len() && a[m] == x;
                assert(m != 0);
                assert(a1[m - 1] == x);
            }
        }
        assert(keys_sorted(a1)) by {
            assert forall|p: int, q: int| 0 <= p < q < a1.len() implies key_lt(
                #[trigger] a1[p].0,
                a1[p].1,
                #[trigger] a1[q].0,
                a1[q].1,
            ) by {
                assert(a1[p] == a[p + 1] && a1[q] == a[q + 1]);
            }
        }
        assert(keys_sorted(b1)) by {
            assert forall|p: int, q: int| 0 <= p < q < b1.len() implies key_lt(
                #[trigger] b1[p].0,
                b1[p].1,
                #[trigger] b1[q].0,
                b1[q].1,
            ) by {
                assert(b1[p] == b[p + 1] && b1[q] == b[q + 1]);
            }
        }
        lemma_sorted_keys_unique(a1, b1);
        assert(j == 0);
        assert(a[0] == b[0]);
        assert(a.len() == b.len());
        assert forall|k: int| 0 <= k < a.len() implies a[k] == b[k] by {
            if k > 0 {
                assert(a[k] == a1[k - 1] && b[k] == b1[k - 1]);
            }
        }
        assert(a =~= b);
    }
}

/// The keys of an arrangement of groups are sorted, and they are the keys
/// of the flagged groups.
proof fn lemma_arranged_group_keys(src: Seq<GroupRecord>, keep: Seq<bool>, r: Seq<GroupRecord>)
    requires
        arranged_groups(src, keep, r),
    ensures
        keys_sorted(group_keys(r)),
        forall|x: SortKey|
            group_keys(r).contains(x) <==> exists|j: int|
                0 <= j < src.len() && keep[j] && #[trigger] group_keys(src)[j] == x,
{
    let idx = choose|idx: Seq<usize>|
        picks(group_names(src), group_ids(src), keep, idx) && r.len() == idx.len() && forall|k: int|
            0 <= k < r.len() ==> r[k] == src[#[trigger] idx[k] as int];
    let rk = group_keys(r);
    assert forall|a: int, b: int| 0 <= a < b < rk.len() implies key_lt(
        #[trigger] rk[a].0,
        rk[a].1,
        #[trigger] rk[b].0,
        rk[b].1,
    ) by {
        assert(before(group_names(src), group_ids(src), idx[a] as int, idx[b] as int));
        assert(r[a] == src[idx[a] as int] && r[b] == src[idx[b] as int]);
    }
    assert forall|x: SortKey|
        rk.contains(x) <==> exists|j: int|
            0 <= j < src.len() && keep[j] && #[trigger] group_keys(src)[j] == x by {
        if rk.contains(x) {
            let k = choose|k: int| 0 <= k < rk.len() && rk[k] == x;
            let j = idx[k] as int;
            assert(keep[j] && group_keys(src)[j] == x);
        }
        if exists|j: int| 0 <= j < src.len() && keep[j] && #[trigger] group_keys(src)[j] == x {
            let j = choose|j: int| 0 <= j < src.len() && keep[j] && #[trigger] group_keys(src)[j] == x;
            let k = choose|k: int|
                0 <= k < idx.len() && key_of(group_names(src), group_ids(src), #[trigger] idx[k] as int)
                    == key_of(group_names(src), group_ids(src), j);
            assert(rk[k] == x);
        }
    }
}

/// The keys of an arrangement of contacts are sorted, and they are the
/// keys of the flagged contacts.
proof fn lemma_arranged_contact_keys(src: Seq<Contact>, keep: Seq<bool>, r: Seq<Contact>)
    requires
        arranged_contacts(src, keep, r),
    ensures
        keys_sorted(contact_keys(r)),
        forall|x: SortKey|
            contact_keys(r).contains(x) <==> exists|j: int|
                0 <= j < src.len() && keep[j] && #[trigger] contact_keys(src)[j] == x,
{
    let idx = choose|idx: Seq<usize>|
        picks(contact_names(src), contact_ids(src), keep, idx) && r.len() == idx.len() && forall|k: int|
            0 <= k < r.len() ==> r[k] == src[#[trigger] idx[k] as int];
    let rk = contact_keys(r);
    assert forall|a: int, b: int| 0 <= a < b < rk.len() implies key_lt(
        #[trigger] rk[a].0,
        rk[a].1,
        #[trigger] rk[b].0,
        rk[b].1,
    ) by {
        assert(before(contact_names(src), contact_ids(src), idx[a] as int, idx[b] as int));
        assert(r[a] == src[idx[a] as int] && r[b] == src[idx[b] as int]);
    }
    assert forall|x: SortKey|
        rk.contains(x) <==> exists|j: int|
            0 <= j < src.len() && keep[j] && #[trigger] contact_keys(src)[j] == x by {
        if rk.contains(x) {
            let k = choose|k: int| 0 <= k < rk.len() && rk[k] == x;
            let j = idx[k] as int;
            assert(keep[j] && contact_keys(src)[j] == x);
        }
        if exists|j: int| 0 <= j < src.len() && keep[j] && #[trigger] contact_keys(src)[j] == x {
            let j = choose|j: int| 0 <= j < src.len() && keep[j] && #[trigger] contact_keys(src)[j] == x;
            let k = choose|k: int|
                0 <= k < idx.len() && key_of(contact_names(src), contact_ids(src), #[trigger] idx[k] as int)
                    == key_of(contact_names(src), contact_ids(src), j);
            assert(rk[k] == x);
        }
    }
}

/// Addressing is stable across turns. When the rows that a confirmation
/// reads back hold the same (name, id) keys as the candidates a delete
/// request listed, in whatever order the store returns them, the
/// confirmation arranges them in the listed order: number `i` addresses the
/// same group or contact in both turns.
#[verifier::spinoff_prover]
pub proof fn lemma_deletion_order_stable(
    listed_groups: Seq<GroupRecord>,
    listed_contacts: Seq<Contact>,
    pending_groups: Seq<GroupRecord>,
    pending_contacts: Seq<Contact>,
    gs: Seq<GroupRecord>,
    cs: Seq<Contact>,
)
    requires
        keys_sorted(group_keys(listed_groups)),
        keys_sorted(contact_keys(listed_contacts)),
        forall|x: SortKey| group_keys(pending_groups).contains(x) <==> group_keys(listed_groups).contains(x),
        forall|x: SortKey| contact_keys(pending_contacts).contains(x) <==> contact_keys(listed_contacts).contains(x),
        arranged_groups(pending_groups, all_true(pending_groups.len()), gs),
        arranged_contacts(pending_contacts, all_true(pending_contacts.len()), cs),
    ensures
        group_keys(gs) == group_keys(listed_groups),
        contact_keys(cs) == contact_keys(listed_contacts),
{
    lemma_arranged_group_keys(pending_groups, all_true(pending_groups.len()), gs);
    lemma_arranged_contact_keys(pending_contacts, all_true(pending_contacts.len()), cs);
    assert forall|x: SortKey| group_keys(gs).contains(x) <==> group_keys(listed_groups).contains(x) by {
        if group_keys(pending_groups).contains(x) {
            let j = choose|j: int| 0 <= j < group_keys(pending_groups).len() && group_keys(pending_groups)[j] == x;
            assert(all_true(pending_groups.len())[j]);
        }
        if group_keys(gs).contains(x) {
            let j = choose|j: int|
                0 <= j < pending_groups.len() && all_true(pending_groups.len())[j] && #[trigger] group_keys(pending_groups)[j] == x;
            assert(group_keys(pending_groups).contains(x));
        }
    }
    assert forall|x: SortKey| contact_keys(cs).contains(x) <==> contact_keys(listed_contacts).contains(x) by {
        if contact_keys(pending_contacts).contains(x) {
            let j = choose|j: int| 0 <= j < contact_keys(pending_contacts).len() && contact_keys(pending_contacts)[j] == x;
            assert(all_true(pending_contacts.len())[j]);
        }
        if contact_keys(cs).contains(x) {
            let j = choose|j: int|
                0 <= j < pending_contacts.len() && all_true(pending_contacts.len())[j] && #[trigger] contact_keys(pending_contacts)[j] == x;
            assert(contact_keys(pending_contacts).contains(x));
        }
    }
    lemma_sorted_keys_unique(group_keys(gs), group_keys(listed_groups));
    lemma_sorted_keys_unique(contact_keys(cs), contact_keys(listed_contacts));
}

/// A list arranged by a delete request is in name order.
pub proof fn lemma_listing_sorted(
    groups: Seq<GroupRecord>,
    keep_groups: Seq<bool>,
    gs: Seq<GroupRecord>,
    contacts: Seq<Contact>,
    keep_contacts: Seq<bool>,
    cs: Seq<Contact>,
)
    requires
        arranged_groups(groups, keep_groups, gs),
        arranged_contacts(contacts, keep_contacts, cs),
    ensures
        keys_sorted(group_keys(gs)),
        keys_sorted(contact_keys(cs)),
{
    lemma_arranged_group_keys(groups, keep_groups, gs);
    lemma_arranged_contact_keys(contacts, keep_contacts, cs);
}

/// A piece with no comma is the only item of a selection.
proof fn lemma_no_comma_split(t: Seq<char>)
    requires
        forall|k: int| 0 <= k < t.len() ==> t[k] != ',',
    ensures
        split_on(t, ',') == seq![t],
    decreases t.len(),
{
    if t.len() > 0 {
        let d = t.drop_last();
        assert forall|k: int| 0 <= k < d.len() implies d[k] != ',' by {
            assert(d[k] == t[k]);
        }
        lemma_no_comma_split(d);
        assert(t.last() == t[t.len() - 1]);
        assert(d.push(t.last()) =~= t);
        assert(split_on(t, ',') =~= seq![t]);
    } else {
        assert(t =~= Seq::<char>::empty());
    }
}

/// The selection `i`, written in decimal, is one item: itself.
proof fn lemma_dec_items(i: nat)
    ensures
        items(dec(i)) == seq![dec(i)],
{
    let t = dec(i);
    lemma_dec_digits(i);
    assert forall|k: int| 0 <= k < t.len() implies t[k] != ',' by {
        assert(is_digit(t[k]));
    }
    lemma_no_comma_split(t);
    assert(is_digit(t[0]));
    assert(is_digit(t.last()));
    assert(trim_start(t) == t);
    assert(trim_end(t) == t);
    assert(items(t) =~= seq![t]);
}

/// Confirming a deletion with the single selection `i`: for `1 <= i <= n`
/// the plan deletes group `gs[i - 1]` and clears the pending action; for
/// `n < i <= n + m` it deletes contact `cs[i - n - 1]`; above `n + m` it
/// deletes nothing and only clears the pending action.
pub proof fn lemma_confirm_single_selection(i: nat, gs: Seq<GroupRecord>, cs: Seq<Contact>)
    requires
        1 <= i <= usize::MAX,
    ensures
        1 <= i <= gs.len() ==> deletion_confirm_plan(dec(i), gs, cs) == seq![
            WriteView::DeleteGroup(gs[i - 1].id as int),
            WriteView::ClearPending,
        ],
        gs.len() < i <= gs.len() + cs.len() ==> deletion_confirm_plan(dec(i), gs, cs) == seq![
            WriteView::DeleteContact(cs[i - gs.len() - 1].id as int),
            WriteView::ClearPending,
        ],
        i > gs.len() + cs.len() ==> deletion_confirm_plan(dec(i), gs, cs) == seq![
            WriteView::ClearPending,
        ],
{
    let n = gs.len();
    let m = cs.len();
    lemma_dec_items(i);
    lemma_deletion_index(i, n, m);
    let ps = deletion_picks(items(dec(i)), n as int, m as int);
    assert(ps =~= seq![deletion_pick(dec(i), n as int, m as int)]);
    assert(ps.drop_last() =~= Seq::<Pick>::empty());
    let e = Seq::<int>::empty();
    assert(tally(Seq::<Pick>::empty()) == (e, e, Seq::<Seq<char>>::empty()));
    let (g, c, b) = tally(ps);
    if 1 <= i <= n {
        assert(g =~= seq![i - 1]);
        assert(c =~= e);
    } else if n < i <= n + m {
        assert(g =~= e);
        assert(c =~= seq![i - n - 1]);
    } else {
        assert(g =~= e);
        assert(c =~= e);
        assert(b.len() == 1);
    }
    assert(deletion_confirm_plan(dec(i), gs, cs) =~= Seq::new(
        g.len(),
        |k: int| WriteView::DeleteGroup(gs[g[k]].id as int),
    ) + Seq::new(c.len(), |k: int| WriteView::DeleteContact(cs[c[k]].id as int)) + seq![
        WriteView::ClearPending,
    ]);
}

/// The pending-state rows after importing `cards` one after another, each
/// against the contacts the submitter had at that point and the pending
/// action left by the cards before it.
pub open spec fn import_all(s: PendingState, cards: Seq<Card>, existing: Seq<Seq<Contact>>) -> PendingState
    decreases cards.len(),
{
    if cards.len() == 0 {
        s
    } else {
        let t = import_all(s, cards.drop_last(), existing);
        apply_all(t, import_plan(cards.last(), existing[cards.len() - 1], pending_kind(t)))
    }
}

/// The deferred rows that `cards` add: those of each card with several
/// numbers, in card order.
pub open spec fn rows_of_cards(cards: Seq<Card>) -> Seq<DeferredRow>
    decreases cards.len(),
{
    if cards.len() == 0 {
        Seq::empty()
    } else if cards.last().phones@.len() > 1 {
        rows_of_cards(cards.drop_last()) + card_rows(cards.last())
    } else {
        rows_of_cards(cards.drop_last())
    }
}

/// Importing several cards keeps at most one pending action, and the
/// deferred rows accumulate: those recorded before stay first, followed by
/// the rows of every card with several numbers, in card order. Once such a
/// card is imported, a deferred-contact action is pending.
pub proof fn lemma_import_cards_accumulate(s: PendingState, cards: Seq<Card>, existing: Seq<Seq<Contact>>)
    requires
        well_formed(s),
        existing.len() == cards.len(),
    ensures
        ({
            let t = import_all(s, cards, existing);
            &&& well_formed(t)
            &&& t.deferred == s.deferred + rows_of_cards(cards)
            &&& rows_of_cards(cards).len() > 0 ==> t.actions == seq![ActionKind::DeferredContacts]
            &&& rows_of_cards(cards).len() == 0 ==> t == s
        }),
    decreases cards.len(),
{
    if cards.len() == 0 {
        assert(s.deferred + rows_of_cards(cards) =~= s.deferred);
    } else {
        let d = cards.drop_last();
        let ex = existing.drop_last();
        assert forall|k: int| 0 <= k < d.len() implies ex[k] == existing[k] by {}
        lemma_import_cards_accumulate(s, d, ex);
        assert(import_all(s, d, ex) == import_all(s, d, existing)) by {
            lemma_import_all_prefix(s, d, ex, existing);
        }
        let t = import_all(s, d, existing);
        let c = cards.last();
        lemma_import_accumulates(t, c, existing[cards.len() - 1]);
        if c.phones@.len() > 1 {
            assert(s.deferred + rows_of_cards(cards) =~= s.deferred + rows_of_cards(d) + card_rows(c));
            assert(card_rows(c).len() > 0);
        }
    }
}

proof fn lemma_import_all_prefix(s: PendingState, cards: Seq<Card>, a: Seq<Seq<Contact>>, b: Seq<Seq<Contact>>)
    requires
        cards.len() <= a.len(),
        cards.len() <= b.len(),
        forall|k: int| 0 <= k < cards.len() ==> a[k] == b[k],
    ensures
        import_all(s, cards, a) == import_all(s, cards, b),
    decreases cards.len(),
{
    if cards.len() > 0 {
        lemma_import_all_prefix(s, cards.drop_last(), a, b);
    }
}

} // verus!
