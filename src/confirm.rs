//! The confirmation resolver: a confirm message's comma-separated
//! selections, read against the candidates of the pending action.
use vstd::prelude::*;
use crate::matcher::{arranged_contacts, arranged_groups, sort_contacts, sort_groups};
use crate::number::{all_digits, parse_number, parse_usize};
use crate::order::{before, char_views, key_of, lex_lt, picks, sorted_picks};
use crate::records::{plan_view, Contact, DeferredContact, GroupRecord, Outcome, Write, WriteView};
use crate::reply::{
    after, concat_all, contact_lines, group_lines, is_digit, plural, push_after, push_contact_lines,
    push_group_lines,
};
use crate::text::{
    chars_of, dec, digit_char, join, join_strings, push_dec, split_on, split_trimmed, string_of, trim,
    views,
};

verus! {

/// The trimmed comma-separated items of a selection.
pub open spec fn items(s: Seq<char>) -> Seq<Seq<char>> {
    split_on(s, ',').map_values(|f: Seq<char>| trim(f))
}

/// What one selection token picks.
pub ghost enum Pick {
    Group(int),
    Contact(int),
    Bad(Seq<char>),
}

/// A selection token resolved.
pub enum Choice {
    Group(usize),
    Contact(usize),
    Bad(String),
}

impl View for Choice {
    type V = Pick;

    open spec fn view(&self) -> Pick {
        match self {
            Choice::Group(i) => Pick::Group(*i as int),
            Choice::Contact(i) => Pick::Contact(*i as int),
            Choice::Bad(e) => Pick::Bad(e@),
        }
    }
}

/// The combined numbering of deletion candidates: `1..=n` address the
/// groups, `n+1..=n+m` the contacts; anything else addresses nothing.
pub open spec fn deletion_index(i: int, n: int, m: int) -> Option<Pick> {
    if 1 <= i <= n {
        Some(Pick::Group(i - 1))
    } else if n < i <= n + m {
        Some(Pick::Contact(i - n - 1))
    } else {
        None
    }
}

pub open spec fn deletion_pick(tok: Seq<char>, n: int, m: int) -> Pick {
    match parse_number(tok) {
        Some(v) => if v > 0 {
            match deletion_index(v as int, n, m) {
                Some(p) => p,
                None => Pick::Bad("Invalid selection: "@ + dec(v)),
            }
        } else {
            Pick::Bad("Invalid selection: "@ + tok)
        },
        None => Pick::Bad("Invalid selection: "@ + tok),
    }
}

pub open spec fn member_pick(tok: Seq<char>, m: int) -> Pick {
    match parse_number(tok) {
        Some(v) => if v > 0 {
            if v <= m {
                Pick::Contact(v - 1)
            } else {
                Pick::Bad("Invalid selection: "@ + dec(v))
            }
        } else {
            Pick::Bad("Invalid number: "@ + tok)
        },
        None => Pick::Bad("Invalid number: "@ + tok),
    }
}

/// The groups, the contacts and the complaints that a run of picks names,
/// each in token order.
pub open spec fn tally(ps: Seq<Pick>) -> (Seq<int>, Seq<int>, Seq<Seq<char>>)
    decreases ps.len(),
{
    if ps.len() == 0 {
        (Seq::empty(), Seq::empty(), Seq::empty())
    } else {
        let (g, c, b) = tally(ps.drop_last());
        match ps.last() {
            Pick::Group(i) => (g.push(i), c, b),
            Pick::Contact(i) => (g, c.push(i), b),
            Pick::Bad(e) => (g, c, b.push(e)),
        }
    }
}

pub proof fn lemma_tally_bounds(ps: Seq<Pick>, n: int, m: int)
    requires
        forall|k: int|
            0 <= k < ps.len() ==> match #[trigger] ps[k] {
                Pick::Group(i) => 0 <= i < n,
                Pick::Contact(i) => 0 <= i < m,
                Pick::Bad(_) => true,
            },
    ensures
        forall|k: int| 0 <= k < tally(ps).0.len() ==> 0 <= #[trigger] tally(ps).0[k] < n,
        forall|k: int| 0 <= k < tally(ps).1.len() ==> 0 <= #[trigger] tally(ps).1[k] < m,
    decreases ps.len(),
{
    if ps.len() > 0 {
        let d = ps.drop_last();
        assert forall|k: int|
            0 <= k < d.len() implies match #[trigger] d[k] {
                Pick::Group(i) => 0 <= i < n,
                Pick::Contact(i) => 0 <= i < m,
                Pick::Bad(_) => true,
            } by {
            assert(d[k] == ps[k]);
        }
        lemma_tally_bounds(d, n, m);
        let t = tally(d);
        assert(ps.last() == ps[ps.len() - 1]);
        match ps.last() {
            Pick::Group(i) => {
                assert(tally(ps).0 == t.0.push(i));
                assert(tally(ps).1 == t.1);
            },
            Pick::Contact(i) => {
                assert(tally(ps).0 == t.0);
                assert(tally(ps).1 == t.1.push(i));
            },
            Pick::Bad(e) => {
                assert(tally(ps).0 == t.0);
                assert(tally(ps).1 == t.1);
            },
        }
    }
}

fn deletion_choice(tok: &String, n: usize, m: usize) -> (r: Choice)
    requires
        n + m <= usize::MAX,
    ensures
        r@ == deletion_pick(tok@, n as int, m as int),
{
    let cs = chars_of(tok.as_str());
    match parse_usize(&cs) {
        Some(v) => {
            if v == 0 {
                let mut e = String::from_str("Invalid selection: ");
                e.append(tok.as_str());
                Choice::Bad(e)
            } else if v <= n {
                Choice::Group(v - 1)
            } else if v - n <= m {
                Choice::Contact(v - n - 1)
            } else {
                let mut e = String::from_str("Invalid selection: ");
                push_dec(&mut e, v as u64);
                Choice::Bad(e)
            }
        },
        None => {
            let mut e = String::from_str("Invalid selection: ");
            e.append(tok.as_str());
            Choice::Bad(e)
        },
    }
}

fn member_choice(tok: &String, m: usize) -> (r: Choice)
    ensures
        r@ == member_pick(tok@, m as int),
{
    let cs = chars_of(tok.as_str());
    match parse_usize(&cs) {
        Some(v) => {
            if v == 0 {
                let mut e = String::from_str("Invalid number: ");
                e.append(tok.as_str());
                Choice::Bad(e)
            } else if v <= m {
                Choice::Contact(v - 1)
            } else {
                let mut e = String::from_str("Invalid selection: ");
                push_dec(&mut e, v as u64);
                Choice::Bad(e)
            }
        },
        None => {
            let mut e = String::from_str("Invalid number: ");
            e.append(tok.as_str());
            Choice::Bad(e)
        },
    }
}

pub open spec fn int_views(v: Seq<usize>) -> Seq<int> {
    v.map_values(|x: usize| x as int)
}

/// `Deleted {k} group(s):` and a bulleted line per group.
pub open spec fn deleted_groups(sel: Seq<GroupRecord>) -> Seq<char> {
    if sel.len() == 0 {
        Seq::empty()
    } else {
        "Deleted "@ + dec(sel.len()) + " group"@ + plural(sel.len()) + ":\n"@ + group_lines(sel, false, 0)
    }
}

/// `Deleted {k} contact(s):` and a bulleted line per contact.
pub open spec fn deleted_contacts(sel: Seq<Contact>) -> Seq<char> {
    if sel.len() == 0 {
        Seq::empty()
    } else {
        "Deleted "@ + dec(sel.len()) + " contact"@ + plural(sel.len()) + ":\n"@ + contact_lines(sel, false, 0)
    }
}

/// `Errors:` and one complaint per line.
pub open spec fn errors_section(bad: Seq<Seq<char>>) -> Seq<char> {
    if bad.len() == 0 {
        Seq::empty()
    } else {
        "Errors:\n"@ + join(bad, "\n"@)
    }
}

pub open spec fn select<T>(from: Seq<T>, idx: Seq<int>) -> Seq<T> {
    Seq::new(idx.len(), |k: int| from[idx[k]])
}

pub open spec fn deletion_picks(toks: Seq<Seq<char>>, n: int, m: int) -> Seq<Pick> {
    toks.map_values(|t: Seq<char>| deletion_pick(t, n, m))
}

pub open spec fn deletion_confirm_reply(s: Seq<char>, gs: Seq<GroupRecord>, cs: Seq<Contact>) -> Seq<char> {
    let (g, c, b) = tally(deletion_picks(items(s), gs.len() as int, cs.len() as int));
    if g.len() == 0 && c.len() == 0 && b.len() == 0 {
        "No valid selections provided."@
    } else {
        after(after(deleted_groups(select(gs, g)), deleted_contacts(select(cs, c))), errors_section(b))
    }
}

pub open spec fn deletion_confirm_plan(s: Seq<char>, gs: Seq<GroupRecord>, cs: Seq<Contact>) -> Seq<WriteView> {
    let (g, c, b) = tally(deletion_picks(items(s), gs.len() as int, cs.len() as int));
    if g.len() == 0 && c.len() == 0 && b.len() == 0 {
        Seq::empty()
    } else {
        Seq::new(g.len(), |k: int| WriteView::DeleteGroup(gs[g[k]].id as int)) + Seq::new(
            c.len(),
            |k: int| WriteView::DeleteContact(cs[c[k]].id as int),
        ) + seq![WriteView::ClearPending]
    }
}

/// Confirms a deletion: each selection addresses the combined list of
/// candidate groups `gs` then contacts `cs`, numbered from one. Every valid
/// selection is deleted, every invalid one reported, and the pending action
/// cleared.
#[verifier::spinoff_prover]
pub fn confirm_deletion(selections: &str, gs: &Vec<GroupRecord>, cs: &Vec<Contact>) -> (r: Outcome)
    requires
        gs@.len() + cs@.len() < usize::MAX,
    ensures
        r.reply@ == deletion_confirm_reply(selections@, gs@, cs@),
        plan_view(r.writes@) == deletion_confirm_plan(selections@, gs@, cs@),
{
    let chars = chars_of(selections);
    let toks = split_trimmed(&chars, ',');
    let ghost its = items(selections@);
    assert(views(toks@) =~= its);
    let n = gs.len();
    let m = cs.len();
    let ghost ps = deletion_picks(its, n as int, m as int);
    let mut g: Vec<usize> = Vec::new();
    let mut c: Vec<usize> = Vec::new();
    let mut bad: Vec<String> = Vec::new();
    let mut i: usize = 0;
    while i < toks.len()
        invariant
            n == gs@.len(),
            m == cs@.len(),
            n + m < usize::MAX,
            its == items(selections@),
            views(toks@) == its,
            ps == deletion_picks(its, n as int, m as int),
            i <= toks@.len(),
            (int_views(g@), int_views(c@), views(bad@)) == tally(ps.subrange(0, i as int)),
        decreases toks@.len() - i,
    {
        let ch = deletion_choice(&toks[i], n, m);
        assert(ps.subrange(0, i + 1).drop_last() =~= ps.subrange(0, i as int));
        assert(toks@[i as int]@ == its[i as int]);
        match ch {
            Choice::Group(k) => {
                g.push(k);
            },
            Choice::Contact(k) => {
                c.push(k);
            },
            Choice::Bad(e) => {
                bad.push(e);
            },
        }
        i = i + 1;
        assert(int_views(g@) =~= tally(ps.subrange(0, i as int)).0);
        assert(int_views(c@) =~= tally(ps.subrange(0, i as int)).1);
        assert(views(bad@) =~= tally(ps.subrange(0, i as int)).2);
    }
    assert(ps.subrange(0, toks@.len() as int) =~= ps);
    proof {
        assert forall|k: int| 0 <= k < ps.len() implies match #[trigger] ps[k] {
            Pick::Group(i) => 0 <= i < n,
            Pick::Contact(i) => 0 <= i < m,
            Pick::Bad(_) => true,
        } by {
            let t = its[k];
            if let Some(v) = parse_number(t) {
                assert(v <= usize::MAX);
            }
        }
        lemma_tally_bounds(ps, n as int, m as int);
        assert forall|j: int| 0 <= j < g@.len() implies #[trigger] g@[j] < n by {
            assert(tally(ps).0 == int_views(g@));
            assert(int_views(g@)[j] == g@[j] as int);
            assert(0 <= tally(ps).0[j] < n);
        }
        assert forall|j: int| 0 <= j < c@.len() implies #[trigger] c@[j] < m by {
            assert(tally(ps).1 == int_views(c@));
            assert(int_views(c@)[j] == c@[j] as int);
            assert(0 <= tally(ps).1[j] < m);
        }
    }
    if g.len() == 0 && c.len() == 0 && bad.len() == 0 {
        let writes: Vec<Write> = Vec::new();
        assert(plan_view(writes@) =~= deletion_confirm_plan(selections@, gs@, cs@));
        return Outcome { reply: String::from_str("No valid selections provided."), writes };
    }
    let ghost fg = |k: int| WriteView::DeleteGroup(gs@[int_views(g@)[k]].id as int);
    let ghost fc = |k: int| WriteView::DeleteContact(cs@[int_views(c@)[k]].id as int);
    let mut writes: Vec<Write> = Vec::new();
    let mut sel_g: Vec<GroupRecord> = Vec::new();
    let mut k: usize = 0;
    while k < g.len()
        invariant
            n == gs@.len(),
            forall|j: int| 0 <= j < g@.len() ==> #[trigger] g@[j] < n,
            k <= g@.len(),
            fg == (|k: int| WriteView::DeleteGroup(gs@[int_views(g@)[k]].id as int)),
            plan_view(writes@) =~= Seq::new(k as nat, fg),
            sel_g@ =~= select(gs@, int_views(g@)).subrange(0, k as int),
        decreases g@.len() - k,
    {
        let ghost before = writes@;
        writes.push(Write::DeleteGroup(gs[g[k]].id));
        sel_g.push(gs[g[k]].copy());
        assert(plan_view(writes@) =~= plan_view(before).push(fg(k as int)));
        assert(Seq::new((k + 1) as nat, fg) =~= Seq::new(k as nat, fg).push(fg(k as int)));
        k = k + 1;
    }
    let mut sel_c: Vec<Contact> = Vec::new();
    let mut k: usize = 0;
    while k < c.len()
        invariant
            m == cs@.len(),
            forall|j: int| 0 <= j < c@.len() ==> #[trigger] c@[j] < m,
            k <= c@.len(),
            fc == (|k: int| WriteView::DeleteContact(cs@[int_views(c@)[k]].id as int)),
            plan_view(writes@) =~= Seq::new(g@.len(), fg) + Seq::new(k as nat, fc),
            sel_c@ =~= select(cs@, int_views(c@)).subrange(0, k as int),
        decreases c@.len() - k,
    {
        let ghost before = writes@;
        writes.push(Write::DeleteContact(cs[c[k]].id));
        sel_c.push(cs[c[k]].copy());
        assert(plan_view(writes@) =~= plan_view(before).push(fc(k as int)));
        assert(Seq::new(g@.len(), fg) + Seq::new((k + 1) as nat, fc) =~= (Seq::new(g@.len(), fg)
            + Seq::new(k as nat, fc)).push(fc(k as int)));
        k = k + 1;
    }
    assert(sel_g@ =~= select(gs@, int_views(g@)));
    assert(sel_c@ =~= select(cs@, int_views(c@)));
    let ghost before = writes@;
    writes.push(Write::ClearPending);
    assert(plan_view(writes@) =~= plan_view(before).push(WriteView::ClearPending));
    assert(plan_view(writes@) =~= deletion_confirm_plan(selections@, gs@, cs@));
    let mut reply = String::new();
    if sel_g.len() > 0 {
        reply.append("Deleted ");
        push_dec(&mut reply, sel_g.len() as u64);
        reply.append(" group");
        if sel_g.len() != 1 {
            reply.append("s");
        }
        reply.append(":\n");
        push_group_lines(&mut reply, &sel_g, false, 0);
    }
    let mut contacts = String::new();
    if sel_c.len() > 0 {
        contacts.append("Deleted ");
        push_dec(&mut contacts, sel_c.len() as u64);
        contacts.append(" contact");
        if sel_c.len() != 1 {
            contacts.append("s");
        }
        contacts.append(":\n");
        push_contact_lines(&mut contacts, &sel_c, false, 0);
    }
    push_after(&mut reply, &contacts);
    let mut errors = String::new();
    if bad.len() > 0 {
        errors.append("Errors:\n");
        let joined = join_strings(&bad, "\n");
        errors.append(joined.as_str());
    }
    push_after(&mut reply, &errors);
    Outcome { reply, writes }
}

/// The name of the `n`-th automatically numbered group.
pub open spec fn group_name(n: nat) -> Seq<char> {
    "group"@ + dec(n)
}

/// `n` is the first number whose group name is not among `existing`.
pub open spec fn first_free(existing: Seq<Seq<char>>, n: nat) -> bool {
    &&& !existing.contains(group_name(n))
    &&& forall|k: nat| k < n ==> existing.contains(#[trigger] group_name(k))
}

proof fn lemma_dec_len(n: nat)
    ensures
        dec(n).len() >= 1,
        n >= 10 ==> dec(n).len() >= 2,
    decreases n,
{
    if n >= 10 {
        lemma_dec_len(n / 10);
    }
}

proof fn lemma_digit_injective(x: nat, y: nat)
    requires
        x < 10,
        y < 10,
        digit_char(x) == digit_char(y),
    ensures
        x == y,
{
    assert(digit_char(x) as u32 == 48 + x);
    assert(digit_char(y) as u32 == 48 + y);
}

proof fn lemma_dec_injective(a: nat, b: nat)
    requires
        dec(a) == dec(b),
    ensures
        a == b,
    decreases a,
{
    lemma_dec_len(a);
    lemma_dec_len(b);
    if a >= 10 && b >= 10 {
        assert(dec(a) == dec(a / 10).push(digit_char(a % 10)));
        assert(dec(b) == dec(b / 10).push(digit_char(b % 10)));
        assert(dec(a).drop_last() =~= dec(a / 10));
        assert(dec(b).drop_last() =~= dec(b / 10));
        lemma_dec_injective(a / 10, b / 10);
        let da = (a % 10) as nat;
        let db = (b % 10) as nat;
        assert(dec(a).last() == digit_char(da));
        assert(dec(b).last() == digit_char(db));
        lemma_digit_injective(da, db);
        assert(a == b) by (nonlinear_arith)
            requires
                a / 10 == b / 10,
                a % 10 == b % 10,
        ;
    } else if a < 10 && b < 10 {
        assert(dec(a) == seq![digit_char(a)]);
        assert(dec(b) == seq![digit_char(b)]);
        assert(seq![digit_char(a)][0] == digit_char(a));
        assert(seq![digit_char(b)][0] == digit_char(b));
        lemma_digit_injective(a, b);
    }
}

proof fn lemma_group_name_injective(a: nat, b: nat)
    requires
        group_name(a) == group_name(b),
    ensures
        a == b,
{
    reveal_strlit("group");
    assert(group_name(a).subrange(5, group_name(a).len() as int) =~= dec(a));
    assert(group_name(b).subrange(5, group_name(b).len() as int) =~= dec(b));
    lemma_dec_injective(a, b);
}

/// When the names of groups `0..=n` are all taken, there are more than `n`
/// names.
proof fn lemma_taken_names(existing: Seq<Seq<char>>, n: nat)
    requires
        forall|k: nat| k <= n ==> existing.contains(#[trigger] group_name(k)),
    ensures
        n + 1 <= existing.len(),
{
    let f = |i: int| group_name(i as nat);
    let dom = vstd::set_lib::set_int_range(0, (n + 1) as int);
    vstd::set_lib::lemma_int_range(0, (n + 1) as int);
    assert(vstd::relations::injective_on(f, dom)) by {
        assert forall|x: int, y: int| dom.contains(x) && dom.contains(y) && #[trigger] f(x) == #[trigger] f(y) implies x == y by {
            lemma_group_name_injective(x as nat, y as nat);
        }
    }
    let img = dom.map(f);
    vstd::set_lib::lemma_map_size(dom, img, f);
    let all = existing.to_set();
    assert(img.subset_of(all)) by {
        assert forall|s: Seq<char>| img.contains(s) implies all.contains(s) by {
            let x = choose|x: int| dom.contains(x) && f(x) == s;
            assert(existing.contains(group_name(x as nat)));
        }
    }
    existing.lemma_cardinality_of_set();
    vstd::set_lib::lemma_len_subset(img, all);
}

fn string_in(v: &Vec<String>, s: &String) -> (r: bool)
    ensures
        r == views(v@).contains(s@),
{
    let mut i: usize = 0;
    while i < v.len()
        invariant
            i <= v@.len(),
            forall|k: int| 0 <= k < i ==> v@[k]@ != s@,
        decreases v@.len() - i,
    {
        if v[i] == *s {
            assert(views(v@)[i as int] == s@);
            return true;
        }
        i = i + 1;
    }
    assert forall|k: int| 0 <= k < views(v@).len() implies views(v@)[k] != s@ by {
        assert(views(v@)[k] == v@[k]@);
    }
    false
}

/// The first automatically numbered group name that is free, and its number.
fn free_group_name(existing: &Vec<String>) -> (r: (String, u64))
    ensures
        first_free(views(existing@), r.1 as nat),
        r.0@ == group_name(r.1 as nat),
{
    let mut n: u64 = 0;
    let len = existing.len();
    loop
        invariant
            len == existing@.len(),
            n <= existing@.len(),
            forall|k: nat| k < n ==> views(existing@).contains(#[trigger] group_name(k)),
        decreases existing@.len() - n,
    {
        let mut name = String::from_str("group");
        push_dec(&mut name, n);
        if !string_in(existing, &name) {
            return (name, n);
        }
        proof {
            assert forall|k: nat| k <= n implies views(existing@).contains(#[trigger] group_name(k)) by {}
            lemma_taken_names(views(existing@), n as nat);
        }
        n = n + 1;
    }
}

pub open spec fn errors_tail(invalid: Seq<Seq<char>>) -> Seq<char> {
    if invalid.len() == 0 {
        Seq::empty()
    } else {
        "\nErrors:\n"@ + join(invalid, "\n"@)
    }
}

pub open spec fn created_reply(n: nat, members: Seq<Contact>, invalid: Seq<Seq<char>>) -> Seq<char> {
    "Created group \""@ + group_name(n) + "\" with "@ + dec(members.len()) + " members:\n"@
        + contact_lines(members, false, 0) + errors_tail(invalid)
}

pub open spec fn member_numbers(members: Seq<Contact>) -> Seq<Seq<char>> {
    members.map_values(|c: Contact| c.number@)
}

pub open spec fn created_plan(n: nat, members: Seq<Contact>) -> Seq<WriteView> {
    seq![WriteView::CreateGroup(group_name(n), member_numbers(members)), WriteView::ClearPending]
}

/// Creates a group of `members` under the first free name `group{N}`,
/// clears the pending action, and reports the members and any complaints
/// carried over from the selection.
pub fn create_group(members: &Vec<Contact>, invalid: &Vec<String>, existing: &Vec<String>) -> (r: Outcome)
    ensures
        exists|n: nat|
            first_free(views(existing@), n) && r.reply@ == created_reply(n, members@, views(invalid@))
                && plan_view(r.writes@) == created_plan(n, members@),
{
    let (name, n) = free_group_name(existing);
    let count = members.len();
    let mut numbers: Vec<String> = Vec::new();
    let mut i: usize = 0;
    while i < members.len()
        invariant
            i <= members@.len(),
            views(numbers@) =~= member_numbers(members@).subrange(0, i as int),
        decreases members@.len() - i,
    {
        let ghost before = numbers@;
        numbers.push(members[i].number.clone());
        assert(views(numbers@) =~= views(before).push(members@[i as int].number@));
        i = i + 1;
    }
    assert(views(numbers@) =~= member_numbers(members@));
    let mut reply = String::from_str("Created group \"");
    reply.append(name.as_str());
    reply.append("\" with ");
    push_dec(&mut reply, members.len() as u64);
    reply.append(" members:\n");
    push_contact_lines(&mut reply, members, false, 0);
    if invalid.len() > 0 {
        reply.append("\nErrors:\n");
        let joined = join_strings(invalid, "\n");
        reply.append(joined.as_str());
    }
    let mut writes: Vec<Write> = Vec::new();
    writes.push(Write::CreateGroup(name, numbers));
    writes.push(Write::ClearPending);
    assert(plan_view(writes@) =~= created_plan(n as nat, members@));
    Outcome { reply, writes }
}

/// The reply and plan of a group confirmation: the selected candidates
/// form the first free `group{N}`.
pub open spec fn group_confirmed(
    s: Seq<char>,
    cs: Seq<Contact>,
    existing: Seq<Seq<char>>,
    reply: Seq<char>,
    plan: Seq<WriteView>,
) -> bool {
    let c = tally(member_picks(items(s), cs.len() as int)).1;
    let b = tally(member_picks(items(s), cs.len() as int)).2;
    exists|n: nat|
        first_free(existing, n) && reply == created_reply(n, select(cs, c), b) && plan == created_plan(
            n,
            select(cs, c),
        )
}

pub open spec fn member_picks(toks: Seq<Seq<char>>, m: int) -> Seq<Pick> {
    toks.map_values(|t: Seq<char>| member_pick(t, m))
}

/// Confirms a group: each selection addresses the candidate list `cs`,
/// numbered from one. The contacts selected form a new group; complaints
/// about the others are reported with it.
#[verifier::spinoff_prover]
pub fn confirm_group(selections: &str, cs: &Vec<Contact>, existing: &Vec<String>) -> (r: Outcome)
    ensures
        group_confirmed(selections@, cs@, views(existing@), r.reply@, plan_view(r.writes@)),
{
    let chars = chars_of(selections);
    let toks = split_trimmed(&chars, ',');
    let ghost its = items(selections@);
    assert(views(toks@) =~= its);
    let m = cs.len();
    let ghost ps = member_picks(its, m as int);
    let mut g: Vec<usize> = Vec::new();
    let mut c: Vec<usize> = Vec::new();
    let mut bad: Vec<String> = Vec::new();
    let mut i: usize = 0;
    while i < toks.len()
        invariant
            m == cs@.len(),
            its == items(selections@),
            views(toks@) == its,
            ps == member_picks(its, m as int),
            i <= toks@.len(),
            (int_views(g@), int_views(c@), views(bad@)) == tally(ps.subrange(0, i as int)),
        decreases toks@.len() - i,
    {
        let ch = member_choice(&toks[i], m);
        assert(ps.subrange(0, i + 1).drop_last() =~= ps.subrange(0, i as int));
        assert(toks@[i as int]@ == its[i as int]);
        match ch {
            Choice::Group(k) => {
                g.push(k);
            },
            Choice::Contact(k) => {
                c.push(k);
            },
            Choice::Bad(e) => {
                bad.push(e);
            },
        }
        i = i + 1;
        assert(int_views(g@) =~= tally(ps.subrange(0, i as int)).0);
        assert(int_views(c@) =~= tally(ps.subrange(0, i as int)).1);
        assert(views(bad@) =~= tally(ps.subrange(0, i as int)).2);
    }
    assert(ps.subrange(0, toks@.len() as int) =~= ps);
    proof {
        assert forall|k: int| 0 <= k < ps.len() implies match #[trigger] ps[k] {
            Pick::Group(i) => 0 <= i < 0,
            Pick::Contact(i) => 0 <= i < m,
            Pick::Bad(_) => true,
        } by {}
        lemma_tally_bounds(ps, 0, m as int);
        assert forall|j: int| 0 <= j < c@.len() implies #[trigger] c@[j] < m by {
            assert(tally(ps).1 == int_views(c@));
            assert(int_views(c@)[j] == c@[j] as int);
            assert(0 <= tally(ps).1[j] < m);
        }
    }
    let mut members: Vec<Contact> = Vec::new();
    let mut k: usize = 0;
    while k < c.len()
        invariant
            m == cs@.len(),
            forall|j: int| 0 <= j < c@.len() ==> #[trigger] c@[j] < m,
            k <= c@.len(),
            members@ =~= select(cs@, int_views(c@)).subrange(0, k as int),
        decreases c@.len() - k,
    {
        members.push(cs[c[k]].copy());
        k = k + 1;
    }
    assert(members@ =~= select(cs@, int_views(c@)));
    create_group(&members, &bad, existing)
}

pub open spec fn is_lower(c: char) -> bool {
    'a' <= c <= 'z'
}

/// The candidate numbers recorded under `name`, in insertion order.
pub open spec fn numbers_of(rows: Seq<DeferredContact>, name: Seq<char>) -> Seq<Seq<char>>
    decreases rows.len(),
{
    if rows.len() == 0 {
        Seq::empty()
    } else if rows.last().name@ == name {
        numbers_of(rows.drop_last(), name).push(rows.last().number@)
    } else {
        numbers_of(rows.drop_last(), name)
    }
}

/// `names` are the distinct names of `rows`, in name order.
pub open spec fn deferred_names(rows: Seq<DeferredContact>, names: Seq<Seq<char>>) -> bool {
    &&& forall|a: int, b: int| 0 <= a < b < names.len() ==> lex_lt(#[trigger] names[a], #[trigger] names[b])
    &&& forall|k: int| 0 <= k < names.len() ==> has_row_named(rows, #[trigger] names[k])
    &&& forall|i: int| 0 <= i < rows.len() ==> names.contains((#[trigger] rows[i]).name@)
}

pub open spec fn has_row_named(rows: Seq<DeferredContact>, name: Seq<char>) -> bool {
    exists|i: int| 0 <= i < rows.len() && rows[i].name@ == name
}

/// What a deferred-contact token resolves to.
pub ghost enum Take {
    Contact(Seq<char>, Seq<char>),
    Bad(Seq<char>),
}

/// A token `<digits><letter>`: the digits pick a name by position from
/// one, the lower-case letter one of its numbers (`a` the first).
pub open spec fn deferred_take(tok: Seq<char>, names: Seq<Seq<char>>, rows: Seq<DeferredContact>) -> Take {
    if !(tok.len() > 0 && is_lower(tok.last()) && all_digits(tok.drop_last())) {
        Take::Bad("Invalid selection format: "@ + tok)
    } else {
        let num = tok.drop_last();
        let letter = tok.last();
        match parse_number(num) {
            Some(v) => if v == 0 {
                Take::Bad("Invalid contact number: "@ + num)
            } else if v > names.len() {
                Take::Bad("Contact number "@ + dec(v) + " not found"@)
            } else {
                let nums = numbers_of(rows, names[v - 1]);
                let li = (letter as u32) - 97;
                if li >= nums.len() {
                    Take::Bad("Invalid letter selection: "@ + seq![letter])
                } else {
                    Take::Contact(names[v - 1], nums[li])
                }
            },
            None => Take::Bad("Invalid contact number: "@ + num),
        }
    }
}

/// The contacts taken and the complaints, each in token order.
pub open spec fn takes(ts: Seq<Take>) -> (Seq<(Seq<char>, Seq<char>)>, Seq<Seq<char>>)
    decreases ts.len(),
{
    if ts.len() == 0 {
        (Seq::empty(), Seq::empty())
    } else {
        let (t, b) = takes(ts.drop_last());
        match ts.last() {
            Take::Contact(n, p) => (t.push((n, p)), b),
            Take::Bad(e) => (t, b.push(e)),
        }
    }
}

/// How many rows have a name outside `gone`.
pub open spec fn rows_left(rows: Seq<DeferredContact>, gone: Seq<Seq<char>>) -> nat
    decreases rows.len(),
{
    if rows.len() == 0 {
        0
    } else {
        rows_left(rows.drop_last(), gone) + if gone.contains(rows.last().name@) {
            0nat
        } else {
            1nat
        }
    }
}

pub open spec fn taken_names(t: Seq<(Seq<char>, Seq<char>)>) -> Seq<Seq<char>> {
    t.map_values(|p: (Seq<char>, Seq<char>)| p.0)
}

pub open spec fn added_section(t: Seq<(Seq<char>, Seq<char>)>) -> Seq<char> {
    if t.len() == 0 {
        Seq::empty()
    } else {
        "Successfully added "@ + dec(t.len()) + " contact"@ + plural(t.len()) + ":\n"@ + concat_all(
            Seq::new(t.len(), |k: int| "• "@ + t[k].0 + " ("@ + t[k].1 + ")\n"@),
        )
    }
}

pub open spec fn failed_section(b: Seq<Seq<char>>) -> Seq<char> {
    if b.len() == 0 {
        Seq::empty()
    } else {
        "Failed to process:\n"@ + concat_all(Seq::new(b.len(), |k: int| "• "@ + b[k] + "\n"@))
    }
}

pub open spec fn deferred_takes(toks: Seq<Seq<char>>, names: Seq<Seq<char>>, rows: Seq<DeferredContact>) -> Seq<Take> {
    toks.map_values(|t: Seq<char>| deferred_take(t, names, rows))
}

pub open spec fn deferred_reply(s: Seq<char>, names: Seq<Seq<char>>, rows: Seq<DeferredContact>) -> Seq<char> {
    let (t, b) = takes(deferred_takes(items(s), names, rows));
    after(added_section(t), failed_section(b))
}

pub open spec fn deferred_plan(s: Seq<char>, names: Seq<Seq<char>>, rows: Seq<DeferredContact>) -> Seq<WriteView> {
    let t = takes(deferred_takes(items(s), names, rows)).0;
    Seq::new(t.len(), |k: int| WriteView::AddContact(t[k].0, t[k].1)) + Seq::new(
        t.len(),
        |k: int| WriteView::DropDeferred(t[k].0),
    ) + if rows_left(rows, taken_names(t)) == 0 {
        seq![WriteView::ClearPending]
    } else {
        Seq::empty()
    }
}

/// The reply and plan of a deferred-contact confirmation, with the names
/// numbered in name order.
pub open spec fn deferred_confirmed(
    s: Seq<char>,
    rows: Seq<DeferredContact>,
    reply: Seq<char>,
    plan: Seq<WriteView>,
) -> bool {
    exists|names: Seq<Seq<char>>|
        deferred_names(rows, names) && reply == deferred_reply(s, names, rows) && plan
            == deferred_plan(s, names, rows)
}

/// A deferred-contact token resolved.
pub enum Resolved {
    Contact(String, String),
    Bad(String),
}

impl View for Resolved {
    type V = Take;

    open spec fn view(&self) -> Take {
        match self {
            Resolved::Contact(n, p) => Take::Contact(n@, p@),
            Resolved::Bad(e) => Take::Bad(e@),
        }
    }
}

fn numbers_for(rows: &Vec<DeferredContact>, name: &String) -> (r: Vec<String>)
    ensures
        views(r@) == numbers_of(rows@, name@),
{
    let mut r: Vec<String> = Vec::new();
    let mut i: usize = 0;
    while i < rows.len()
        invariant
            i <= rows@.len(),
            views(r@) == numbers_of(rows@.subrange(0, i as int), name@),
        decreases rows@.len() - i,
    {
        assert(rows@.subrange(0, i + 1).drop_last() =~= rows@.subrange(0, i as int));
        if rows[i].name == *name {
            let ghost before = r@;
            r.push(rows[i].number.clone());
            assert(views(r@) =~= views(before).push(rows@[i as int].number@));
        }
        i = i + 1;
    }
    assert(rows@.subrange(0, rows@.len() as int) =~= rows@);
    r
}

fn token_shape_ok(t: &Vec<char>) -> (r: bool)
    ensures
        r == (t@.len() > 0 && is_lower(t@.last()) && all_digits(t@.drop_last())),
{
    let n = t.len();
    if n == 0 {
        return false;
    }
    let last = t[n - 1];
    if !('a' <= last && last <= 'z') {
        return false;
    }
    let mut k: usize = 0;
    while k < n - 1
        invariant
            n == t@.len(),
            n > 0,
            k <= n - 1,
            forall|j: int| 0 <= j < k ==> #[trigger] is_digit(t@[j]),
        decreases n - 1 - k,
    {
        if !('0' <= t[k] && t[k] <= '9') {
            assert(t@.drop_last()[k as int] == t@[k as int]);
            assert(!is_digit(t@.drop_last()[k as int]));
            return false;
        }
        k = k + 1;
    }
    assert forall|j: int| 0 <= j < t@.drop_last().len() implies #[trigger] is_digit(t@.drop_last()[j]) by {
        assert(t@.drop_last()[j] == t@[j]);
    }
    true
}

#[verifier::spinoff_prover]
fn deferred_choice(tok: &String, names: &Vec<String>, rows: &Vec<DeferredContact>) -> (r: Resolved)
    ensures
        r@ == deferred_take(tok@, views(names@), rows@),
{
    let t = chars_of(tok.as_str());
    let n = t.len();
    if !token_shape_ok(&t) {
        let mut e = String::from_str("Invalid selection format: ");
        e.append(tok.as_str());
        return Resolved::Bad(e);
    }
    let num = string_of(&t, 0, n - 1);
    let digits = chars_of(num.as_str());
    assert(digits@ =~= tok@.drop_last());
    let letter = t[n - 1];
    assert(letter == tok@.last());
    match parse_usize(&digits) {
        Some(v) => {
            if v == 0 {
                let mut e = String::from_str("Invalid contact number: ");
                e.append(num.as_str());
                Resolved::Bad(e)
            } else if v > names.len() {
                let mut e = String::from_str("Contact number ");
                push_dec(&mut e, v as u64);
                e.append(" not found");
                Resolved::Bad(e)
            } else {
                let name = &names[v - 1];
                assert(views(names@)[v - 1] == name@);
                let nums = numbers_for(rows, name);
                let li = (letter as u32 - 97) as usize;
                if li >= nums.len() {
                    let mut e = String::from_str("Invalid letter selection: ");
                    let ghost e0 = e@;
                    e.push(letter);
                    assert(e@ =~= e0 + seq![letter]);
                    Resolved::Bad(e)
                } else {
                    assert(views(nums@)[li as int] == nums@[li as int]@);
                    Resolved::Contact(name.clone(), nums[li].clone())
                }
            }
        },
        None => {
            let mut e = String::from_str("Invalid contact number: ");
            e.append(num.as_str());
            Resolved::Bad(e)
        },
    }
}

/// The distinct names of `rows`, in name order.
#[verifier::spinoff_prover]
pub fn distinct_names(rows: &Vec<DeferredContact>) -> (r: Vec<String>)
    ensures
        deferred_names(rows@, views(r@)),
{
    let mut names: Vec<Vec<char>> = Vec::new();
    let mut tags: Vec<i64> = Vec::new();
    let mut keep: Vec<bool> = Vec::new();
    let mut i: usize = 0;
    while i < rows.len()
        invariant
            i <= rows@.len(),
            names@.len() == i,
            tags@.len() == i,
            keep@.len() == i,
            forall|k: int| 0 <= k < i ==> (#[trigger] names@[k])@ == rows@[k].name@,
            forall|k: int| 0 <= k < i ==> #[trigger] tags@[k] == 0,
            forall|k: int| 0 <= k < i ==> #[trigger] keep@[k],
        decreases rows@.len() - i,
    {
        names.push(chars_of(rows[i].name.as_str()));
        tags.push(0);
        keep.push(true);
        i = i + 1;
    }
    let idx = sorted_picks(&names, &tags, &keep);
    let ghost nv = char_views(names@);
    let mut r: Vec<String> = Vec::new();
    let mut k: usize = 0;
    while k < idx.len()
        invariant
            nv == char_views(names@),
            names@.len() == rows@.len(),
            tags@.len() == rows@.len(),
            forall|j: int| 0 <= j < rows@.len() ==> (#[trigger] names@[j])@ == rows@[j].name@,
            picks(nv, tags@, keep@, idx@),
            k <= idx@.len(),
            r@.len() == k,
            forall|m: int| 0 <= m < k ==> (#[trigger] r@[m])@ == rows@[idx@[m] as int].name@,
        decreases idx@.len() - k,
    {
        assert(idx@[k as int] < rows@.len());
        r.push(rows[idx[k]].name.clone());
        k = k + 1;
    }
    proof {
        let rv = views(r@);
        assert forall|a: int, b: int| 0 <= a < b < rv.len() implies lex_lt(#[trigger] rv[a], #[trigger] rv[b]) by {
            let ia = idx@[a] as int;
            let ib = idx@[b] as int;
            assert(before(nv, tags@, ia, ib));
            assert(tags@[ia] == 0 && tags@[ib] == 0);
            assert(rv[a] == r@[a]@);
            assert(rv[b] == r@[b]@);
            assert(nv[ia] == names@[ia]@);
            assert(nv[ib] == names@[ib]@);
        }
        assert forall|m: int| 0 <= m < rv.len() implies has_row_named(rows@, #[trigger] rv[m]) by {
            let i = idx@[m] as int;
            assert(rows@[i].name@ == rv[m]);
        }
        assert forall|i: int| 0 <= i < rows@.len() implies rv.contains((#[trigger] rows@[i]).name@) by {
            assert(keep@[i]);
            let m = choose|m: int| 0 <= m < idx@.len() && key_of(nv, tags@, #[trigger] idx@[m] as int) == key_of(nv, tags@, i);
            assert(rv[m] == r@[m]@);
            let im = idx@[m] as int;
            assert(nv[im] == names@[im]@);
            assert(nv[i] == names@[i]@);
        }
    }
    r
}

fn count_left(rows: &Vec<DeferredContact>, gone: &Vec<String>) -> (left: usize)
    ensures
        left as nat == rows_left(rows@, views(gone@)),
{
    let mut left: usize = 0;
    let mut j: usize = 0;
    while j < rows.len()
        invariant
            j <= rows@.len(),
            left <= j,
            left as nat == rows_left(rows@.subrange(0, j as int), views(gone@)),
        decreases rows@.len() - j,
    {
        assert(rows@.subrange(0, j + 1).drop_last() =~= rows@.subrange(0, j as int));
        if !string_in(gone, &rows[j].name) {
            left = left + 1;
        }
        j = j + 1;
    }
    assert(rows@.subrange(0, rows@.len() as int) =~= rows@);
    left
}

fn added_text(taken: &Vec<(String, String)>) -> (r: String)
    ensures
        r@ == added_section(pair_views(taken@)),
{
    let ghost t = pair_views(taken@);
    let mut reply = String::new();
    if taken.len() > 0 {
        reply.append("Successfully added ");
        push_dec(&mut reply, taken.len() as u64);
        reply.append(" contact");
        if taken.len() != 1 {
            reply.append("s");
        }
        reply.append(":\n");
        let ghost start = reply@;
        let ghost f = |k: int| "• "@ + t[k].0 + " ("@ + t[k].1 + ")\n"@;
        let mut k: usize = 0;
        while k < taken.len()
            invariant
                t == pair_views(taken@),
                k <= taken@.len(),
                f == (|k: int| "• "@ + t[k].0 + " ("@ + t[k].1 + ")\n"@),
                reply@ == start + concat_all(Seq::new(k as nat, f)),
            decreases taken@.len() - k,
        {
            reply.append("• ");
            reply.append(taken[k].0.as_str());
            reply.append(" (");
            reply.append(taken[k].1.as_str());
            reply.append(")\n");
            assert(Seq::new((k + 1) as nat, f).drop_last() =~= Seq::new(k as nat, f));
            k = k + 1;
        }
    }
    reply
}

fn failed_text(bad: &Vec<String>) -> (r: String)
    ensures
        r@ == failed_section(views(bad@)),
{
    let mut failed = String::new();
    if bad.len() > 0 {
        failed.append("Failed to process:\n");
        let ghost start = failed@;
        let ghost b = views(bad@);
        let ghost f = |k: int| "• "@ + b[k] + "\n"@;
        let mut k: usize = 0;
        while k < bad.len()
            invariant
                b == views(bad@),
                k <= bad@.len(),
                f == (|k: int| "• "@ + b[k] + "\n"@),
                failed@ == start + concat_all(Seq::new(k as nat, f)),
            decreases bad@.len() - k,
        {
            failed.append("• ");
            failed.append(bad[k].as_str());
            failed.append("\n");
            assert(Seq::new((k + 1) as nat, f).drop_last() =~= Seq::new(k as nat, f));
            k = k + 1;
        }
    }
    failed
}

/// Confirms deferred contacts: each token picks a name and one of its
/// numbers; every pick becomes a contact, the rows of every name picked are
/// dropped, and the pending action is cleared once no rows are left.
#[verifier::spinoff_prover]
pub fn confirm_deferred(selections: &str, rows: &Vec<DeferredContact>) -> (r: Outcome)
    ensures
        deferred_confirmed(selections@, rows@, r.reply@, plan_view(r.writes@)),
{
    let names = distinct_names(rows);
    let ghost nv = views(names@);
    let chars = chars_of(selections);
    let toks = split_trimmed(&chars, ',');
    let ghost its = items(selections@);
    assert(views(toks@) =~= its);
    let ghost ts = deferred_takes(its, nv, rows@);
    let mut taken: Vec<(String, String)> = Vec::new();
    let mut bad: Vec<String> = Vec::new();
    let mut i: usize = 0;
    while i < toks.len()
        invariant
            nv == views(names@),
            its == items(selections@),
            views(toks@) == its,
            ts == deferred_takes(its, nv, rows@),
            i <= toks@.len(),
            (pair_views(taken@), views(bad@)) == takes(ts.subrange(0, i as int)),
        decreases toks@.len() - i,
    {
        let ch = deferred_choice(&toks[i], &names, rows);
        assert(ts.subrange(0, i + 1).drop_last() =~= ts.subrange(0, i as int));
        assert(toks@[i as int]@ == its[i as int]);
        match ch {
            Resolved::Contact(n, p) => {
                taken.push((n, p));
            },
            Resolved::Bad(e) => {
                bad.push(e);
            },
        }
        i = i + 1;
        assert(pair_views(taken@) =~= takes(ts.subrange(0, i as int)).0);
        assert(views(bad@) =~= takes(ts.subrange(0, i as int)).1);
    }
    assert(ts.subrange(0, toks@.len() as int) =~= ts);
    let ghost t = pair_views(taken@);
    let ghost fa = |k: int| WriteView::AddContact(t[k].0, t[k].1);
    let ghost fd = |k: int| WriteView::DropDeferred(t[k].0);
    let mut writes: Vec<Write> = Vec::new();
    let mut k: usize = 0;
    while k < taken.len()
        invariant
            t == pair_views(taken@),
            k <= taken@.len(),
            fa == (|k: int| WriteView::AddContact(t[k].0, t[k].1)),
            plan_view(writes@) =~= Seq::new(k as nat, fa),
        decreases taken@.len() - k,
    {
        let ghost before = writes@;
        writes.push(Write::AddContact(taken[k].0.clone(), taken[k].1.clone()));
        assert(plan_view(writes@) =~= plan_view(before).push(fa(k as int)));
        assert(Seq::new((k + 1) as nat, fa) =~= Seq::new(k as nat, fa).push(fa(k as int)));
        k = k + 1;
    }
    let mut gone: Vec<String> = Vec::new();
    let mut k: usize = 0;
    while k < taken.len()
        invariant
            t == pair_views(taken@),
            k <= taken@.len(),
            fa == (|k: int| WriteView::AddContact(t[k].0, t[k].1)),
            fd == (|k: int| WriteView::DropDeferred(t[k].0)),
            plan_view(writes@) =~= Seq::new(taken@.len(), fa) + Seq::new(k as nat, fd),
            views(gone@) =~= taken_names(t).subrange(0, k as int),
        decreases taken@.len() - k,
    {
        let ghost before = writes@;
        writes.push(Write::DropDeferred(taken[k].0.clone()));
        let ghost gone0 = gone@;
        gone.push(taken[k].0.clone());
        assert(views(gone@) =~= views(gone0).push(t[k as int].0));
        assert(plan_view(writes@) =~= plan_view(before).push(fd(k as int)));
        assert(Seq::new(taken@.len(), fa) + Seq::new((k + 1) as nat, fd) =~= (Seq::new(taken@.len(), fa)
            + Seq::new(k as nat, fd)).push(fd(k as int)));
        k = k + 1;
    }
    assert(views(gone@) =~= taken_names(t));
    let left = count_left(rows, &gone);
    if left == 0 {
        let ghost before = writes@;
        writes.push(Write::ClearPending);
        assert(plan_view(writes@) =~= plan_view(before).push(WriteView::ClearPending));
    }
    assert(plan_view(writes@) =~= deferred_plan(selections@, nv, rows@));
    let mut reply = added_text(&taken);
    let failed = failed_text(&bad);
    push_after(&mut reply, &failed);
    assert(deferred_names(rows@, nv));
    Outcome { reply, writes }
}

pub open spec fn pair_views(v: Seq<(String, String)>) -> Seq<(Seq<char>, Seq<char>)> {
    v.map_values(|p: (String, String)| (p.0@, p.1@))
}

/// The candidates of the submitter's pending action, as the store holds
/// them.
pub enum Pending {
    /// No pending action.
    Nothing,
    /// The groups and contacts recorded for deletion.
    Deletion(Vec<GroupRecord>, Vec<Contact>),
    /// The candidate members, and the names of the submitter's groups.
    Group(Vec<Contact>, Vec<String>),
    /// The submitter's deferred contact rows, in insertion order.
    DeferredContacts(Vec<DeferredContact>),
    /// A pending action of a kind this library does not know.
    Unrecognized,
}

pub open spec fn all_true(n: nat) -> Seq<bool> {
    Seq::new(n, |i: int| true)
}

fn trues(n: usize) -> (r: Vec<bool>)
    ensures
        r@ == all_true(n as nat),
{
    let mut r: Vec<bool> = Vec::new();
    let mut i: usize = 0;
    while i < n
        invariant
            i <= n,
            r@ =~= all_true(i as nat),
        decreases n - i,
    {
        r.push(true);
        i = i + 1;
    }
    r
}

/// The reply when no action is pending.
pub open spec fn nothing_to_confirm() -> Seq<char> {
    "No pending actions to confirm."@
}

/// Confirms the pending action with `selections`. The candidates are
/// listed in name order, as when they were offered. With nothing pending
/// the reply says so and nothing is written.
///
/// Expiry is not checked here: a pending action older than its time to
/// live is confirmed like any other until the periodic sweep removes it.
#[verifier::spinoff_prover]
pub fn handle_confirm(selections: &str, pending: &Pending) -> (r: Outcome)
    requires
        pending matches Pending::Deletion(g, c) ==> g@.len() + c@.len() < usize::MAX,
    ensures
        match pending {
            Pending::Nothing => r.reply@ == nothing_to_confirm() && r.writes@.len() == 0,
            Pending::Unrecognized => r.reply@ == "Invalid action type"@ && r.writes@.len() == 0,
            Pending::Deletion(groups, contacts) => exists|gs: Seq<GroupRecord>, cs: Seq<Contact>|
                arranged_groups(groups@, all_true(groups@.len()), gs) && arranged_contacts(
                    contacts@,
                    all_true(contacts@.len()),
                    cs,
                ) && r.reply@ == deletion_confirm_reply(selections@, gs, cs) && plan_view(r.writes@)
                    == deletion_confirm_plan(selections@, gs, cs),
            Pending::Group(candidates, existing) => exists|cs: Seq<Contact>|
                arranged_contacts(candidates@, all_true(candidates@.len()), cs) && group_confirmed(
                    selections@,
                    cs,
                    views(existing@),
                    r.reply@,
                    plan_view(r.writes@),
                ),
            Pending::DeferredContacts(rows) => deferred_confirmed(
                selections@,
                rows@,
                r.reply@,
                plan_view(r.writes@),
            ),
        },
{
    match pending {
        Pending::Nothing => Outcome {
            reply: String::from_str("No pending actions to confirm."),
            writes: Vec::new(),
        },
        Pending::Deletion(groups, contacts) => {
            let gs = sort_groups(groups, &trues(groups.len()));
            let cs = sort_contacts(contacts, &trues(contacts.len()));
            confirm_deletion(selections, &gs, &cs)
        },
        Pending::Group(candidates, existing) => {
            let cs = sort_contacts(candidates, &trues(candidates.len()));
            confirm_group(selections, &cs, existing)
        },
        Pending::DeferredContacts(rows) => confirm_deferred(selections, rows),
        Pending::Unrecognized => Outcome {
            reply: String::from_str("Invalid action type"),
            writes: Vec::new(),
        },
    }
}

} // verus!
