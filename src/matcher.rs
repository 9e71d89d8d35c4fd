//! Fuzzy matching of groups and contacts by name fragment, and the name
//! order in which matches are listed and later addressed.
use vstd::prelude::*;
use crate::order::{char_views, picks, sorted_picks};
use crate::records::{Contact, GroupRecord};
use crate::text::{chars_of, lower, lower_chars, occurs, occurs_in};

verus! {

/// `name` matches `fragment`: the fragment occurs in the name, ASCII
/// letters compared without case.
pub open spec fn name_matches(name: Seq<char>, fragment: Seq<char>) -> bool {
    occurs_in(lower(name), lower(fragment))
}

pub open spec fn group_names(gs: Seq<GroupRecord>) -> Seq<Seq<char>> {
    gs.map_values(|g: GroupRecord| g.name@)
}

pub open spec fn group_ids(gs: Seq<GroupRecord>) -> Seq<i64> {
    gs.map_values(|g: GroupRecord| g.id)
}

pub open spec fn contact_names(cs: Seq<Contact>) -> Seq<Seq<char>> {
    cs.map_values(|c: Contact| c.name@)
}

pub open spec fn contact_ids(cs: Seq<Contact>) -> Seq<i64> {
    cs.map_values(|c: Contact| c.id)
}

/// `r` lists the flagged groups of `gs`, each (name, id) once, ordered by
/// name and then id.
pub open spec fn arranged_groups(gs: Seq<GroupRecord>, keep: Seq<bool>, r: Seq<GroupRecord>) -> bool {
    &&& r.len() <= gs.len()
    &&& exists|idx: Seq<usize>|
        picks(group_names(gs), group_ids(gs), keep, idx) && r.len() == idx.len() && forall|k: int|
            0 <= k < r.len() ==> r[k] == gs[#[trigger] idx[k] as int]
}

/// `r` lists the flagged contacts of `cs`, each (name, id) once, ordered by
/// name and then id.
pub open spec fn arranged_contacts(cs: Seq<Contact>, keep: Seq<bool>, r: Seq<Contact>) -> bool {
    &&& r.len() <= cs.len()
    &&& exists|idx: Seq<usize>|
        picks(contact_names(cs), contact_ids(cs), keep, idx) && r.len() == idx.len() && forall|k: int|
            0 <= k < r.len() ==> r[k] == cs[#[trigger] idx[k] as int]
}

/// The flagged groups in name order.
pub fn sort_groups(gs: &Vec<GroupRecord>, keep: &Vec<bool>) -> (r: Vec<GroupRecord>)
    requires
        keep@.len() == gs@.len(),
    ensures
        arranged_groups(gs@, keep@, r@),
{
    let mut names: Vec<Vec<char>> = Vec::new();
    let mut tags: Vec<i64> = Vec::new();
    let mut i: usize = 0;
    while i < gs.len()
        invariant
            i <= gs@.len(),
            names@.len() == i,
            tags@.len() == i,
            forall|k: int| 0 <= k < i ==> (#[trigger] names@[k])@ == gs@[k].name@,
            forall|k: int| 0 <= k < i ==> #[trigger] tags@[k] == gs@[k].id,
        decreases gs@.len() - i,
    {
        names.push(chars_of(gs[i].name.as_str()));
        tags.push(gs[i].id);
        i = i + 1;
    }
    assert(char_views(names@) =~= group_names(gs@));
    assert(tags@ =~= group_ids(gs@));
    let idx = sorted_picks(&names, &tags, keep);
    let mut r: Vec<GroupRecord> = Vec::new();
    let mut k: usize = 0;
    while k < idx.len()
        invariant
            picks(group_names(gs@), group_ids(gs@), keep@, idx@),
            k <= idx@.len(),
            r@.len() == k,
            forall|m: int| 0 <= m < k ==> r@[m] == gs@[#[trigger] idx@[m] as int],
        decreases idx@.len() - k,
    {
        assert(idx@[k as int] < gs@.len());
        r.push(gs[idx[k]].copy());
        k = k + 1;
    }
    r
}

/// The flagged contacts in name order.
pub fn sort_contacts(cs: &Vec<Contact>, keep: &Vec<bool>) -> (r: Vec<Contact>)
    requires
        keep@.len() == cs@.len(),
    ensures
        arranged_contacts(cs@, keep@, r@),
{
    let mut names: Vec<Vec<char>> = Vec::new();
    let mut tags: Vec<i64> = Vec::new();
    let mut i: usize = 0;
    while i < cs.len()
        invariant
            i <= cs@.len(),
            names@.len() == i,
            tags@.len() == i,
            forall|k: int| 0 <= k < i ==> (#[trigger] names@[k])@ == cs@[k].name@,
            forall|k: int| 0 <= k < i ==> #[trigger] tags@[k] == cs@[k].id,
        decreases cs@.len() - i,
    {
        names.push(chars_of(cs[i].name.as_str()));
        tags.push(cs[i].id);
        i = i + 1;
    }
    assert(char_views(names@) =~= contact_names(cs@));
    assert(tags@ =~= contact_ids(cs@));
    let idx = sorted_picks(&names, &tags, keep);
    let mut r: Vec<Contact> = Vec::new();
    let mut k: usize = 0;
    while k < idx.len()
        invariant
            picks(contact_names(cs@), contact_ids(cs@), keep@, idx@),
            k <= idx@.len(),
            r@.len() == k,
            forall|m: int| 0 <= m < k ==> r@[m] == cs@[#[trigger] idx@[m] as int],
        decreases idx@.len() - k,
    {
        assert(idx@[k as int] < cs@.len());
        r.push(cs[idx[k]].copy());
        k = k + 1;
    }
    r
}

/// Whether `name` matches the lower-cased fragment `low`.
fn matches_lowered(name: &String, low: &Vec<char>) -> (r: bool)
    ensures
        r == occurs_in(lower(name@), low@),
{
    let n = chars_of(name.as_str());
    let ln = lower_chars(&n);
    occurs(&ln, low)
}

/// For each group, whether its name matches `fragment`.
pub open spec fn group_flags(gs: Seq<GroupRecord>, fragment: Seq<char>) -> Seq<bool> {
    Seq::new(gs.len(), |i: int| name_matches(gs[i].name@, fragment))
}

/// For each contact, whether its name matches `fragment`.
pub open spec fn contact_flags(cs: Seq<Contact>, fragment: Seq<char>) -> Seq<bool> {
    Seq::new(cs.len(), |i: int| name_matches(cs[i].name@, fragment))
}

/// For each contact, whether its name matches one of `fragments`.
pub open spec fn contact_flags_any(cs: Seq<Contact>, fragments: Seq<Seq<char>>) -> Seq<bool> {
    Seq::new(
        cs.len(),
        |i: int| exists|f: int| 0 <= f < fragments.len() && name_matches(cs[i].name@, #[trigger] fragments[f]),
    )
}

/// The groups whose names match `fragment`, in name order.
pub fn matching_groups(fragment: &str, gs: &Vec<GroupRecord>) -> (r: Vec<GroupRecord>)
    ensures
        arranged_groups(gs@, group_flags(gs@, fragment@), r@),
{
    let f = chars_of(fragment);
    let low = lower_chars(&f);
    let mut keep: Vec<bool> = Vec::new();
    let mut i: usize = 0;
    while i < gs.len()
        invariant
            i <= gs@.len(),
            low@ == lower(fragment@),
            keep@ =~= group_flags(gs@, fragment@).subrange(0, i as int),
        decreases gs@.len() - i,
    {
        keep.push(matches_lowered(&gs[i].name, &low));
        i = i + 1;
    }
    assert(keep@ =~= group_flags(gs@, fragment@));
    sort_groups(gs, &keep)
}

/// The contacts whose names match `fragment`, in name order.
pub fn matching_contacts(fragment: &str, cs: &Vec<Contact>) -> (r: Vec<Contact>)
    ensures
        arranged_contacts(cs@, contact_flags(cs@, fragment@), r@),
{
    let f = chars_of(fragment);
    let low = lower_chars(&f);
    let mut keep: Vec<bool> = Vec::new();
    let mut i: usize = 0;
    while i < cs.len()
        invariant
            i <= cs@.len(),
            low@ == lower(fragment@),
            keep@ =~= contact_flags(cs@, fragment@).subrange(0, i as int),
        decreases cs@.len() - i,
    {
        keep.push(matches_lowered(&cs[i].name, &low));
        i = i + 1;
    }
    assert(keep@ =~= contact_flags(cs@, fragment@));
    sort_contacts(cs, &keep)
}

/// The contacts whose names match any of `fragments`, each once, in name
/// order.
pub fn matching_contacts_any(fragments: &Vec<String>, cs: &Vec<Contact>) -> (r: Vec<Contact>)
    ensures
        arranged_contacts(cs@, contact_flags_any(cs@, crate::text::views(fragments@)), r@),
{
    let ghost fv = crate::text::views(fragments@);
    let mut lows: Vec<Vec<char>> = Vec::new();
    let mut j: usize = 0;
    while j < fragments.len()
        invariant
            j <= fragments@.len(),
            lows@.len() == j,
            forall|k: int| 0 <= k < j ==> (#[trigger] lows@[k])@ == lower(fragments@[k]@),
        decreases fragments@.len() - j,
    {
        let f = chars_of(fragments[j].as_str());
        lows.push(lower_chars(&f));
        j = j + 1;
    }
    let mut keep: Vec<bool> = Vec::new();
    let mut i: usize = 0;
    while i < cs.len()
        invariant
            i <= cs@.len(),
            fv == crate::text::views(fragments@),
            lows@.len() == fragments@.len(),
            forall|k: int| 0 <= k < lows@.len() ==> (#[trigger] lows@[k])@ == lower(fragments@[k]@),
            keep@ =~= contact_flags_any(cs@, fv).subrange(0, i as int),
        decreases cs@.len() - i,
    {
        let mut any = false;
        let mut f: usize = 0;
        while f < lows.len() && !any
            invariant
                f <= lows@.len(),
                i < cs@.len(),
                fv == crate::text::views(fragments@),
                lows@.len() == fragments@.len(),
                forall|k: int| 0 <= k < lows@.len() ==> (#[trigger] lows@[k])@ == lower(fragments@[k]@),
                any == exists|k: int| 0 <= k < f && name_matches(cs@[i as int].name@, #[trigger] fv[k]),
            decreases lows@.len() - f,
        {
            any = matches_lowered(&cs[i].name, &lows[f]);
            assert(fv[f as int] == fragments@[f as int]@);
            f = f + 1;
        }
        proof {
            if !any {
                assert(f == lows@.len());
            }
        }
        keep.push(any);
        i = i + 1;
    }
    assert(keep@ =~= contact_flags_any(cs@, fv));
    sort_contacts(cs, &keep)
}

} // verus!
