//! Building blocks of the replies: numbered and bulleted lines, sections,
//! and the area code shown beside a number.
use vstd::prelude::*;
use crate::records::{Contact, GroupRecord};
use crate::text::{chars_of, dec, join, push_dec, string_of};

verus! {

/// The pieces of `s`, one after another.
pub open spec fn concat_all(s: Seq<Seq<char>>) -> Seq<char>
    decreases s.len(),
{
    if s.len() == 0 {
        Seq::empty()
    } else {
        concat_all(s.drop_last()) + s.last()
    }
}

/// `"s"` unless there is exactly one.
pub open spec fn plural(k: nat) -> Seq<char> {
    if k == 1 {
        Seq::empty()
    } else {
        "s"@
    }
}

/// `a` followed by `b`, with a blank line between them when both have text.
pub open spec fn after(a: Seq<char>, b: Seq<char>) -> Seq<char> {
    if a.len() > 0 && b.len() > 0 {
        a + "\n"@ + b
    } else {
        a + b
    }
}

pub open spec fn is_digit(c: char) -> bool {
    '0' <= c <= '9'
}

/// The area code of a North American number in E.164 form (`+1` and ten
/// digits): the three digits after the country code.
pub open spec fn area_code(n: Seq<char>) -> Option<Seq<char>> {
    if n.len() == 12 && n[0] == '+' && n[1] == '1' && forall|i: int|
        2 <= i < 12 ==> #[trigger] is_digit(n[i]) {
        Some(n.subrange(2, 5))
    } else {
        None
    }
}

/// The area code of a number, or `???` where it has none.
pub open spec fn area_text(n: Seq<char>) -> Seq<char> {
    match area_code(n) {
        Some(a) => a,
        None => "???"@,
    }
}

/// `{name} ({count} members)`
pub open spec fn group_text(g: GroupRecord) -> Seq<char> {
    g.name@ + " ("@ + dec(g.member_count as nat) + " members)"@
}

/// `{name} ({area code})`
pub open spec fn contact_text(c: Contact) -> Seq<char> {
    c.name@ + " ("@ + area_text(c.number@) + ")"@
}

/// A line's lead: `{k}. ` when numbered, `• ` otherwise.
pub open spec fn lead(numbered: bool, k: nat) -> Seq<char> {
    if numbered {
        dec(k) + ". "@
    } else {
        "• "@
    }
}

/// One line per group, each ending in a newline, numbered from `first`.
pub open spec fn group_lines(gs: Seq<GroupRecord>, numbered: bool, first: nat) -> Seq<char> {
    concat_all(
        Seq::new(gs.len(), |i: int| lead(numbered, (first + i) as nat) + group_text(gs[i]) + "\n"@),
    )
}

/// One line per contact, each ending in a newline, numbered from `first`.
pub open spec fn contact_lines(cs: Seq<Contact>, numbered: bool, first: nat) -> Seq<char> {
    concat_all(
        Seq::new(cs.len(), |i: int| lead(numbered, (first + i) as nat) + contact_text(cs[i]) + "\n"@),
    )
}

pub fn area_code_text(number: &str) -> (r: String)
    ensures
        r@ == area_text(number@),
{
    let cs = chars_of(number);
    if cs.len() != 12 || cs[0] != '+' || cs[1] != '1' {
        return String::from_str("???");
    }
    let mut i: usize = 2;
    while i < 12
        invariant
            cs@ == number@,
            cs@.len() == 12,
            2 <= i <= 12,
            forall|k: int| 2 <= k < i ==> #[trigger] is_digit(cs@[k]),
        decreases 12 - i,
    {
        if !('0' <= cs[i] && cs[i] <= '9') {
            assert(!is_digit(number@[i as int]));
            return String::from_str("???");
        }
        i = i + 1;
    }
    string_of(&cs, 2, 5)
}

fn push_lead(r: &mut String, numbered: bool, k: u64)
    ensures
        final(r)@ == old(r)@ + lead(numbered, k as nat),
{
    if numbered {
        push_dec(r, k);
        r.append(". ");
    } else {
        r.append("• ");
    }
}

/// Appends `{name} ({count} members)`.
pub fn push_group_text(r: &mut String, g: &GroupRecord)
    ensures
        final(r)@ == old(r)@ + group_text(*g),
{
    r.append(g.name.as_str());
    r.append(" (");
    push_dec(r, g.member_count);
    r.append(" members)");
}

/// Appends `{name} ({area code})`.
pub fn push_contact_text(r: &mut String, c: &Contact)
    ensures
        final(r)@ == old(r)@ + contact_text(*c),
{
    r.append(c.name.as_str());
    r.append(" (");
    let a = area_code_text(c.number.as_str());
    r.append(a.as_str());
    r.append(")");
}

pub fn push_group_lines(r: &mut String, gs: &Vec<GroupRecord>, numbered: bool, first: u64)
    requires
        first + gs@.len() <= u64::MAX,
    ensures
        final(r)@ == old(r)@ + group_lines(gs@, numbered, first as nat),
{
    let ghost start = r@;
    let ghost f = |i: int| lead(numbered, (first + i) as nat) + group_text(gs@[i]) + "\n"@;
    let mut i: usize = 0;
    while i < gs.len()
        invariant
            first + gs@.len() <= u64::MAX,
            i <= gs@.len(),
            f == (|i: int| lead(numbered, (first + i) as nat) + group_text(gs@[i]) + "\n"@),
            r@ == start + concat_all(Seq::new(i as nat, f)),
        decreases gs@.len() - i,
    {
        push_lead(r, numbered, first + i as u64);
        push_group_text(r, &gs[i]);
        r.append("\n");
        proof {
            assert(Seq::new((i + 1) as nat, f).drop_last() =~= Seq::new(i as nat, f));
        }
        i = i + 1;
    }
    assert(Seq::new(gs@.len(), f) =~= Seq::new(
        gs@.len(),
        |i: int| lead(numbered, (first as nat + i) as nat) + group_text(gs@[i]) + "\n"@,
    ));
}

pub fn push_contact_lines(r: &mut String, cs: &Vec<Contact>, numbered: bool, first: u64)
    requires
        first + cs@.len() <= u64::MAX,
    ensures
        final(r)@ == old(r)@ + contact_lines(cs@, numbered, first as nat),
{
    let ghost start = r@;
    let ghost f = |i: int| lead(numbered, (first + i) as nat) + contact_text(cs@[i]) + "\n"@;
    let mut i: usize = 0;
    while i < cs.len()
        invariant
            first + cs@.len() <= u64::MAX,
            i <= cs@.len(),
            f == (|i: int| lead(numbered, (first + i) as nat) + contact_text(cs@[i]) + "\n"@),
            r@ == start + concat_all(Seq::new(i as nat, f)),
        decreases cs@.len() - i,
    {
        push_lead(r, numbered, first + i as u64);
        push_contact_text(r, &cs[i]);
        r.append("\n");
        proof {
            assert(Seq::new((i + 1) as nat, f).drop_last() =~= Seq::new(i as nat, f));
        }
        i = i + 1;
    }
    assert(Seq::new(cs@.len(), f) =~= Seq::new(
        cs@.len(),
        |i: int| lead(numbered, (first as nat + i) as nat) + contact_text(cs@[i]) + "\n"@,
    ));
}

/// Numbered contact lines from `first`, with a newline between each two.
pub open spec fn contact_list(cs: Seq<Contact>, first: nat) -> Seq<char> {
    join(Seq::new(cs.len(), |i: int| lead(true, (first + i) as nat) + contact_text(cs[i])), "\n"@)
}

pub fn push_contact_list(r: &mut String, cs: &Vec<Contact>, first: u64)
    requires
        first + cs@.len() <= u64::MAX,
    ensures
        final(r)@ == old(r)@ + contact_list(cs@, first as nat),
{
    let ghost start = r@;
    let ghost f = |i: int| lead(true, (first + i) as nat) + contact_text(cs@[i]);
    let mut i: usize = 0;
    while i < cs.len()
        invariant
            first + cs@.len() <= u64::MAX,
            i <= cs@.len(),
            f == (|i: int| lead(true, (first + i) as nat) + contact_text(cs@[i])),
            r@ == start + join(Seq::new(i as nat, f), "\n"@),
        decreases cs@.len() - i,
    {
        if i > 0 {
            r.append("\n");
        }
        push_lead(r, true, first + i as u64);
        push_contact_text(r, &cs[i]);
        proof {
            assert(Seq::new((i + 1) as nat, f).drop_last() =~= Seq::new(i as nat, f));
            if i == 0 {
                assert(Seq::new((i + 1) as nat, f).len() == 1);
            }
        }
        i = i + 1;
    }
    assert(Seq::new(cs@.len(), f) =~= Seq::new(
        cs@.len(),
        |i: int| lead(true, (first as nat + i) as nat) + contact_text(cs@[i]),
    ));
}

/// Appends `b` to `a`, with a blank line between them when both have text.
pub fn push_after(a: &mut String, b: &String)
    ensures
        final(a)@ == after(old(a)@, b@),
{
    let n = a.as_str().unicode_len();
    let m = b.as_str().unicode_len();
    if n > 0 && m > 0 {
        a.append("\n");
    }
    a.append(b.as_str());
}

} // verus!
