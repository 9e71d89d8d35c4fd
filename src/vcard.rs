//! Reading contact cards (vCard text): each card's display name and its
//! phone numbers with their type labels.
use vstd::prelude::*;
use crate::import::{Card, Phone};
use crate::records::opt_view;
use crate::reply::is_digit;
use crate::text::{chars_of, lower, lower_chars, split_on, split_trimmed, string_of, trim, trim_range, views};

verus! {

/// The position of the first `c` in `s`, or the length of `s`.
pub open spec fn first_at(s: Seq<char>, c: char) -> nat
    decreases s.len(),
{
    if s.len() == 0 {
        0
    } else if s[0] == c {
        0
    } else {
        1 + first_at(s.drop_first(), c)
    }
}

proof fn lemma_first_at_bound(s: Seq<char>, c: char)
    ensures
        first_at(s, c) <= s.len(),
    decreases s.len(),
{
    if s.len() > 0 && s[0] != c {
        lemma_first_at_bound(s.drop_first(), c);
    }
}

/// The first position in `lo..hi` that holds `c`, or `hi`.
fn find(s: &[char], lo: usize, hi: usize, c: char) -> (r: usize)
    requires
        lo <= hi <= s@.len(),
    ensures
        r == lo + first_at(s@.subrange(lo as int, hi as int), c),
        lo <= r <= hi,
{
    let mut i: usize = lo;
    proof {
        lemma_first_at_bound(s@.subrange(lo as int, hi as int), c);
    }
    while i < hi && s[i] != c
        invariant
            lo <= i <= hi <= s@.len(),
            lo + first_at(s@.subrange(lo as int, hi as int), c) == i + first_at(
                s@.subrange(i as int, hi as int),
                c,
            ),
        decreases hi - i,
    {
        assert(s@.subrange(i as int, hi as int).drop_first() =~= s@.subrange(i + 1, hi as int));
        i = i + 1;
    }
    proof {
        if i < hi {
            assert(s@.subrange(i as int, hi as int)[0] == c);
        }
    }
    i
}

/// A line's property part: what comes before the first colon.
pub open spec fn head(line: Seq<char>) -> Seq<char> {
    line.subrange(0, first_at(line, ':') as int)
}

/// A line's value: what comes after the first colon, trimmed.
pub open spec fn value(line: Seq<char>) -> Seq<char> {
    let k = first_at(line, ':');
    if k < line.len() {
        trim(line.subrange(k + 1int, line.len() as int))
    } else {
        trim(Seq::empty())
    }
}

/// A line's property name, in lower case: the property part up to its
/// first parameter.
pub open spec fn prop(line: Seq<char>) -> Seq<char> {
    let h = head(line);
    lower(h.subrange(0, first_at(h, ';') as int))
}

/// A line's parameters: the property part after its first semicolon.
pub open spec fn params(line: Seq<char>) -> Seq<char> {
    let h = head(line);
    let k = first_at(h, ';');
    if k < h.len() {
        h.subrange(k + 1int, h.len() as int)
    } else {
        Seq::empty()
    }
}

/// The type label of a phone line: its first parameter, without a leading
/// `TYPE=`; none when that is empty.
pub open spec fn label(line: Seq<char>) -> Option<Seq<char>> {
    let p = params(line);
    let q = p.subrange(0, first_at(p, ';') as int);
    let t = if q.len() >= 5 && lower(q.subrange(0, 5)) == "type="@ {
        q.subrange(5, q.len() as int)
    } else {
        q
    };
    if t.len() == 0 {
        None
    } else {
        Some(t)
    }
}

/// The decimal digits of `s`, in order.
pub open spec fn digits_in(s: Seq<char>) -> Seq<char>
    decreases s.len(),
{
    if s.len() == 0 {
        Seq::empty()
    } else if is_digit(s.last()) {
        digits_in(s.drop_last()).push(s.last())
    } else {
        digits_in(s.drop_last())
    }
}

/// A phone number in E.164 form: with a leading `+`, the digits that
/// follow it; ten digits are a North American number and get `+1`; eleven
/// digits starting with `1` get `+`. Anything else is kept as written.
pub open spec fn e164(v: Seq<char>) -> Seq<char> {
    let d = digits_in(v);
    if v.len() > 0 && v[0] == '+' {
        "+"@ + d
    } else if d.len() == 10 {
        "+1"@ + d
    } else if d.len() == 11 && d[0] == '1' {
        "+"@ + d
    } else {
        v
    }
}

/// A phone number in E.164 form.
pub fn normalize_number(v: &String) -> (r: String)
    ensures
        r@ == e164(v@),
{
    let cs = chars_of(v.as_str());
    let mut d = String::new();
    let mut n: usize = 0;
    let mut i: usize = 0;
    while i < cs.len()
        invariant
            i <= cs@.len(),
            d@ == digits_in(cs@.subrange(0, i as int)),
            n == d@.len(),
            n <= i,
        decreases cs@.len() - i,
    {
        assert(cs@.subrange(0, i + 1).drop_last() =~= cs@.subrange(0, i as int));
        if '0' <= cs[i] && cs[i] <= '9' {
            d.push(cs[i]);
            n = n + 1;
        }
        i = i + 1;
    }
    assert(cs@.subrange(0, cs@.len() as int) =~= v@);
    if cs.len() > 0 && cs[0] == '+' {
        let mut r = String::from_str("+");
        r.append(d.as_str());
        r
    } else if n == 10 {
        let mut r = String::from_str("+1");
        r.append(d.as_str());
        r
    } else if n == 11 && d.as_str().get_char(0) == '1' {
        let mut r = String::from_str("+");
        r.append(d.as_str());
        r
    } else {
        v.clone()
    }
}

pub type PhoneView = (Seq<char>, Option<Seq<char>>);

pub type CardView = (Seq<char>, Seq<PhoneView>);

pub open spec fn phone_view(p: Phone) -> PhoneView {
    (p.number@, opt_view(p.description))
}

pub open spec fn card_view(c: Card) -> CardView {
    (c.name@, c.phones@.map_values(|p: Phone| phone_view(p)))
}

/// The state of a scan over the lines of a card file.
pub ghost struct ScanState {
    /// The cards completed, in order.
    pub cards: Seq<CardView>,
    /// Whether a card is open.
    pub open: bool,
    /// The open card's display name.
    pub name: Seq<char>,
    /// The open card's phones.
    pub phones: Seq<PhoneView>,
}

/// One line of the scan: `BEGIN:VCARD` opens a card, `END:VCARD` closes it
/// (and keeps it when it has a name), `FN` names the open card and `TEL`
/// adds a number to it, in E.164 form. Property names and the `VCARD` value are compared
/// without ASCII case; other lines are ignored.
pub open spec fn scan_line(st: ScanState, line: Seq<char>) -> ScanState {
    let p = prop(line);
    let v = value(line);
    if p == "begin"@ && lower(v) == "vcard"@ {
        ScanState { open: true, name: Seq::empty(), phones: Seq::empty(), ..st }
    } else if p == "end"@ && lower(v) == "vcard"@ {
        ScanState {
            cards: if st.open && st.name.len() > 0 {
                st.cards.push((st.name, st.phones))
            } else {
                st.cards
            },
            open: false,
            name: Seq::empty(),
            phones: Seq::empty(),
        }
    } else if st.open && p == "fn"@ {
        ScanState { name: v, ..st }
    } else if st.open && p == "tel"@ && v.len() > 0 {
        ScanState { phones: st.phones.push((e164(v), label(line))), ..st }
    } else {
        st
    }
}

pub open spec fn scan(lines: Seq<Seq<char>>) -> ScanState
    decreases lines.len(),
{
    if lines.len() == 0 {
        ScanState { cards: Seq::empty(), open: false, name: Seq::empty(), phones: Seq::empty() }
    } else {
        scan_line(scan(lines.drop_last()), lines.last())
    }
}

/// The lines of a text, each trimmed.
pub open spec fn lines_of(text: Seq<char>) -> Seq<Seq<char>> {
    split_on(text, '\n').map_values(|l: Seq<char>| trim(l))
}

/// The cards of a card file.
pub open spec fn cards_of(text: Seq<char>) -> Seq<CardView> {
    scan(lines_of(text)).cards
}

fn lowered_equals(s: &[char], lo: usize, hi: usize, word: &str) -> (r: bool)
    requires
        lo <= hi <= s@.len(),
    ensures
        r == (lower(s@.subrange(lo as int, hi as int)) == word@),
{
    let part = string_of(s, lo, hi);
    let pc = chars_of(part.as_str());
    let low = lower_chars(&pc);
    let w = string_of(&low, 0, low.len());
    assert(low@.subrange(0, low@.len() as int) =~= low@);
    w == String::from_str(word)
}

/// The pieces of one line that the scan reads.
struct LineParts {
    prop_begin: bool,
    prop_end: bool,
    prop_fn: bool,
    prop_tel: bool,
    value: String,
    value_vcard: bool,
    label: Option<String>,
}

/// Where a line's first colon is, and where the first semicolon before it.
fn split_points(l: &[char]) -> (r: (usize, usize))
    ensures
        r.0 == first_at(l@, ':'),
        r.1 == first_at(head(l@), ';'),
        r.1 <= r.0 <= l@.len(),
{
    let n = l.len();
    let colon = find(l, 0, n, ':');
    assert(l@.subrange(0, n as int) =~= l@);
    assert(head(l@) =~= l@.subrange(0, colon as int));
    let semi = find(l, 0, colon, ';');
    (colon, semi)
}

fn line_value(l: &[char], colon: usize) -> (r: String)
    requires
        colon == first_at(l@, ':'),
        colon <= l@.len(),
    ensures
        r@ == value(l@),
{
    let n = l.len();
    if colon < n {
        trim_range(l, colon + 1, n)
    } else {
        assert(l@.subrange(n as int, n as int) =~= Seq::<char>::empty());
        trim_range(l, n, n)
    }
}

#[verifier::spinoff_prover]
fn line_label(l: &[char], colon: usize, semi: usize) -> (r: Option<String>)
    requires
        colon == first_at(l@, ':'),
        semi == first_at(head(l@), ';'),
        semi <= colon <= l@.len(),
    ensures
        opt_view(r) == label(l@),
{
    assert(head(l@) =~= l@.subrange(0, colon as int));
    let (plo, phi) = if semi < colon {
        (semi + 1, colon)
    } else {
        (colon, colon)
    };
    let ghost p = params(l@);
    assert(p =~= l@.subrange(plo as int, phi as int));
    let qend = find(l, plo, phi, ';');
    let ghost q = p.subrange(0, first_at(p, ';') as int);
    assert(q =~= l@.subrange(plo as int, qend as int));
    let typed = qend - plo >= 5 && lowered_equals(l, plo, plo + 5, "type=");
    proof {
        if qend - plo >= 5 {
            assert(q.subrange(0, 5) =~= l@.subrange(plo as int, plo + 5));
        }
    }
    let tlo = if typed {
        plo + 5
    } else {
        plo
    };
    proof {
        if typed {
            assert(q.subrange(5, q.len() as int) =~= l@.subrange(tlo as int, qend as int));
        } else {
            assert(q =~= l@.subrange(tlo as int, qend as int));
        }
    }
    if tlo < qend {
        Some(string_of(l, tlo, qend))
    } else {
        None
    }
}

fn line_parts(l: &[char]) -> (r: LineParts)
    ensures
        r.prop_begin == (prop(l@) == "begin"@),
        r.prop_end == (prop(l@) == "end"@),
        r.prop_fn == (prop(l@) == "fn"@),
        r.prop_tel == (prop(l@) == "tel"@),
        r.value@ == value(l@),
        r.value_vcard == (lower(value(l@)) == "vcard"@),
        opt_view(r.label) == label(l@),
{
    let (colon, semi) = split_points(l);
    assert(head(l@).subrange(0, semi as int) =~= l@.subrange(0, semi as int));
    let prop_begin = lowered_equals(l, 0, semi, "begin");
    let prop_end = lowered_equals(l, 0, semi, "end");
    let prop_fn = lowered_equals(l, 0, semi, "fn");
    let prop_tel = lowered_equals(l, 0, semi, "tel");
    let value = line_value(l, colon);
    let vc = chars_of(value.as_str());
    let value_vcard = lowered_equals(&vc, 0, vc.len(), "vcard");
    assert(vc@.subrange(0, vc@.len() as int) =~= vc@);
    let label = line_label(l, colon, semi);
    LineParts { prop_begin, prop_end, prop_fn, prop_tel, value, value_vcard, label }
}

pub open spec fn card_views(v: Seq<Card>) -> Seq<CardView> {
    v.map_values(|c: Card| card_view(c))
}

pub open spec fn phone_views(v: Seq<Phone>) -> Seq<PhoneView> {
    v.map_values(|p: Phone| phone_view(p))
}

/// The cards of a card file, in file order, each with its display name and
/// its numbers in card order.
#[verifier::spinoff_prover]
pub fn parse_cards(text: &str) -> (r: Vec<Card>)
    ensures
        card_views(r@) == cards_of(text@),
{
    let chars = chars_of(text);
    let lines = split_trimmed(&chars, '\n');
    let ghost ls = lines_of(text@);
    assert(views(lines@) =~= ls);
    let mut cards: Vec<Card> = Vec::new();
    let mut open = false;
    let mut name = String::new();
    let mut phones: Vec<Phone> = Vec::new();
    let mut i: usize = 0;
    assert(card_views(cards@) =~= Seq::<CardView>::empty());
    assert(phone_views(phones@) =~= Seq::<PhoneView>::empty());
    assert(ls.subrange(0, 0) =~= Seq::<Seq<char>>::empty());
    while i < lines.len()
        invariant
            views(lines@) == ls,
            ls == lines_of(text@),
            i <= lines@.len(),
            scan(ls.subrange(0, i as int)) == (ScanState {
                cards: card_views(cards@),
                open,
                name: name@,
                phones: phone_views(phones@),
            }),
        decreases lines@.len() - i,
    {
        let lc = chars_of(lines[i].as_str());
        let parts = line_parts(&lc);
        assert(lc@ == ls[i as int]);
        assert(ls.subrange(0, i + 1).drop_last() =~= ls.subrange(0, i as int));
        let ghost before_cards = cards@;
        let ghost before_phones = phones@;
        if parts.prop_begin && parts.value_vcard {
            open = true;
            name = String::new();
            phones = Vec::new();
            assert(phone_views(phones@) =~= Seq::<PhoneView>::empty());
        } else if parts.prop_end && parts.value_vcard {
            if open && name.as_str().unicode_len() > 0 {
                let done_phones = phones;
                let done_name = name;
                phones = Vec::new();
                name = String::new();
                assert(done_phones@ == before_phones);
                cards.push(Card { name: done_name, phones: done_phones });
                assert(card_views(cards@) =~= card_views(before_cards).push(
                    (card_views(cards@).last().0, phone_views(before_phones)),
                ));
            } else {
                name = String::new();
                phones = Vec::new();
            }
            open = false;
            assert(phone_views(phones@) =~= Seq::<PhoneView>::empty());
        } else if open && parts.prop_fn {
            name = parts.value;
        } else if open && parts.prop_tel && parts.value.as_str().unicode_len() > 0 {
            let number = normalize_number(&parts.value);
            phones.push(Phone { number, description: parts.label });
            assert(phone_views(phones@) =~= phone_views(before_phones).push(
                (e164(value(ls[i as int])), label(ls[i as int])),
            ));
        }
        i = i + 1;
    }
    assert(ls.subrange(0, lines@.len() as int) =~= ls);
    cards
}

} // verus!
