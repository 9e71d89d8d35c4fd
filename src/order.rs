//! Name order: lexicographic by character, as the store's binary collation
//! orders UTF-8 text, with a tag (a row id) to break ties.
use vstd::prelude::*;

verus! {

/// `a` comes before `b` character by character; a proper prefix comes first.
pub open spec fn lex_lt(a: Seq<char>, b: Seq<char>) -> bool
    decreases a.len(),
{
    if a.len() == 0 {
        b.len() > 0
    } else if b.len() == 0 {
        false
    } else if a[0] != b[0] {
        a[0] < b[0]
    } else {
        lex_lt(a.drop_first(), b.drop_first())
    }
}

pub proof fn lemma_lex_irreflexive(a: Seq<char>)
    ensures
        !lex_lt(a, a),
    decreases a.len(),
{
    if a.len() > 0 {
        lemma_lex_irreflexive(a.drop_first());
    }
}

pub proof fn lemma_lex_transitive(a: Seq<char>, b: Seq<char>, c: Seq<char>)
    requires
        lex_lt(a, b),
        lex_lt(b, c),
    ensures
        lex_lt(a, c),
    decreases a.len(),
{
    if a.len() > 0 && b.len() > 0 && c.len() > 0 && a[0] == b[0] && b[0] == c[0] {
        lemma_lex_transitive(a.drop_first(), b.drop_first(), c.drop_first());
    }
}

pub proof fn lemma_lex_total(a: Seq<char>, b: Seq<char>)
    requires
        a != b,
    ensures
        lex_lt(a, b) || lex_lt(b, a),
    decreases a.len(),
{
    if a.len() > 0 && b.len() > 0 && a[0] == b[0] {
        if a.drop_first() == b.drop_first() {
            assert(a =~= seq![a[0]] + a.drop_first());
            assert(b =~= seq![b[0]] + b.drop_first());
        }
        lemma_lex_total(a.drop_first(), b.drop_first());
    } else if a.len() == 0 && b.len() == 0 {
        assert(a =~= b);
    }
}

/// Name order with `x` and `y` breaking ties.
pub open spec fn key_lt(a: Seq<char>, x: int, b: Seq<char>, y: int) -> bool {
    lex_lt(a, b) || (a == b && x < y)
}

pub proof fn lemma_key_facts()
    ensures
        forall|a: Seq<char>, x: int| !#[trigger] key_lt(a, x, a, x),
        forall|a: Seq<char>, x: int, b: Seq<char>, y: int, c: Seq<char>, z: int|
            #[trigger] key_lt(a, x, b, y) && #[trigger] key_lt(b, y, c, z) ==> key_lt(a, x, c, z),
        forall|a: Seq<char>, x: int, b: Seq<char>, y: int|
            #![trigger key_lt(a, x, b, y)]
            !(a == b && x == y) ==> key_lt(a, x, b, y) || key_lt(b, y, a, x),
{
    assert forall|a: Seq<char>, x: int| !#[trigger] key_lt(a, x, a, x) by {
        lemma_lex_irreflexive(a);
    }
    assert forall|a: Seq<char>, x: int, b: Seq<char>, y: int, c: Seq<char>, z: int|
        #[trigger] key_lt(a, x, b, y) && #[trigger] key_lt(b, y, c, z) implies key_lt(
        a,
        x,
        c,
        z,
    ) by {
        if lex_lt(a, b) && lex_lt(b, c) {
            lemma_lex_transitive(a, b, c);
        }
    }
    assert forall|a: Seq<char>, x: int, b: Seq<char>, y: int|
        #![trigger key_lt(a, x, b, y)]
        !(a == b && x == y) implies key_lt(a, x, b, y) || key_lt(b, y, a, x) by {
        if a != b {
            lemma_lex_total(a, b);
        }
    }
}

/// Whether `a` comes before `b` in name order.
pub fn lex_less(a: &[char], b: &[char]) -> (r: bool)
    ensures
        r == lex_lt(a@, b@),
{
    let mut i: usize = 0;
    let al = a.len();
    let bl = b.len();
    assert(a@.subrange(0, al as int) =~= a@);
    assert(b@.subrange(0, bl as int) =~= b@);
    while i < al && i < bl && a[i] == b[i]
        invariant
            al == a@.len(),
            bl == b@.len(),
            i <= al,
            i <= bl,
            lex_lt(a@, b@) == lex_lt(a@.subrange(i as int, al as int), b@.subrange(i as int, bl as int)),
        decreases al - i,
    {
        assert(a@.subrange(i as int, al as int).drop_first() =~= a@.subrange(i + 1, al as int));
        assert(b@.subrange(i as int, bl as int).drop_first() =~= b@.subrange(i + 1, bl as int));
        i = i + 1;
    }
    if i == al {
        i < bl
    } else if i == bl {
        false
    } else {
        a[i] < b[i]
    }
}

/// The key of position `i`: its name and its tag.
pub open spec fn key_of(names: Seq<Seq<char>>, tags: Seq<i64>, i: int) -> (Seq<char>, int) {
    (names[i], tags[i] as int)
}

pub open spec fn before(names: Seq<Seq<char>>, tags: Seq<i64>, i: int, j: int) -> bool {
    key_lt(names[i], tags[i] as int, names[j], tags[j] as int)
}

/// `out` lists positions in strictly increasing name order.
pub open spec fn ordered(names: Seq<Seq<char>>, tags: Seq<i64>, out: Seq<usize>) -> bool {
    forall|a: int, b: int|
        0 <= a < b < out.len() ==> before(names, tags, #[trigger] out[a] as int, #[trigger] out[b] as int)
}

/// The positions whose flag is set, one for each distinct key, in name
/// order: `out` holds only flagged positions, in strictly increasing name
/// order, and a position of each flagged key.
pub open spec fn picks(names: Seq<Seq<char>>, tags: Seq<i64>, keep: Seq<bool>, out: Seq<usize>) -> bool {
    &&& out.len() <= names.len()
    &&& forall|k: int| 0 <= k < out.len() ==> (#[trigger] out[k]) < names.len() && keep[out[k] as int]
    &&& ordered(names, tags, out)
    &&& forall|j: int|
        0 <= j < names.len() && #[trigger] keep[j] ==> exists|k: int|
            0 <= k < out.len() && key_of(names, tags, #[trigger] out[k] as int) == key_of(
                names,
                tags,
                j,
            )
}

/// The character sequences of a list of character vectors.
pub open spec fn char_views(v: Seq<Vec<char>>) -> Seq<Seq<char>> {
    v.map_values(|x: Vec<char>| x@)
}

/// The flagged positions, one per distinct key, sorted by name, then tag.
#[verifier::spinoff_prover]
pub fn sorted_picks(names: &Vec<Vec<char>>, tags: &Vec<i64>, keep: &Vec<bool>) -> (out: Vec<usize>)
    requires
        names@.len() == tags@.len(),
        names@.len() == keep@.len(),
    ensures
        picks(char_views(names@), tags@, keep@, out@),
{
    proof {
        lemma_key_facts();
    }
    let n = names.len();
    let mut out: Vec<usize> = Vec::new();
    let mut j: usize = 0;
    while j < n
        invariant
            n == names@.len(),
            names@.len() == tags@.len(),
            names@.len() == keep@.len(),
            j <= n,
            out@.len() <= j,
            forall|k: int| 0 <= k < out@.len() ==> (#[trigger] out@[k]) < n && keep@[out@[k] as int],
            ordered(char_views(names@), tags@, out@),
            forall|i: int|
                0 <= i < j && #[trigger] keep@[i] ==> exists|k: int|
                    0 <= k < out@.len() && key_of(char_views(names@), tags@, #[trigger] out@[k] as int)
                        == key_of(char_views(names@), tags@, i),
        decreases n - j,
    {
        if keep[j] {
            let mut p: usize = 0;
            let mut dup = false;
            let mut done = false;
            while p < out.len() && !done
                invariant
                    n == names@.len(),
                    names@.len() == tags@.len(),
                    j < n,
                    p <= out@.len(),
                    forall|k: int| 0 <= k < out@.len() ==> (#[trigger] out@[k]) < n,
                    forall|k: int| 0 <= k < p ==> before(char_views(names@), tags@, #[trigger] out@[k] as int, j as int),
                    done ==> p < out@.len(),
                    done && dup ==> key_of(char_views(names@), tags@, out@[p as int] as int) == key_of(char_views(names@), tags@, j as int),
                    done && !dup ==> !before(char_views(names@), tags@, out@[p as int] as int, j as int),
                    done && !dup ==> key_of(char_views(names@), tags@, out@[p as int] as int) != key_of(char_views(names@), tags@, j as int),
                    !done ==> !dup,
                decreases out@.len() - p, if done { 0int } else { 1int },
            {
                let o = out[p];
                let lt = lex_less(names[o].as_slice(), names[j].as_slice());
                let gt = lex_less(names[j].as_slice(), names[o].as_slice());
                proof {
                    if names@[o as int]@ != names@[j as int]@ {
                        lemma_lex_total(names@[o as int]@, names@[j as int]@);
                    } else {
                        lemma_lex_irreflexive(names@[o as int]@);
                    }
                }
                let same = !lt && !gt;
                if same && tags[o] == tags[j] {
                    dup = true;
                    done = true;
                } else if !(lt || (same && tags[o] < tags[j])) {
                    done = true;
                } else {
                    p = p + 1;
                }
            }
            if !dup {
                proof {
                    lemma_key_facts();
                    if p < out@.len() {
                        let o = out@[p as int] as int;
                        assert(!before(char_views(names@), tags@, o, j as int));
                        assert(before(char_views(names@), tags@, j as int, o));
                    }
                }
                let ghost old_out = out@;
                out.insert(p, j);
                proof {
                    assert forall|a: int, b: int|
                        0 <= a < b < out@.len() implies before(
                        char_views(names@),
                        tags@,
                        #[trigger] out@[a] as int,
                        #[trigger] out@[b] as int,
                    ) by {
                        if b < p {
                        } else if b == p {
                        } else if a < p {
                            assert(before(char_views(names@), tags@, old_out[a] as int, j as int));
                            if p < old_out.len() {
                                assert(before(char_views(names@), tags@, j as int, old_out[p as int] as int));
                            }
                            if b - 1 > p {
                                assert(before(char_views(names@), tags@, old_out[p as int] as int, old_out[b - 1] as int));
                            }
                        } else if a == p {
                            assert(before(char_views(names@), tags@, j as int, old_out[p as int] as int));
                            if b - 1 > p {
                                assert(before(char_views(names@), tags@, old_out[p as int] as int, old_out[b - 1] as int));
                            }
                        } else {
                            assert(before(char_views(names@), tags@, old_out[a - 1] as int, old_out[b - 1] as int));
                        }
                    }
                    assert forall|i: int|
                        0 <= i <= j && #[trigger] keep@[i] implies exists|k: int|
                            0 <= k < out@.len() && key_of(char_views(names@), tags@, #[trigger] out@[k] as int)
                                == key_of(char_views(names@), tags@, i) by {
                        if i == j {
                            assert(out@[p as int] == j);
                        } else {
                            let k = choose|k: int|
                                0 <= k < old_out.len() && key_of(char_views(names@), tags@, #[trigger] old_out[k] as int)
                                    == key_of(char_views(names@), tags@, i);
                            if k < p {
                                assert(out@[k] == old_out[k]);
                            } else {
                                assert(out@[k + 1] == old_out[k]);
                            }
                        }
                    }
                }
            }
        }
        j = j + 1;
    }
    out
}

} // verus!
