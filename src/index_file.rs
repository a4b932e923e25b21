//! The per-directory module index: the names it lists, sorted and without
//! repeats, and its text, one `pub mod` line per name.
use vstd::prelude::*;
use crate::text::{lex_lt, str_eq, string_lt};

verus! {

broadcast use vstd::seq_lib::group_seq_properties;

/// The file name of every index.
pub open spec fn index_file_name() -> Seq<char> {
    "mod.rs"@
}

/// The file extension of a component's file.
pub open spec fn component_extension() -> Seq<char> {
    ".rs"@
}

/// Strictly increasing in code-point order, hence without repeats.
pub open spec fn strictly_sorted(s: Seq<Seq<char>>) -> bool {
    forall|i: int, j: int| 0 <= i < j < s.len() ==> lex_lt(#[trigger] s[i], #[trigger] s[j])
}

/// The names of a finite set in increasing order.
pub open spec fn sorted_names(names: Set<Seq<char>>) -> Seq<Seq<char>> {
    choose|s: Seq<Seq<char>>| strictly_sorted(s) && s.to_set() == names
}

/// The index text listing `names` in the given order.
pub open spec fn render(names: Seq<Seq<char>>) -> Seq<char>
    decreases names.len(),
{
    if names.len() == 0 {
        Seq::empty()
    } else {
        render(names.drop_last()) + "pub mod "@ + names.last() + ";\n"@
    }
}

/// The index text of a directory whose entries are `names`.
pub open spec fn index_text(names: Set<Seq<char>>) -> Seq<char> {
    render(sorted_names(names))
}

/// Position of the last `.` of `s`, or -1.
pub open spec fn last_dot(s: Seq<char>) -> int
    decreases s.len(),
{
    if s.len() == 0 {
        -1
    } else if s.last() == '.' {
        s.len() - 1
    } else {
        last_dot(s.drop_last())
    }
}

/// A file name without its extension: the part before the last `.`, unless that
/// part would be empty (a name like `.hidden`) or the name is `..`.
pub open spec fn stem(s: Seq<char>) -> Seq<char> {
    if s == ".."@ || last_dot(s) <= 0 {
        s
    } else {
        s.subrange(0, last_dot(s))
    }
}

pub proof fn lemma_lex_lt_irreflexive(a: Seq<char>)
    ensures
        !lex_lt(a, a),
    decreases a.len(),
{
    if a.len() > 0 {
        lemma_lex_lt_irreflexive(a.drop_first());
    }
}

pub proof fn lemma_lex_lt_transitive(a: Seq<char>, b: Seq<char>, c: Seq<char>)
    requires
        lex_lt(a, b),
        lex_lt(b, c),
    ensures
        lex_lt(a, c),
    decreases a.len(),
{
    if a.len() > 0 && b.len() > 0 && c.len() > 0 {
        if a[0] == b[0] && b[0] == c[0] {
            lemma_lex_lt_transitive(a.drop_first(), b.drop_first(), c.drop_first());
        }
    }
}

pub proof fn lemma_lex_lt_total(a: Seq<char>, b: Seq<char>)
    requires
        a != b,
    ensures
        lex_lt(a, b) || lex_lt(b, a),
    decreases a.len(),
{
    if a.len() > 0 && b.len() > 0 {
        if a[0] == b[0] {
            if a.drop_first() == b.drop_first() {
                assert(a =~= seq![a[0]] + a.drop_first());
                assert(b =~= seq![b[0]] + b.drop_first());
            }
            lemma_lex_lt_total(a.drop_first(), b.drop_first());
        }
    } else if a.len() == 0 && b.len() == 0 {
        assert(a =~= b);
    }
}

/// A strictly sorted sequence holds each name once.
proof fn lemma_sorted_drop_first_set(s: Seq<Seq<char>>)
    requires
        strictly_sorted(s),
        s.len() > 0,
    ensures
        s.drop_first().to_set() == s.to_set().remove(s[0]),
        strictly_sorted(s.drop_first()),
{
    assert forall|x: Seq<char>| s.drop_first().to_set().contains(x) <==> s.to_set().remove(s[0]).contains(x) by {
        if s.drop_first().to_set().contains(x) {
            let k = choose|k: int| 0 <= k < s.drop_first().len() && s.drop_first()[k] == x;
            assert(s[k + 1] == x);
            assert(lex_lt(s[0], s[k + 1]));
            lemma_lex_lt_irreflexive(x);
        }
        if s.to_set().remove(s[0]).contains(x) {
            let k = choose|k: int| 0 <= k < s.len() && s[k] == x;
            assert(k != 0);
            assert(s.drop_first()[k - 1] == x);
        }
    }
    assert(s.drop_first().to_set() =~= s.to_set().remove(s[0]));
    assert forall|i: int, j: int| 0 <= i < j < s.drop_first().len() implies lex_lt(
        #[trigger] s.drop_first()[i],
        #[trigger] s.drop_first()[j],
    ) by {
        assert(lex_lt(s[i + 1], s[j + 1]));
    }
}

/// Two strictly sorted sequences of the same names are the same sequence.
pub proof fn lemma_sorted_unique(s1: Seq<Seq<char>>, s2: Seq<Seq<char>>)
    requires
        strictly_sorted(s1),
        strictly_sorted(s2),
        s1.to_set() == s2.to_set(),
    ensures
        s1 == s2,
    decreases s1.len(),
{
    if s1.len() == 0 {
        if s2.len() > 0 {
            assert(s2.to_set().contains(s2[0]));
        }
        assert(s1 =~= s2);
    } else {
        assert(s1.to_set().contains(s1[0]));
        assert(s2.len() > 0);
        assert(s2.to_set().contains(s2[0]));
        let j = choose|j: int| 0 <= j < s2.len() && s2[j] == s1[0];
        let i = choose|i: int| 0 <= i < s1.len() && s1[i] == s2[0];
        if j > 0 {
            assert(lex_lt(s2[0], s2[j]));
            if i == 0 {
                lemma_lex_lt_irreflexive(s1[0]);
            } else {
                assert(lex_lt(s1[0], s1[i]));
                lemma_lex_lt_transitive(s1[0], s1[i], s1[0]);
                lemma_lex_lt_irreflexive(s1[0]);
            }
        }
        assert(s1[0] == s2[0]);
        lemma_sorted_drop_first_set(s1);
        lemma_sorted_drop_first_set(s2);
        lemma_sorted_unique(s1.drop_first(), s2.drop_first());
        assert(s1 =~= seq![s1[0]] + s1.drop_first());
        assert(s2 =~= seq![s2[0]] + s2.drop_first());
    }
}

/// The sorted enumeration of a set is the strictly sorted sequence of its names.
pub proof fn lemma_sorted_names(s: Seq<Seq<char>>)
    requires
        strictly_sorted(s),
    ensures
        sorted_names(s.to_set()) == s,
{
    let t = sorted_names(s.to_set());
    assert(strictly_sorted(t) && t.to_set() == s.to_set());
    lemma_sorted_unique(t, s);
}

/// A finite non-empty set of names has a least one.
proof fn lemma_least_name(s: Set<Seq<char>>) -> (m: Seq<char>)
    requires
        s.finite(),
        s.len() > 0,
    ensures
        s.contains(m),
        forall|y: Seq<char>| s.contains(y) && y != m ==> lex_lt(m, y),
    decreases s.len(),
{
    broadcast use vstd::set::group_set_axioms;
    let x = s.choose();
    let r = s.remove(x);
    if r.len() == 0 {
        r.lemma_len0_is_empty();
        assert forall|y: Seq<char>| s.contains(y) && y != x implies lex_lt(x, y) by {
            assert(r.contains(y));
        }
        x
    } else {
        let m = lemma_least_name(r);
        if lex_lt(x, m) {
            assert forall|y: Seq<char>| s.contains(y) && y != x implies lex_lt(x, y) by {
                if y != m {
                    assert(r.contains(y));
                    lemma_lex_lt_transitive(x, m, y);
                }
            }
            x
        } else {
            lemma_lex_lt_total(x, m);
            m
        }
    }
}

/// Every finite set of names has its sorted enumeration: strictly increasing,
/// hence without repeats, and holding exactly the names of the set.
pub proof fn lemma_sorted_names_exist(s: Set<Seq<char>>)
    requires
        s.finite(),
    ensures
        strictly_sorted(sorted_names(s)),
        sorted_names(s).to_set() == s,
    decreases s.len(),
{
    broadcast use vstd::set::group_set_axioms;
    if s.len() == 0 {
        s.lemma_len0_is_empty();
        let e = Seq::<Seq<char>>::empty();
        assert(strictly_sorted(e));
        assert(e.to_set() =~= s);
    } else {
        let m = lemma_least_name(s);
        let r = s.remove(m);
        lemma_sorted_names_exist(r);
        let t = sorted_names(r);
        let w = seq![m] + t;
        assert forall|i: int, j: int| 0 <= i < j < w.len() implies lex_lt(#[trigger] w[i], #[trigger] w[j]) by {
            if i == 0 {
                assert(w[j] == t[j - 1]);
                assert(t.to_set().contains(t[j - 1]));
            } else {
                assert(w[i] == t[i - 1] && w[j] == t[j - 1]);
            }
        }
        assert forall|y: Seq<char>| w.to_set().contains(y) <==> s.contains(y) by {
            if w.to_set().contains(y) {
                let k = choose|k: int| 0 <= k < w.len() && w[k] == y;
                if k > 0 {
                    assert(t[k - 1] == y);
                    assert(t.to_set().contains(y));
                }
            }
            if s.contains(y) {
                if y == m {
                    assert(w[0] == y);
                } else {
                    assert(r.contains(y));
                    assert(t.to_set().contains(y));
                    let k = choose|k: int| 0 <= k < t.len() && t[k] == y;
                    assert(w[k + 1] == y);
                }
            }
        }
        assert(w.to_set() =~= s);
    }
}

/// The views of a vector of strings.
pub open spec fn names_of(v: Seq<String>) -> Seq<Seq<char>> {
    v.map_values(|s: String| s@)
}

/// Inserts `name` at its place in the sorted `v`, unless it is there already.
pub fn insert_sorted(v: &mut Vec<String>, name: String)
    requires
        strictly_sorted(names_of(old(v)@)),
    ensures
        strictly_sorted(names_of(final(v)@)),
        names_of(final(v)@).to_set() == names_of(old(v)@).to_set().insert(name@),
{
    let mut p: usize = 0;
    while p < v.len() && string_lt(v[p].as_str(), name.as_str())
        invariant
            p <= v.len(),
            forall|k: int| 0 <= k < p ==> lex_lt(#[trigger] names_of(v@)[k], name@),
        decreases v.len() - p,
    {
        p = p + 1;
    }
    let ghost before = names_of(v@);
    if p < v.len() && str_eq(v[p].as_str(), name.as_str()) {
        proof {
            assert(before[p as int] == name@);
            assert(before.to_set().insert(name@) =~= before.to_set());
        }
        return;
    }
    v.insert(p, name);
    proof {
        let after = names_of(v@);
        assert(after =~= before.insert(p as int, name@));
        if p < before.len() {
            assert(!lex_lt(before[p as int], name@));
            assert(before[p as int] != name@);
            lemma_lex_lt_total(before[p as int], name@);
        }
        assert forall|i: int, j: int| 0 <= i < j < after.len() implies lex_lt(
            #[trigger] after[i],
            #[trigger] after[j],
        ) by {
            if j < p {
                assert(lex_lt(before[i], before[j]));
            } else if j == p {
                assert(lex_lt(before[i], name@));
            } else if i > p {
                assert(lex_lt(before[i - 1], before[j - 1]));
            } else if i == p {
                if j - 1 > p {
                    assert(lex_lt(before[p as int], before[j - 1]));
                    lemma_lex_lt_transitive(name@, before[p as int], before[j - 1]);
                }
            } else {
                assert(lex_lt(before[i], name@));
                if j - 1 > p {
                    assert(lex_lt(before[p as int], before[j - 1]));
                    lemma_lex_lt_transitive(name@, before[p as int], before[j - 1]);
                }
                lemma_lex_lt_transitive(before[i], name@, before[j - 1]);
            }
        }
        assert forall|x: Seq<char>| after.to_set().contains(x) <==> before.to_set().insert(name@).contains(x) by {
            if after.to_set().contains(x) {
                let k = choose|k: int| 0 <= k < after.len() && after[k] == x;
                if k < p {
                    assert(before[k] == x);
                } else if k > p {
                    assert(before[k - 1] == x);
                }
            }
            if before.to_set().contains(x) {
                let k = choose|k: int| 0 <= k < before.len() && before[k] == x;
                if k < p {
                    assert(after[k] == x);
                } else {
                    assert(after[k + 1] == x);
                }
            }
            if x == name@ {
                assert(after[p as int] == x);
            }
        }
        assert(after.to_set() =~= before.to_set().insert(name@));
    }
}

/// The index text listing `names` in order.
pub fn render_index(names: &Vec<String>) -> (r: String)
    ensures
        r@ == render(names_of(names@)),
{
    let mut r = String::new();
    let mut i: usize = 0;
    while i < names.len()
        invariant
            i <= names.len(),
            r@ == render(names_of(names@).subrange(0, i as int)),
        decreases names.len() - i,
    {
        r.append("pub mod ");
        r.append(names[i].as_str());
        r.append(";\n");
        proof {
            let s = names_of(names@).subrange(0, i + 1);
            assert(s.drop_last() =~= names_of(names@).subrange(0, i as int));
        }
        i = i + 1;
    }
    proof {
        assert(names_of(names@).subrange(0, names@.len() as int) =~= names_of(names@));
    }
    r
}

/// The file name `name` without its extension.
pub fn file_stem(name: &str) -> (r: String)
    ensures
        r@ == stem(name@),
{
    let n = name.unicode_len();
    let mut i: usize = n;
    proof {
        assert(name@.subrange(0, n as int) =~= name@);
    }
    while i > 0 && name.get_char(i - 1) != '.'
        invariant
            n == name@.len(),
            i <= n,
            last_dot(name@) == last_dot(name@.subrange(0, i as int)),
        decreases i,
    {
        proof {
            assert(name@.subrange(0, i as int).drop_last() =~= name@.subrange(0, i - 1));
        }
        i = i - 1;
    }
    proof {
        assert(name@.subrange(0, n as int) =~= name@);
    }
    if str_eq(name, "..") || i <= 1 {
        return name.to_owned();
    }
    name.substring_char(0, i - 1).to_owned()
}

} // verus!
