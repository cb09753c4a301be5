//! Orders of texts: sets as ascending lists, and pairs by their parts.

use crate::text;
use vstd::prelude::*;

verus! {

/// The texts ascend, each once.
pub open spec fn ascending(s: Seq<Seq<char>>) -> bool {
    forall|i: int, j: int|
        #![trigger s[i], s[j]]
        0 <= i < j < s.len() ==> text::lex_le(s[i], s[j]) && s[i] != s[j]
}

/// Two ascending lists of the same texts are the same list.
pub proof fn ascending_is_canonical(a: Seq<Seq<char>>, b: Seq<Seq<char>>)
    requires
        ascending(a),
        ascending(b),
        forall|x: Seq<char>| #[trigger] a.contains(x) <==> b.contains(x),
    ensures
        a == b,
    decreases a.len(),
{
    if a.len() == 0 {
        if b.len() > 0 {
            assert(b.contains(b[0]));
            assert(a.contains(b[0]));
        }
    } else {
        assert(a.contains(a.last()));
        let k = choose|k: int| 0 <= k < b.len() && b[k] == a.last();
        assert(b.contains(b.last()));
        assert(a.contains(b.last()));
        let m = choose|m: int| 0 <= m < a.len() && a[m] == b.last();
        if k < b.len() - 1 {
            assert(text::lex_le(b[k], b[b.len() - 1]) && b[k] != b[b.len() - 1]);
            if m < a.len() - 1 {
                assert(text::lex_le(a[m], a[a.len() - 1]));
                text::lex_le_antisymmetric(a.last(), b.last());
            }
        }
        assert(a.last() == b.last());
        let x = a.drop_last();
        let y = b.drop_last();
        assert(ascending(x)) by {
            assert forall|i: int, j: int| #![trigger x[i], x[j]] 0 <= i < j < x.len() implies text::lex_le(x[i], x[j]) && x[i]
                != x[j] by {
                assert(a[i] != a[j]);
            }
        }
        assert(ascending(y)) by {
            assert forall|i: int, j: int| #![trigger y[i], y[j]] 0 <= i < j < y.len() implies text::lex_le(y[i], y[j]) && y[i]
                != y[j] by {
                assert(b[i] != b[j]);
            }
        }
        assert forall|t: Seq<char>| #[trigger] x.contains(t) <==> y.contains(t) by {
            if x.contains(t) {
                let i = choose|i: int| 0 <= i < x.len() && x[i] == t;
                assert(a[i] != a[a.len() - 1]);
                assert(a.contains(a[i]));
                let j = choose|j: int| 0 <= j < b.len() && b[j] == t;
                assert(y[j] == t);
            }
            if y.contains(t) {
                let j = choose|j: int| 0 <= j < y.len() && y[j] == t;
                assert(b[j] != b[b.len() - 1]);
                assert(b.contains(b[j]));
                assert(a.contains(b[j]));
                let i = choose|i: int| 0 <= i < a.len() && a[i] == t;
                assert(x[i] == t);
            }
        }
        ascending_is_canonical(x, y);
        assert(a =~= x.push(a.last()));
        assert(b =~= y.push(b.last()));
    }
}

/// Adds a text to an ascending list.
pub fn insert(v: &mut Vec<String>, s: &String)
    requires
        ascending(text::views(old(v)@)),
    ensures
        ascending(text::views(final(v)@)),
        forall|x: Seq<char>|
            #[trigger] text::views(final(v)@).contains(x) <==> text::views(old(v)@).contains(x) || x == s@,
{
    let ghost before = text::views(v@);
    let mut i: usize = 0;
    while i < v.len() && !text::str_le(s.as_str(), v[i].as_str())
        invariant
            i <= v@.len(),
            before == text::views(v@),
            forall|j: int| 0 <= j < i ==> !text::lex_le(s@, #[trigger] before[j]),
        decreases v@.len() - i,
    {
        i = i + 1;
    }
    if i < v.len() && v[i] == *s {
        assert(before[i as int] == s@);
        assert(before.contains(s@));
        return ;
    }
    let ghost k = i as int;
    v.insert(i, s.clone());
    proof {
        let after = text::views(v@);
        assert(after =~= before.insert(k, s@));
        assert forall|j: int| 0 <= j < k implies text::lex_le(#[trigger] before[j], s@) && before[j] != s@ by {
            text::lex_le_total(before[j], s@);
            text::lex_le_reflexive(s@);
        }
        assert forall|j: int| k <= j < before.len() implies text::lex_le(s@, #[trigger] before[j]) && before[j] != s@ by {
            assert(text::lex_le(s@, before[k]) && before[k] != s@);
            if j > k {
                assert(text::lex_le(before[k], before[j]));
                text::lex_le_transitive(s@, before[k], before[j]);
                if before[j] == s@ {
                    text::lex_le_antisymmetric(before[k], s@);
                }
            }
        }
        assert forall|a: int, b: int| #![trigger after[a], after[b]] 0 <= a < b < after.len() implies text::lex_le(
            after[a],
            after[b],
        ) && after[a] != after[b] by {
            let ba = if a < k {
                a
            } else {
                a - 1
            };
            let bb = if b < k {
                b
            } else {
                b - 1
            };
            if a != k {
                assert(after[a] == before[ba]);
            }
            if b != k {
                assert(after[b] == before[bb]);
            }
            if a != k && b != k {
                assert(text::lex_le(before[ba], before[bb]));
            }
        }
        assert forall|x: Seq<char>| #[trigger] after.contains(x) <==> before.contains(x) || x == s@ by {
            if before.contains(x) {
                let j = choose|j: int| 0 <= j < before.len() && before[j] == x;
                if j < k {
                    assert(after[j] == x);
                } else {
                    assert(after[j + 1] == x);
                }
            }
            assert(after[k] == s@);
            if after.contains(x) {
                let j = choose|j: int| 0 <= j < after.len() && after[j] == x;
                if j < k {
                    assert(before[j] == x);
                } else if j > k {
                    assert(before[j - 1] == x);
                }
            }
        }
    }
}

/// The texts of a list, ascending, each once.
pub fn sorted_set(v: &Vec<String>) -> (r: Vec<String>)
    ensures
        ascending(text::views(r@)),
        forall|x: Seq<char>| #[trigger] text::views(r@).contains(x) <==> text::views(v@).contains(x),
{
    let ghost all = text::views(v@);
    let mut out: Vec<String> = Vec::new();
    let mut i: usize = 0;
    while i < v.len()
        invariant
            i <= v@.len(),
            all == text::views(v@),
            ascending(text::views(out@)),
            forall|x: Seq<char>| #[trigger] text::views(out@).contains(x) <==> all.take(i as int).contains(x),
        decreases v@.len() - i,
    {
        insert(&mut out, &v[i]);
        proof {
            let was = all.take(i as int);
            let now = all.take(i + 1);
            assert forall|x: Seq<char>| #[trigger] now.contains(x) <==> was.contains(x) || x == v@[i as int]@ by {
                if was.contains(x) {
                    let j = choose|j: int| 0 <= j < was.len() && was[j] == x;
                    assert(now[j] == x);
                }
                assert(now[i as int] == v@[i as int]@);
                if now.contains(x) {
                    let j = choose|j: int| 0 <= j < now.len() && now[j] == x;
                    if j < i {
                        assert(was[j] == x);
                    }
                }
            }
        }
        i = i + 1;
    }
    assert(all.take(i as int) =~= all);
    out
}

/// The first of two pairs comes no later than the second: by its first text, and where those are
/// equal by its second.
pub open spec fn named_before(a: (Seq<char>, Seq<char>), b: (Seq<char>, Seq<char>)) -> bool {
    if a.0 == b.0 {
        text::lex_le(a.1, b.1)
    } else {
        text::lex_le(a.0, b.0)
    }
}

/// The order of pairs is total.
pub proof fn named_before_total(a: (Seq<char>, Seq<char>), b: (Seq<char>, Seq<char>))
    ensures
        named_before(a, b) || named_before(b, a),
{
    text::lex_le_total(a.0, b.0);
    text::lex_le_total(a.1, b.1);
}

/// The order of pairs is transitive.
pub proof fn named_before_transitive(a: (Seq<char>, Seq<char>), b: (Seq<char>, Seq<char>), c: (Seq<char>, Seq<char>))
    requires
        named_before(a, b),
        named_before(b, c),
    ensures
        named_before(a, c),
{
    if a.0 == b.0 && b.0 == c.0 {
        text::lex_le_transitive(a.1, b.1, c.1);
    } else if a.0 != b.0 && b.0 != c.0 {
        text::lex_le_transitive(a.0, b.0, c.0);
        if a.0 == c.0 {
            text::lex_le_antisymmetric(a.0, b.0);
        }
    }
}

/// Whether the pair `a` comes no later than the pair `b`.
pub fn pair_le(a: (&str, &str), b: (&str, &str)) -> (r: bool)
    ensures
        r == named_before((a.0@, a.1@), (b.0@, b.1@)),
{
    if text::str_eq(a.0, b.0) {
        text::str_le(a.1, b.1)
    } else {
        text::str_le(a.0, b.0)
    }
}

} // verus!
