//! The order `String` compares in (byte order, which for UTF-8 is code-point
//! order), and sorted collections of text kept in it.
use vstd::prelude::*;

use crate::text::{copy, Text};

verus! {

broadcast use crate::views::lemma_text_deep_view;

/// `a` sorts strictly before `b`, character by character, a proper prefix first.
pub open spec fn text_lt(a: Seq<char>, b: Seq<char>) -> bool
    decreases a.len(),
{
    if a.len() == 0 {
        b.len() > 0
    } else if b.len() == 0 {
        false
    } else if a[0] != b[0] {
        (a[0] as u32) < (b[0] as u32)
    } else {
        text_lt(a.drop_first(), b.drop_first())
    }
}

/// Every element sorts strictly before every later one.
pub open spec fn strictly_sorted(s: Seq<Seq<char>>) -> bool {
    forall|i: int, j: int| 0 <= i < j < s.len() ==> #[trigger] text_lt(s[i], s[j])
}

pub proof fn lemma_lt_irreflexive(a: Seq<char>)
    ensures
        !text_lt(a, a),
    decreases a.len(),
{
    if a.len() > 0 {
        lemma_lt_irreflexive(a.drop_first());
    }
}

pub proof fn lemma_lt_asymmetric(a: Seq<char>, b: Seq<char>)
    ensures
        text_lt(a, b) ==> !text_lt(b, a),
    decreases a.len(),
{
    if a.len() > 0 && b.len() > 0 && a[0] == b[0] {
        lemma_lt_asymmetric(a.drop_first(), b.drop_first());
    }
}

pub proof fn lemma_lt_total(a: Seq<char>, b: Seq<char>)
    ensures
        a == b || text_lt(a, b) || text_lt(b, a),
    decreases a.len(),
{
    if a.len() > 0 && b.len() > 0 && a[0] == b[0] {
        lemma_lt_total(a.drop_first(), b.drop_first());
        if a.drop_first() == b.drop_first() {
            assert(a =~= seq![a[0]] + a.drop_first());
            assert(b =~= seq![b[0]] + b.drop_first());
        }
    } else if a.len() > 0 && b.len() > 0 {
        let x = a[0] as u32;
        let y = b[0] as u32;
        assert(x != y) by {
            vstd::utf8::char_u32_cast(a[0], x);
            vstd::utf8::char_u32_cast(b[0], y);
        }
    } else if a.len() == 0 && b.len() == 0 {
        assert(a =~= b);
    }
}

pub proof fn lemma_lt_transitive(a: Seq<char>, b: Seq<char>, c: Seq<char>)
    requires
        text_lt(a, b),
        text_lt(b, c),
    ensures
        text_lt(a, c),
    decreases a.len(),
{
    if a.len() > 0 && b.len() > 0 && c.len() > 0 && a[0] == b[0] && b[0] == c[0] {
        lemma_lt_transitive(a.drop_first(), b.drop_first(), c.drop_first());
    }
}

/// Whether `a` sorts strictly before `b`.
pub fn precedes(a: &[char], b: &[char]) -> (r: bool)
    ensures
        r == text_lt(a@, b@),
{
    let mut i: usize = 0;
    assert(a@.skip(0) == a@ && b@.skip(0) == b@);
    while i < a.len() && i < b.len() && a[i] == b[i]
        invariant
            i <= a@.len(),
            i <= b@.len(),
            text_lt(a@, b@) == text_lt(a@.skip(i as int), b@.skip(i as int)),
        decreases a@.len() - i,
    {
        assert(a@.skip(i as int).drop_first() == a@.skip(i + 1));
        assert(b@.skip(i as int).drop_first() == b@.skip(i + 1));
        i = i + 1;
    }
    proof {
        if i < a@.len() {
            assert(a@.skip(i as int)[0] == a@[i as int]);
        }
        if i < b@.len() {
            assert(b@.skip(i as int)[0] == b@[i as int]);
        }
    }
    if i == a.len() {
        i < b.len()
    } else if i == b.len() {
        false
    } else {
        (a[i] as u32) < (b[i] as u32)
    }
}

/// The first position in sorted `v` whose element does not sort before `x`.
pub fn lower_bound(v: &Vec<Text>, x: &[char]) -> (p: usize)
    requires
        strictly_sorted(v.deep_view()),
    ensures
        p <= v@.len(),
        forall|i: int| 0 <= i < p ==> text_lt(#[trigger] v.deep_view()[i], x@),
        p < v@.len() ==> !text_lt(v.deep_view()[p as int], x@),
{
    let mut p: usize = 0;
    while p < v.len() && precedes(&v[p], x)
        invariant
            p <= v@.len(),
            forall|i: int| 0 <= i < p ==> text_lt(#[trigger] v.deep_view()[i], x@),
        decreases v@.len() - p,
    {
        p = p + 1;
    }
    p
}

/// `x` added to the strictly sorted `v`, unless already there. Returns where
/// `x` stands and whether it was added.
pub fn insert_sorted(v: &mut Vec<Text>, x: &[char]) -> (r: (usize, bool))
    requires
        strictly_sorted(old(v).deep_view()),
    ensures
        strictly_sorted(final(v).deep_view()),
        final(v).deep_view().to_set() == old(v).deep_view().to_set().insert(x@),
        r.0 < final(v)@.len(),
        final(v).deep_view()[r.0 as int] == x@,
        r.1 == !old(v).deep_view().contains(x@),
        r.1 ==> r.0 <= old(v)@.len() && final(v).deep_view() == old(v).deep_view().insert(r.0 as int, x@),
        !r.1 ==> r.0 < old(v)@.len() && final(v).deep_view() == old(v).deep_view(),
{
    let ghost s = v.deep_view();
    let p = lower_bound(v, x);
    if p < v.len() && crate::text::same(&v[p], x) {
        assert(s[p as int] == x@);
        assert(s.to_set().insert(x@) =~= s.to_set());
        return (p, false);
    }
    proof {
        if p < s.len() {
            lemma_lt_total(s[p as int], x@);
        }
        if s.contains(x@) {
            let k = choose|k: int| 0 <= k < s.len() && s[k] == x@;
            if k < p {
                lemma_lt_irreflexive(x@);
            } else if k > p {
                lemma_lt_asymmetric(x@, s[p as int]);
                assert(text_lt(s[p as int], s[k]));
            }
        }
    }
    let item = copy(x);
    v.insert(p, item);
    let ghost t = v.deep_view();
    assert(t =~= s.insert(p as int, x@));
    assert forall|i: int, j: int| 0 <= i < j < t.len() implies #[trigger] text_lt(t[i], t[j]) && text_lt(t[i], t[j]) by {
        if j < p {
            assert(t[i] == s[i] && t[j] == s[j]);
        } else if j == p {
            assert(t[i] == s[i]);
        } else if i < p {
            assert(t[i] == s[i] && t[j] == s[j - 1]);
            lemma_lt_transitive(s[i], x@, s[p as int]);
            if j - 1 > p {
                lemma_lt_transitive(s[i], s[p as int], s[j - 1]);
            }
        } else if i == p {
            assert(t[j] == s[j - 1]);
            if j - 1 > p {
                lemma_lt_transitive(x@, s[p as int], s[j - 1]);
            }
        } else {
            assert(t[i] == s[i - 1] && t[j] == s[j - 1]);
        }
    }
    assert(t.to_set() =~= s.to_set().insert(x@)) by {
        assert forall|y: Seq<char>| t.to_set().contains(y) <==> s.to_set().insert(x@).contains(y) by {
            if t.to_set().contains(y) {
                let k = choose|k: int| 0 <= k < t.len() && t[k] == y;
                if k < p {
                    assert(s[k] == y);
                } else if k > p {
                    assert(s[k - 1] == y);
                }
            }
            if s.to_set().contains(y) {
                let k = choose|k: int| 0 <= k < s.len() && s[k] == y;
                if k < p {
                    assert(t[k] == y);
                } else {
                    assert(t[k + 1] == y);
                }
            }
            if y == x@ {
                assert(t[p as int] == y);
            }
        }
    }
    (p, true)
}

/// Whether `x` is among `v`, by a scan.
pub fn member(v: &Vec<Text>, x: &[char]) -> (b: bool)
    ensures
        b == v.deep_view().contains(x@),
{
    let mut i: usize = 0;
    while i < v.len()
        invariant
            i <= v@.len(),
            forall|k: int| 0 <= k < i ==> v.deep_view()[k] != x@,
        decreases v@.len() - i,
    {
        if crate::text::same(&v[i], x) {
            assert(v.deep_view()[i as int] == x@);
            return true;
        }
        i = i + 1;
    }
    false
}

/// A strictly sorted sequence is fixed by the set of its elements.

pub proof fn lemma_sorted_unique(a: Seq<Seq<char>>, b: Seq<Seq<char>>)
    requires
        strictly_sorted(a),
        strictly_sorted(b),
        a.to_set() == b.to_set(),
    ensures
        a == b,
    decreases a.len() + b.len(),
{
    if a.len() == 0 {
        if b.len() > 0 {
            assert(b.to_set().contains(b[0]));
        }
        assert(a =~= b);
    } else if b.len() == 0 {
        assert(a.to_set().contains(a[0]));
    } else {
        assert(a.to_set().contains(b[0]));
        assert(b.to_set().contains(a[0]));
        let ia = choose|k: int| 0 <= k < a.len() && a[k] == b[0];
        let ib = choose|k: int| 0 <= k < b.len() && b[k] == a[0];
        if ia > 0 {
            assert(text_lt(a[0], a[ia]));
            if ib > 0 {
                assert(text_lt(b[0], b[ib]));
                lemma_lt_asymmetric(a[0], b[0]);
            } else {
                lemma_lt_irreflexive(a[0]);
            }
        } else {
            if ib > 0 {
                assert(text_lt(b[0], b[ib]));
                lemma_lt_irreflexive(b[0]);
            }
        }
        assert(a[0] == b[0]);
        let a2 = a.drop_first();
        let b2 = b.drop_first();
        assert forall|y: Seq<char>| a2.to_set().contains(y) <==> b2.to_set().contains(y) by {
            if a2.to_set().contains(y) {
                let k = choose|k: int| 0 <= k < a2.len() && a2[k] == y;
                assert(a[k + 1] == y);
                assert(text_lt(a[0], y));
                lemma_lt_irreflexive(y);
                assert(b.to_set().contains(y));
                let m = choose|m: int| 0 <= m < b.len() && b[m] == y;
                assert(m != 0);
                assert(b2[m - 1] == y);
            }
            if b2.to_set().contains(y) {
                let k = choose|k: int| 0 <= k < b2.len() && b2[k] == y;
                assert(b[k + 1] == y);
                assert(text_lt(b[0], y));
                lemma_lt_irreflexive(y);
                assert(a.to_set().contains(y));
                let m = choose|m: int| 0 <= m < a.len() && a[m] == y;
                assert(m != 0);
                assert(a2[m - 1] == y);
            }
        }
        assert(a2.to_set() =~= b2.to_set());
        assert(strictly_sorted(a2)) by {
            assert forall|i: int, j: int| 0 <= i < j < a2.len() implies #[trigger] text_lt(a2[i], a2[j]) && text_lt(a2[i], a2[j]) by {
                assert(a2[i] == a[i + 1] && a2[j] == a[j + 1]);
            }
        }
        assert(strictly_sorted(b2)) by {
            assert forall|i: int, j: int| 0 <= i < j < b2.len() implies #[trigger] text_lt(b2[i], b2[j]) && text_lt(b2[i], b2[j]) by {
                assert(b2[i] == b[i + 1] && b2[j] == b[j + 1]);
            }
        }
        lemma_sorted_unique(a2, b2);
        assert(a =~= b) by {
            assert(a == seq![a[0]] + a2);
            assert(b == seq![b[0]] + b2);
        }
    }
}

} // verus!
