//! The order in which paths are listed: the order of their text, character
//! by character, a shorter text before each of its extensions.

use vstd::prelude::*;

verus! {

/// `a` comes strictly before `b`: at the first position where they differ `a`
/// holds the smaller character, or `a` ends there and `b` goes on.
pub open spec fn precedes(a: Seq<char>, b: Seq<char>) -> bool
    decreases a.len(),
{
    if b.len() == 0 {
        false
    } else if a.len() == 0 {
        true
    } else if a[0] != b[0] {
        (a[0] as u32) < (b[0] as u32)
    } else {
        precedes(a.drop_first(), b.drop_first())
    }
}

/// Each element comes strictly before every later one. Such a sequence is in
/// ascending order and holds nothing twice.
pub open spec fn strictly_ascending(s: Seq<Seq<char>>) -> bool {
    forall|i: int, j: int| 0 <= i < j < s.len() ==> precedes(#[trigger] s[i], #[trigger] s[j])
}

/// No text comes before itself.
pub proof fn lemma_precedes_irreflexive(a: Seq<char>)
    ensures
        !precedes(a, a),
    decreases a.len(),
{
    if a.len() > 0 {
        lemma_precedes_irreflexive(a.drop_first());
    }
}

/// Of two different texts one comes before the other.
pub proof fn lemma_precedes_total(a: Seq<char>, b: Seq<char>)
    ensures
        a == b || precedes(a, b) || precedes(b, a),
    decreases a.len(),
{
    if a.len() > 0 && b.len() > 0 && a[0] == b[0] {
        lemma_precedes_total(a.drop_first(), b.drop_first());
        if a.drop_first() == b.drop_first() {
            assert(a =~= seq![a[0]] + a.drop_first());
            assert(b =~= seq![b[0]] + b.drop_first());
        }
    } else if a.len() == 0 && b.len() == 0 {
        assert(a =~= b);
    } else if a.len() > 0 && b.len() > 0 {
        vstd::utf8::char_u32_cast(a[0], a[0] as u32);
        vstd::utf8::char_u32_cast(b[0], b[0] as u32);
    }
}

/// Two texts are never each before the other.
pub proof fn lemma_precedes_asymmetric(a: Seq<char>, b: Seq<char>)
    requires
        precedes(a, b),
    ensures
        !precedes(b, a),
    decreases a.len(),
{
    if a.len() > 0 && b.len() > 0 && a[0] == b[0] {
        lemma_precedes_asymmetric(a.drop_first(), b.drop_first());
    }
}

/// What comes before a text comes before everything after that text.
pub proof fn lemma_precedes_transitive(a: Seq<char>, b: Seq<char>, c: Seq<char>)
    requires
        precedes(a, b),
        precedes(b, c),
    ensures
        precedes(a, c),
    decreases a.len(),
{
    if a.len() > 0 && a[0] == b[0] && b[0] == c[0] {
        lemma_precedes_transitive(a.drop_first(), b.drop_first(), c.drop_first());
    }
}

/// An ascending sequence holds nothing twice.
pub proof fn lemma_ascending_has_no_duplicates(s: Seq<Seq<char>>)
    requires
        strictly_ascending(s),
    ensures
        forall|i: int, j: int| 0 <= i < s.len() && 0 <= j < s.len() && i != j ==> s[i] != s[j],
{
    assert forall|i: int, j: int| 0 <= i < s.len() && 0 <= j < s.len() && i != j implies s[i]
        != s[j] by {
        lemma_precedes_irreflexive(s[i]);
        if i < j {
            assert(precedes(s[i], s[j]));
        } else {
            assert(precedes(s[j], s[i]));
        }
    }
}

/// An ascending sequence is settled by what it holds: two ascending sequences
/// with the same elements are the same sequence.
pub proof fn lemma_ascending_is_unique(a: Seq<Seq<char>>, b: Seq<Seq<char>>)
    requires
        strictly_ascending(a),
        strictly_ascending(b),
        forall|p: Seq<char>| a.contains(p) <==> b.contains(p),
    ensures
        a == b,
    decreases a.len(),
{
    if a.len() == 0 {
        if b.len() > 0 {
            assert(b.contains(b[0]));
        }
        assert(a =~= b);
    } else if b.len() == 0 {
        assert(a.contains(a[0]));
    } else {
        // The last element of each is the greatest of both.
        let x = a.last();
        let y = b.last();
        assert(a.contains(x));
        assert(b.contains(y));
        let i = choose|i: int| 0 <= i < b.len() && b[i] == x;
        let j = choose|j: int| 0 <= j < a.len() && a[j] == y;
        lemma_precedes_irreflexive(x);
        if x != y {
            assert(precedes(b[i], b[b.len() - 1]));
            assert(precedes(a[j], a[a.len() - 1]));
            lemma_precedes_asymmetric(x, y);
        }
        let a0 = a.drop_last();
        let b0 = b.drop_last();
        assert forall|p: Seq<char>| a0.contains(p) <==> b0.contains(p) by {
            if a0.contains(p) {
                let k = choose|k: int| 0 <= k < a0.len() && a0[k] == p;
                assert(a[k] == p);
                assert(precedes(a[k], a[a.len() - 1]));
                assert(a.contains(p));
                let m = choose|m: int| 0 <= m < b.len() && b[m] == p;
                if m == b.len() - 1 {
                    lemma_precedes_irreflexive(p);
                }
                assert(b0[m] == p);
            }
            if b0.contains(p) {
                let k = choose|k: int| 0 <= k < b0.len() && b0[k] == p;
                assert(b[k] == p);
                assert(precedes(b[k], b[b.len() - 1]));
                assert(b.contains(p));
                let m = choose|m: int| 0 <= m < a.len() && a[m] == p;
                if m == a.len() - 1 {
                    lemma_precedes_irreflexive(p);
                }
                assert(a0[m] == p);
            }
        }
        assert(strictly_ascending(a0)) by {
            assert forall|i: int, j: int| 0 <= i < j < a0.len() implies precedes(
                #[trigger] a0[i],
                #[trigger] a0[j],
            ) by {
                assert(a0[i] == a[i] && a0[j] == a[j]);
            }
        }
        assert(strictly_ascending(b0)) by {
            assert forall|i: int, j: int| 0 <= i < j < b0.len() implies precedes(
                #[trigger] b0[i],
                #[trigger] b0[j],
            ) by {
                assert(b0[i] == b[i] && b0[j] == b[j]);
            }
        }
        lemma_ascending_is_unique(a0, b0);
        assert(a =~= a0.push(x));
        assert(b =~= b0.push(y));
    }
}

/// A text can be put in its place in any ascending sequence: there is an
/// ascending sequence that holds what the sequence holds and the text, and
/// nothing else.
pub proof fn lemma_ascending_with(s: Seq<Seq<char>>, p: Seq<char>) -> (r: Seq<Seq<char>>)
    requires
        strictly_ascending(s),
    ensures
        strictly_ascending(r),
        forall|q: Seq<char>| r.contains(q) <==> (s.contains(q) || q == p),
    decreases s.len(),
{
    if s.len() == 0 {
        let r = seq![p];
        assert(r[0] == p);
        r
    } else {
        let last = s.last();
        let init = s.drop_last();
        assert(s =~= init.push(last));
        assert forall|i: int| 0 <= i < init.len() implies precedes(#[trigger] init[i], last) by {
            assert(init[i] == s[i]);
            assert(precedes(s[i], s[s.len() - 1]));
        }
        if last == p {
            assert(s[s.len() - 1] == p);
            s
        } else {
            lemma_precedes_total(last, p);
            if precedes(last, p) {
                let r = s.push(p);
                assert forall|i: int, j: int| 0 <= i < j < r.len() implies precedes(
                    #[trigger] r[i],
                    #[trigger] r[j],
                ) by {
                    if j == s.len() {
                        if i < s.len() - 1 {
                            lemma_precedes_transitive(init[i], last, p);
                        }
                    } else {
                        assert(precedes(s[i], s[j]));
                    }
                }
                assert forall|q: Seq<char>| r.contains(q) <==> (s.contains(q) || q == p) by {
                    if r.contains(q) {
                        let k = choose|k: int| 0 <= k < r.len() && r[k] == q;
                        if k < s.len() {
                            assert(s[k] == q);
                        }
                    }
                    if s.contains(q) {
                        let k = choose|k: int| 0 <= k < s.len() && s[k] == q;
                        assert(r[k] == q);
                    }
                    if q == p {
                        assert(r[s.len() as int] == q);
                    }
                }
                r
            } else {
                assert(strictly_ascending(init)) by {
                    assert forall|i: int, j: int| 0 <= i < j < init.len() implies precedes(
                        #[trigger] init[i],
                        #[trigger] init[j],
                    ) by {
                        assert(precedes(s[i], s[j]));
                    }
                }
                let lower = lemma_ascending_with(init, p);
                let r = lower.push(last);
                assert forall|i: int| 0 <= i < lower.len() implies precedes(
                    #[trigger] lower[i],
                    last,
                ) by {
                    assert(lower.contains(lower[i]));
                    if init.contains(lower[i]) {
                        let k = choose|k: int| 0 <= k < init.len() && init[k] == lower[i];
                        assert(precedes(init[k], last));
                    }
                }
                assert forall|i: int, j: int| 0 <= i < j < r.len() implies precedes(
                    #[trigger] r[i],
                    #[trigger] r[j],
                ) by {
                    if j < lower.len() {
                        assert(precedes(lower[i], lower[j]));
                    } else {
                        assert(precedes(lower[i], last));
                    }
                }
                assert forall|q: Seq<char>| r.contains(q) <==> (s.contains(q) || q == p) by {
                    if r.contains(q) {
                        let k = choose|k: int| 0 <= k < r.len() && r[k] == q;
                        if k < lower.len() {
                            assert(lower.contains(lower[k]));
                            if init.contains(q) {
                                let m = choose|m: int| 0 <= m < init.len() && init[m] == q;
                                assert(s[m] == q);
                            }
                        } else {
                            assert(s[s.len() - 1] == q);
                        }
                    }
                    if s.contains(q) {
                        let k = choose|k: int| 0 <= k < s.len() && s[k] == q;
                        if k < init.len() {
                            assert(init[k] == q);
                            assert(init.contains(q));
                            assert(lower.contains(q));
                            let m = choose|m: int| 0 <= m < lower.len() && lower[m] == q;
                            assert(r[m] == q);
                        } else {
                            assert(r[lower.len() as int] == q);
                        }
                    }
                    if q == p {
                        assert(lower.contains(q));
                        let m = choose|m: int| 0 <= m < lower.len() && lower[m] == q;
                        assert(r[m] == q);
                    }
                }
                r
            }
        }
    }
}

/// Where one text stands relative to another.
#[derive(Clone, Copy, Debug, PartialEq, Eq)]
pub enum Placement {
    Before,
    Same,
    After,
}

/// Places `a` relative to `b` in the listing order.
pub fn place(a: &Vec<char>, b: &Vec<char>) -> (r: Placement)
    ensures
        r == Placement::Before <==> precedes(a@, b@),
        r == Placement::Same <==> a@ == b@,
        r == Placement::After <==> precedes(b@, a@),
{
    let mut i: usize = 0;
    assert(a@.skip(0) == a@ && b@.skip(0) == b@);
    while i < a.len() && i < b.len()
        invariant
            i <= a.len(),
            i <= b.len(),
            a@.take(i as int) == b@.take(i as int),
            precedes(a@, b@) == precedes(a@.skip(i as int), b@.skip(i as int)),
            precedes(b@, a@) == precedes(b@.skip(i as int), a@.skip(i as int)),
        decreases a.len() - i,
    {
        let ghost ra = a@.skip(i as int);
        let ghost rb = b@.skip(i as int);
        assert(ra[0] == a@[i as int] && rb[0] == b@[i as int]);
        let x = a[i];
        let y = b[i];
        if x != y {
            proof {
                assert(a@ != b@);
            }
            if (x as u32) < (y as u32) {
                return Placement::Before;
            } else {
                proof {
                    vstd::utf8::char_u32_cast(x, x as u32);
                    vstd::utf8::char_u32_cast(y, y as u32);
                }
                return Placement::After;
            }
        }
        assert(ra.drop_first() == a@.skip(i + 1));
        assert(rb.drop_first() == b@.skip(i + 1));
        assert(a@.take(i + 1) == a@.take(i as int).push(x));
        assert(b@.take(i + 1) == b@.take(i as int).push(y));
        i += 1;
    }
    proof {
        lemma_precedes_irreflexive(a@);
        if precedes(a@, b@) {
            lemma_precedes_asymmetric(a@, b@);
        }
    }
    if i < b.len() {
        assert(a@.skip(i as int).len() == 0);
        assert(a@.len() != b@.len());
        Placement::Before
    } else if i < a.len() {
        assert(b@.skip(i as int).len() == 0);
        assert(a@.len() != b@.len());
        Placement::After
    } else {
        assert(a@ == a@.take(i as int));
        assert(b@ == b@.take(i as int));
        assert(a@.skip(i as int).len() == 0);
        Placement::Same
    }
}

} // verus!
