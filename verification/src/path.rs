//! Paths as plain text.
//!
//! A path is a string whose components are separated by `/`. Everything the
//! scanner decides about a path, it decides from the sequence of its
//! components; everything it decides about the order of two paths, it decides
//! from their text.

use vstd::prelude::*;

verus! {

/// The character that separates the components of a path.
pub const SEPARATOR: char = '/';

/// The components of a path: its maximal runs of characters other than the
/// separator, from left to right. Repeated, leading and trailing separators
/// contribute nothing, so `a/b`, `a//b` and `a/b/` all have the components
/// `a`, `b`.
pub open spec fn components(s: Seq<char>) -> Seq<Seq<char>>
    decreases s.len(),
{
    if s.len() == 0 {
        Seq::empty()
    } else if s.last() == SEPARATOR {
        components(s.drop_last())
    } else if s.len() >= 2 && s[s.len() - 2] != SEPARATOR {
        let before = components(s.drop_last());
        before.drop_last().push(before.last().push(s.last()))
    } else {
        components(s.drop_last()).push(seq![s.last()])
    }
}

/// The name of the entry that a path leads to: its last component, or the
/// empty name where the path has no component at all.
pub open spec fn file_name(s: Seq<char>) -> Seq<char> {
    if components(s).len() == 0 {
        Seq::empty()
    } else {
        components(s).last()
    }
}

/// `inner` lies beneath `outer`: the components of `outer` are the first
/// components of `inner`, and `inner` has more of them.
pub open spec fn is_beneath(inner: Seq<char>, outer: Seq<char>) -> bool {
    &&& components(outer).len() < components(inner).len()
    &&& components(outer).is_prefix_of(components(inner))
}

/// The path of what a directory holds under a name.
pub open spec fn join(dir: Seq<char>, name: Seq<char>) -> Seq<char> {
    dir.push(SEPARATOR) + name
}

/// A text that can be the name of an entry: not empty, and without a
/// separator.
pub open spec fn is_name(name: Seq<char>) -> bool {
    name.len() > 0 && !name.contains(SEPARATOR)
}

/// The views of the elements of a sequence, in order: for strings, their texts.
pub open spec fn views<T: View>(items: Seq<T>) -> Seq<T::V> {
    items.map_values(|item: T| item@)
}

/// The views of a sequence with one more element are the views of the
/// sequence with the view of that element added.
pub proof fn lemma_views_push<T: View>(items: Seq<T>, item: T)
    ensures
        views(items.push(item)) == views(items).push(item@),
{
    assert(views(items.push(item)) =~= views(items).push(item@));
}

/// A path that ends in a character other than the separator has a component.
pub proof fn lemma_components_nonempty(s: Seq<char>)
    requires
        s.len() > 0,
        s.last() != SEPARATOR,
    ensures
        components(s).len() > 0,
    decreases s.len(),
{
    if s.len() >= 2 && s[s.len() - 2] != SEPARATOR {
        lemma_components_nonempty(s.drop_last());
    }
}

/// Every component is a name: it is not empty and holds no separator.
pub proof fn lemma_components_are_names(s: Seq<char>)
    ensures
        forall|i: int| 0 <= i < components(s).len() ==> is_name(#[trigger] components(s)[i]),
    decreases s.len(),
{
    if s.len() > 0 {
        let before = components(s.drop_last());
        lemma_components_are_names(s.drop_last());
        if s.last() == SEPARATOR {
        } else if s.len() >= 2 && s[s.len() - 2] != SEPARATOR {
            lemma_components_nonempty(s.drop_last());
            let grown = before.last().push(s.last());
            assert(is_name(before[before.len() - 1]));
            assert(is_name(grown)) by {
                if grown.contains(SEPARATOR) {
                    let i = choose|i: int| 0 <= i < grown.len() && grown[i] == SEPARATOR;
                    assert(before.last()[i] == SEPARATOR);
                }
            }
            assert forall|i: int| 0 <= i < components(s).len() implies is_name(
                #[trigger] components(s)[i],
            ) by {
                if i < before.len() - 1 {
                    assert(components(s)[i] == before[i]);
                }
            }
        } else {
            let single = seq![s.last()];
            assert(is_name(single)) by {
                if single.contains(SEPARATOR) {
                    let i = choose|i: int| 0 <= i < single.len() && single[i] == SEPARATOR;
                    assert(single[i] == s.last());
                }
            }
            assert forall|i: int| 0 <= i < components(s).len() implies is_name(
                #[trigger] components(s)[i],
            ) by {
                if i < before.len() {
                    assert(components(s)[i] == before[i]);
                }
            }
        }
    }
}

/// A name is the one component of the path that consists of it.
pub proof fn lemma_components_of_name(name: Seq<char>)
    requires
        is_name(name),
    ensures
        components(name) == seq![name],
    decreases name.len(),
{
    let c = name.last();
    let shorter = name.drop_last();
    assert(name[name.len() - 1] == c);
    assert(c != SEPARATOR);
    if shorter.len() == 0 {
        assert(name =~= seq![c]);
        assert(components(shorter) =~= Seq::<Seq<char>>::empty());
        assert(components(name) =~= seq![name]);
    } else {
        assert(is_name(shorter)) by {
            if shorter.contains(SEPARATOR) {
                let i = choose|i: int| 0 <= i < shorter.len() && shorter[i] == SEPARATOR;
                assert(name[i] == SEPARATOR);
            }
        }
        lemma_components_of_name(shorter);
        assert(shorter[shorter.len() - 1] == name[name.len() - 2]);
        assert(name[name.len() - 2] != SEPARATOR);
        assert(shorter.push(c) == name);
        assert(components(name) =~= seq![name]);
    }
}

/// A separator at the end of a path adds no component.
pub proof fn lemma_components_of_directory(dir: Seq<char>)
    ensures
        components(dir.push(SEPARATOR)) == components(dir),
{
    assert(dir.push(SEPARATOR).drop_last() == dir);
}

/// Joining a name to a path adds the name as one more component: what a
/// directory holds lies one level beneath it.
pub proof fn lemma_components_of_join(dir: Seq<char>, name: Seq<char>)
    requires
        is_name(name),
    ensures
        components(join(dir, name)) == components(dir).push(name),
    decreases name.len(),
{
    let whole = join(dir, name);
    let c = name.last();
    let shorter = name.drop_last();
    assert(name[name.len() - 1] == c);
    assert(whole.drop_last() == join(dir, shorter));
    assert(whole.last() == c);
    if shorter.len() == 0 {
        assert(join(dir, shorter) == dir.push(SEPARATOR));
        lemma_components_of_directory(dir);
        assert(whole[whole.len() - 2] == SEPARATOR);
        assert(name == seq![c]);
    } else {
        assert(is_name(shorter)) by {
            if shorter.contains(SEPARATOR) {
                let i = choose|i: int| 0 <= i < shorter.len() && shorter[i] == SEPARATOR;
                assert(name[i] == SEPARATOR);
            }
        }
        lemma_components_of_join(dir, shorter);
        assert(whole[whole.len() - 2] == shorter.last());
        assert(shorter[shorter.len() - 1] == name[name.len() - 2]);
        assert(name[name.len() - 2] != SEPARATOR);
        let before = components(dir).push(shorter);
        assert(before.drop_last() == components(dir));
        assert(shorter.push(c) == name);
    }
}

/// The characters of a text, in order.
pub fn chars_of(s: &str) -> (out: Vec<char>)
    ensures
        out@ == s@,
{
    broadcast use vstd::string::group_string_axioms;

    let mut out: Vec<char> = Vec::new();
    for c in it: s.chars()
        invariant
            it.seq() == s@,
            out@ == it.seq().take(it.index()),
    {
        out.push(c);
    }
    out
}

/// Splits a path into its components.
pub fn split_components(s: &Vec<char>) -> (parts: Vec<Vec<char>>)
    ensures
        views(parts@) == components(s@),
{
    let mut parts: Vec<Vec<char>> = Vec::new();
    let mut i: usize = 0;
    while i < s.len()
        invariant
            i <= s.len(),
            views(parts@) == components(s@.take(i as int)),
        decreases s.len() - i,
    {
        let ghost before = s@.take(i as int);
        let ghost now = s@.take(i + 1);
        let ghost old_parts = views(parts@);
        assert(now.drop_last() == before);
        assert(now.last() == s@[i as int]);
        let c = s[i];
        if c == SEPARATOR {
        } else if i >= 1 && s[i - 1] != SEPARATOR {
            proof {
                assert(before.last() == s@[i - 1]);
                lemma_components_nonempty(before);
            }
            let mut last = parts.pop().unwrap();
            last.push(c);
            parts.push(last);
            assert(views(parts@) =~= old_parts.drop_last().push(old_parts.last().push(c)));
        } else {
            let mut fresh: Vec<char> = Vec::new();
            fresh.push(c);
            parts.push(fresh);
            assert(fresh@ == seq![c]);
            assert(views(parts@) =~= old_parts.push(seq![c]));
        }
        i += 1;
    }
    assert(s@.take(s.len() as int) == s@);
    parts
}

/// Whether two names are the same text.
pub fn same_text(a: &Vec<char>, b: &Vec<char>) -> (same: bool)
    ensures
        same == (a@ == b@),
{
    if a.len() != b.len() {
        return false;
    }
    let mut i: usize = 0;
    while i < a.len()
        invariant
            i <= a.len(),
            a.len() == b.len(),
            a@.take(i as int) == b@.take(i as int),
        decreases a.len() - i,
    {
        if a[i] != b[i] {
            return false;
        }
        assert(a@.take(i + 1) == a@.take(i as int).push(a@[i as int]));
        assert(b@.take(i + 1) == b@.take(i as int).push(b@[i as int]));
        i += 1;
    }
    assert(a@.take(a.len() as int) == a@);
    assert(b@.take(b.len() as int) == b@);
    true
}

} // verus!
