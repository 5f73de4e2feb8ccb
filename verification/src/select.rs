//! From what the user chose to the paths that are acted upon.

use vstd::prelude::*;
use crate::path::{lemma_views_push, views};

verus! {

/// The items at the chosen positions, in the order in which they were chosen.
pub open spec fn picked(items: Seq<Seq<char>>, chosen: Seq<usize>) -> Seq<Seq<char>> {
    Seq::new(chosen.len(), |k: int| items[chosen[k] as int])
}

/// Every chosen position is the position of an item.
pub open spec fn in_range(chosen: Seq<usize>, count: nat) -> bool {
    forall|k: int| 0 <= k < chosen.len() ==> #[trigger] chosen[k] < count
}

/// Whether every chosen position is the position of one of `count` items.
pub fn all_in_range(chosen: &Vec<usize>, count: usize) -> (r: bool)
    ensures
        r == in_range(chosen@, count as nat),
{
    let mut k: usize = 0;
    while k < chosen.len()
        invariant
            k <= chosen.len(),
            forall|j: int| 0 <= j < k ==> #[trigger] chosen@[j] < count,
        decreases chosen.len() - k,
    {
        if chosen[k] >= count {
            return false;
        }
        k += 1;
    }
    true
}

/// The selection that a choice of positions stands for: one path for each
/// chosen position, in the order of the choice. An empty choice gives an
/// empty selection.
pub fn select_paths(items: &Vec<String>, chosen: &Vec<usize>) -> (selected: Vec<String>)
    requires
        in_range(chosen@, items.len() as nat),
    ensures
        views(selected@) == picked(views(items@), chosen@),
{
    let mut selected: Vec<String> = Vec::new();
    let mut k: usize = 0;
    while k < chosen.len()
        invariant
            k <= chosen.len(),
            in_range(chosen@, items.len() as nat),
            views(selected@) == picked(views(items@), chosen@.take(k as int)),
        decreases chosen.len() - k,
    {
        let path = items[chosen[k]].clone();
        proof {
            lemma_views_push(selected@, path);
        }
        selected.push(path);
        assert(views(selected@) =~= picked(views(items@), chosen@.take(k + 1)));
        k += 1;
    }
    assert(chosen@.take(chosen.len() as int) == chosen@);
    selected
}

/// A copy of a list of paths.
pub fn copy_paths(items: &Vec<String>) -> (copy: Vec<String>)
    ensures
        views(copy@) == views(items@),
{
    let mut copy: Vec<String> = Vec::new();
    let mut k: usize = 0;
    while k < items.len()
        invariant
            k <= items.len(),
            views(copy@) == views(items@).take(k as int),
        decreases items.len() - k,
    {
        let path = items[k].clone();
        proof {
            lemma_views_push(copy@, path);
        }
        copy.push(path);
        assert(views(copy@) =~= views(items@).take(k + 1));
        k += 1;
    }
    assert(views(items@).take(items.len() as int) == views(items@));
    copy
}

} // verus!
