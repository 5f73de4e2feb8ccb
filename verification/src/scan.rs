//! The tree scanner: which entries of a walk are `node_modules` directories
//! worth reporting, and in what order they are listed.
//!
//! A walk starts at a root and comes upon entries beneath it. The scanner
//! looks at each entry through the names on its path from the root down: the
//! root's own name first, the entry's own name last. An entry is reached only
//! if none of the names above it is `node_modules`, so a `node_modules`
//! directory is reported and nothing beneath it ever is.

use vstd::prelude::*;
use crate::entry::{Entry, EntryKind, EntryView, WalkItem, WalkItemView};
use crate::error::{CleanError, CleanErrorView};
use crate::order::{
    lemma_ascending_is_unique, lemma_ascending_with, lemma_precedes_transitive, place, precedes,
    strictly_ascending, Placement,
};
use crate::path::{
    chars_of, components, file_name, is_beneath, is_name, join, lemma_components_of_join,
    same_text, split_components, views, SEPARATOR,
};

verus! {

/// The name that makes a directory a match.
pub open spec fn target_name() -> Seq<char> {
    "node_modules"@
}

/// The name that makes a match is not the empty name.
pub proof fn lemma_target_name_len()
    ensures
        target_name().len() == 12,
{
    reveal_strlit("node_modules");
}

/// The path leads to the root of the walk or to something beneath it.
pub open spec fn under_root(root: Seq<char>, path: Seq<char>) -> bool {
    components(root).is_prefix_of(components(path))
}

/// How many levels below the root the path leads: 0 for the root itself, 1
/// for what the root holds.
pub open spec fn depth_below(root: Seq<char>, path: Seq<char>) -> int {
    components(path).len() - components(root).len()
}

/// The names above an entry on its path from the root: the root's own name
/// first, the name of the directory that holds the entry last. The root
/// itself has nothing above it. `above` holds the names of the root's path,
/// `names` those of the entry's.
pub open spec fn names_above(above: Seq<Seq<char>>, names: Seq<Seq<char>>) -> Seq<Seq<char>> {
    if names.len() <= above.len() {
        Seq::empty()
    } else if above.len() == 0 {
        names.drop_last()
    } else {
        names.subrange(above.len() - 1, names.len() - 1)
    }
}

/// The names above the entry at `path` in a walk from `root`.
pub open spec fn ancestors(root: Seq<char>, path: Seq<char>) -> Seq<Seq<char>> {
    names_above(components(root), components(path))
}

/// The pruning rule: a walk from `root` goes on to `path` exactly if the path
/// lies under the root and no name above it, from the root's own name down, is
/// `node_modules`.
pub open spec fn may_enter(root: Seq<char>, path: Seq<char>) -> bool {
    under_root(root, path) && !ancestors(root, path).contains(target_name())
}

/// The match rule: a directory, not a link to one, whose own name is
/// `node_modules`.
pub open spec fn is_match(entry: EntryView) -> bool {
    entry.kind == EntryKind::Directory && file_name(entry.path) == target_name()
}

/// The depth bound: with a bound of `d` only entries at most `d` levels below
/// the root are looked at; without one, all are.
pub open spec fn within_depth(root: Seq<char>, max_depth: Option<usize>, path: Seq<char>) -> bool {
    match max_depth {
        Some(d) => depth_below(root, path) <= d,
        None => true,
    }
}

/// The entry is one that a scan from `root` reports.
pub open spec fn is_reported(root: Seq<char>, max_depth: Option<usize>, entry: EntryView) -> bool {
    &&& may_enter(root, entry.path)
    &&& within_depth(root, max_depth, entry.path)
    &&& is_match(entry)
}

/// The walk came upon an entry with this path that a scan reports.
pub open spec fn reports(
    root: Seq<char>,
    max_depth: Option<usize>,
    walk: Seq<WalkItemView>,
    path: Seq<char>,
) -> bool {
    exists|k: int|
        0 <= k < walk.len() && (#[trigger] walk[k] matches WalkItemView::Visited(entry)
            && entry.path == path && is_reported(root, max_depth, entry))
}

/// Item `i` is the first failure of the walk.
pub open spec fn first_failure(walk: Seq<WalkItemView>, i: int) -> bool {
    &&& 0 <= i < walk.len()
    &&& walk[i] is Failed
    &&& forall|j: int| 0 <= j < i ==> #[trigger] walk[j] is Visited
}

/// No two reported entries lie one beneath the other: the upper one is named
/// `node_modules`, and that name above the lower one keeps it from being
/// reached.
pub proof fn lemma_reported_not_nested(
    root: Seq<char>,
    max_depth: Option<usize>,
    outer: EntryView,
    inner: EntryView,
)
    requires
        is_reported(root, max_depth, outer),
        is_reported(root, max_depth, inner),
    ensures
        !is_beneath(inner.path, outer.path),
{
    if is_beneath(inner.path, outer.path) {
        let up = components(outer.path);
        let down = components(inner.path);
        let above = components(root).len() as int;
        lemma_target_name_len();
        assert(up.len() > 0);
        assert(up == down.subrange(0, up.len() as int));
        assert(down[up.len() - 1] == up.last());
        let at = if above == 0 {
            up.len() - 1
        } else {
            up.len() - above
        };
        assert(ancestors(root, inner.path)[at] == target_name());
    }
}

/// A symbolic link is never reported, whatever its name and whatever it
/// points to.
pub proof fn lemma_symlink_not_reported(
    root: Seq<char>,
    max_depth: Option<usize>,
    entry: EntryView,
)
    requires
        entry.kind == EntryKind::Symlink,
    ensures
        !is_reported(root, max_depth, entry),
{
}

/// With a depth bound of 0 nothing but the root itself is reported.
pub proof fn lemma_depth_zero_reports_root_only(root: Seq<char>, entry: EntryView)
    requires
        is_reported(root, Some(0usize), entry),
    ensures
        components(entry.path) == components(root),
        file_name(root) == target_name(),
{
    assert(components(entry.path) =~= components(root));
}

/// Nothing that a `node_modules` directory holds is entered, at any depth
/// beneath it, nested `node_modules` directories included.
pub proof fn lemma_nothing_entered_beneath_match(
    root: Seq<char>,
    outer: Seq<char>,
    inner: Seq<char>,
)
    requires
        under_root(root, outer),
        file_name(outer) == target_name(),
        components(outer).len() > 0,
        is_beneath(inner, outer),
    ensures
        !may_enter(root, inner),
{
    let up = components(outer);
    let down = components(inner);
    let above = components(root).len() as int;
    assert(up == down.subrange(0, up.len() as int));
    assert(down[up.len() - 1] == up.last());
    if under_root(root, inner) {
        let at = if above == 0 {
            up.len() - 1
        } else {
            up.len() - above
        };
        assert(ancestors(root, inner)[at] == target_name());
    }
}

/// Pruning loses nothing: where a walk may enter an entry, it may enter every
/// entry above it down from the root, so a walk that turns back wherever the
/// pruning rule says so still reaches every entry that a scan reports.
pub proof fn lemma_pruning_loses_nothing(root: Seq<char>, outer: Seq<char>, inner: Seq<char>)
    requires
        may_enter(root, inner),
        under_root(root, outer),
        is_beneath(inner, outer),
    ensures
        may_enter(root, outer),
{
    let up = components(outer);
    let down = components(inner);
    assert(up == down.subrange(0, up.len() as int));
    if ancestors(root, outer).contains(target_name()) {
        let i = choose|i: int|
            0 <= i < ancestors(root, outer).len() && ancestors(root, outer)[i] == target_name();
        assert(ancestors(root, inner)[i] == target_name());
    }
}

/// What the root holds lies one level below it, and has just the root's name
/// above it.
pub proof fn lemma_child_of_root(root: Seq<char>, name: Seq<char>)
    requires
        is_name(name),
    ensures
        under_root(root, join(root, name)),
        depth_below(root, join(root, name)) == 1,
        file_name(join(root, name)) == name,
        components(root).len() > 0 ==> ancestors(root, join(root, name)) == seq![file_name(root)],
        components(root).len() == 0 ==> ancestors(root, join(root, name)) == Seq::<
            Seq<char>,
        >::empty(),
{
    lemma_components_of_join(root, name);
    let names = components(root).push(name);
    assert(components(root) == names.subrange(0, components(root).len() as int));
    if components(root).len() > 0 {
        assert(ancestors(root, join(root, name)) =~= seq![file_name(root)]);
    } else {
        assert(ancestors(root, join(root, name)) =~= Seq::<Seq<char>>::empty());
    }
}

/// The depth bound counts the root as level 0 and what the root holds as
/// level 1: a `node_modules` directory that the root holds is reported with
/// every depth bound but 0, unless the root is itself named `node_modules`.
pub proof fn lemma_match_in_root_needs_depth_one(root: Seq<char>, max_depth: Option<usize>)
    requires
        file_name(root) != target_name(),
    ensures
        is_reported(
            root,
            max_depth,
            EntryView { path: join(root, target_name()), kind: EntryKind::Directory },
        ) <==> max_depth != Some(0usize),
{
    lemma_target_name_len();
    reveal_strlit("node_modules");
    assert(!target_name().contains(SEPARATOR)) by {
        if target_name().contains(SEPARATOR) {
            let i = choose|i: int| 0 <= i < target_name().len() && target_name()[i] == SEPARATOR;
            assert(target_name()[i] != '/');
        }
    }
    lemma_child_of_root(root, target_name());
    if components(root).len() > 0 {
        assert(seq![file_name(root)][0] == file_name(root));
    }
}

/// The components of a path given as text.
fn names_of(path: &str) -> (names: Vec<Vec<char>>)
    ensures
        views(names@) == components(path@),
{
    let chars = chars_of(path);
    split_components(&chars)
}

/// Whether `names` begins with all of `first`.
fn begins_with(names: &Vec<Vec<char>>, first: &Vec<Vec<char>>) -> (r: bool)
    ensures
        r == views(first@).is_prefix_of(views(names@)),
{
    if first.len() > names.len() {
        return false;
    }
    let mut i: usize = 0;
    while i < first.len()
        invariant
            i <= first.len(),
            first.len() <= names.len(),
            forall|j: int| 0 <= j < i ==> first@[j]@ == names@[j]@,
        decreases first.len() - i,
    {
        if !same_text(&first[i], &names[i]) {
            assert(views(first@)[i as int] != views(names@).subrange(0, first.len() as int)[i as int]);
            return false;
        }
        i += 1;
    }
    assert(views(first@) =~= views(names@).subrange(0, first.len() as int));
    true
}

/// Whether one of `names[from..to]` is `name`.
fn holds_name(names: &Vec<Vec<char>>, from: usize, to: usize, name: &Vec<char>) -> (r: bool)
    requires
        from <= to <= names.len(),
    ensures
        r == views(names@).subrange(from as int, to as int).contains(name@),
{
    let ghost range = views(names@).subrange(from as int, to as int);
    let mut i: usize = from;
    while i < to
        invariant
            from <= i <= to <= names.len(),
            range == views(names@).subrange(from as int, to as int),
            forall|j: int| 0 <= j < i - from ==> range[j] != name@,
        decreases to - i,
    {
        if same_text(&names[i], name) {
            assert(range[i - from] == name@);
            return true;
        }
        i += 1;
    }
    false
}

/// The name `node_modules`, as characters.
fn target() -> (name: Vec<char>)
    ensures
        name@ == target_name(),
{
    chars_of("node_modules")
}

/// Whether the last of the names is `node_modules`.
fn ends_in_target(names: &Vec<Vec<char>>) -> (r: bool)
    ensures
        r == (names.len() > 0 && views(names@).last() == target_name()),
{
    if names.len() == 0 {
        return false;
    }
    let name = target();
    assert(views(names@).last() == names@[names.len() - 1]@);
    same_text(&names[names.len() - 1], &name)
}

/// The pruning rule on the names of the root's path and of the entry's.
fn enters(above: &Vec<Vec<char>>, names: &Vec<Vec<char>>) -> (r: bool)
    ensures
        r == (views(above@).is_prefix_of(views(names@)) && !names_above(
            views(above@),
            views(names@),
        ).contains(target_name())),
{
    if !begins_with(names, above) {
        return false;
    }
    if names.len() <= above.len() {
        assert(!Seq::<Seq<char>>::empty().contains(target_name()));
        return true;
    }
    let name = target();
    let from: usize = if above.len() == 0 {
        0
    } else {
        above.len() - 1
    };
    assert(views(names@).drop_last() == views(names@).subrange(0, names.len() - 1));
    !holds_name(names, from, names.len() - 1, &name)
}

/// The match rule: whether the entry is a directory named `node_modules`.
pub fn is_node_modules_dir(entry: &Entry) -> (r: bool)
    ensures
        r == is_match(entry@),
{
    proof {
        lemma_target_name_len();
    }
    match entry.kind {
        EntryKind::Directory => {
            let names = names_of(entry.path.as_str());
            ends_in_target(&names)
        },
        _ => false,
    }
}

/// The pruning rule: whether a walk from `root` goes on to the entry. A walk
/// that skips every entry for which this is false, and all that such an entry
/// holds, still comes upon every entry that a scan reports.
pub fn should_enter(root: &str, entry: &Entry) -> (r: bool)
    ensures
        r == may_enter(root@, entry@.path),
{
    let above = names_of(root);
    let names = names_of(entry.path.as_str());
    enters(&above, &names)
}

/// Whether a scan from the root whose path has the names `above` reports the
/// entry.
fn reported(
    above: &Vec<Vec<char>>,
    Ghost(root): Ghost<Seq<char>>,
    max_depth: Option<usize>,
    entry: &Entry,
) -> (r: bool)
    requires
        views(above@) == components(root),
    ensures
        r == is_reported(root, max_depth, entry@),
{
    proof {
        lemma_target_name_len();
    }
    match entry.kind {
        EntryKind::Directory => {
            let names = names_of(entry.path.as_str());
            if !enters(above, &names) {
                return false;
            }
            let shallow = match max_depth {
                Some(d) => names.len() - above.len() <= d,
                None => true,
            };
            shallow && ends_in_target(&names)
        },
        _ => false,
    }
}

/// Puts `path` in its place in an ascending list, unless the list holds it
/// already.
fn insert_ascending(found: &mut Vec<String>, path: String)
    requires
        strictly_ascending(views(old(found)@)),
    ensures
        strictly_ascending(views(final(found)@)),
        forall|p: Seq<char>|
            views(final(found)@).contains(p) <==> (views(old(found)@).contains(p) || p == path@),
{
    let key = chars_of(path.as_str());
    let ghost before = views(found@);
    let mut i: usize = 0;
    let mut placed = false;
    while i < found.len() && !placed
        invariant
            i <= found.len(),
            found@ == old(found)@,
            before == views(found@),
            key@ == path@,
            strictly_ascending(before),
            forall|j: int| 0 <= j < i ==> precedes(#[trigger] before[j], path@),
            placed ==> i < found.len() && precedes(path@, before[i as int]),
        decreases found.len() - i, if placed { 0int } else { 1int },
    {
        let other = chars_of(found[i].as_str());
        assert(other@ == before[i as int]);
        match place(&key, &other) {
            Placement::After => {
                i += 1;
            },
            Placement::Same => {
                assert(before.contains(path@));
                return ;
            },
            Placement::Before => {
                placed = true;
            },
        }
    }
    proof {
        assert forall|j: int| i <= j < before.len() implies precedes(path@, #[trigger] before[j]) by {
            if j > i {
                lemma_precedes_transitive(path@, before[i as int], before[j]);
            }
        }
    }
    found.insert(i, path);
    proof {
        let after = views(found@);
        assert(after =~= before.insert(i as int, path@));
        assert forall|a: int, b: int| 0 <= a < b < after.len() implies precedes(
            #[trigger] after[a],
            #[trigger] after[b],
        ) by {
            if a < i && b > i {
                assert(after[b] == before[b - 1]);
            } else if a > i {
                assert(after[a] == before[a - 1]);
                assert(after[b] == before[b - 1]);
            }
        }
        assert forall|p: Seq<char>| after.contains(p) <==> (before.contains(p) || p == path@) by {
            if after.contains(p) {
                let k = choose|k: int| 0 <= k < after.len() && after[k] == p;
                if k < i {
                    assert(before[k] == p);
                } else if k > i {
                    assert(before[k - 1] == p);
                }
            }
            if before.contains(p) {
                let k = choose|k: int| 0 <= k < before.len() && before[k] == p;
                if k < i {
                    assert(after[k] == p);
                } else {
                    assert(after[k + 1] == p);
                }
            }
            if p == path@ {
                assert(after[i as int] == p);
            }
        }
    }
}

/// No two paths of a list of reported paths lie one beneath the other.
pub proof fn lemma_reported_paths_not_nested(
    root: Seq<char>,
    max_depth: Option<usize>,
    walk: Seq<WalkItemView>,
    found: Seq<Seq<char>>,
)
    requires
        forall|p: Seq<char>| found.contains(p) ==> reports(root, max_depth, walk, p),
    ensures
        forall|a: int, b: int|
            0 <= a < found.len() && 0 <= b < found.len() ==> !is_beneath(
                #[trigger] found[a],
                #[trigger] found[b],
            ),
{
    assert forall|a: int, b: int| 0 <= a < found.len() && 0 <= b < found.len() implies !is_beneath(
        #[trigger] found[a],
        #[trigger] found[b],
    ) by {
        assert(found.contains(found[a]));
        assert(found.contains(found[b]));
        let ka = choose|k: int|
            0 <= k < walk.len() && (#[trigger] walk[k] matches WalkItemView::Visited(e) && e.path
                == found[a] && is_reported(root, max_depth, e));
        let kb = choose|k: int|
            0 <= k < walk.len() && (#[trigger] walk[k] matches WalkItemView::Visited(e) && e.path
                == found[b] && is_reported(root, max_depth, e));
        lemma_reported_not_nested(root, max_depth, walk[kb]->Visited_0, walk[ka]->Visited_0);
    }
}

/// What a scan from `root` returns for a walk: the paths of the reported
/// entries, each once, in ascending order; and no two of them one beneath the
/// other.
pub open spec fn is_scan_result(
    root: Seq<char>,
    max_depth: Option<usize>,
    walk: Seq<WalkItemView>,
    found: Seq<Seq<char>>,
) -> bool {
    &&& strictly_ascending(found)
    &&& forall|p: Seq<char>| found.contains(p) <==> reports(root, max_depth, walk, p)
    &&& forall|a: int, b: int|
        0 <= a < found.len() && 0 <= b < found.len() ==> !is_beneath(
            #[trigger] found[a],
            #[trigger] found[b],
        )
}

/// A walk has one scan result: the paths that are reported settle the
/// list, whatever the order in which the walk came upon them and however
/// often it did.
pub proof fn lemma_scan_result_is_unique(
    root: Seq<char>,
    max_depth: Option<usize>,
    walk: Seq<WalkItemView>,
    one: Seq<Seq<char>>,
    other: Seq<Seq<char>>,
)
    requires
        is_scan_result(root, max_depth, walk, one),
        is_scan_result(root, max_depth, walk, other),
    ensures
        one == other,
{
    lemma_ascending_is_unique(one, other);
}

/// A walk has a scan result.
pub proof fn lemma_scan_result_exists(
    root: Seq<char>,
    max_depth: Option<usize>,
    walk: Seq<WalkItemView>,
) -> (found: Seq<Seq<char>>)
    ensures
        is_scan_result(root, max_depth, walk, found),
    decreases walk.len(),
{
    let found = if walk.len() == 0 {
        Seq::<Seq<char>>::empty()
    } else {
        let earlier = lemma_scan_result_exists(root, max_depth, walk.drop_last());
        let found = match walk.last() {
            WalkItemView::Visited(entry) => if is_reported(root, max_depth, entry) {
                lemma_ascending_with(earlier, entry.path)
            } else {
                earlier
            },
            _ => earlier,
        };
        assert forall|p: Seq<char>| found.contains(p) <==> reports(root, max_depth, walk, p) by {
            let seen = walk.drop_last();
            if reports(root, max_depth, walk, p) {
                let k = choose|k: int|
                    0 <= k < walk.len() && (#[trigger] walk[k] matches WalkItemView::Visited(e)
                        && e.path == p && is_reported(root, max_depth, e));
                if k < walk.len() - 1 {
                    assert(seen[k] == walk[k]);
                    assert(reports(root, max_depth, seen, p));
                }
            }
            if earlier.contains(p) {
                let k = choose|k: int|
                    0 <= k < seen.len() && (#[trigger] seen[k] matches WalkItemView::Visited(e)
                        && e.path == p && is_reported(root, max_depth, e));
                assert(walk[k] == seen[k]);
            }
            if found.contains(p) && !earlier.contains(p) {
                assert(walk[walk.len() - 1] == walk.last());
            }
        }
        found
    };
    lemma_reported_paths_not_nested(root, max_depth, walk, found);
    found
}

/// What a scan makes of a walk: the first failure of the walk, where it has
/// one, and its scan result, where it has none.
pub open spec fn scan_outcome(
    root: Seq<char>,
    max_depth: Option<usize>,
    walk: Seq<WalkItemView>,
) -> Result<Seq<Seq<char>>, CleanErrorView> {
    if exists|i: int| first_failure(walk, i) {
        let i = choose|i: int| first_failure(walk, i);
        Err(CleanErrorView::Traversal { path: walk[i]->Failed_path, cause: walk[i]->Failed_cause })
    } else {
        Ok(choose|found: Seq<Seq<char>>| is_scan_result(root, max_depth, walk, found))
    }
}

/// The outcome of a scan fails exactly if the walk has a failure, and then
/// with the first one; it succeeds exactly if the walk has none, and then
/// with the scan result.
pub proof fn lemma_scan_outcome(root: Seq<char>, max_depth: Option<usize>, walk: Seq<WalkItemView>)
    ensures
        match scan_outcome(root, max_depth, walk) {
            Ok(found) => {
                &&& forall|j: int| 0 <= j < walk.len() ==> #[trigger] walk[j] is Visited
                &&& is_scan_result(root, max_depth, walk, found)
            },
            Err(error) => exists|i: int|
                #[trigger] first_failure(walk, i) && error == (CleanErrorView::Traversal {
                    path: walk[i]->Failed_path,
                    cause: walk[i]->Failed_cause,
                }),
        },
{
    if exists|i: int| first_failure(walk, i) {
    } else {
        let found = lemma_scan_result_exists(root, max_depth, walk);
        lemma_no_failure(walk, walk.len() as int);
    }
}

/// A walk without a first failure has no failure at all.
proof fn lemma_no_failure(walk: Seq<WalkItemView>, n: int)
    requires
        0 <= n <= walk.len(),
        !exists|i: int| first_failure(walk, i),
    ensures
        forall|j: int| 0 <= j < n ==> #[trigger] walk[j] is Visited,
    decreases n,
{
    if n > 0 {
        lemma_no_failure(walk, n - 1);
        if walk[n - 1] is Failed {
            assert(first_failure(walk, n - 1));
        }
    }
}

/// A walk that came upon no `node_modules` directory, and did not fail, has
/// the empty scan result.
pub proof fn lemma_nothing_reported_scans_empty(
    root: Seq<char>,
    max_depth: Option<usize>,
    walk: Seq<WalkItemView>,
)
    requires
        forall|k: int| 0 <= k < walk.len() ==> (#[trigger] walk[k] matches WalkItemView::Visited(
            entry,
        ) && !is_match(entry)),
    ensures
        scan_outcome(root, max_depth, walk) == Ok::<Seq<Seq<char>>, CleanErrorView>(Seq::empty()),
{
    lemma_scan_outcome(root, max_depth, walk);
    match scan_outcome(root, max_depth, walk) {
        Ok(found) => {
            if found.len() > 0 {
                assert(found.contains(found[0]));
            }
            assert(found =~= Seq::<Seq<char>>::empty());
        },
        Err(error) => {
            let i = choose|i: int| first_failure(walk, i);
            assert(walk[i] is Visited);
        },
    }
}

/// The outcome of a scan as contracts see it.
pub open spec fn outcome_view(r: Result<Vec<String>, CleanError>) -> Result<
    Seq<Seq<char>>,
    CleanErrorView,
> {
    match r {
        Ok(found) => Ok(views(found@)),
        Err(error) => Err(error@),
    }
}

/// `pruned` is what is left of `walk` when the walk turns back wherever the
/// pruning rule says so: it holds nothing that `walk` does not hold, and
/// every entry of `walk` that may be entered.
pub open spec fn is_pruning_of(
    root: Seq<char>,
    pruned: Seq<WalkItemView>,
    walk: Seq<WalkItemView>,
) -> bool {
    &&& forall|j: int| 0 <= j < pruned.len() ==> walk.contains(#[trigger] pruned[j])
    &&& forall|k: int|
        0 <= k < walk.len() && (#[trigger] walk[k] matches WalkItemView::Visited(entry)
            && may_enter(root, entry.path)) ==> pruned.contains(walk[k])
}

/// Pruning the walk does not change what the scan returns: the list for the
/// whole tree is the list for the part of it that the pruning rule lets a
/// walk reach.
pub proof fn lemma_pruned_walk_scans_alike(
    root: Seq<char>,
    max_depth: Option<usize>,
    walk: Seq<WalkItemView>,
    pruned: Seq<WalkItemView>,
    found: Seq<Seq<char>>,
)
    requires
        is_pruning_of(root, pruned, walk),
        is_scan_result(root, max_depth, walk, found),
    ensures
        is_scan_result(root, max_depth, pruned, found),
{
    assert forall|p: Seq<char>| reports(root, max_depth, pruned, p) <==> reports(
        root,
        max_depth,
        walk,
        p,
    ) by {
        if reports(root, max_depth, pruned, p) {
            let j = choose|j: int|
                0 <= j < pruned.len() && (#[trigger] pruned[j] matches WalkItemView::Visited(e)
                    && e.path == p && is_reported(root, max_depth, e));
            assert(walk.contains(pruned[j]));
            let k = choose|k: int| 0 <= k < walk.len() && walk[k] == pruned[j];
            assert(walk[k] is Visited);
        }
        if reports(root, max_depth, walk, p) {
            let k = choose|k: int|
                0 <= k < walk.len() && (#[trigger] walk[k] matches WalkItemView::Visited(e)
                    && e.path == p && is_reported(root, max_depth, e));
            assert(pruned.contains(walk[k]));
            let j = choose|j: int| 0 <= j < pruned.len() && pruned[j] == walk[k];
            assert(pruned[j] is Visited);
        }
    }
}

/// Scans what a walk from `root` came upon. Where the walk failed, the scan
/// fails with the walk's first failure and returns no path at all. Otherwise
/// it returns the `node_modules` directories that the walk reached at most
/// `max_depth` levels below the root, without those beneath another
/// `node_modules`, in ascending order of their paths.
pub fn scan_node_modules(root: &str, max_depth: Option<usize>, walk: &Vec<WalkItem>) -> (r: Result<
    Vec<String>,
    CleanError,
>)
    ensures
        outcome_view(r) == scan_outcome(root@, max_depth, views(walk@)),
        match r {
            Ok(found) => {
                &&& forall|j: int| 0 <= j < walk.len() ==> #[trigger] walk[j]@ is Visited
                &&& is_scan_result(root@, max_depth, views(walk@), views(found@))
            },
            Err(e) => exists|i: int|
                first_failure(views(walk@), i) && (#[trigger] walk[i]@ matches WalkItemView::Failed {
                    path,
                    cause,
                } && e@ == (CleanErrorView::Traversal { path, cause })),
        },
{
    let above = names_of(root);
    let mut found: Vec<String> = Vec::new();
    let mut i: usize = 0;
    while i < walk.len()
        invariant
            i <= walk.len(),
            views(above@) == components(root@),
            strictly_ascending(views(found@)),
            forall|j: int| 0 <= j < i ==> #[trigger] walk[j]@ is Visited,
            forall|p: Seq<char>|
                views(found@).contains(p) <==> reports(
                    root@,
                    max_depth,
                    views(walk@).take(i as int),
                    p,
                ),
        decreases walk.len() - i,
    {
        let ghost seen = views(walk@).take(i as int);
        let ghost next = views(walk@).take(i + 1);
        let ghost had = views(found@);
        assert(next.drop_last() == seen);
        assert(next.last() == walk[i as int]@);
        match &walk[i] {
            WalkItem::Failed { path, cause } => {
                proof {
                    assert(first_failure(views(walk@), i as int));
                    let first = choose|k: int| first_failure(views(walk@), k);
                    assert(first == i) by {
                        if first < i {
                            assert(views(walk@)[first] == walk[first]@);
                        } else if i < first {
                            assert(views(walk@)[i as int] is Visited);
                        }
                    }
                }
                return Err(CleanError::Traversal { path: path.clone(), cause: cause.clone() });
            },
            WalkItem::Visited(entry) => {
                let wanted = reported(&above, Ghost(root@), max_depth, entry);
                if wanted {
                    insert_ascending(&mut found, entry.path.clone());
                }
                proof {
                    let has = views(found@);
                    assert forall|p: Seq<char>| has.contains(p) <==> reports(
                        root@,
                        max_depth,
                        next,
                        p,
                    ) by {
                        if reports(root@, max_depth, next, p) {
                            let k = choose|k: int|
                                0 <= k < next.len() && (#[trigger] next[k] matches WalkItemView::Visited(
                                    e,
                                ) && e.path == p && is_reported(root@, max_depth, e));
                            if k < i {
                                assert(seen[k] == next[k]);
                                assert(reports(root@, max_depth, seen, p));
                            }
                        }
                        if had.contains(p) {
                            let k = choose|k: int|
                                0 <= k < seen.len() && (#[trigger] seen[k] matches WalkItemView::Visited(
                                    e,
                                ) && e.path == p && is_reported(root@, max_depth, e));
                            assert(next[k] == seen[k]);
                        }
                        if wanted && p == entry@.path {
                            assert(next[i as int] == walk[i as int]@);
                        }
                    }
                }
            },
        }
        i += 1;
    }
    proof {
        let all = views(walk@);
        assert(all.take(walk.len() as int) == all);
        lemma_reported_paths_not_nested(root@, max_depth, all, views(found@));
        if exists|k: int| first_failure(all, k) {
            let k = choose|k: int| first_failure(all, k);
            assert(all[k] == walk[k]@);
        }
        let chosen = choose|chosen: Seq<Seq<char>>| is_scan_result(root@, max_depth, all, chosen);
        lemma_scan_result_is_unique(root@, max_depth, all, views(found@), chosen);
    }
    Ok(found)
}

} // verus!
