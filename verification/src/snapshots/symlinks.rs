//! The order in which symbolic links are created.

use vstd::prelude::*;

use crate::snapshots::manifest::{file_views, FileEntry, FileView};
use crate::text::str_eq;

verus! {

/// The numbers below `n` that a predicate picks, in order.
pub open spec fn picked(n: nat, p: spec_fn(int) -> bool) -> Seq<int>
    decreases n,
{
    if n == 0 {
        Seq::empty()
    } else if p(n - 1) {
        picked((n - 1) as nat, p).push(n - 1)
    } else {
        picked((n - 1) as nat, p)
    }
}

/// Whether the link `j` stands at the path that the link `i` points to.
pub open spec fn points_to(files: Seq<FileView>, i: int, j: int) -> bool {
    files[j].is_symlink() && files[j].path == files[i].symlink_target->0
}

/// The last of the first `n` entries that is a link at the path that the link `i` points to.
pub open spec fn target_below(files: Seq<FileView>, i: int, n: nat) -> Option<int>
    decreases n,
{
    if n == 0 {
        None
    } else if points_to(files, i, n - 1) {
        Some(n - 1)
    } else {
        target_below(files, i, (n - 1) as nat)
    }
}

/// The link that the link `i` points to, if it points to one. Of several links at one path
/// the last counts.
pub open spec fn target(files: Seq<FileView>, i: int) -> Option<int> {
    target_below(files, i, files.len())
}

/// The links that point to no other link, in order.
pub open spec fn roots(files: Seq<FileView>) -> Seq<int> {
    picked(files.len(), |i: int| files[i].is_symlink() && target(files, i) is None)
}

/// The links that point to the link `j`, in order.
pub open spec fn dependents(files: Seq<FileView>, j: int) -> Seq<int> {
    picked(files.len(), |i: int| files[i].is_symlink() && target(files, i) == Some(j))
}

/// An order continued breadth first: behind it come, for each of its links from `next` on,
/// the links that point to that link, and so on.
pub open spec fn breadth_first(files: Seq<FileView>, order: Seq<int>, next: nat) -> Seq<int>
    decreases files.len() - next,
{
    if next < order.len() && next < files.len() {
        breadth_first(files, order + dependents(files, order[next as int]), next + 1)
    } else {
        order
    }
}

/// The links that no order reaches by following links back from those that point to none.
pub open spec fn left_over(files: Seq<FileView>, order: Seq<int>) -> Seq<int> {
    picked(files.len(), |i: int| files[i].is_symlink() && !order.contains(i))
}

/// The order in which links are created: breadth first from those that point to no other
/// link; links on a cycle, or leading to one, come last, in the order of the manifest.
pub open spec fn creation_order(files: Seq<FileView>) -> Seq<int> {
    let reached = breadth_first(files, roots(files), 0);
    reached + left_over(files, reached)
}

/// Indices as integers.
pub open spec fn as_ints(v: Seq<usize>) -> Seq<int> {
    Seq::new(v.len(), |i: int| v[i] as int)
}

proof fn picked_facts(n: nat, p: spec_fn(int) -> bool)
    ensures
        forall|x: int| #[trigger] picked(n, p).contains(x) <==> 0 <= x < n && p(x),
        forall|a: int, b: int|
            0 <= a < b < picked(n, p).len() ==> #[trigger] picked(n, p)[a]
                < #[trigger] picked(n, p)[b],
        forall|a: int|
            0 <= a < picked(n, p).len() ==> 0 <= #[trigger] picked(n, p)[a] < n && p(
                picked(n, p)[a],
            ),
    decreases n,
{
    if n > 0 {
        let m = (n - 1) as nat;
        picked_facts(m, p);
        let s = picked(m, p);
        let t = picked(n, p);
        assert forall|x: int| #[trigger] t.contains(x) <==> 0 <= x < n && p(x) by {
            if p(n - 1) {
                assert(t[s.len() as int] == n - 1);
                if s.contains(x) {
                    let k = choose|k: int| 0 <= k < s.len() && s[k] == x;
                    assert(t[k] == x);
                }
                if t.contains(x) && x != n - 1 {
                    let k = choose|k: int| 0 <= k < t.len() && t[k] == x;
                    assert(s[k] == x);
                }
            }
        }
    }
}

proof fn target_facts(files: Seq<FileView>, i: int, n: nat)
    ensures
        match target_below(files, i, n) {
            Some(j) => 0 <= j < n && points_to(files, i, j) && forall|k: int|
                j < k < n ==> !points_to(files, i, k),
            None => forall|k: int| 0 <= k < n ==> !points_to(files, i, k),
        },
    decreases n,
{
    if n > 0 && !points_to(files, i, n - 1) {
        target_facts(files, i, (n - 1) as nat);
    }
}

/// The link that the link at `i` points to, if it points to one.
fn find_target(files: &Vec<FileEntry>, i: usize) -> (r: Option<usize>)
    requires
        i < files.len(),
        files@[i as int]@.is_symlink(),
    ensures
        match r {
            Some(j) => target(file_views(files@), i as int) == Some(j as int) && j < files.len(),
            None => target(file_views(files@), i as int) is None,
        },
{
    let ghost views = file_views(files@);
    let mut n: usize = files.len();
    while n > 0
        invariant
            n <= files.len(),
            i < files.len(),
            views == file_views(files@),
            views[i as int].is_symlink(),
            target(views, i as int) == target_below(views, i as int, n as nat),
        decreases n,
    {
        let f = &files[n - 1];
        if !f.deleted && f.symlink_target.is_some() {
            if let Some(t) = &files[i].symlink_target {
                if str_eq(f.path.as_str(), t.as_str()) {
                    assert(points_to(views, i as int, n - 1));
                    return Some(n - 1);
                }
            }
        }
        assert(!points_to(views, i as int, n - 1));
        n -= 1;
    }
    None
}

/// What the symbolic links of a manifest point to.
struct Targets {
    /// For every entry: whether it is a link, and the link that it points to.
    entries: Vec<(bool, Option<usize>)>,
}

spec fn targets_of(t: Targets, files: Seq<FileView>) -> bool {
    &&& t.entries@.len() == files.len()
    &&& forall|i: int|
        0 <= i < files.len() ==> (#[trigger] t.entries@[i]).0 == files[i].is_symlink()
    &&& forall|i: int|
        0 <= i < files.len() && files[i].is_symlink() ==> match (#[trigger] t.entries@[i]).1 {
            Some(j) => target(files, i) == Some(j as int),
            None => target(files, i) is None,
        }
}

fn find_targets(files: &Vec<FileEntry>) -> (t: Targets)
    ensures
        targets_of(t, file_views(files@)),
{
    let ghost views = file_views(files@);
    let mut entries: Vec<(bool, Option<usize>)> = Vec::new();
    let mut i: usize = 0;
    while i < files.len()
        invariant
            i <= files.len(),
            entries.len() == i,
            views == file_views(files@),
            forall|k: int| 0 <= k < i ==> (#[trigger] entries@[k]).0 == views[k].is_symlink(),
            forall|k: int|
                0 <= k < i && views[k].is_symlink() ==> match (#[trigger] entries@[k]).1 {
                    Some(j) => target(views, k) == Some(j as int),
                    None => target(views, k) is None,
                },
        decreases files.len() - i,
    {
        let link: bool = !files[i].deleted && files[i].symlink_target.is_some();
        assert(link == views[i as int].is_symlink());
        let to: Option<usize> = if link {
            find_target(files, i)
        } else {
            None
        };
        entries.push((link, to));
        i += 1;
    }
    Targets { entries }
}

fn find_roots(t: &Targets, Ghost(files): Ghost<Seq<FileView>>) -> (r: Vec<usize>)
    requires
        targets_of(*t, files),
    ensures
        as_ints(r@) == roots(files),
{
    let ghost p = |i: int| files[i].is_symlink() && target(files, i) is None;
    let mut r: Vec<usize> = Vec::new();
    let mut i: usize = 0;
    assert(as_ints(r@) =~= picked(0, p));
    while i < t.entries.len()
        invariant
            i <= t.entries.len(),
            targets_of(*t, files),
            p == (|i: int| files[i].is_symlink() && target(files, i) is None),
            as_ints(r@) == picked(i as nat, p),
        decreases t.entries.len() - i,
    {
        assert(t.entries@[i as int].0 == files[i as int].is_symlink());
        if t.entries[i].0 && t.entries[i].1.is_none() {
            let ghost before = r@;
            r.push(i);
            assert(as_ints(r@) =~= as_ints(before).push(i as int));
        }
        i += 1;
    }
    r
}

fn push_dependents(
    t: &Targets,
    order: &mut Vec<usize>,
    j: usize,
    Ghost(files): Ghost<Seq<FileView>>,
)
    requires
        targets_of(*t, files),
    ensures
        as_ints(final(order)@) == as_ints(old(order)@) + dependents(files, j as int),
{
    let ghost p = |i: int| files[i].is_symlink() && target(files, i) == Some(j as int);
    let ghost before = as_ints(order@);
    let mut i: usize = 0;
    assert(as_ints(order@) =~= before + picked(0, p));
    while i < t.entries.len()
        invariant
            i <= t.entries.len(),
            targets_of(*t, files),
            p == (|i: int| files[i].is_symlink() && target(files, i) == Some(j as int)),
            as_ints(order@) == before + picked(i as nat, p),
        decreases t.entries.len() - i,
    {
        assert(t.entries@[i as int].0 == files[i as int].is_symlink());
        let points: bool = match t.entries[i].1 {
            Some(k) => t.entries[i].0 && k == j,
            None => false,
        };
        assert(points == p(i as int));
        if points {
            let ghost so_far = order@;
            order.push(i);
            assert(as_ints(order@) =~= as_ints(so_far).push(i as int));
            assert(as_ints(order@) =~= before + picked(i as nat, p).push(i as int));
        }
        i += 1;
    }
}

fn contains_index(v: &Vec<usize>, x: usize) -> (found: bool)
    ensures
        found == as_ints(v@).contains(x as int),
{
    let mut i: usize = 0;
    while i < v.len()
        invariant
            i <= v.len(),
            forall|k: int| 0 <= k < i ==> #[trigger] as_ints(v@)[k] != x as int,
        decreases v.len() - i,
    {
        if v[i] == x {
            assert(as_ints(v@)[i as int] == x as int);
            return true;
        }
        i += 1;
    }
    false
}

/// What holds of the order while it grows: its links are distinct, and each points to none or
/// to one before it whose followers have been added.
spec fn growing(files: Seq<FileView>, order: Seq<int>, next: int) -> bool {
    &&& 0 <= next <= order.len()
    &&& order.no_duplicates()
    &&& forall|a: int|
        0 <= a < order.len() ==> {
            &&& 0 <= #[trigger] order[a] < files.len()
            &&& files[order[a]].is_symlink()
            &&& target(files, order[a]) matches Some(j) ==> exists|k: int|
                0 <= k < next && k < a && #[trigger] order[k] == j
        }
    &&& forall|k: int, x: int|
        0 <= k < next && 0 <= x < files.len() && files[x].is_symlink() && #[trigger] target(
            files,
            x,
        ) == Some(#[trigger] order[k]) ==> order.contains(x)
    &&& forall|x: int|
        0 <= x < files.len() && files[x].is_symlink() && #[trigger] target(files, x) is None
            ==> order.contains(x)
}

proof fn roots_are_growing(files: Seq<FileView>)
    ensures
        growing(files, roots(files), 0),
{
    let p = |i: int| files[i].is_symlink() && target(files, i) is None;
    picked_facts(files.len(), p);
    let order = roots(files);
    assert forall|x: int|
        0 <= x < files.len() && files[x].is_symlink() && #[trigger] target(files, x)
            is None implies order.contains(x) by {
        assert(p(x));
    }
    assert forall|a: int| 0 <= a < order.len() implies {
        &&& 0 <= #[trigger] order[a] < files.len()
        &&& files[order[a]].is_symlink()
        &&& target(files, order[a]) matches Some(j) ==> exists|k: int|
            0 <= k < 0 && k < a && #[trigger] order[k] == j
    } by {
        assert(p(order[a]));
    }
    assert(order.no_duplicates()) by {
        assert forall|a: int, b: int|
            0 <= a < order.len() && 0 <= b < order.len() && a != b implies order[a] != order[b] by {
            if a < b {
                assert(order[a] < order[b]);
            } else {
                assert(order[b] < order[a]);
            }
        }
    }
}

proof fn step_is_growing(files: Seq<FileView>, order: Seq<int>, next: int)
    requires
        growing(files, order, next),
        next < order.len(),
    ensures
        growing(files, order + dependents(files, order[next]), next + 1),
{
    let j = order[next];
    let p = |i: int| files[i].is_symlink() && target(files, i) == Some(j);
    picked_facts(files.len(), p);
    let more = dependents(files, j);
    let all = order + more;
    assert forall|b: int| 0 <= b < more.len() implies !order.contains(#[trigger] more[b]) by {
        assert(p(more[b]));
        if order.contains(more[b]) {
            let a = choose|a: int| 0 <= a < order.len() && order[a] == more[b];
            assert(target(files, order[a]) == Some(j));
            let k = choose|k: int| 0 <= k < next && k < a && #[trigger] order[k] == j;
            assert(order[k] == order[next]);
            assert(false);
        }
    }
    assert(all.no_duplicates()) by {
        assert forall|a: int, b: int|
            0 <= a < all.len() && 0 <= b < all.len() && a != b implies all[a] != all[b] by {
            let n = order.len() as int;
            if a < n && b < n {
                assert(order[a] != order[b]);
            } else if a < n {
                assert(!order.contains(more[b - n]));
                assert(order.contains(order[a]));
            } else if b < n {
                assert(!order.contains(more[a - n]));
                assert(order.contains(order[b]));
            } else if a < b {
                assert(more[a - n] < more[b - n]);
            } else {
                assert(more[b - n] < more[a - n]);
            }
        }
    }
    assert forall|a: int| 0 <= a < all.len() implies {
        &&& 0 <= #[trigger] all[a] < files.len()
        &&& files[all[a]].is_symlink()
        &&& target(files, all[a]) matches Some(j) ==> exists|k: int|
            0 <= k < next + 1 && k < a && #[trigger] all[k] == j
    } by {
        if a < order.len() {
            assert(all[a] == order[a]);
            if let Some(t) = target(files, all[a]) {
                let k = choose|k: int| 0 <= k < next && k < a && #[trigger] order[k] == t;
                assert(all[k] == t);
            }
        } else {
            assert(p(more[a - order.len()]));
            assert(all[next] == j);
        }
    }
    assert forall|k: int, x: int|
        0 <= k < next + 1 && 0 <= x < files.len() && files[x].is_symlink() && #[trigger] target(
            files,
            x,
        ) == Some(#[trigger] all[k]) implies all.contains(x) by {
        if k < next {
            assert(target(files, x) == Some(order[k]));
            assert(order.contains(x));
            let a = choose|a: int| 0 <= a < order.len() && order[a] == x;
            assert(all[a] == x);
        } else {
            assert(p(x));
            assert(more.contains(x));
            let b = choose|b: int| 0 <= b < more.len() && more[b] == x;
            assert(all[order.len() + b] == x);
        }
    }
    assert forall|x: int|
        0 <= x < files.len() && files[x].is_symlink() && #[trigger] target(files, x)
            is None implies all.contains(x) by {
        assert(order.contains(x));
        let a = choose|a: int| 0 <= a < order.len() && order[a] == x;
        assert(all[a] == x);
    }
}

proof fn growing_is_bounded(files: Seq<FileView>, order: Seq<int>, next: int)
    requires
        growing(files, order, next),
    ensures
        order.len() <= files.len(),
{
    order.unique_seq_to_set();
    let all = vstd::set_lib::set_int_range(0, files.len() as int);
    vstd::set_lib::lemma_int_range(0, files.len() as int);
    assert(order.to_set().subset_of(all)) by {
        assert forall|x: int| order.to_set().contains(x) implies all.contains(x) by {
            let a = choose|a: int| 0 <= a < order.len() && order[a] == x;
            assert(0 <= order[a] < files.len());
        }
    }
    vstd::set_lib::lemma_len_subset(order.to_set(), all);
}

/// Order symbolic links so that a link that another points to is created before it.
///
/// Links on a cycle, and those that lead to one, are appended in the order of the manifest.
pub fn symlink_creation_order(files: &Vec<FileEntry>) -> (r: Vec<usize>)
    ensures
        as_ints(r@) == creation_order(file_views(files@)),
{
    let ghost views = file_views(files@);
    let t = find_targets(files);
    let mut order = find_roots(&t, Ghost(views));
    let mut next: usize = 0;
    proof {
        roots_are_growing(views);
    }
    while next < order.len()
        invariant
            next <= order.len(),
            targets_of(t, views),
            growing(views, as_ints(order@), next as int),
            breadth_first(views, as_ints(order@), next as nat) == breadth_first(
                views,
                roots(views),
                0,
            ),
        decreases views.len() - next,
    {
        proof {
            growing_is_bounded(views, as_ints(order@), next as int);
            step_is_growing(views, as_ints(order@), next as int);
        }
        let j: usize = order[next];
        push_dependents(&t, &mut order, j, Ghost(views));
        next += 1;
    }
    let ghost reached = as_ints(order@);
    assert(reached == breadth_first(views, roots(views), 0));
    let ghost p = |i: int| views[i].is_symlink() && !reached.contains(i);
    let mut late: Vec<usize> = Vec::new();
    let mut i: usize = 0;
    assert(as_ints(late@) =~= picked(0, p));
    while i < t.entries.len()
        invariant
            i <= t.entries.len(),
            targets_of(t, views),
            reached == as_ints(order@),
            p == (|i: int| views[i].is_symlink() && !reached.contains(i)),
            as_ints(late@) == picked(i as nat, p),
        decreases t.entries.len() - i,
    {
        assert(t.entries@[i as int].0 == views[i as int].is_symlink());
        if t.entries[i].0 && !contains_index(&order, i) {
            let ghost before = late@;
            late.push(i);
            assert(as_ints(late@) =~= as_ints(before).push(i as int));
        }
        i += 1;
    }
    order.append(&mut late);
    assert(as_ints(order@) =~= creation_order(views));
    order
}

/// The links that are reached by following links back from those that point to none.
pub open spec fn reached(files: Seq<FileView>) -> Seq<int> {
    breadth_first(files, roots(files), 0)
}

proof fn breadth_first_is_grown(files: Seq<FileView>, order: Seq<int>, next: nat)
    requires
        growing(files, order, next as int),
    ensures
        growing(
            files,
            breadth_first(files, order, next),
            breadth_first(files, order, next).len() as int,
        ),
    decreases files.len() - next,
{
    growing_is_bounded(files, order, next as int);
    if next < order.len() {
        step_is_growing(files, order, next as int);
        breadth_first_is_grown(files, order + dependents(files, order[next as int]), next + 1);
    }
}

proof fn reached_is_grown(files: Seq<FileView>)
    ensures
        growing(files, reached(files), reached(files).len() as int),
{
    roots_are_growing(files);
    breadth_first_is_grown(files, roots(files), 0);
}

/// The order holds every link exactly once, and nothing else.
pub proof fn every_link_is_created_once(files: Seq<FileView>)
    ensures
        creation_order(files).no_duplicates(),
        forall|x: int|
            #[trigger] creation_order(files).contains(x) <==> 0 <= x < files.len()
                && files[x].is_symlink(),
{
    reached_is_grown(files);
    let first = reached(files);
    let p = |i: int| files[i].is_symlink() && !first.contains(i);
    picked_facts(files.len(), p);
    let late = left_over(files, first);
    let all = creation_order(files);
    let n = first.len() as int;
    assert forall|x: int| #[trigger] all.contains(x) <==> 0 <= x < files.len()
        && files[x].is_symlink() by {
        if all.contains(x) {
            let a = choose|a: int| 0 <= a < all.len() && all[a] == x;
            if a < n {
                assert(first[a] == x);
            } else {
                assert(p(late[a - n]));
            }
        }
        if 0 <= x < files.len() && files[x].is_symlink() {
            if first.contains(x) {
                let a = choose|a: int| 0 <= a < n && first[a] == x;
                assert(all[a] == x);
            } else {
                assert(p(x));
                assert(late.contains(x));
                let a = choose|a: int| 0 <= a < late.len() && late[a] == x;
                assert(all[n + a] == x);
            }
        }
    }
    assert forall|a: int, b: int|
        0 <= a < all.len() && 0 <= b < all.len() && a != b implies all[a] != all[b] by {
        if a < n && b < n {
            assert(first[a] != first[b]);
        } else if a < n {
            assert(p(late[b - n]));
            assert(first.contains(first[a]));
        } else if b < n {
            assert(p(late[a - n]));
            assert(first.contains(first[b]));
        } else if a < b {
            assert(late[a - n] < late[b - n]);
        } else {
            assert(late[b - n] < late[a - n]);
        }
    }
}

/// Whether following targets from a link ends, within `n` steps, at one that points to no
/// other link.
pub open spec fn chain_ends(files: Seq<FileView>, x: int, n: nat) -> bool
    decreases n,
{
    match target(files, x) {
        None => true,
        Some(j) => n > 0 && chain_ends(files, j, (n - 1) as nat),
    }
}

proof fn reached_chain_ends(files: Seq<FileView>, a: int)
    requires
        0 <= a < reached(files).len(),
    ensures
        exists|n: nat| chain_ends(files, reached(files)[a], n),
    decreases a,
{
    reached_is_grown(files);
    let order = reached(files);
    match target(files, order[a]) {
        None => {
            assert(chain_ends(files, order[a], 0));
        },
        Some(j) => {
            let k = choose|k: int| 0 <= k < order.len() && k < a && #[trigger] order[k] == j;
            reached_chain_ends(files, k);
            let n = choose|n: nat| chain_ends(files, order[k], n);
            assert(chain_ends(files, order[a], n + 1));
        },
    }
}

proof fn ending_chain_is_reached(files: Seq<FileView>, x: int, n: nat)
    requires
        0 <= x < files.len(),
        files[x].is_symlink(),
        chain_ends(files, x, n),
    ensures
        reached(files).contains(x),
    decreases n,
{
    reached_is_grown(files);
    let order = reached(files);
    match target(files, x) {
        None => {},
        Some(j) => {
            target_facts(files, x, files.len());
            ending_chain_is_reached(files, j, (n - 1) as nat);
            let k = choose|k: int| 0 <= k < order.len() && order[k] == j;
            assert(target(files, x) == Some(order[k]));
        },
    }
}

/// The links created first are exactly those whose chain of targets ends. The others, which
/// lie on a cycle or lead to one, are created behind them in the order of the manifest.
pub proof fn cycles_come_last(files: Seq<FileView>, x: int)
    requires
        0 <= x < files.len(),
        files[x].is_symlink(),
    ensures
        reached(files).contains(x) <==> exists|n: nat| chain_ends(files, x, n),
        creation_order(files) == reached(files) + left_over(files, reached(files)),
        forall|a: int, b: int|
            0 <= a < b < left_over(files, reached(files)).len() ==> #[trigger] left_over(
                files,
                reached(files),
            )[a] < #[trigger] left_over(files, reached(files))[b],
{
    let order = reached(files);
    picked_facts(files.len(), |i: int| files[i].is_symlink() && !order.contains(i));
    if order.contains(x) {
        let a = choose|a: int| 0 <= a < order.len() && order[a] == x;
        reached_chain_ends(files, a);
    }
    if exists|n: nat| chain_ends(files, x, n) {
        let n = choose|n: nat| chain_ends(files, x, n);
        ending_chain_is_reached(files, x, n);
    }
}

/// A link that another points to is created before it, unless following targets never ends.
pub proof fn target_is_created_first(files: Seq<FileView>, a: int)
    requires
        0 <= a < creation_order(files).len(),
        exists|n: nat| chain_ends(files, creation_order(files)[a], n),
    ensures
        target(files, creation_order(files)[a]) matches Some(j) ==> exists|k: int|
            0 <= k < a && #[trigger] creation_order(files)[k] == j,
{
    let all = creation_order(files);
    let order = reached(files);
    every_link_is_created_once(files);
    reached_is_grown(files);
    assert(all.contains(all[a]));
    cycles_come_last(files, all[a]);
    let b = choose|b: int| 0 <= b < order.len() && order[b] == all[a];
    assert(all[b] == all[a]);
    assert(a == b);
    if let Some(j) = target(files, all[a]) {
        let k = choose|k: int| 0 <= k < order.len() && k < b && #[trigger] order[k] == j;
        assert(all[k] == j);
    }
}

/// A link points to the last of the links that stand at the path that it names; it points to no
/// link exactly where no link that is not deleted stands there.
pub proof fn link_points_to_the_last_at_its_path(files: Seq<FileView>, i: int, j: int)
    requires
        0 <= i < files.len(),
        !files[i].deleted,
        files[i].symlink_target is Some,
    ensures
        ({
            let path = files[i].symlink_target->0;
            &&& target(files, i) == Some(j) <==> 0 <= j < files.len() && !files[j].deleted
                && files[j].symlink_target is Some && files[j].path == path && forall|k: int|
                j < k < files.len() && !(#[trigger] files[k]).deleted && files[k].symlink_target
                    is Some ==> files[k].path != path
            &&& target(files, i) is None <==> forall|k: int|
                0 <= k < files.len() && !(#[trigger] files[k]).deleted && files[k].symlink_target
                    is Some ==> files[k].path != path
        }),
{
    target_below_is_last(files, i, files.len(), j);
    let path = files[i].symlink_target->0;
    assert forall|k: int|
        points_to(files, i, k) <==> !(#[trigger] files[k]).deleted && files[k].symlink_target is Some
            && files[k].path == path by {}
    if forall|k: int|
        0 <= k < files.len() && !(#[trigger] files[k]).deleted && files[k].symlink_target is Some
            ==> files[k].path != path {
        assert forall|k: int| 0 <= k < files.len() implies !points_to(files, i, k) by {
            assert(files[k] == files[k]);
        }
    }
    if forall|k: int|
        j < k < files.len() && !(#[trigger] files[k]).deleted && files[k].symlink_target is Some
            ==> files[k].path != path {
        assert forall|k: int| j < k < files.len() implies !points_to(files, i, k) by {
            assert(files[k] == files[k]);
        }
    }
}

proof fn target_below_is_last(files: Seq<FileView>, i: int, n: nat, j: int)
    requires
        n <= files.len(),
    ensures
        target_below(files, i, n) == Some(j) <==> 0 <= j < n && points_to(files, i, j) && forall|
            k: int,
        | j < k < n ==> !points_to(files, i, k),
        target_below(files, i, n) is None <==> forall|k: int|
            0 <= k < n ==> !points_to(files, i, k),
    decreases n,
{
    if n > 0 {
        target_below_is_last(files, i, (n - 1) as nat, j);
        if target_below(files, i, n) is None {
            assert forall|k: int| 0 <= k < n implies !points_to(files, i, k) by {
                if k < n - 1 {
                    assert(!points_to(files, i, k));
                }
            }
        }
        if points_to(files, i, n - 1) {
            if 0 <= j < n - 1 {
                assert(points_to(files, i, n - 1));
            }
        } else {
            if target_below(files, i, n) == Some(j) {
                assert forall|k: int| j < k < n implies !points_to(files, i, k) by {
                    if k < n - 1 {
                        assert(!points_to(files, i, k));
                    }
                }
            }
        }
    }
}

/// Whether an order takes links in turn: those that point to no other link come first, in the
/// order of the manifest; of two others the one whose target stands earlier comes first, and of
/// two with one target the one that the manifest has first.
pub open spec fn takes_turns(files: Seq<FileView>, order: Seq<int>) -> bool {
    &&& forall|a: int, b: int|
        0 <= a < b < order.len() && target(files, #[trigger] order[b]) is None ==> target(
            files,
            #[trigger] order[a],
        ) is None && order[a] < order[b]
    &&& forall|a: int, b: int, p: int, q: int|
        0 <= a < b < order.len() && 0 <= p < order.len() && 0 <= q < order.len() && target(
            files,
            #[trigger] order[a],
        ) == Some(#[trigger] order[p]) && target(files, #[trigger] order[b]) == Some(
            #[trigger] order[q],
        ) ==> p < q || (p == q && order[a] < order[b])
}

proof fn roots_take_turns(files: Seq<FileView>)
    ensures
        takes_turns(files, roots(files)),
{
    let p = |i: int| files[i].is_symlink() && target(files, i) is None;
    picked_facts(files.len(), p);
    let order = roots(files);
    assert forall|a: int| 0 <= a < order.len() implies target(files, #[trigger] order[a])
        is None by {
        assert(p(order[a]));
    }
}

proof fn step_takes_turns(files: Seq<FileView>, order: Seq<int>, next: int)
    requires
        growing(files, order, next),
        takes_turns(files, order),
        next < order.len(),
    ensures
        takes_turns(files, order + dependents(files, order[next])),
{
    let j = order[next];
    let p = |i: int| files[i].is_symlink() && target(files, i) == Some(j);
    picked_facts(files.len(), p);
    step_is_growing(files, order, next);
    let more = dependents(files, j);
    let all = order + more;
    let n = order.len() as int;
    assert forall|a: int| n <= a < all.len() implies target(files, #[trigger] all[a]) == Some(
        all[next],
    ) by {
        assert(p(more[a - n]));
    }
    assert forall|a: int, b: int|
        0 <= a < b < all.len() && target(files, #[trigger] all[b]) is None implies target(
        files,
        #[trigger] all[a],
    ) is None && all[a] < all[b] by {
        assert(all[a] == order[a]);
        assert(all[b] == order[b]);
    }
    assert forall|a: int, q: int|
        0 <= a < n && 0 <= q < all.len() && target(files, #[trigger] all[a]) == Some(
            #[trigger] all[q],
        ) implies q < next by {
        assert(all[a] == order[a]);
        let k = choose|k: int| 0 <= k < next && k < a && #[trigger] order[k] == all[q];
        assert(all[k] == all[q]);
        assert(k == q);
    }
    assert forall|a: int, b: int, c: int, q: int|
        0 <= a < b < all.len() && 0 <= c < all.len() && 0 <= q < all.len() && target(
            files,
            #[trigger] all[a],
        ) == Some(#[trigger] all[c]) && target(files, #[trigger] all[b]) == Some(
            #[trigger] all[q],
        ) implies c < q || (c == q && all[a] < all[b]) by {
        if b < n {
            assert(all[a] == order[a]);
            assert(all[b] == order[b]);
            assert(all[c] == order[c]);
            assert(all[q] == order[q]);
        } else {
            assert(all[q] == all[next]);
            assert(q == next);
            if a >= n {
                assert(all[c] == all[next]);
                assert(c == next);
                assert(more[a - n] < more[b - n]);
            }
        }
    }
}

proof fn breadth_first_takes_turns(files: Seq<FileView>, order: Seq<int>, next: nat)
    requires
        growing(files, order, next as int),
        takes_turns(files, order),
    ensures
        takes_turns(files, breadth_first(files, order, next)),
    decreases files.len() - next,
{
    growing_is_bounded(files, order, next as int);
    if next < order.len() && next < files.len() {
        step_is_growing(files, order, next as int);
        step_takes_turns(files, order, next as int);
        breadth_first_takes_turns(files, order + dependents(files, order[next as int]), next + 1);
    }
}

/// The links whose chain of targets ends are created in turn: those that point to no other link
/// first, in the order of the manifest, then those that point to the first of them, and so on.
pub proof fn links_are_created_in_turn(files: Seq<FileView>)
    ensures
        takes_turns(files, reached(files)),
        creation_order(files).take(reached(files).len() as int) == reached(files),
{
    roots_are_growing(files);
    roots_take_turns(files);
    breadth_first_takes_turns(files, roots(files), 0);
    assert(creation_order(files).take(reached(files).len() as int) =~= reached(files));
}

} // verus!
