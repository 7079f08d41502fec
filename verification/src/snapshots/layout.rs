//! Where things go on disk: the order of directories and files, and the names of files.

use vstd::prelude::*;

use crate::snapshots::manifest::{file_views, DirEntry, FileEntry, FileView};
use crate::text::{
    contains_text, first_occurrences, first_occurrences_facts, in_order,
    later_occurrences_stay_in_order, sort_texts, sorted_texts, sorted_texts_facts, str_eq, text_le,
    text_le_antisymmetric, text_le_prefix, texts,
};

verus! {

/// The paths of directories that are, or are not, deleted, in order.
pub open spec fn dir_paths(dirs: Seq<DirEntry>, deleted: bool) -> Seq<Seq<char>>
    decreases dirs.len(),
{
    if dirs.len() == 0 {
        Seq::empty()
    } else {
        let before = dir_paths(dirs.drop_last(), deleted);
        if dirs.last().deleted == deleted {
            before.push(dirs.last().path@)
        } else {
            before
        }
    }
}

fn find_dir_paths(dirs: &Vec<DirEntry>, deleted: bool) -> (r: Vec<String>)
    ensures
        texts(r@) == dir_paths(dirs@, deleted),
{
    let mut r: Vec<String> = Vec::new();
    let mut i: usize = 0;
    assert(dirs@.take(0) =~= Seq::empty());
    assert(texts(r@) =~= Seq::empty());
    while i < dirs.len()
        invariant
            i <= dirs.len(),
            texts(r@) == dir_paths(dirs@.take(i as int), deleted),
        decreases dirs.len() - i,
    {
        assert(dirs@.take(i + 1).drop_last() =~= dirs@.take(i as int));
        if dirs[i].deleted == deleted {
            let ghost before = r@;
            r.push(dirs[i].path.clone());
            assert(texts(r@) =~= texts(before).push(dirs@[i as int].path@));
        }
        i += 1;
    }
    assert(dirs@.take(dirs@.len() as int) =~= dirs@);
    r
}

/// What is to be removed from disk, in order.
#[derive(Debug)]
pub struct DeletePlan {
    pub files: Vec<String>,
    pub dirs: Vec<String>,
}

/// The paths of deleted files, in order.
pub open spec fn deleted_files(files: Seq<FileView>) -> Seq<Seq<char>>
    decreases files.len(),
{
    if files.len() == 0 {
        Seq::empty()
    } else {
        let before = deleted_files(files.drop_last());
        if files.last().deleted {
            before.push(files.last().path)
        } else {
            before
        }
    }
}

/// Plan what is removed from disk: deleted files, then deleted directories, the deepest first.
pub fn delete_plan(files: &Vec<FileEntry>, dirs: &Vec<DirEntry>) -> (r: DeletePlan)
    ensures
        texts(r.files@) == deleted_files(file_views(files@)),
        texts(r.dirs@) == sorted_texts(dir_paths(dirs@, true)).reverse(),
{
    let ghost views = file_views(files@);
    let mut gone: Vec<String> = Vec::new();
    let mut i: usize = 0;
    assert(views.take(0) =~= Seq::empty());
    assert(texts(gone@) =~= Seq::empty());
    while i < files.len()
        invariant
            i <= files.len(),
            views == file_views(files@),
            texts(gone@) == deleted_files(views.take(i as int)),
        decreases files.len() - i,
    {
        assert(views.take(i + 1).drop_last() =~= views.take(i as int));
        if files[i].deleted {
            let ghost before = gone@;
            gone.push(files[i].path.clone());
            assert(texts(gone@) =~= texts(before).push(files@[i as int].path@));
        }
        i += 1;
    }
    assert(views.take(views.len() as int) =~= views);
    let found = find_dir_paths(dirs, true);
    let sorted = sort_texts(&found);
    let ghost up = texts(sorted@);
    let mut down: Vec<String> = Vec::new();
    let mut n: usize = sorted.len();
    while n > 0
        invariant
            n <= sorted.len(),
            up == texts(sorted@),
            down.len() + n == up.len(),
            forall|k: int|
                0 <= k < down.len() ==> (#[trigger] texts(down@)[k]) == up[up.len() - 1 - k],
        decreases n,
    {
        n -= 1;
        let ghost before = down@;
        down.push(sorted[n].clone());
        assert(texts(down@) =~= texts(before).push(up[n as int]));
    }
    assert(texts(down@) =~= up.reverse());
    DeletePlan { files: gone, dirs: down }
}

/// No directory is removed before a directory whose path goes on from its own.
pub proof fn deepest_directories_go_first(dirs: Seq<DirEntry>, i: int, j: int, more: Seq<char>)
    requires
        0 <= i < j < sorted_texts(dir_paths(dirs, true)).len(),
        sorted_texts(dir_paths(dirs, true)).reverse()[j] == sorted_texts(
            dir_paths(dirs, true),
        ).reverse()[i] + more,
    ensures
        more.len() == 0,
{
    let up = sorted_texts(dir_paths(dirs, true));
    let down = up.reverse();
    sorted_texts_facts(dir_paths(dirs, true));
    let n = up.len();
    assert(down[i] == up[n - 1 - i]);
    assert(down[j] == up[n - 1 - j]);
    assert(text_le(up[n - 1 - j], up[n - 1 - i]));
    text_le_prefix(down[i], more);
    text_le_antisymmetric(down[j], down[i]);
    assert(down[j].len() == down[i].len() + more.len());
}

/// One step of getting ready to download.
#[derive(Debug)]
pub enum DownloadStep {
    /// Make sure that a directory exists.
    CreateDir(String),
    /// Decide about the file at a place in the manifest.
    Evaluate(usize),
}

/// What a contract reads of a step.
pub enum StepView {
    CreateDir(Seq<char>),
    Evaluate(int),
}

impl View for DownloadStep {
    type V = StepView;

    open spec fn view(&self) -> StepView {
        match self {
            DownloadStep::CreateDir(d) => StepView::CreateDir(d@),
            DownloadStep::Evaluate(i) => StepView::Evaluate(*i as int),
        }
    }
}

/// The views of steps.
pub open spec fn step_views(v: Seq<DownloadStep>) -> Seq<StepView> {
    Seq::new(v.len(), |i: int| v[i]@)
}

/// The parents of regular files, in order.
pub open spec fn regular_parents(
    files: Seq<FileView>,
    parents: Seq<Seq<char>>,
    n: nat,
) -> Seq<Seq<char>>
    decreases n,
{
    if n == 0 {
        Seq::empty()
    } else {
        let before = regular_parents(files, parents, (n - 1) as nat);
        if files[n - 1].is_regular() {
            before.push(parents[n - 1])
        } else {
            before
        }
    }
}

/// The directories in the order in which they are dealt with: those of the manifest in
/// alphabetical order, so that parents come before children, then the other parents of files
/// in the same order.
pub open spec fn visits(
    files: Seq<FileView>,
    dirs: Seq<DirEntry>,
    parents: Seq<Seq<char>>,
) -> Seq<Seq<char>> {
    first_occurrences(
        sorted_texts(dir_paths(dirs, false)) + sorted_texts(
            regular_parents(files, parents, files.len()),
        ),
    )
}

/// The regular files in a directory among the first `n`, in order.
pub open spec fn files_in(
    files: Seq<FileView>,
    parents: Seq<Seq<char>>,
    dir: Seq<char>,
    n: nat,
) -> Seq<StepView>
    decreases n,
{
    if n == 0 {
        Seq::empty()
    } else {
        let before = files_in(files, parents, dir, (n - 1) as nat);
        if files[n - 1].is_regular() && parents[n - 1] == dir {
            before.push(StepView::Evaluate(n - 1))
        } else {
            before
        }
    }
}

/// The steps for one directory: it is created, unless it is the one without a name, and its
/// files are decided about.
pub open spec fn steps_in(
    files: Seq<FileView>,
    parents: Seq<Seq<char>>,
    dir: Seq<char>,
) -> Seq<StepView> {
    if dir.len() > 0 {
        seq![StepView::CreateDir(dir)] + files_in(files, parents, dir, files.len())
    } else {
        files_in(files, parents, dir, files.len())
    }
}

/// The steps for several directories.
pub open spec fn steps_through(
    files: Seq<FileView>,
    parents: Seq<Seq<char>>,
    dirs: Seq<Seq<char>>,
) -> Seq<StepView>
    decreases dirs.len(),
{
    if dirs.len() == 0 {
        Seq::empty()
    } else {
        steps_through(files, parents, dirs.drop_last()) + steps_in(files, parents, dirs.last())
    }
}

fn find_regular_parents(files: &Vec<FileEntry>, parents: &Vec<String>) -> (r: Vec<String>)
    requires
        parents@.len() == files@.len(),
    ensures
        texts(r@) == regular_parents(file_views(files@), texts(parents@), files@.len()),
{
    let ghost views = file_views(files@);
    let mut r: Vec<String> = Vec::new();
    let mut i: usize = 0;
    assert(texts(r@) =~= Seq::empty());
    while i < files.len()
        invariant
            i <= files.len(),
            parents@.len() == files@.len(),
            views == file_views(files@),
            texts(r@) == regular_parents(views, texts(parents@), i as nat),
        decreases files.len() - i,
    {
        if files[i].is_regular() {
            let ghost before = r@;
            r.push(parents[i].clone());
            assert(texts(r@) =~= texts(before).push(parents@[i as int]@));
        }
        i += 1;
    }
    r
}

fn push_first_occurrences(
    out: &mut Vec<String>,
    more: &Vec<String>,
    Ghost(before): Ghost<Seq<Seq<char>>>,
)
    requires
        texts(old(out)@) == first_occurrences(before),
    ensures
        texts(final(out)@) == first_occurrences(before + texts(more@)),
{
    let ghost all = texts(more@);
    let mut i: usize = 0;
    assert(before + all.take(0) =~= before);
    while i < more.len()
        invariant
            i <= more.len(),
            all == texts(more@),
            texts(out@) == first_occurrences(before + all.take(i as int)),
        decreases more.len() - i,
    {
        let ghost now = before + all.take(i as int);
        let ghost next = before + all.take(i + 1);
        assert(next.drop_last() =~= now);
        assert(next.last() == all[i as int]);
        if !contains_text(out, more[i].as_str()) {
            let ghost so_far = out@;
            out.push(more[i].clone());
            assert(texts(out@) =~= texts(so_far).push(all[i as int]));
        }
        i += 1;
    }
    assert(all.take(all.len() as int) =~= all);
}

fn push_steps(
    out: &mut Vec<DownloadStep>,
    files: &Vec<FileEntry>,
    parents: &Vec<String>,
    dir: &String,
)
    requires
        parents@.len() == files@.len(),
    ensures
        step_views(final(out)@) == step_views(old(out)@) + steps_in(
            file_views(files@),
            texts(parents@),
            dir@,
        ),
{
    let ghost views = file_views(files@);
    let ghost start = step_views(out@);
    if !dir.as_str().is_empty() {
        out.push(DownloadStep::CreateDir(dir.clone()));
        assert(step_views(out@) =~= start + seq![StepView::CreateDir(dir@)]);
    }
    let ghost head = step_views(out@);
    let mut i: usize = 0;
    assert(step_views(out@) =~= head + files_in(views, texts(parents@), dir@, 0));
    while i < files.len()
        invariant
            i <= files.len(),
            parents@.len() == files@.len(),
            views == file_views(files@),
            step_views(out@) == head + files_in(views, texts(parents@), dir@, i as nat),
        decreases files.len() - i,
    {
        let ghost so_far = files_in(views, texts(parents@), dir@, i as nat);
        if files[i].is_regular() && str_eq(parents[i].as_str(), dir.as_str()) {
            let ghost before = out@;
            out.push(DownloadStep::Evaluate(i));
            assert(step_views(out@) =~= step_views(before).push(StepView::Evaluate(i as int)));
            assert(step_views(out@) =~= head + so_far.push(StepView::Evaluate(i as int)));
        }
        i += 1;
    }
    assert(step_views(out@) =~= start + steps_in(views, texts(parents@), dir@));
}

/// Plan the creation of directories and the decisions about files, the files of a directory
/// behind its creation. `parents` has the parent directory of every file.
pub fn build_download_work_list(
    files: &Vec<FileEntry>,
    dirs: &Vec<DirEntry>,
    parents: &Vec<String>,
) -> (r: Vec<DownloadStep>)
    requires
        parents@.len() == files@.len(),
    ensures
        step_views(r@) == steps_through(
            file_views(files@),
            texts(parents@),
            visits(file_views(files@), dirs@, texts(parents@)),
        ),
{
    let ghost views = file_views(files@);
    let live = find_dir_paths(dirs, false);
    let sorted_dirs = sort_texts(&live);
    let found = find_regular_parents(files, parents);
    let sorted_parents = sort_texts(&found);
    let mut order: Vec<String> = Vec::new();
    assert(texts(order@) =~= first_occurrences(Seq::empty()));
    push_first_occurrences(&mut order, &sorted_dirs, Ghost(Seq::empty()));
    assert(Seq::<Seq<char>>::empty() + texts(sorted_dirs@) =~= texts(sorted_dirs@));
    push_first_occurrences(&mut order, &sorted_parents, Ghost(texts(sorted_dirs@)));
    let ghost all = texts(order@);
    let mut out: Vec<DownloadStep> = Vec::new();
    let mut i: usize = 0;
    assert(all.take(0) =~= Seq::empty());
    assert(step_views(out@) =~= Seq::empty());
    while i < order.len()
        invariant
            i <= order.len(),
            parents@.len() == files@.len(),
            views == file_views(files@),
            all == texts(order@),
            step_views(out@) == steps_through(views, texts(parents@), all.take(i as int)),
        decreases order.len() - i,
    {
        assert(all.take(i + 1).drop_last() =~= all.take(i as int));
        push_steps(&mut out, files, parents, &order[i]);
        i += 1;
    }
    assert(all.take(all.len() as int) =~= all);
    out
}

proof fn files_in_facts(
    files: Seq<FileView>,
    parents: Seq<Seq<char>>,
    dir: Seq<char>,
    n: nat,
)
    ensures
        forall|x: StepView|
            #[trigger] files_in(files, parents, dir, n).contains(x) <==> (x matches StepView::Evaluate(
                i,
            ) && 0 <= i < n && files[i].is_regular() && parents[i] == dir),
        files_in(files, parents, dir, n).no_duplicates(),
    decreases n,
{
    let s = files_in(files, parents, dir, n);
    if n > 0 {
        let m = (n - 1) as nat;
        files_in_facts(files, parents, dir, m);
        let before = files_in(files, parents, dir, m);
        let last = StepView::Evaluate(n - 1);
        if files[n - 1].is_regular() && parents[n - 1] == dir {
            assert(!before.contains(last));
            assert forall|x: StepView| #[trigger] s.contains(x) <==> before.contains(x) || x
                == last by {
                if before.contains(x) {
                    let k = choose|k: int| 0 <= k < before.len() && before[k] == x;
                    assert(s[k] == x);
                }
                assert(s[before.len() as int] == last);
                if s.contains(x) && x != last {
                    let k = choose|k: int| 0 <= k < s.len() && s[k] == x;
                    assert(before[k] == x);
                }
            }
            assert forall|a: int, b: int|
                0 <= a < s.len() && 0 <= b < s.len() && a != b implies s[a] != s[b] by {
                if a < before.len() && b < before.len() {
                    assert(before[a] != before[b]);
                } else if a < before.len() {
                    assert(before.contains(before[a]));
                } else {
                    assert(before.contains(before[b]));
                }
            }
        }
    }
}

proof fn steps_in_facts(files: Seq<FileView>, parents: Seq<Seq<char>>, dir: Seq<char>)
    ensures
        forall|x: StepView|
            #[trigger] steps_in(files, parents, dir).contains(x) <==> match x {
                StepView::CreateDir(d) => d == dir && dir.len() > 0,
                StepView::Evaluate(i) => 0 <= i < files.len() && files[i].is_regular()
                    && parents[i] == dir,
            },
        steps_in(files, parents, dir).no_duplicates(),
        dir.len() > 0 ==> steps_in(files, parents, dir).len() > 0 && steps_in(
            files,
            parents,
            dir,
        )[0] == StepView::CreateDir(dir),
{
    files_in_facts(files, parents, dir, files.len());
    let rest = files_in(files, parents, dir, files.len());
    let all = steps_in(files, parents, dir);
    if dir.len() > 0 {
        let head = StepView::CreateDir(dir);
        assert(all[0] == head);
        assert forall|x: StepView| #[trigger] all.contains(x) <==> x == head || rest.contains(
            x,
        ) by {
            if rest.contains(x) {
                let k = choose|k: int| 0 <= k < rest.len() && rest[k] == x;
                assert(all[k + 1] == x);
            }
            if all.contains(x) && x != head {
                let k = choose|k: int| 0 <= k < all.len() && all[k] == x;
                assert(rest[k - 1] == x);
            }
        }
        assert forall|a: int, b: int|
            0 <= a < all.len() && 0 <= b < all.len() && a != b implies all[a] != all[b] by {
            if a > 0 && b > 0 {
                assert(rest[a - 1] != rest[b - 1]);
            } else if a > 0 {
                assert(rest.contains(rest[a - 1]));
            } else {
                assert(rest.contains(rest[b - 1]));
            }
        }
    }
}

/// Whether the directory of the file that step `b` decides about was created before.
pub open spec fn parent_is_created(
    steps: Seq<StepView>,
    parents: Seq<Seq<char>>,
    b: int,
) -> bool {
    steps[b] matches StepView::Evaluate(i) ==> parents[i].len() > 0 ==> exists|a: int|
        0 <= a < b && #[trigger] steps[a] == StepView::CreateDir(parents[i])
}

proof fn steps_through_facts(
    files: Seq<FileView>,
    parents: Seq<Seq<char>>,
    dirs: Seq<Seq<char>>,
)
    requires
        dirs.no_duplicates(),
    ensures
        ({
            let s = steps_through(files, parents, dirs);
            &&& forall|x: StepView|
                #[trigger] s.contains(x) <==> match x {
                    StepView::CreateDir(d) => d.len() > 0 && dirs.contains(d),
                    StepView::Evaluate(i) => 0 <= i < files.len() && files[i].is_regular()
                        && dirs.contains(parents[i]),
                }
            &&& s.no_duplicates()
            &&& forall|b: int| 0 <= b < s.len() ==> #[trigger] parent_is_created(s, parents, b)
        }),
    decreases dirs.len(),
{
    if dirs.len() > 0 {
        let front = dirs.drop_last();
        let dir = dirs.last();
        let before = steps_through(files, parents, front);
        let more = steps_in(files, parents, dir);
        let all = steps_through(files, parents, dirs);
        let n = before.len() as int;
        assert(front.no_duplicates());
        steps_through_facts(files, parents, front);
        steps_in_facts(files, parents, dir);
        assert(!front.contains(dir)) by {
            if front.contains(dir) {
                let k = choose|k: int| 0 <= k < front.len() && front[k] == dir;
                assert(dirs[k] == dirs[dirs.len() - 1]);
            }
        }
        assert forall|d: Seq<char>| #[trigger] dirs.contains(d) <==> front.contains(d) || d
            == dir by {
            if front.contains(d) {
                let k = choose|k: int| 0 <= k < front.len() && front[k] == d;
                assert(dirs[k] == d);
            }
            assert(dirs[dirs.len() - 1] == dir);
            if dirs.contains(d) && d != dir {
                let k = choose|k: int| 0 <= k < dirs.len() && dirs[k] == d;
                assert(front[k] == d);
            }
        }
        assert forall|x: StepView| #[trigger] all.contains(x) <==> before.contains(x)
            || more.contains(x) by {
            if before.contains(x) {
                let k = choose|k: int| 0 <= k < before.len() && before[k] == x;
                assert(all[k] == x);
            }
            if more.contains(x) {
                let k = choose|k: int| 0 <= k < more.len() && more[k] == x;
                assert(all[n + k] == x);
            }
            if all.contains(x) {
                let k = choose|k: int| 0 <= k < all.len() && all[k] == x;
                if k < n {
                    assert(before[k] == x);
                } else {
                    assert(more[k - n] == x);
                }
            }
        }
        assert forall|a: int, b: int|
            0 <= a < all.len() && 0 <= b < all.len() && a != b implies all[a] != all[b] by {
            if a < n && b < n {
                assert(before[a] != before[b]);
            } else if a >= n && b >= n {
                assert(more[a - n] != more[b - n]);
            } else if a < n {
                assert(before.contains(before[a]));
                assert(more.contains(more[b - n]));
            } else {
                assert(before.contains(before[b]));
                assert(more.contains(more[a - n]));
            }
        }
        assert forall|b: int| 0 <= b < all.len() implies #[trigger] parent_is_created(
            all,
            parents,
            b,
        ) by {
            if b < n {
                assert(parent_is_created(before, parents, b));
                assert(all[b] == before[b]);
                if let StepView::Evaluate(i) = all[b] {
                    if parents[i].len() > 0 {
                        let a = choose|a: int|
                            0 <= a < b && #[trigger] before[a] == StepView::CreateDir(parents[i]);
                        assert(all[a] == StepView::CreateDir(parents[i]));
                    }
                }
            } else {
                assert(more.contains(more[b - n]));
                assert(all[b] == more[b - n]);
                if let StepView::Evaluate(i) = all[b] {
                    if parents[i].len() > 0 {
                        assert(all[n] == StepView::CreateDir(parents[i]));
                        assert(b != n);
                    }
                }
            }
        }
    }
}

proof fn regular_parents_contain(
    files: Seq<FileView>,
    parents: Seq<Seq<char>>,
    n: nat,
    i: int,
)
    requires
        0 <= i < n,
        files[i].is_regular(),
    ensures
        regular_parents(files, parents, n).contains(parents[i]),
    decreases n,
{
    let s = regular_parents(files, parents, n);
    let before = regular_parents(files, parents, (n - 1) as nat);
    if i < n - 1 {
        regular_parents_contain(files, parents, (n - 1) as nat, i);
        let k = choose|k: int| 0 <= k < before.len() && before[k] == parents[i];
        assert(s[k] == parents[i]);
    } else {
        assert(s[before.len() as int] == parents[i]);
    }
}

proof fn live_dirs_contain(dirs: Seq<DirEntry>, i: int)
    requires
        0 <= i < dirs.len(),
        !dirs[i].deleted,
    ensures
        dir_paths(dirs, false).contains(dirs[i].path@),
    decreases dirs.len(),
{
    let s = dir_paths(dirs, false);
    let before = dir_paths(dirs.drop_last(), false);
    if i < dirs.len() - 1 {
        live_dirs_contain(dirs.drop_last(), i);
        let k = choose|k: int| 0 <= k < before.len() && before[k] == dirs[i].path@;
        assert(s[k] == dirs[i].path@);
    } else {
        assert(s[before.len() as int] == dirs[i].path@);
    }
}

/// Every regular file is decided about exactly once, and nothing else is; no directory is
/// created twice; the directory of a file, if it has a name, is created before the file is
/// decided about; and every directory of the manifest that is not deleted is created.
pub proof fn every_file_is_decided_once(
    files: Seq<FileView>,
    dirs: Seq<DirEntry>,
    parents: Seq<Seq<char>>,
)
    requires
        parents.len() == files.len(),
    ensures
        ({
            let s = steps_through(files, parents, visits(files, dirs, parents));
            &&& s.no_duplicates()
            &&& forall|i: int|
                #[trigger] s.contains(StepView::Evaluate(i)) <==> 0 <= i < files.len()
                    && files[i].is_regular()
            &&& forall|b: int| 0 <= b < s.len() ==> #[trigger] parent_is_created(s, parents, b)
            &&& forall|i: int|
                0 <= i < dirs.len() && !(#[trigger] dirs[i]).deleted && dirs[i].path@.len() > 0
                    ==> s.contains(StepView::CreateDir(dirs[i].path@))
        }),
{
    let live = dir_paths(dirs, false);
    let theirs = regular_parents(files, parents, files.len());
    let both = sorted_texts(live) + sorted_texts(theirs);
    let order = visits(files, dirs, parents);
    first_occurrences_facts(both);
    sorted_texts_facts(live);
    sorted_texts_facts(theirs);
    steps_through_facts(files, parents, order);
    let s = steps_through(files, parents, order);
    assert forall|i: int| #[trigger] s.contains(StepView::Evaluate(i)) <==> 0 <= i < files.len()
        && files[i].is_regular() by {
        if 0 <= i < files.len() && files[i].is_regular() {
            regular_parents_contain(files, parents, files.len(), i);
            assert(sorted_texts(theirs).contains(parents[i]));
            let k = choose|k: int|
                0 <= k < sorted_texts(theirs).len() && sorted_texts(theirs)[k] == parents[i];
            assert(both[sorted_texts(live).len() + k] == parents[i]);
            assert(both.contains(parents[i]));
        }
    }
    assert forall|i: int|
        0 <= i < dirs.len() && !(#[trigger] dirs[i]).deleted && dirs[i].path@.len()
            > 0 implies s.contains(StepView::CreateDir(dirs[i].path@)) by {
        live_dirs_contain(dirs, i);
        assert(sorted_texts(live).contains(dirs[i].path@));
        let k = choose|k: int|
            0 <= k < sorted_texts(live).len() && sorted_texts(live)[k] == dirs[i].path@;
        assert(both[k] == dirs[i].path@);
        assert(both.contains(dirs[i].path@));
    }
}

/// Directories are gone through in order, and of each what is asked for: those that are deleted,
/// or those that are not.
pub proof fn directories_are_listed_in_order(a: Seq<DirEntry>, b: Seq<DirEntry>, d: DirEntry)
    ensures
        forall|deleted: bool| #[trigger]
            dir_paths(a + b, deleted) == dir_paths(a, deleted) + dir_paths(b, deleted),
        dir_paths(seq![d], d.deleted) == seq![d.path@],
        dir_paths(seq![d], !d.deleted).len() == 0,
    decreases b.len(),
{
    assert(seq![d].drop_last() =~= Seq::<DirEntry>::empty());
    assert(dir_paths(seq![d].drop_last(), d.deleted) =~= Seq::<Seq<char>>::empty());
    assert(dir_paths(seq![d].drop_last(), !d.deleted) =~= Seq::<Seq<char>>::empty());
    assert(dir_paths(seq![d], d.deleted) =~= seq![d.path@]);
    if b.len() > 0 {
        directories_are_listed_in_order(a, b.drop_last(), d);
    }
    assert forall|deleted: bool| #[trigger]
        dir_paths(a + b, deleted) == dir_paths(a, deleted) + dir_paths(b, deleted) by {
        if b.len() == 0 {
            assert(a + b =~= a);
        } else {
            assert((a + b).drop_last() =~= a + b.drop_last());
            assert(dir_paths(a + b.drop_last(), deleted) == dir_paths(a, deleted) + dir_paths(
                b.drop_last(),
                deleted,
            ));
        }
        assert(dir_paths(a + b, deleted) =~= dir_paths(a, deleted) + dir_paths(b, deleted));
    }
}

/// Files are gone through in order, and of each its path is removed exactly where it is deleted.
pub proof fn deleted_files_are_listed_in_order(a: Seq<FileView>, b: Seq<FileView>, f: FileView)
    ensures
        deleted_files(a + b) == deleted_files(a) + deleted_files(b),
        f.deleted ==> deleted_files(seq![f]) == seq![f.path],
        !f.deleted ==> deleted_files(seq![f]).len() == 0,
    decreases b.len(),
{
    assert(seq![f].drop_last() =~= Seq::<FileView>::empty());
    assert(deleted_files(seq![f].drop_last()) =~= Seq::<Seq<char>>::empty());
    if f.deleted {
        assert(deleted_files(seq![f]) =~= seq![f.path]);
    }
    if b.len() == 0 {
        assert(a + b =~= a);
    } else {
        assert((a + b).drop_last() =~= a + b.drop_last());
        deleted_files_are_listed_in_order(a, b.drop_last(), f);
    }
    assert(deleted_files(a + b) =~= deleted_files(a) + deleted_files(b));
}

/// Every path that is listed of directories is that of one that is, or is not, deleted, as it
/// was asked for.
proof fn listed_dir_is_there(dirs: Seq<DirEntry>, deleted: bool, k: int)
    requires
        0 <= k < dir_paths(dirs, deleted).len(),
    ensures
        exists|i: int|
            0 <= i < dirs.len() && (#[trigger] dirs[i]).deleted == deleted && dirs[i].path@
                == dir_paths(dirs, deleted)[k],
    decreases dirs.len(),
{
    let n = dirs.len() - 1;
    let before = dir_paths(dirs.drop_last(), deleted);
    if k < before.len() {
        listed_dir_is_there(dirs.drop_last(), deleted, k);
        let i = choose|i: int|
            0 <= i < n && (#[trigger] dirs.drop_last()[i]).deleted == deleted
                && dirs.drop_last()[i].path@ == before[k];
        assert(dirs[i] == dirs.drop_last()[i]);
    } else {
        assert(dirs[n].path@ == dir_paths(dirs, deleted)[k]);
    }
}

proof fn listed_parent_is_there(files: Seq<FileView>, parents: Seq<Seq<char>>, n: nat, k: int)
    requires
        0 <= k < regular_parents(files, parents, n).len(),
    ensures
        exists|i: int|
            0 <= i < n && files[i].is_regular() && #[trigger] parents[i] == regular_parents(
                files,
                parents,
                n,
            )[k],
    decreases n,
{
    let before = regular_parents(files, parents, (n - 1) as nat);
    if k < before.len() {
        listed_parent_is_there(files, parents, (n - 1) as nat, k);
    } else {
        assert(parents[n - 1] == regular_parents(files, parents, n)[k]);
    }
}

/// A directory is dealt with exactly where the manifest has it and not as deleted, or it is the
/// parent of a file with contents; and no directory is dealt with twice.
pub proof fn directories_that_are_needed_are_visited(
    files: Seq<FileView>,
    dirs: Seq<DirEntry>,
    parents: Seq<Seq<char>>,
    d: Seq<char>,
)
    requires
        parents.len() == files.len(),
    ensures
        visits(files, dirs, parents).no_duplicates(),
        visits(files, dirs, parents).contains(d) <==> (exists|i: int|
            0 <= i < dirs.len() && !(#[trigger] dirs[i]).deleted && dirs[i].path@ == d) || (exists|
            i: int,
        |
            0 <= i < files.len() && !(#[trigger] files[i]).deleted && files[i].symlink_target
                is None && parents[i] == d),
{
    let live = dir_paths(dirs, false);
    let theirs = regular_parents(files, parents, files.len());
    let x = sorted_texts(live);
    let y = sorted_texts(theirs);
    sorted_texts_facts(live);
    sorted_texts_facts(theirs);
    first_occurrences_facts(x + y);
    if visits(files, dirs, parents).contains(d) {
        let k = choose|k: int| 0 <= k < (x + y).len() && (x + y)[k] == d;
        if k < x.len() {
            assert(x.contains(x[k]));
            let j = choose|j: int| 0 <= j < live.len() && live[j] == d;
            listed_dir_is_there(dirs, false, j);
        } else {
            assert(y[k - x.len()] == d);
            assert(y.contains(y[k - x.len()]));
            let j = choose|j: int| 0 <= j < theirs.len() && theirs[j] == d;
            listed_parent_is_there(files, parents, files.len(), j);
            let i = choose|i: int|
                0 <= i < files.len() && files[i].is_regular() && #[trigger] parents[i] == theirs[j];
            assert(!files[i].deleted);
        }
    }
    if exists|i: int| 0 <= i < dirs.len() && !(#[trigger] dirs[i]).deleted && dirs[i].path@ == d {
        let i = choose|i: int|
            0 <= i < dirs.len() && !(#[trigger] dirs[i]).deleted && dirs[i].path@ == d;
        live_dirs_contain(dirs, i);
        assert(x.contains(d));
        let k = choose|k: int| 0 <= k < x.len() && x[k] == d;
        assert((x + y)[k] == d);
    }
    if exists|i: int|
        0 <= i < files.len() && !(#[trigger] files[i]).deleted && files[i].symlink_target is None
            && parents[i] == d {
        let i = choose|i: int|
            0 <= i < files.len() && !(#[trigger] files[i]).deleted && files[i].symlink_target
                is None && parents[i] == d;
        regular_parents_contain(files, parents, files.len(), i);
        assert(y.contains(d));
        let k = choose|k: int| 0 <= k < y.len() && y[k] == d;
        assert((x + y)[x.len() + k] == d);
    }
}

/// The directories of the manifest are dealt with before other parents of files, and both are
/// dealt with in alphabetical order, so that a directory comes before those in it.
pub proof fn directories_are_visited_in_order(
    files: Seq<FileView>,
    dirs: Seq<DirEntry>,
    parents: Seq<Seq<char>>,
)
    ensures
        exists|n: int|
            #[trigger] visited_in_order(visits(files, dirs, parents), dir_paths(dirs, false), n),
{
    let live = sorted_texts(dir_paths(dirs, false));
    let theirs = sorted_texts(regular_parents(files, parents, files.len()));
    sorted_texts_facts(dir_paths(dirs, false));
    sorted_texts_facts(regular_parents(files, parents, files.len()));
    let none = Seq::<Seq<char>>::empty();
    let head = first_occurrences(live);
    let all = visits(files, dirs, parents);
    later_occurrences_stay_in_order(none, live);
    later_occurrences_stay_in_order(live, theirs);
    first_occurrences_facts(live);
    assert(none + live =~= live);
    assert(first_occurrences(none) =~= none);
    assert(head.skip(0) =~= head);
    assert(all.take(head.len() as int) =~= head);
    assert forall|i: int| 0 <= i < all.len() implies (#[trigger] dir_paths(dirs, false).contains(
        all[i],
    ) <==> i < head.len()) by {
        if i < head.len() {
            assert(all.take(head.len() as int)[i] == all[i]);
            assert(head.contains(head[i]));
            assert(live.contains(all[i]));
        } else {
            assert(all.skip(head.len() as int)[i - head.len()] == all[i]);
        }
    }
    assert(visited_in_order(all, dir_paths(dirs, false), head.len() as int));
}

/// Whether the first `n` of some directories are those of a list and the others are not, and
/// both are in alphabetical order.
pub open spec fn visited_in_order(
    order: Seq<Seq<char>>,
    listed: Seq<Seq<char>>,
    n: int,
) -> bool {
    &&& 0 <= n <= order.len()
    &&& forall|i: int|
        0 <= i < order.len() ==> (#[trigger] listed.contains(order[i]) <==> i < n)
    &&& in_order(order.take(n))
    &&& in_order(order.skip(n))
}

/// The steps for several directories come one behind the other; those for a single one are
/// those for it, and there are none for none.
pub proof fn steps_come_directory_by_directory(
    files: Seq<FileView>,
    parents: Seq<Seq<char>>,
    a: Seq<Seq<char>>,
    b: Seq<Seq<char>>,
    d: Seq<char>,
)
    ensures
        steps_through(files, parents, Seq::empty()).len() == 0,
        steps_through(files, parents, seq![d]) == steps_in(files, parents, d),
        steps_through(files, parents, a + b) == steps_through(files, parents, a) + steps_through(
            files,
            parents,
            b,
        ),
    decreases b.len(),
{
    assert(seq![d].drop_last() =~= Seq::<Seq<char>>::empty());
    assert(steps_through(files, parents, seq![d].drop_last()) =~= Seq::<StepView>::empty());
    assert(steps_through(files, parents, seq![d]) =~= steps_in(files, parents, d));
    if b.len() == 0 {
        assert(a + b =~= a);
    } else {
        assert((a + b).drop_last() =~= a + b.drop_last());
        steps_come_directory_by_directory(files, parents, a, b.drop_last(), d);
    }
    assert(steps_through(files, parents, a + b) =~= steps_through(files, parents, a)
        + steps_through(files, parents, b));
}

/// A directory that has a name is created before anything is decided about the files in it; one
/// without a name is not created. Its files with contents, and only those, are decided about, in
/// the order of the manifest.
pub proof fn directory_is_created_before_its_files(
    files: Seq<FileView>,
    parents: Seq<Seq<char>>,
    dir: Seq<char>,
    i: int,
    a: int,
    b: int,
)
    ensures
        ({
            let s = steps_in(files, parents, dir);
            &&& dir.len() > 0 ==> s.len() > 0 && s[0] == StepView::CreateDir(dir)
            &&& 0 <= a < s.len() && s[a] is CreateDir ==> a == 0 && dir.len() > 0
            &&& s.contains(StepView::Evaluate(i)) <==> 0 <= i < files.len() && !files[i].deleted
                && files[i].symlink_target is None && parents[i] == dir
            &&& 0 <= a < b < s.len() && s[a] is Evaluate && s[b] is Evaluate ==> s[a]->Evaluate_0
                < s[b]->Evaluate_0
        }),
{
    steps_in_facts(files, parents, dir);
    files_in_order(files, parents, dir, files.len());
    let s = steps_in(files, parents, dir);
    let rest = files_in(files, parents, dir, files.len());
    if dir.len() > 0 {
        if 0 < a < s.len() {
            assert(s[a] == rest[a - 1]);
        }
        if 0 < b < s.len() {
            assert(s[b] == rest[b - 1]);
        }
    } else {
        assert(s == rest);
    }
}

proof fn files_in_order(files: Seq<FileView>, parents: Seq<Seq<char>>, dir: Seq<char>, n: nat)
    ensures
        ({
            let s = files_in(files, parents, dir, n);
            &&& forall|k: int|
                0 <= k < s.len() ==> #[trigger] s[k] is Evaluate && 0 <= s[k]->Evaluate_0 < n
            &&& forall|a: int, b: int|
                0 <= a < b < s.len() ==> (#[trigger] s[a])->Evaluate_0 < (#[trigger] s[b])->Evaluate_0
        }),
    decreases n,
{
    if n > 0 {
        files_in_order(files, parents, dir, (n - 1) as nat);
        let before = files_in(files, parents, dir, (n - 1) as nat);
        let s = files_in(files, parents, dir, n);
        assert forall|a: int, b: int| 0 <= a < b < s.len() implies (#[trigger] s[a])->Evaluate_0 < (
        #[trigger] s[b])->Evaluate_0 by {
            assert(s[a] == before[a]);
            if b < before.len() {
                assert(s[b] == before[b]);
            }
        }
    }
}

} // verus!
