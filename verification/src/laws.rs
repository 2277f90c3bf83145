//! What holds of the operations taken together.

use vstd::prelude::*;
use crate::engine::{
    all_rewritable, bytes_copied, capture_jobs, is_orphan, module_jobs, orphan_dirs,
    recorded_items, renamed_items, restore_jobs,
};
use crate::strmap::{
    distinct_keys, has_key, index_of, lemma_push_new, lemma_update_value,
};
use crate::path::{
    components, is_simple, lemma_components_push, lemma_rewrite_follows_move,
    lemma_stored_name_simple, push_path, spec_file_name, spec_replace_component, stored_name,
};

verus! {

/// Cleaning removes a directory if and only if it belongs to no snapshot
/// of the registry. So every directory that is left and has a name is
/// registered under that name, and no directory with a registered name is
/// removed.
pub proof fn lemma_clean_removes_the_orphans(
    log: Map<Seq<char>, Seq<char>>,
    dirs: Seq<Seq<char>>,
    dir: Seq<char>,
)
    requires
        dirs.contains(dir),
    ensures
        orphan_dirs(log, dirs).contains(dir) <==> is_orphan(log, dir),
        spec_file_name(dir) matches Some(name) && log.contains_key(name) ==> !orphan_dirs(
            log,
            dirs,
        ).contains(dir),
        !orphan_dirs(log, dirs).contains(dir) ==> (spec_file_name(dir) matches Some(name)
            ==> log.contains_key(name)),
{
    let pred = |d: Seq<char>| is_orphan(log, d);
    let gone = dirs.filter(pred);
    if gone.contains(dir) {
        let i = choose|i: int| 0 <= i < gone.len() && gone[i] == dir;
        dirs.lemma_filter_pred(pred, i);
    }
    if is_orphan(log, dir) {
        let i = choose|i: int| 0 <= i < dirs.len() && dirs[i] == dir;
        dirs.lemma_filter_contains(pred, i);
    }
}

/// Cleaning removes nothing but directories that were given to it.
pub proof fn lemma_clean_removes_given_only(
    log: Map<Seq<char>, Seq<char>>,
    dirs: Seq<Seq<char>>,
    dir: Seq<char>,
)
    requires
        orphan_dirs(log, dirs).contains(dir),
    ensures
        dirs.contains(dir),
{
    dirs.lemma_filter_contains_rev(|d: Seq<char>| is_orphan(log, d), dir);
}

/// Each copy that captures the files of a module reads one of those files
/// and writes to its stored name inside the module's directory.
pub proof fn lemma_module_jobs_shape(dir: Seq<char>, files: Seq<Seq<char>>, at: int)
    requires
        0 <= at < module_jobs(dir, files).len(),
    ensures
        exists|f: int|
            0 <= f < files.len() && stored_name(#[trigger] files[f]).is_some() && module_jobs(
                dir,
                files,
            )[at] == (files[f], push_path(dir, stored_name(files[f]).unwrap())),
    decreases files.len(),
{
    if files.len() > 0 {
        let before = module_jobs(dir, files.drop_last());
        if at < before.len() {
            lemma_module_jobs_shape(dir, files.drop_last(), at);
            let f = choose|f: int|
                0 <= f < files.drop_last().len() && stored_name(
                    #[trigger] files.drop_last()[f],
                ).is_some() && before[at] == (
                    files.drop_last()[f],
                    push_path(dir, stored_name(files.drop_last()[f]).unwrap()),
                );
            assert(files.drop_last()[f] == files[f]);
        } else {
            let f = files.len() - 1;
            assert(files[f] == files.last());
        }
    }
}

/// Each copy of a capture reads a file of one of the modules and writes to
/// that file's stored name, in the directory of the module's name inside
/// the snapshot's directory.
pub proof fn lemma_capture_jobs_shape(
    snap_dir: Seq<char>,
    modules: Seq<(Seq<char>, Seq<Seq<char>>)>,
    at: int,
)
    requires
        0 <= at < capture_jobs(snap_dir, modules).len(),
    ensures
        exists|m: int, f: int|
            0 <= m < modules.len() && 0 <= f < modules[m].1.len() && stored_name(
                #[trigger] modules[m].1[f],
            ).is_some() && capture_jobs(snap_dir, modules)[at] == (
                modules[m].1[f],
                push_path(push_path(snap_dir, modules[m].0), stored_name(modules[m].1[f]).unwrap()),
            ),
    decreases modules.len(),
{
    if modules.len() > 0 {
        let before = capture_jobs(snap_dir, modules.drop_last());
        let last = modules.last();
        if at < before.len() {
            lemma_capture_jobs_shape(snap_dir, modules.drop_last(), at);
            let (m, f) = choose|m: int, f: int|
                0 <= m < modules.drop_last().len() && 0 <= f < modules.drop_last()[m].1.len()
                    && stored_name(#[trigger] modules.drop_last()[m].1[f]).is_some() && before[at]
                    == (
                    modules.drop_last()[m].1[f],
                    push_path(
                        push_path(snap_dir, modules.drop_last()[m].0),
                        stored_name(modules.drop_last()[m].1[f]).unwrap(),
                    ),
                );
            assert(modules.drop_last()[m] == modules[m]);
            assert(stored_name(modules[m].1[f]).is_some());
        } else {
            let dir = push_path(snap_dir, last.0);
            lemma_module_jobs_shape(dir, last.1, at - before.len());
            let f = choose|f: int|
                0 <= f < last.1.len() && stored_name(#[trigger] last.1[f]).is_some()
                    && module_jobs(dir, last.1)[at - before.len()] == (
                    last.1[f],
                    push_path(dir, stored_name(last.1[f]).unwrap()),
                );
            let m = modules.len() - 1;
            assert(modules[m] == last);
            assert(stored_name(modules[m].1[f]).is_some());
        }
    }
}

/// Modules without files ask for no copy, and without copies nothing is
/// recorded.
pub proof fn lemma_no_files_no_items(
    snap_dir: Seq<char>,
    modules: Seq<(Seq<char>, Seq<Seq<char>>)>,
    copied: Seq<Option<u64>>,
)
    requires
        forall|m: int| 0 <= m < modules.len() ==> (#[trigger] modules[m]).1.len() == 0,
    ensures
        capture_jobs(snap_dir, modules).len() == 0,
        recorded_items(capture_jobs(snap_dir, modules), copied).len() == 0,
{
    if capture_jobs(snap_dir, modules).len() > 0 {
        lemma_capture_jobs_shape(snap_dir, modules, 0);
    }
}

/// Restoring a renamed snapshot restores the same files as before the
/// renaming, each from where it lies after the snapshot's directory was
/// moved.
///
/// Take an item whose stored file lies in the directory `snap_dir` of the
/// snapshot, in the directory of a module, under a stored name. After the
/// renaming to `new_name`, the copy that restores this item writes to the
/// same source path as before, and reads the file of the same module and
/// stored name in the directory that `snap_dir` was moved to.
pub proof fn lemma_rename_then_restore(
    items: Seq<(Seq<char>, Seq<char>)>,
    new_name: Seq<char>,
    at: int,
    snap_dir: Seq<char>,
    module: Seq<char>,
    stored: Seq<char>,
)
    requires
        0 <= at < items.len(),
        components(snap_dir).len() >= 1,
        is_simple(module),
        is_simple(stored),
        items[at].1 == push_path(push_path(snap_dir, module), stored),
    ensures
        components(items[at].1).len() >= 3,
        spec_replace_component(snap_dir, new_name, 1).is_some(),
        restore_jobs(items)[at] == (items[at].1, items[at].0),
        restore_jobs(renamed_items(items, new_name))[at] == (
            push_path(
                push_path(spec_replace_component(snap_dir, new_name, 1).unwrap(), module),
                stored,
            ),
            items[at].0,
        ),
{
    lemma_rewrite_follows_move(snap_dir, module, stored, new_name);
    lemma_components_push(snap_dir, module);
    lemma_components_push(push_path(snap_dir, module), stored);
}

/// The copies of a capture into a snapshot's directory write where the
/// renaming of that snapshot expects the stored files: two simple names
/// below the snapshot's directory, as long as the module's name is simple.
pub proof fn lemma_capture_fits_rename(
    snap_dir: Seq<char>,
    modules: Seq<(Seq<char>, Seq<Seq<char>>)>,
    at: int,
)
    requires
        0 <= at < capture_jobs(snap_dir, modules).len(),
        forall|m: int| 0 <= m < modules.len() ==> is_simple((#[trigger] modules[m]).0),
    ensures
        exists|module: Seq<char>, stored: Seq<char>|
            is_simple(module) && is_simple(stored) && capture_jobs(snap_dir, modules)[at].1
                == #[trigger] push_path(push_path(snap_dir, module), stored),
{
    lemma_capture_jobs_shape(snap_dir, modules, at);
    let (m, f) = choose|m: int, f: int|
        0 <= m < modules.len() && 0 <= f < modules[m].1.len() && stored_name(
            #[trigger] modules[m].1[f],
        ).is_some() && capture_jobs(snap_dir, modules)[at] == (
            modules[m].1[f],
            push_path(push_path(snap_dir, modules[m].0), stored_name(modules[m].1[f]).unwrap()),
        );
    lemma_stored_name_simple(modules[m].1[f]);
    let module = modules[m].0;
    let stored = stored_name(modules[m].1[f]).unwrap();
    assert(capture_jobs(snap_dir, modules)[at].1 == push_path(push_path(snap_dir, module), stored));
}

/// The files after one copy. A file is known by its path and holds bytes.
/// A copy of a file that does not exist fails and changes nothing.
pub open spec fn copy_file(
    files: Map<Seq<char>, Seq<u8>>,
    from: Seq<char>,
    to: Seq<char>,
) -> Map<Seq<char>, Seq<u8>> {
    if files.contains_key(from) {
        files.insert(to, files[from])
    } else {
        files
    }
}

/// The files after the given copies, made in order.
pub open spec fn after_copies(
    files: Map<Seq<char>, Seq<u8>>,
    jobs: Seq<(Seq<char>, Seq<char>)>,
) -> Map<Seq<char>, Seq<u8>>
    decreases jobs.len(),
{
    if jobs.len() == 0 {
        files
    } else {
        copy_file(after_copies(files, jobs.drop_last()), jobs.last().0, jobs.last().1)
    }
}

/// Whether no copy writes where a copy reads.
pub open spec fn writes_apart(jobs: Seq<(Seq<char>, Seq<char>)>) -> bool {
    forall|i: int, j: int|
        0 <= i < jobs.len() && 0 <= j < jobs.len() ==> (#[trigger] jobs[i]).1 != (
        #[trigger] jobs[j]).0
}

/// Whether copies that read different files write different files.
pub open spec fn writes_distinct(jobs: Seq<(Seq<char>, Seq<char>)>) -> bool {
    forall|i: int, j: int|
        0 <= i < jobs.len() && 0 <= j < jobs.len() && (#[trigger] jobs[i]).0 != (
        #[trigger] jobs[j]).0 ==> jobs[i].1 != jobs[j].1
}

/// Whether a copy is reported as done exactly where the file it reads
/// exists.
pub open spec fn reports_hold(
    files: Map<Seq<char>, Seq<u8>>,
    jobs: Seq<(Seq<char>, Seq<char>)>,
    copied: Seq<Option<u64>>,
) -> bool {
    forall|i: int|
        0 <= i < jobs.len() ==> (bytes_copied(copied, i).is_some() <==> files.contains_key(
            (#[trigger] jobs[i]).0,
        ))
}

/// Copies leave every file alone that none of them writes.
pub proof fn lemma_copies_leave_others(
    files: Map<Seq<char>, Seq<u8>>,
    jobs: Seq<(Seq<char>, Seq<char>)>,
    path: Seq<char>,
)
    requires
        forall|i: int| 0 <= i < jobs.len() ==> (#[trigger] jobs[i]).1 != path,
    ensures
        after_copies(files, jobs).contains_key(path) == files.contains_key(path),
        files.contains_key(path) ==> after_copies(files, jobs)[path] == files[path],
    decreases jobs.len(),
{
    if jobs.len() > 0 {
        assert forall|i: int| 0 <= i < jobs.drop_last().len() implies (
        #[trigger] jobs.drop_last()[i]).1 != path by {
            assert(jobs.drop_last()[i] == jobs[i]);
        }
        lemma_copies_leave_others(files, jobs.drop_last(), path);
        assert(jobs.last() == jobs[jobs.len() - 1]);
    }
}

/// After a capture each stored file holds what its source held.
pub proof fn lemma_capture_stores(
    files: Map<Seq<char>, Seq<u8>>,
    jobs: Seq<(Seq<char>, Seq<char>)>,
    at: int,
)
    requires
        writes_apart(jobs),
        writes_distinct(jobs),
        0 <= at < jobs.len(),
        files.contains_key(jobs[at].0),
    ensures
        after_copies(files, jobs).contains_key(jobs[at].1),
        after_copies(files, jobs)[jobs[at].1] == files[jobs[at].0],
    decreases jobs.len(),
{
    let head = jobs.drop_last();
    let last = jobs.last();
    let n = jobs.len() - 1;
    assert(last == jobs[n]);
    assert forall|i: int| 0 <= i < head.len() implies #[trigger] head[i] == jobs[i] by {}
    assert(writes_apart(head)) by {
        assert forall|i: int, j: int| 0 <= i < head.len() && 0 <= j < head.len() implies (
        #[trigger] head[i]).1 != (#[trigger] head[j]).0 by {
            assert(jobs[i].1 != jobs[j].0);
        }
    }
    assert(writes_distinct(head)) by {
        assert forall|i: int, j: int|
            0 <= i < head.len() && 0 <= j < head.len() && (#[trigger] head[i]).0 != (
            #[trigger] head[j]).0 implies head[i].1 != head[j].1 by {
            assert(jobs[i].0 != jobs[j].0 ==> jobs[i].1 != jobs[j].1);
        }
    }
    assert forall|i: int| 0 <= i < head.len() implies (#[trigger] head[i]).1 != last.0 by {
        assert(jobs[i].1 != jobs[n].0);
    }
    lemma_copies_leave_others(files, head, last.0);
    if last.1 == jobs[at].1 {
        assert(jobs[n].0 == jobs[at].0) by {
            if jobs[n].0 != jobs[at].0 {
                assert(jobs[n].1 != jobs[at].1);
            }
        }
    } else {
        assert(at < n);
        lemma_capture_stores(files, head, at);
    }
}

/// Whether `item` is one of the copies that were reported as done.
pub open spec fn is_done_copy(
    jobs: Seq<(Seq<char>, Seq<char>)>,
    copied: Seq<Option<u64>>,
    item: (Seq<char>, Seq<char>),
) -> bool {
    exists|i: int|
        0 <= i < jobs.len() && bytes_copied(copied, i).is_some() && #[trigger] jobs[i] == item
}

/// Each item that a capture records is one of its copies that was done,
/// and no source is recorded twice.
pub proof fn lemma_recorded_items_shape(
    jobs: Seq<(Seq<char>, Seq<char>)>,
    copied: Seq<Option<u64>>,
)
    ensures
        distinct_keys(recorded_items(jobs, copied)),
        forall|k: int|
            0 <= k < recorded_items(jobs, copied).len() ==> is_done_copy(
                jobs,
                copied,
                #[trigger] recorded_items(jobs, copied)[k],
            ),
    decreases jobs.len(),
{
    let items = recorded_items(jobs, copied);
    if jobs.len() > 0 {
        let head = jobs.drop_last();
        let n = jobs.len() - 1;
        let before = recorded_items(head, copied);
        lemma_recorded_items_shape(head, copied);
        assert(jobs.last() == jobs[n]);
        assert forall|k: int| 0 <= k < before.len() implies is_done_copy(
            jobs,
            copied,
            #[trigger] before[k],
        ) by {
            assert(is_done_copy(head, copied, before[k]));
            let i = choose|i: int|
                0 <= i < head.len() && bytes_copied(copied, i).is_some() && #[trigger] head[i]
                    == before[k];
            assert(jobs[i] == head[i]);
        }
        if bytes_copied(copied, n).is_some() {
            let key = jobs[n].0;
            let value = jobs[n].1;
            assert(is_done_copy(jobs, copied, (key, value))) by {
                assert(jobs[n] == (key, value));
            }
            if has_key(before, key) {
                let at = index_of(before, key);
                assert(before[at].0 == key);
                lemma_update_value(before, at, value);
                assert(items == before.update(at, (key, value)));
                assert forall|k: int| 0 <= k < items.len() implies is_done_copy(
                    jobs,
                    copied,
                    #[trigger] items[k],
                ) by {
                    if k != at {
                        assert(items[k] == before[k]);
                    }
                }
            } else {
                lemma_push_new(before, key, value);
                assert(items == before.push((key, value)));
                assert forall|k: int| 0 <= k < items.len() implies is_done_copy(
                    jobs,
                    copied,
                    #[trigger] items[k],
                ) by {
                    if k != before.len() {
                        assert(items[k] == before[k]);
                    }
                }
            }
        } else {
            assert(items == before);
        }
    }
}

/// A restore gives each source the contents of its stored file, as long as
/// no stored file is itself a source.
pub proof fn lemma_restore_writes_back(
    files: Map<Seq<char>, Seq<u8>>,
    items: Seq<(Seq<char>, Seq<char>)>,
    at: int,
)
    requires
        distinct_keys(items),
        forall|a: int, b: int|
            0 <= a < items.len() && 0 <= b < items.len() ==> (#[trigger] items[a]).1 != (
            #[trigger] items[b]).0,
        forall|a: int| 0 <= a < items.len() ==> files.contains_key((#[trigger] items[a]).1),
        0 <= at < items.len(),
    ensures
        after_copies(files, restore_jobs(items)).contains_key(items[at].0),
        after_copies(files, restore_jobs(items))[items[at].0] == files[items[at].1],
    decreases items.len(),
{
    let head = items.drop_last();
    let n = items.len() - 1;
    let back = restore_jobs(items);
    assert(back.drop_last() =~= restore_jobs(head));
    assert(back.last() == (items[n].1, items[n].0));
    assert forall|i: int| 0 <= i < head.len() implies #[trigger] head[i] == items[i] by {}
    assert forall|i: int| 0 <= i < restore_jobs(head).len() implies (#[trigger] restore_jobs(
        head,
    )[i]).1 != items[n].1 by {
        assert(restore_jobs(head)[i].1 == items[i].0);
        assert(items[n].1 != items[i].0);
    }
    lemma_copies_leave_others(files, restore_jobs(head), items[n].1);
    if at < n {
        assert(distinct_keys(head)) by {
            assert forall|i: int, j: int| 0 <= i < j < head.len() implies (#[trigger] head[i]).0
                != (#[trigger] head[j]).0 by {
                assert(items[i].0 != items[j].0);
            }
        }
        assert forall|a: int, b: int| 0 <= a < head.len() && 0 <= b < head.len() implies (
        #[trigger] head[a]).1 != (#[trigger] head[b]).0 by {
            assert(items[a].1 != items[b].0);
        }
        assert forall|a: int| 0 <= a < head.len() implies files.contains_key(
            (#[trigger] head[a]).1,
        ) by {
            assert(files.contains_key(items[a].1));
        }
        lemma_restore_writes_back(files, head, at);
        assert(items[at].0 != items[n].0);
    }
}

/// Capturing files and then restoring them gives every recorded source the
/// contents that it had before the capture.
///
/// The files are those of `files`, the capture makes the copies `jobs` and
/// reports them in `copied`, and the restore makes the copies that the
/// recorded items ask for. Two things are asked of the capture's copies: none
/// writes a file that the capture reads, and copies of different files write
/// different files. The second fails where two files with the same name lie
/// in directories of the same name and are captured for one module.
pub proof fn lemma_capture_restore_round_trip(
    files: Map<Seq<char>, Seq<u8>>,
    jobs: Seq<(Seq<char>, Seq<char>)>,
    copied: Seq<Option<u64>>,
    at: int,
)
    requires
        writes_apart(jobs),
        writes_distinct(jobs),
        reports_hold(files, jobs, copied),
        0 <= at < recorded_items(jobs, copied).len(),
    ensures
        files.contains_key(recorded_items(jobs, copied)[at].0),
        after_copies(
            after_copies(files, jobs),
            restore_jobs(recorded_items(jobs, copied)),
        ).contains_key(recorded_items(jobs, copied)[at].0),
        after_copies(after_copies(files, jobs), restore_jobs(recorded_items(jobs, copied)))[
            recorded_items(jobs, copied)[at].0
        ] == files[recorded_items(jobs, copied)[at].0],
{
    let items = recorded_items(jobs, copied);
    let stored = after_copies(files, jobs);
    lemma_recorded_items_shape(jobs, copied);
    assert forall|a: int| 0 <= a < items.len() implies files.contains_key(
        (#[trigger] items[a]).0,
    ) && stored.contains_key(items[a].1) && stored[items[a].1] == files[items[a].0] by {
        assert(is_done_copy(jobs, copied, items[a]));
        let i = choose|i: int|
            0 <= i < jobs.len() && bytes_copied(copied, i).is_some() && #[trigger] jobs[i]
                == items[a];
        lemma_capture_stores(files, jobs, i);
    }
    assert forall|a: int, b: int| 0 <= a < items.len() && 0 <= b < items.len() implies (
    #[trigger] items[a]).1 != (#[trigger] items[b]).0 by {
        assert(is_done_copy(jobs, copied, items[a]));
        assert(is_done_copy(jobs, copied, items[b]));
        let i = choose|i: int|
            0 <= i < jobs.len() && bytes_copied(copied, i).is_some() && #[trigger] jobs[i]
                == items[a];
        let j = choose|j: int|
            0 <= j < jobs.len() && bytes_copied(copied, j).is_some() && #[trigger] jobs[j]
                == items[b];
        assert(jobs[i].1 != jobs[j].0);
    }
    lemma_restore_writes_back(stored, items, at);
}

/// Two stored files lie at different paths unless they lie in the
/// directory of the same module under the same stored name.
pub proof fn lemma_stored_paths_differ(
    snap_dir: Seq<char>,
    module_a: Seq<char>,
    stored_a: Seq<char>,
    module_b: Seq<char>,
    stored_b: Seq<char>,
)
    requires
        is_simple(module_a),
        is_simple(stored_a),
        is_simple(module_b),
        is_simple(stored_b),
        module_a != module_b || stored_a != stored_b,
    ensures
        push_path(push_path(snap_dir, module_a), stored_a) != push_path(
            push_path(snap_dir, module_b),
            stored_b,
        ),
{
    lemma_components_push(snap_dir, module_a);
    lemma_components_push(push_path(snap_dir, module_a), stored_a);
    lemma_components_push(snap_dir, module_b);
    lemma_components_push(push_path(snap_dir, module_b), stored_b);
    let base = components(snap_dir);
    let a = base.push(module_a).push(stored_a);
    let b = base.push(module_b).push(stored_b);
    let n = base.len() as int;
    if a == b {
        assert(a[n] == module_a);
        assert(b[n] == module_b);
        assert(a[n + 1] == stored_a);
        assert(b[n + 1] == stored_b);
    }
}

/// Whether no two different files get the same place in a snapshot: where
/// two files of the modules differ, so do their modules' names or their
/// stored names.
pub open spec fn stored_names_apart(modules: Seq<(Seq<char>, Seq<Seq<char>>)>) -> bool {
    forall|m: int, f: int, n: int, g: int|
        0 <= m < modules.len() && 0 <= f < modules[m].1.len() && 0 <= n < modules.len() && 0 <= g
            < modules[n].1.len() && #[trigger] modules[m].1[f] != #[trigger] modules[n].1[g]
            ==> modules[m].0 != modules[n].0 || stored_name(modules[m].1[f]) != stored_name(
            modules[n].1[g],
        )
}

/// Where the modules have simple names and no two different files get the
/// same place in the snapshot, the copies of a capture that read different
/// files write different files.
pub proof fn lemma_capture_writes_distinct(
    snap_dir: Seq<char>,
    modules: Seq<(Seq<char>, Seq<Seq<char>>)>,
)
    requires
        forall|m: int| 0 <= m < modules.len() ==> is_simple((#[trigger] modules[m]).0),
        stored_names_apart(modules),
    ensures
        writes_distinct(capture_jobs(snap_dir, modules)),
{
    let jobs = capture_jobs(snap_dir, modules);
    assert forall|i: int, j: int|
        0 <= i < jobs.len() && 0 <= j < jobs.len() && (#[trigger] jobs[i]).0 != (
        #[trigger] jobs[j]).0 implies jobs[i].1 != jobs[j].1 by {
        lemma_capture_jobs_shape(snap_dir, modules, i);
        lemma_capture_jobs_shape(snap_dir, modules, j);
        let (m, f) = choose|m: int, f: int|
            0 <= m < modules.len() && 0 <= f < modules[m].1.len() && stored_name(
                #[trigger] modules[m].1[f],
            ).is_some() && jobs[i] == (
                modules[m].1[f],
                push_path(push_path(snap_dir, modules[m].0), stored_name(modules[m].1[f]).unwrap()),
            );
        let (n, g) = choose|n: int, g: int|
            0 <= n < modules.len() && 0 <= g < modules[n].1.len() && stored_name(
                #[trigger] modules[n].1[g],
            ).is_some() && jobs[j] == (
                modules[n].1[g],
                push_path(push_path(snap_dir, modules[n].0), stored_name(modules[n].1[g]).unwrap()),
            );
        assert(modules[m].1[f] != modules[n].1[g]);
        lemma_stored_name_simple(modules[m].1[f]);
        lemma_stored_name_simple(modules[n].1[g]);
        lemma_stored_paths_differ(
            snap_dir,
            modules[m].0,
            stored_name(modules[m].1[f]).unwrap(),
            modules[n].0,
            stored_name(modules[n].1[g]).unwrap(),
        );
    }
}

/// Capturing the files of a configuration into a snapshot and restoring
/// the snapshot gives every recorded file the contents that it had before
/// the capture.
///
/// It holds where the modules have simple names, no two different files
/// get the same place in the snapshot, and no file that is captured lies
/// where the snapshot stores a file.
pub proof fn lemma_snapshot_round_trip(
    files: Map<Seq<char>, Seq<u8>>,
    snap_dir: Seq<char>,
    modules: Seq<(Seq<char>, Seq<Seq<char>>)>,
    copied: Seq<Option<u64>>,
    at: int,
)
    requires
        forall|m: int| 0 <= m < modules.len() ==> is_simple((#[trigger] modules[m]).0),
        stored_names_apart(modules),
        writes_apart(capture_jobs(snap_dir, modules)),
        reports_hold(files, capture_jobs(snap_dir, modules), copied),
        0 <= at < recorded_items(capture_jobs(snap_dir, modules), copied).len(),
    ensures
        ({
            let items = recorded_items(capture_jobs(snap_dir, modules), copied);
            let stored = after_copies(files, capture_jobs(snap_dir, modules));
            let restored = after_copies(stored, restore_jobs(items));
            &&& files.contains_key(items[at].0)
            &&& restored.contains_key(items[at].0)
            &&& restored[items[at].0] == files[items[at].0]
        }),
{
    lemma_capture_writes_distinct(snap_dir, modules);
    lemma_capture_restore_round_trip(files, capture_jobs(snap_dir, modules), copied, at);
}

/// Whether a stored path and its rewritten form name the same module and
/// stored name, the one below `from_dir`, the other below `to_dir`.
pub open spec fn same_place(
    from_dir: Seq<char>,
    to_dir: Seq<char>,
    stored: Seq<char>,
    rewritten: Seq<char>,
) -> bool {
    exists|module: Seq<char>, name: Seq<char>|
        is_simple(module) && is_simple(name) && stored == #[trigger] push_path(
            push_path(from_dir, module),
            name,
        ) && rewritten == push_path(push_path(to_dir, module), name)
}

/// Each item that a capture into `snap_dir` records can be rewritten for a
/// renaming, and its rewritten stored path names the same module and stored
/// name below the directory that `snap_dir` is moved to.
pub proof fn lemma_recorded_item_follows_move(
    snap_dir: Seq<char>,
    modules: Seq<(Seq<char>, Seq<Seq<char>>)>,
    copied: Seq<Option<u64>>,
    new_name: Seq<char>,
    at: int,
)
    requires
        components(snap_dir).len() >= 1,
        forall|m: int| 0 <= m < modules.len() ==> is_simple((#[trigger] modules[m]).0),
        0 <= at < recorded_items(capture_jobs(snap_dir, modules), copied).len(),
    ensures
        ({
            let items = recorded_items(capture_jobs(snap_dir, modules), copied);
            let to_dir = spec_replace_component(snap_dir, new_name, 1).unwrap();
            &&& spec_replace_component(snap_dir, new_name, 1).is_some()
            &&& components(items[at].1).len() >= 3
            &&& renamed_items(items, new_name)[at].0 == items[at].0
            &&& same_place(snap_dir, to_dir, items[at].1, renamed_items(items, new_name)[at].1)
        }),
{
    let jobs = capture_jobs(snap_dir, modules);
    let items = recorded_items(jobs, copied);
    let to_dir = spec_replace_component(snap_dir, new_name, 1).unwrap();
    lemma_recorded_items_shape(jobs, copied);
    assert(is_done_copy(jobs, copied, items[at]));
    let i = choose|i: int|
        0 <= i < jobs.len() && bytes_copied(copied, i).is_some() && #[trigger] jobs[i]
            == items[at];
    lemma_capture_fits_rename(snap_dir, modules, i);
    let (module, name) = choose|module: Seq<char>, name: Seq<char>|
        is_simple(module) && is_simple(name) && jobs[i].1 == #[trigger] push_path(
            push_path(snap_dir, module),
            name,
        );
    lemma_rewrite_follows_move(snap_dir, module, name, new_name);
    lemma_components_push(snap_dir, module);
    lemma_components_push(push_path(snap_dir, module), name);
    assert(items[at].1 == push_path(push_path(snap_dir, module), name));
    assert(renamed_items(items, new_name)[at].1 == push_path(push_path(to_dir, module), name));
}

/// Whether a move of the directory `from_dir` to `to_dir` took the files
/// along: what lay in `from_dir` under a module and a stored name lies,
/// with the same bytes, in `to_dir` under the same module and stored name.
pub open spec fn moved_along(
    before: Map<Seq<char>, Seq<u8>>,
    after: Map<Seq<char>, Seq<u8>>,
    from_dir: Seq<char>,
    to_dir: Seq<char>,
) -> bool {
    forall|module: Seq<char>, name: Seq<char>|
        is_simple(module) && is_simple(name) && before.contains_key(
            #[trigger] push_path(push_path(from_dir, module), name),
        ) ==> after.contains_key(push_path(push_path(to_dir, module), name)) && after[push_path(
            push_path(to_dir, module),
            name,
        )] == before[push_path(push_path(from_dir, module), name)]
}

/// Renaming a snapshot and then restoring it under its new name restores
/// the same files as restoring it under its old name would have: the same
/// source paths are written, each with the same bytes, and every copy of
/// the restore finds its stored file.
///
/// The record is one that a capture into `snap_dir` made for modules with
/// simple names. `before` holds the files before the renaming, in which
/// every stored file exists; `after` holds them after the directory was
/// moved. No stored file, at its old or at its new place, is one of the
/// sources.
pub proof fn lemma_rename_restores_same_files(
    before: Map<Seq<char>, Seq<u8>>,
    after: Map<Seq<char>, Seq<u8>>,
    snap_dir: Seq<char>,
    modules: Seq<(Seq<char>, Seq<Seq<char>>)>,
    copied: Seq<Option<u64>>,
    new_name: Seq<char>,
    at: int,
)
    requires
        components(snap_dir).len() >= 1,
        forall|m: int| 0 <= m < modules.len() ==> is_simple((#[trigger] modules[m]).0),
        moved_along(before, after, snap_dir, spec_replace_component(snap_dir, new_name, 1).unwrap()),
        ({
            let items = recorded_items(capture_jobs(snap_dir, modules), copied);
            let renamed = renamed_items(items, new_name);
            &&& 0 <= at < items.len()
            &&& forall|a: int| 0 <= a < items.len() ==> before.contains_key((#[trigger] items[a]).1)
            &&& forall|a: int, b: int|
                0 <= a < items.len() && 0 <= b < items.len() ==> (#[trigger] items[a]).1 != (
                #[trigger] items[b]).0
            &&& forall|a: int, b: int|
                0 <= a < items.len() && 0 <= b < items.len() ==> (#[trigger] renamed[a]).1 != (
                #[trigger] items[b]).0
        }),
    ensures
        ({
            let items = recorded_items(capture_jobs(snap_dir, modules), copied);
            let renamed = renamed_items(items, new_name);
            let old_restore = after_copies(before, restore_jobs(items));
            let new_restore = after_copies(after, restore_jobs(renamed));
            &&& all_rewritable(items)
            &&& restore_jobs(renamed).len() == restore_jobs(items).len()
            &&& restore_jobs(renamed)[at].1 == restore_jobs(items)[at].1
            &&& restore_jobs(items)[at].1 == items[at].0
            &&& old_restore.contains_key(items[at].0)
            &&& new_restore.contains_key(items[at].0)
            &&& new_restore[items[at].0] == old_restore[items[at].0]
            &&& after_copies(after, restore_jobs(renamed).take(at)).contains_key(
                restore_jobs(renamed)[at].0,
            )
        }),
{
    let jobs = capture_jobs(snap_dir, modules);
    let items = recorded_items(jobs, copied);
    let renamed = renamed_items(items, new_name);
    let to_dir = spec_replace_component(snap_dir, new_name, 1).unwrap();
    lemma_recorded_items_shape(jobs, copied);
    assert forall|a: int| 0 <= a < items.len() implies components((#[trigger] items[a]).1).len()
        >= 3 && renamed[a].0 == items[a].0 && after.contains_key(renamed[a].1) && after[renamed[a].1]
        == before[items[a].1] by {
        lemma_recorded_item_follows_move(snap_dir, modules, copied, new_name, a);
        let (module, name) = choose|module: Seq<char>, name: Seq<char>|
            is_simple(module) && is_simple(name) && items[a].1 == #[trigger] push_path(
                push_path(snap_dir, module),
                name,
            ) && renamed[a].1 == push_path(push_path(to_dir, module), name);
        assert(before.contains_key(push_path(push_path(snap_dir, module), name)));
    }
    assert(distinct_keys(renamed)) by {
        assert forall|i: int, j: int| 0 <= i < j < renamed.len() implies (
        #[trigger] renamed[i]).0 != (#[trigger] renamed[j]).0 by {
            assert(renamed[i].0 == items[i].0);
            assert(renamed[j].0 == items[j].0);
            assert(items[i].0 != items[j].0);
        }
    }
    assert forall|a: int, b: int| 0 <= a < renamed.len() && 0 <= b < renamed.len() implies (
    #[trigger] renamed[a]).1 != (#[trigger] renamed[b]).0 by {
        assert(renamed[b].0 == items[b].0);
        assert(renamed[a].1 != items[b].0);
    }
    assert forall|a: int| 0 <= a < renamed.len() implies after.contains_key(
        (#[trigger] renamed[a]).1,
    ) by {
        assert(components(items[a].1).len() >= 3);
    }
    lemma_restore_writes_back(before, items, at);
    lemma_restore_writes_back(after, renamed, at);
    assert(renamed[at].0 == items[at].0 && after[renamed[at].1] == before[items[at].1]) by {
        assert(components(items[at].1).len() >= 3);
    }
    let early = restore_jobs(renamed).take(at);
    assert forall|i: int| 0 <= i < early.len() implies (#[trigger] early[i]).1 != renamed[at].1 by {
        assert(early[i].1 == renamed[i].0);
        assert(renamed[at].1 != renamed[i].0);
    }
    lemma_copies_leave_others(after, early, renamed[at].1);
}

} // verus!
