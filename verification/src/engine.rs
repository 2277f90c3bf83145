//! The operations on snapshots, as far as they decide anything: which files
//! an operation copies and where to, what it records, and what the registry
//! holds afterwards. The caller copies, moves and deletes, and reports back.

use vstd::prelude::*;
use vstd::string::*;
use crate::hooks::{hook_stored, stored_command, HookType, Hooks};
use crate::metadata::SnapMetaData;
use crate::path::{
    components, file_name, flatten, join, push_path, replace_component_in_path, spec_file_name,
    spec_replace_component, stored_name,
};
use crate::registry::SnapLog;
use crate::strmap::{has_key, index_of, StrMap};
use crate::text::{decimal, decimal_string, lowercase, str_eq, texts, trim_lowercase, trimmed};

verus! {

/// One file to copy.
#[derive(Debug)]
pub struct CopyJob {
    /// The path of the file to read.
    pub from: String,
    /// The path of the file to write, replacing what is there.
    pub to: String,
}

impl View for CopyJob {
    type V = (Seq<char>, Seq<char>);

    /// The job as a pair: where to read, where to write.
    open spec fn view(&self) -> (Seq<char>, Seq<char>) {
        (self.from@, self.to@)
    }
}

/// The jobs of a list as pairs, in order.
pub open spec fn job_views(jobs: Seq<CopyJob>) -> Seq<(Seq<char>, Seq<char>)> {
    jobs.map_values(|j: CopyJob| j@)
}

/// The files that were found for one module of a configuration.
#[derive(Debug)]
pub struct ModuleFiles {
    /// The name of the module, which names its directory in the snapshot.
    pub name: String,
    /// The paths of the files found, in the order in which they were found.
    pub files: Vec<String>,
}

impl View for ModuleFiles {
    type V = (Seq<char>, Seq<Seq<char>>);

    /// The module as a pair: its name, the paths of its files.
    open spec fn view(&self) -> (Seq<char>, Seq<Seq<char>>) {
        (self.name@, texts(self.files@))
    }
}

/// The modules of a list as pairs, in order.
pub open spec fn module_views(modules: Seq<ModuleFiles>) -> Seq<(Seq<char>, Seq<Seq<char>>)> {
    modules.map_values(|m: ModuleFiles| m@)
}

/// The copies that capture the given files into the directory `dir`: each
/// file that has a stored name is copied to that name inside `dir`; a file
/// without one is passed over.
pub open spec fn module_jobs(dir: Seq<char>, files: Seq<Seq<char>>) -> Seq<
    (Seq<char>, Seq<char>),
>
    decreases files.len(),
{
    if files.len() == 0 {
        Seq::<(Seq<char>, Seq<char>)>::empty()
    } else {
        let before = module_jobs(dir, files.drop_last());
        match stored_name(files.last()) {
            Some(name) => before.push((files.last(), push_path(dir, name))),
            None => before,
        }
    }
}

/// The copies that capture the given modules into the snapshot directory
/// `snap_dir`: module after module, each into the directory of its name.
pub open spec fn capture_jobs(
    snap_dir: Seq<char>,
    modules: Seq<(Seq<char>, Seq<Seq<char>>)>,
) -> Seq<(Seq<char>, Seq<char>)>
    decreases modules.len(),
{
    if modules.len() == 0 {
        Seq::<(Seq<char>, Seq<char>)>::empty()
    } else {
        capture_jobs(snap_dir, modules.drop_last()) + module_jobs(
            push_path(snap_dir, modules.last().0),
            modules.last().1,
        )
    }
}

/// Appends to `out` the copies that capture `files` into `module_dir`.
fn plan_module(module_dir: &str, files: &Vec<String>, out: &mut Vec<CopyJob>)
    ensures
        job_views(final(out)@) == job_views(old(out)@) + module_jobs(
            module_dir@,
            texts(files@),
        ),
{
    let ghost start = job_views(out@);
    let mut i: usize = 0;
    proof {
        assert(texts(files@).take(0) =~= Seq::<Seq<char>>::empty());
        assert(start + module_jobs(module_dir@, texts(files@).take(0)) =~= start);
    }
    while i < files.len()
        invariant
            i <= files.len(),
            job_views(out@) == start + module_jobs(module_dir@, texts(files@).take(i as int)),
        decreases files.len() - i,
    {
        let ghost done = module_jobs(module_dir@, texts(files@).take(i as int));
        proof {
            let next = texts(files@).take(i + 1);
            assert(next.drop_last() =~= texts(files@).take(i as int));
            assert(next.last() == files@[i as int]@);
        }
        match flatten(files[i].as_str()) {
            Some(name) => {
                let job = CopyJob { from: files[i].clone(), to: join(module_dir, name.as_str()) };
                proof {
                    assert(job_views(out@.push(job)) =~= job_views(out@).push(job@));
                    assert((start + done).push(job@) =~= start + done.push(job@));
                }
                out.push(job);
            },
            None => {},
        }
        i += 1;
    }
    proof {
        assert(texts(files@).take(files.len() as int) =~= texts(files@));
    }
}

/// The copies that capture the given modules into the snapshot directory
/// `snap_dir`. A module without files adds no copy.
pub fn capture_plan(snap_dir: &str, modules: &Vec<ModuleFiles>) -> (jobs: Vec<CopyJob>)
    ensures
        job_views(jobs@) == capture_jobs(snap_dir@, module_views(modules@)),
{
    let mut jobs: Vec<CopyJob> = Vec::new();
    let mut i: usize = 0;
    proof {
        assert(module_views(modules@).take(0) =~= Seq::<(Seq<char>, Seq<Seq<char>>)>::empty());
        assert(job_views(jobs@) =~= Seq::<(Seq<char>, Seq<char>)>::empty());
    }
    while i < modules.len()
        invariant
            i <= modules.len(),
            job_views(jobs@) == capture_jobs(snap_dir@, module_views(modules@).take(i as int)),
        decreases modules.len() - i,
    {
        proof {
            let next = module_views(modules@).take(i + 1);
            assert(next.drop_last() =~= module_views(modules@).take(i as int));
            assert(next.last() == modules@[i as int]@);
        }
        let module_dir = join(snap_dir, modules[i].name.as_str());
        plan_module(module_dir.as_str(), &modules[i].files, &mut jobs);
        i += 1;
    }
    proof {
        assert(module_views(modules@).take(modules.len() as int) =~= module_views(modules@));
    }
    jobs
}

/// The number of bytes that the copy at position `at` wrote, if it is
/// reported as done. A copy without a report counts as failed.
pub open spec fn bytes_copied(copied: Seq<Option<u64>>, at: int) -> Option<u64> {
    if 0 <= at < copied.len() {
        copied[at]
    } else {
        None
    }
}

/// The pairs after `value` has been stored under `key`: a known key keeps
/// its place and gets the new value, a new key goes to the end.
pub open spec fn with_pair(
    pairs: Seq<(Seq<char>, Seq<char>)>,
    key: Seq<char>,
    value: Seq<char>,
) -> Seq<(Seq<char>, Seq<char>)> {
    if has_key(pairs, key) {
        pairs.update(index_of(pairs, key), (key, value))
    } else {
        pairs.push((key, value))
    }
}

/// The items that a capture records: for each copy that was done, in
/// order, the stored path under the path of its source.
pub open spec fn recorded_items(
    jobs: Seq<(Seq<char>, Seq<char>)>,
    copied: Seq<Option<u64>>,
) -> Seq<(Seq<char>, Seq<char>)>
    decreases jobs.len(),
{
    if jobs.len() == 0 {
        Seq::<(Seq<char>, Seq<char>)>::empty()
    } else {
        let before = recorded_items(jobs.drop_last(), copied);
        if bytes_copied(copied, jobs.len() - 1).is_some() {
            with_pair(before, jobs.last().0, jobs.last().1)
        } else {
            before
        }
    }
}

/// The number of bytes written by those of the first `count` copies that
/// were done.
pub open spec fn recorded_size(copied: Seq<Option<u64>>, count: nat) -> nat
    decreases count,
{
    if count == 0 {
        0
    } else {
        recorded_size(copied, (count - 1) as nat) + match bytes_copied(copied, count - 1) {
            Some(bytes) => bytes as nat,
            None => 0,
        }
    }
}

/// The bytes of fewer copies are no more than the bytes of more copies.
pub proof fn lemma_recorded_size_grows(copied: Seq<Option<u64>>, fewer: nat, more: nat)
    requires
        fewer <= more,
    ensures
        recorded_size(copied, fewer) <= recorded_size(copied, more),
    decreases more,
{
    if fewer < more {
        lemma_recorded_size_grows(copied, fewer, (more - 1) as nat);
    }
}

/// What a capture records once its copies have been attempted: under the
/// source of each copy that was done the path of the stored file, and the
/// number of bytes written in all. A failed copy leaves no trace. `copied`
/// holds for each job, at the position of the job, the number of bytes
/// written, or nothing if the copy failed.
pub fn capture_record(jobs: &Vec<CopyJob>, copied: &Vec<Option<u64>>) -> (out: (StrMap, u64))
    requires
        recorded_size(copied@, jobs@.len()) <= u64::MAX,
    ensures
        out.0.wf(),
        out.0.pairs() == recorded_items(job_views(jobs@), copied@),
        out.1 == recorded_size(copied@, jobs@.len()),
{
    let mut items = StrMap::new();
    let mut size: u64 = 0;
    let mut i: usize = 0;
    proof {
        assert(job_views(jobs@).take(0) =~= Seq::<(Seq<char>, Seq<char>)>::empty());
    }
    while i < jobs.len()
        invariant
            i <= jobs.len(),
            items.wf(),
            items.pairs() == recorded_items(job_views(jobs@).take(i as int), copied@),
            size == recorded_size(copied@, i as nat),
            recorded_size(copied@, jobs@.len()) <= u64::MAX,
        decreases jobs.len() - i,
    {
        proof {
            let next = job_views(jobs@).take(i + 1);
            assert(next.drop_last() =~= job_views(jobs@).take(i as int));
            assert(next.last() == jobs@[i as int]@);
            lemma_recorded_size_grows(copied@, (i + 1) as nat, jobs@.len());
        }
        if i < copied.len() {
            match copied[i] {
                Some(bytes) => {
                    items.insert(jobs[i].from.clone(), jobs[i].to.clone());
                    size = size + bytes;
                },
                None => {},
            }
        }
        i += 1;
    }
    proof {
        assert(job_views(jobs@).take(jobs.len() as int) =~= job_views(jobs@));
    }
    (items, size)
}

/// The hooks that a new snapshot is stored with.
pub open spec fn chosen_hooks(
    pre_hook: Option<String>,
    post_hook: Option<String>,
    configured: Option<Hooks>,
) -> Option<Hooks> {
    if pre_hook.is_some() || post_hook.is_some() {
        Some(Hooks { pre_load: pre_hook, post_load: post_hook })
    } else {
        configured
    }
}

/// The hooks that a new snapshot is stored with: the two given for this
/// capture if at least one of them is given, else those of the configuration.
pub fn choose_hooks(
    pre_hook: Option<String>,
    post_hook: Option<String>,
    configured: Option<Hooks>,
) -> (hooks: Option<Hooks>)
    ensures
        hooks == chosen_hooks(pre_hook, post_hook, configured),
{
    if pre_hook.is_some() || post_hook.is_some() {
        Some(Hooks::new(pre_hook, post_hook))
    } else {
        configured
    }
}

/// The copies that restore a snapshot: each stored file goes back to the
/// path it was taken from.
pub open spec fn restore_jobs(items: Seq<(Seq<char>, Seq<char>)>) -> Seq<(Seq<char>, Seq<char>)> {
    items.map_values(|p: (Seq<char>, Seq<char>)| (p.1, p.0))
}

/// The copies that restore the snapshot with the given record, one for each
/// item, in the order of the items.
pub fn restore_plan(meta: &SnapMetaData) -> (jobs: Vec<CopyJob>)
    ensures
        job_views(jobs@) == restore_jobs(meta.items.pairs()),
{
    let mut jobs: Vec<CopyJob> = Vec::new();
    let n = meta.items.len();
    let mut i: usize = 0;
    while i < n
        invariant
            n == meta.items.pairs().len(),
            i <= n,
            jobs@.len() == i,
            forall|k: int|
                0 <= k < i ==> (#[trigger] jobs@[k])@ == (
                    meta.items.pairs()[k].1,
                    meta.items.pairs()[k].0,
                ),
        decreases n - i,
    {
        let job = CopyJob {
            from: meta.items.value_at(i).clone(),
            to: meta.items.key_at(i).clone(),
        };
        jobs.push(job);
        i += 1;
    }
    proof {
        assert(job_views(jobs@) =~= restore_jobs(meta.items.pairs()));
    }
    jobs
}

/// The number of `true` values among the first `count` of `done`.
pub open spec fn count_done(done: Seq<bool>, count: nat) -> nat
    decreases count,
{
    if count == 0 {
        0
    } else {
        count_done(done, (count - 1) as nat) + if 0 <= count - 1 < done.len() && done[count - 1] {
            1nat
        } else {
            0nat
        }
    }
}

/// The report of a restore: how many copies were done, and how many were
/// attempted. `done` holds one value for each copy attempted.
pub fn restore_tally(done: &Vec<bool>) -> (tally: (usize, usize))
    ensures
        tally.0 == count_done(done@, done@.len()),
        tally.1 == done@.len(),
        tally.0 <= tally.1,
{
    let mut succeeded: usize = 0;
    let mut i: usize = 0;
    while i < done.len()
        invariant
            i <= done.len(),
            succeeded == count_done(done@, i as nat),
            succeeded <= i,
        decreases done.len() - i,
    {
        if done[i] {
            succeeded += 1;
        }
        i += 1;
    }
    (succeeded, done.len())
}

/// Whether an answer, already trimmed and in lower case, says yes.
pub open spec fn says_yes(answer: Seq<char>) -> bool {
    answer == seq!['y'] || answer == seq!['y', 'e', 's']
}

/// Whether `answer`, already trimmed and in lower case, says yes: it is
/// `y` or `yes`.
pub fn is_yes(answer: &str) -> (yes: bool)
    ensures
        yes == says_yes(answer@),
{
    proof {
        reveal_strlit("y");
        reveal_strlit("yes");
        assert("y"@ =~= seq!['y']);
        assert("yes"@ =~= seq!['y', 'e', 's']);
    }
    str_eq(answer, "y") || str_eq(answer, "yes")
}

/// Whether the line typed in reply to the question, whether an existing
/// snapshot may be overwritten, allows it. White space around the reply and
/// the case of its letters do not matter; anything but `y` or `yes` declines.
pub fn confirm_overwrite(reply: &str) -> (yes: bool)
    ensures
        yes == says_yes(lowercase(trimmed(reply@))),
{
    let answer = trim_lowercase(reply);
    is_yes(answer.as_str())
}

/// Whether a capture under the name `snap_name` may go ahead: the name is
/// free, or the reply to the question whether the snapshot of that name
/// may be overwritten says yes. Without a reply a registered name is kept.
pub open spec fn capture_allowed(
    log: Map<Seq<char>, Seq<char>>,
    snap_name: Seq<char>,
    reply: Option<Seq<char>>,
) -> bool {
    !log.contains_key(snap_name) || match reply {
        Some(r) => says_yes(lowercase(trimmed(r))),
        None => false,
    }
}

/// Whether a capture under the name `snap_name` may go ahead. `reply` is
/// the line typed in reply to the question whether an existing snapshot may
/// be overwritten, if the question was asked. Where the answer is no, the
/// capture ends at once: nothing is copied and the registry stays as it is.
pub fn may_capture(log: &SnapLog, snap_name: &str, reply: Option<&str>) -> (go: bool)
    ensures
        go == capture_allowed(
            log@,
            snap_name@,
            match reply {
                Some(r) => Some(r@),
                None => None,
            },
        ),
{
    if !log.exist(snap_name) {
        return true;
    }
    match reply {
        Some(r) => confirm_overwrite(r),
        None => false,
    }
}

/// Why a snapshot cannot be renamed.
#[derive(Clone, Copy, Debug, PartialEq, Eq, Structural)]
pub enum RenameError {
    /// No snapshot of the old name is registered.
    UnknownSnap,
    /// The directory of the snapshot has no component that could be replaced.
    NoDirectoryName,
}

/// The move that renames a snapshot.
#[derive(Debug)]
pub struct RenameMove {
    /// The directory of the snapshot as the registry has it.
    pub from: String,
    /// The directory it is to be moved to.
    pub to: String,
}

/// The move that renames a snapshot, or the reason why there is none.
pub open spec fn rename_move(
    log: Map<Seq<char>, Seq<char>>,
    old_name: Seq<char>,
    new_name: Seq<char>,
) -> Result<(Seq<char>, Seq<char>), RenameError> {
    if !log.contains_key(old_name) {
        Err(RenameError::UnknownSnap)
    } else {
        match spec_replace_component(log[old_name], new_name, 1) {
            Some(to) => Ok((log[old_name], to)),
            None => Err(RenameError::NoDirectoryName),
        }
    }
}

/// The move of a directory that renaming the snapshot `old_name` to
/// `new_name` begins with: from the directory that the registry has for
/// it, to the same path with its last component replaced by the new name.
pub fn rename_target(log: &SnapLog, old_name: &str, new_name: &str) -> (out: Result<
    RenameMove,
    RenameError,
>)
    requires
        log.wf(),
    ensures
        match out {
            Ok(m) => rename_move(log@, old_name@, new_name@) == Ok::<
                (Seq<char>, Seq<char>),
                RenameError,
            >((m.from@, m.to@)),
            Err(e) => rename_move(log@, old_name@, new_name@) == Err::<
                (Seq<char>, Seq<char>),
                RenameError,
            >(e),
        },
{
    match log.snaps.get(old_name) {
        None => Err(RenameError::UnknownSnap),
        Some(dir) => match replace_component_in_path(dir.as_str(), new_name, 1) {
            Some(to) => Ok(RenameMove { from: dir.clone(), to }),
            None => Err(RenameError::NoDirectoryName),
        },
    }
}

/// Whether every stored path has the three components that lead from the
/// snapshot's directory to the stored file.
pub open spec fn all_rewritable(items: Seq<(Seq<char>, Seq<char>)>) -> bool {
    forall|i: int| 0 <= i < items.len() ==> components((#[trigger] items[i]).1).len() >= 3
}

/// The items of a renamed snapshot: each source path as before, each stored
/// path with the snapshot's name, its third component from the end,
/// replaced by the new name.
pub open spec fn renamed_items(items: Seq<(Seq<char>, Seq<char>)>, new_name: Seq<char>) -> Seq<
    (Seq<char>, Seq<char>),
> {
    items.map_values(
        |p: (Seq<char>, Seq<char>)| (p.0, spec_replace_component(p.1, new_name, 3).unwrap()),
    )
}

/// Rewrites the stored paths of a record for a snapshot that was renamed to
/// `new_name`. If some stored path has fewer than three components, nothing
/// is changed and the result is `false`.
pub fn rename_items(meta: &mut SnapMetaData, new_name: &str) -> (done: bool)
    requires
        old(meta).wf(),
    ensures
        final(meta).wf(),
        done == all_rewritable(old(meta).items.pairs()),
        done ==> final(meta).items.pairs() == renamed_items(old(meta).items.pairs(), new_name@),
        !done ==> final(meta).items.pairs() == old(meta).items.pairs(),
        final(meta).timestamp == old(meta).timestamp,
        final(meta).size == old(meta).size,
        final(meta).hooks == old(meta).hooks,
{
    let ghost start = meta.items.pairs();
    let n = meta.items.len();
    let mut paths: Vec<String> = Vec::new();
    let mut i: usize = 0;
    while i < n
        invariant
            n == start.len(),
            *meta == *old(meta),
            meta.wf(),
            meta.items.pairs() == start,
            i <= n,
            paths@.len() == i,
            forall|k: int| 0 <= k < i ==> components((#[trigger] start[k]).1).len() >= 3,
            forall|k: int|
                0 <= k < i ==> Some((#[trigger] paths@[k])@) == spec_replace_component(
                    start[k].1,
                    new_name@,
                    3,
                ),
        decreases n - i,
    {
        match replace_component_in_path(meta.items.value_at(i).as_str(), new_name, 3) {
            Some(path) => {
                paths.push(path);
            },
            None => {
                assert(components(start[i as int].1).len() < 3);
                return false;
            },
        }
        i += 1;
    }
    let mut j: usize = 0;
    while j < n
        invariant
            n == start.len(),
            paths@.len() == n,
            j <= n,
            meta.items.wf(),
            meta.items.pairs().len() == n,
            meta.timestamp == old(meta).timestamp,
            meta.size == old(meta).size,
            meta.hooks == old(meta).hooks,
            forall|k: int|
                0 <= k < n ==> Some((#[trigger] paths@[k])@) == spec_replace_component(
                    start[k].1,
                    new_name@,
                    3,
                ),
            forall|k: int|
                0 <= k < j ==> (#[trigger] meta.items.pairs()[k]) == (start[k].0, paths@[k]@),
            forall|k: int| j <= k < n ==> (#[trigger] meta.items.pairs()[k]) == start[k],
        decreases n - j,
    {
        meta.items.set_value_at(j, paths[j].clone());
        j += 1;
    }
    proof {
        assert(meta.items.pairs() =~= renamed_items(start, new_name@));
    }
    true
}

/// Enters a renamed snapshot into the registry: the old name leaves it, and
/// the new name leads to the directory the snapshot was moved to.
pub fn rename_entry(log: &mut SnapLog, old_name: &str, new_name: String, new_dir: String)
    requires
        old(log).wf(),
    ensures
        final(log).wf(),
        final(log)@ == old(log)@.remove(old_name@).insert(new_name@, new_dir@),
{
    log.snaps.remove(old_name);
    log.snaps.insert(new_name, new_dir);
}

/// The command that undoes the move of a snapshot's directory: `mv`, the
/// directory it was moved to, and the directory it came from.
pub fn recovery_command(moved: &RenameMove) -> (command: String)
    ensures
        command@ == seq!['m', 'v', ' '] + moved.to@ + seq![' '] + moved.from@,
{
    proof {
        reveal_strlit("mv ");
        reveal_strlit(" ");
        assert("mv "@ =~= seq!['m', 'v', ' ']);
        assert(" "@ =~= seq![' ']);
    }
    let mut command = String::from_str("mv ");
    command.append(moved.to.as_str());
    command.append(" ");
    command.append(moved.from.as_str());
    command
}

/// Takes the snapshot `snap` out of the registry and returns its directory,
/// which is then to be removed. A name that is not registered changes
/// nothing and returns nothing.
pub fn delete_entry(log: &mut SnapLog, snap: &str) -> (dir: Option<String>)
    requires
        old(log).wf(),
    ensures
        final(log).wf(),
        final(log)@ == old(log)@.remove(snap@),
        !final(log)@.contains_key(snap@),
        dir.is_some() == old(log)@.contains_key(snap@),
        dir matches Some(d) ==> d@ == old(log)@[snap@],
{
    log.snaps.remove(snap)
}

/// The line of a listing for a snapshot of the given name and size: the
/// name, a colon, the size divided by 100 and the unit `kb`.
pub open spec fn listing(name: Seq<char>, size: u64) -> Seq<char> {
    name + seq![':', ' '] + decimal((size / 100) as nat) + seq!['k', 'b']
}

/// The line of a listing for the snapshot `name` with the record `meta`.
pub fn list_line(name: &str, meta: &SnapMetaData) -> (line: String)
    ensures
        line@ == listing(name@, meta.size),
{
    proof {
        reveal_strlit(": ");
        reveal_strlit("kb");
        assert(": "@ =~= seq![':', ' ']);
        assert("kb"@ =~= seq!['k', 'b']);
    }
    let mut line = String::from_str(name);
    line.append(": ");
    let shown = decimal_string(meta.listed_size());
    line.append(shown.as_str());
    line.append("kb");
    line
}

/// Whether the directory at `dir` belongs to no snapshot of the registry:
/// it has a name, and the registry does not hold that name.
pub open spec fn is_orphan(log: Map<Seq<char>, Seq<char>>, dir: Seq<char>) -> bool {
    match spec_file_name(dir) {
        Some(name) => !log.contains_key(name),
        None => false,
    }
}

/// Those of the given directories that belong to no snapshot of the
/// registry, in the order given.
pub open spec fn orphan_dirs(log: Map<Seq<char>, Seq<char>>, dirs: Seq<Seq<char>>) -> Seq<
    Seq<char>,
> {
    dirs.filter(|d: Seq<char>| is_orphan(log, d))
}

/// Those of the given directories that belong to no registered snapshot,
/// in the order given. They are the ones that a clean-up removes.
pub fn orphans(log: &SnapLog, dirs: &Vec<String>) -> (out: Vec<String>)
    ensures
        texts(out@) == orphan_dirs(log@, texts(dirs@)),
{
    let ghost pred = |d: Seq<char>| is_orphan(log@, d);
    let mut out: Vec<String> = Vec::new();
    let mut i: usize = 0;
    proof {
        reveal(Seq::filter);
        assert(texts(dirs@).take(0) =~= Seq::<Seq<char>>::empty());
        assert(texts(out@) =~= Seq::<Seq<char>>::empty());
    }
    while i < dirs.len()
        invariant
            i <= dirs.len(),
            pred == |d: Seq<char>| is_orphan(log@, d),
            texts(out@) == texts(dirs@).take(i as int).filter(pred),
        decreases dirs.len() - i,
    {
        proof {
            reveal(Seq::filter);
            let next = texts(dirs@).take(i + 1);
            assert(next.drop_last() =~= texts(dirs@).take(i as int));
            assert(next.last() == dirs@[i as int]@);
        }
        let orphan = match file_name(dirs[i].as_str()) {
            Some(name) => !log.exist(name.as_str()),
            None => false,
        };
        if orphan {
            let dir = dirs[i].clone();
            proof {
                assert(texts(out@.push(dir)) =~= texts(out@).push(dir@));
            }
            out.push(dir);
        }
        i += 1;
    }
    proof {
        assert(texts(dirs@).take(dirs.len() as int) =~= texts(dirs@));
    }
    out
}

/// One step of a restore.
#[derive(Debug)]
pub enum RestoreStep {
    /// Run the hook of the given type.
    Hook(HookType),
    /// Copy a stored file back to where it was taken from.
    Copy(CopyJob),
}

/// What a step stands for: a hook, or a copy as a pair.
pub open spec fn step_view(step: RestoreStep) -> Result<(Seq<char>, Seq<char>), HookType> {
    match step {
        RestoreStep::Hook(hook_type) => Err(hook_type),
        RestoreStep::Copy(job) => Ok(job@),
    }
}

/// The steps of a list as hooks and pairs, in order.
pub open spec fn step_views(steps: Seq<RestoreStep>) -> Seq<
    Result<(Seq<char>, Seq<char>), HookType>,
> {
    steps.map_values(|s: RestoreStep| step_view(s))
}

/// The step for a hook, if a command is stored for it.
pub open spec fn hook_steps(hooks: Option<Hooks>, hook_type: HookType) -> Seq<
    Result<(Seq<char>, Seq<char>), HookType>,
> {
    if stored_command(hooks, hook_type).is_some() {
        seq![Err(hook_type)]
    } else {
        Seq::empty()
    }
}

/// The steps of a restore: the hook that runs before, if one is stored,
/// then a copy for each item, then the hook that runs after, if one is
/// stored.
pub open spec fn restore_sequence(
    hooks: Option<Hooks>,
    items: Seq<(Seq<char>, Seq<char>)>,
) -> Seq<Result<(Seq<char>, Seq<char>), HookType>> {
    hook_steps(hooks, HookType::Pre) + restore_jobs(items).map_values(
        |j: (Seq<char>, Seq<char>)| Ok::<(Seq<char>, Seq<char>), HookType>(j),
    ) + hook_steps(hooks, HookType::Post)
}

/// The steps that restore the snapshot with the given record, in the order
/// in which they are to be taken. A copy that fails does not stop the rest.
pub fn restore_steps(meta: &SnapMetaData) -> (steps: Vec<RestoreStep>)
    ensures
        step_views(steps@) == restore_sequence(meta.hooks, meta.items.pairs()),
{
    let mut steps: Vec<RestoreStep> = Vec::new();
    if hook_stored(&meta.hooks, HookType::Pre) {
        steps.push(RestoreStep::Hook(HookType::Pre));
    }
    let ghost lead = step_views(steps@);
    let ghost copies = restore_jobs(meta.items.pairs()).map_values(
        |j: (Seq<char>, Seq<char>)| Ok::<(Seq<char>, Seq<char>), HookType>(j),
    );
    proof {
        assert(lead =~= hook_steps(meta.hooks, HookType::Pre));
    }
    let n = meta.items.len();
    let mut i: usize = 0;
    proof {
        assert(lead + copies.take(0) =~= lead);
    }
    while i < n
        invariant
            n == meta.items.pairs().len(),
            n == copies.len(),
            i <= n,
            copies == restore_jobs(meta.items.pairs()).map_values(
                |j: (Seq<char>, Seq<char>)| Ok::<(Seq<char>, Seq<char>), HookType>(j),
            ),
            step_views(steps@) == lead + copies.take(i as int),
        decreases n - i,
    {
        let job = CopyJob {
            from: meta.items.value_at(i).clone(),
            to: meta.items.key_at(i).clone(),
        };
        proof {
            assert(step_views(steps@.push(RestoreStep::Copy(job))) =~= (lead + copies.take(
                i as int,
            )).push(Ok(job@)));
            assert((lead + copies.take(i as int)).push(copies[i as int]) =~= lead + copies.take(
                i + 1,
            ));
        }
        steps.push(RestoreStep::Copy(job));
        i += 1;
    }
    proof {
        assert(copies.take(n as int) =~= copies);
    }
    if hook_stored(&meta.hooks, HookType::Post) {
        proof {
            assert(step_views(steps@.push(RestoreStep::Hook(HookType::Post))) =~= (lead
                + copies).push(Err(HookType::Post)));
            assert((lead + copies).push(Err(HookType::Post)) =~= lead + copies + hook_steps(
                meta.hooks,
                HookType::Post,
            ));
        }
        steps.push(RestoreStep::Hook(HookType::Post));
    } else {
        proof {
            assert(lead + copies + hook_steps(meta.hooks, HookType::Post) =~= lead + copies);
        }
    }
    steps
}

/// The files that hold the records of the registered snapshots, in the
/// order of the registry: in each snapshot's directory the file `snap.json`.
pub fn list_targets(log: &SnapLog) -> (files: Vec<String>)
    ensures
        texts(files@) == log.snaps.pairs().map_values(
            |p: (Seq<char>, Seq<char>)| push_path(p.1, "snap.json"@),
        ),
{
    let mut files: Vec<String> = Vec::new();
    let n = log.snaps.len();
    let mut i: usize = 0;
    while i < n
        invariant
            n == log.snaps.pairs().len(),
            i <= n,
            files@.len() == i,
            forall|k: int|
                0 <= k < i ==> (#[trigger] files@[k])@ == push_path(
                    log.snaps.pairs()[k].1,
                    "snap.json"@,
                ),
        decreases n - i,
    {
        files.push(join(log.snaps.value_at(i).as_str(), "snap.json"));
        i += 1;
    }
    proof {
        assert(texts(files@) =~= log.snaps.pairs().map_values(
            |p: (Seq<char>, Seq<char>)| push_path(p.1, "snap.json"@),
        ));
    }
    files
}

/// The size recorded for the snapshot at position `at`, if its record
/// could be read.
pub open spec fn size_read(records: Seq<Option<SnapMetaData>>, at: int) -> Option<u64> {
    if 0 <= at < records.len() {
        match records[at] {
            Some(meta) => Some(meta.size),
            None => None,
        }
    } else {
        None
    }
}

/// The lines of a listing of the first `count` snapshots of a registry:
/// one line for each snapshot whose record could be read, in the order of
/// the registry. A snapshot whose record could not be read has no line.
pub open spec fn listing_lines(
    snaps: Seq<(Seq<char>, Seq<char>)>,
    records: Seq<Option<SnapMetaData>>,
    count: nat,
) -> Seq<Seq<char>>
    decreases count,
{
    if count == 0 || count > snaps.len() {
        Seq::<Seq<char>>::empty()
    } else {
        let before = listing_lines(snaps, records, (count - 1) as nat);
        match size_read(records, count - 1) {
            Some(size) => before.push(listing(snaps[count - 1].0, size)),
            None => before,
        }
    }
}

/// The lines of a listing of the registry. `records` holds for each
/// snapshot, at its position in the registry, the record read from the
/// file that `list_targets` names for it, or nothing if it could not be
/// read.
pub fn list_lines(log: &SnapLog, records: &Vec<Option<SnapMetaData>>) -> (out: Vec<String>)
    ensures
        texts(out@) == listing_lines(log.snaps.pairs(), records@, log.snaps.pairs().len()),
{
    let mut out: Vec<String> = Vec::new();
    let n = log.snaps.len();
    let mut i: usize = 0;
    proof {
        assert(texts(out@) =~= Seq::<Seq<char>>::empty());
    }
    while i < n
        invariant
            n == log.snaps.pairs().len(),
            i <= n,
            texts(out@) == listing_lines(log.snaps.pairs(), records@, i as nat),
        decreases n - i,
    {
        if i < records.len() {
            match &records[i] {
                Some(meta) => {
                    let line = list_line(log.snaps.key_at(i).as_str(), meta);
                    proof {
                        assert(texts(out@.push(line)) =~= texts(out@).push(line@));
                    }
                    out.push(line);
                },
                None => {},
            }
        }
        i += 1;
    }
    out
}

/// The file that holds the record of the snapshot to restore: none where
/// no snapshot of that name is registered, else the file `snap.json` in the
/// directory of that name inside `snaps_dir`.
pub open spec fn restore_source(
    log: Map<Seq<char>, Seq<char>>,
    snaps_dir: Seq<char>,
    snap_name: Seq<char>,
) -> Option<Seq<char>> {
    if log.contains_key(snap_name) {
        Some(push_path(push_path(snaps_dir, snap_name), "snap.json"@))
    } else {
        None
    }
}

/// The file from which a restore of the snapshot `snap_name` reads its
/// record. A name that is not registered is refused.
pub fn restore_record(log: &SnapLog, snaps_dir: &str, snap_name: &str) -> (file: Option<String>)
    ensures
        match file {
            Some(f) => restore_source(log@, snaps_dir@, snap_name@) == Some(f@),
            None => restore_source(log@, snaps_dir@, snap_name@).is_none(),
        },
{
    if log.exist(snap_name) {
        let dir = join(snaps_dir, snap_name);
        Some(join(dir.as_str(), "snap.json"))
    } else {
        None
    }
}

/// A step of a renaming that comes after the move of the directory.
#[derive(Clone, Copy, Debug, PartialEq, Eq, Structural)]
pub enum RenameStep {
    /// Reading the record in the directory the snapshot was moved to.
    LoadMetadata,
    /// Rewriting the stored paths of the record.
    RewriteItems,
    /// Writing the record back.
    SaveMetadata,
    /// Writing the registry with the new name.
    SaveRegistry,
}

/// What is owed when a step of a renaming fails after the directory was
/// moved: the command that moves the directory back, to be shown to the
/// user, and whether the program is to end with a status other than zero,
/// which it always is. Nothing is undone by the program itself.
pub fn rename_failure(step: RenameStep, moved: &RenameMove) -> (out: (String, bool))
    ensures
        out.0@ == seq!['m', 'v', ' '] + moved.to@ + seq![' '] + moved.from@,
        out.1,
{
    (recovery_command(moved), true)
}

/// What a deletion does next.
#[derive(Clone, Copy, Debug, PartialEq, Eq, Structural)]
pub enum DeleteAction {
    /// Write the registry, from which the snapshot's name was taken.
    SaveRegistry,
    /// Remove the directory of the snapshot with all that is in it.
    RemoveDir,
    /// Give up: a step failed.
    Fail,
    /// Nothing is left to do.
    Done,
}

/// The next step of a deletion, after the snapshot's name was taken out of
/// the registry in memory. `saved` tells whether writing the registry was
/// tried and how it went, `removed` the same of removing the directory.
/// The registry is written first; the directory is removed only once the
/// registry is written; a failed step ends the deletion.
pub open spec fn delete_step(saved: Option<bool>, removed: Option<bool>) -> DeleteAction {
    match saved {
        None => DeleteAction::SaveRegistry,
        Some(false) => DeleteAction::Fail,
        Some(true) => match removed {
            None => DeleteAction::RemoveDir,
            Some(false) => DeleteAction::Fail,
            Some(true) => DeleteAction::Done,
        },
    }
}

/// The next step of a deletion.
pub fn delete_next(saved: Option<bool>, removed: Option<bool>) -> (next: DeleteAction)
    ensures
        next == delete_step(saved, removed),
{
    match saved {
        None => DeleteAction::SaveRegistry,
        Some(false) => DeleteAction::Fail,
        Some(true) => match removed {
            None => DeleteAction::RemoveDir,
            Some(false) => DeleteAction::Fail,
            Some(true) => DeleteAction::Done,
        },
    }
}

/// The number of directories that a clean-up removed. `removed` holds for
/// each directory that was to be removed whether it was.
pub fn clean_tally(removed: &Vec<bool>) -> (n: usize)
    ensures
        n == count_done(removed@, removed@.len()),
{
    restore_tally(removed).0
}

} // verus!
