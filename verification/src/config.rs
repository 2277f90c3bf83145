//! The configuration of a capture: named modules, each a list of patterns
//! that say which files belong to it, and the hooks to store with a snapshot.

use vstd::prelude::*;
use vstd::string::*;
use crate::hooks::Hooks;
use crate::text::{str_eq, texts};

verus! {

/// Whether `glob::glob` accepts the pattern, that is, returns no
/// `PatternError` for it.
pub uninterp spec fn glob_accepts(pattern: Seq<char>) -> bool;

/// Whether the pattern is one that files can be searched with.
///
/// Calls `glob::glob` and tells whether it returned a search or a
/// `PatternError`. The call parses the pattern and each of its components,
/// and it asks the file system whether the place where the search would
/// start is a directory; the search itself is not walked. Whether a
/// `PatternError` comes back depends on the text of the pattern alone. The
/// contract only gives that answer its name.
#[verifier::external_body]
fn pattern_accepted(pattern: &str) -> (ok: bool)
    ensures
        ok == glob_accepts(pattern@),
{
    glob::glob(pattern).is_ok()
}

/// One entry that a search with a pattern came upon.
#[derive(Debug)]
pub enum GlobEntry {
    /// An entry that could not be read.
    Unreadable,
    /// An entry at `path`; `is_file` tells whether it is a regular file.
    Found { path: String, is_file: bool },
}

/// Why a configuration cannot be used.
#[derive(Clone, Copy, Debug, PartialEq, Eq, Structural)]
pub enum ConfigError {
    /// The pattern at position `index` of a module is malformed.
    MalformedPattern { index: usize },
}

/// A named unit of capture.
#[derive(Debug)]
pub struct ModuleConfig {
    /// The patterns of the files that belong to the module.
    pub patterns: Vec<String>,
    pub description: Option<String>,
}

/// The paths of the regular files among the given entries, in order.
pub open spec fn files_among(entries: Seq<GlobEntry>) -> Seq<Seq<char>>
    decreases entries.len(),
{
    if entries.len() == 0 {
        Seq::<Seq<char>>::empty()
    } else {
        let before = files_among(entries.drop_last());
        match entries.last() {
            GlobEntry::Found { path, is_file } => if is_file {
                before.push(path@)
            } else {
                before
            },
            GlobEntry::Unreadable => before,
        }
    }
}

/// The paths of the regular files among the entries found for each pattern,
/// pattern after pattern. A file found for two patterns occurs twice.
pub open spec fn files_found(found: Seq<Vec<GlobEntry>>) -> Seq<Seq<char>>
    decreases found.len(),
{
    if found.len() == 0 {
        Seq::<Seq<char>>::empty()
    } else {
        files_found(found.drop_last()) + files_among(found.last()@)
    }
}

/// The position of the first `false` among `accepted`, if there is one.
pub open spec fn first_false(accepted: Seq<bool>) -> Option<int>
    decreases accepted.len(),
{
    if accepted.len() == 0 {
        None
    } else {
        match first_false(accepted.drop_last()) {
            Some(i) => Some(i),
            None => if accepted.last() {
                None
            } else {
                Some(accepted.len() - 1)
            },
        }
    }
}

/// The first `false` stands where no `false` stands before it.
pub proof fn lemma_first_false(accepted: Seq<bool>)
    ensures
        match first_false(accepted) {
            Some(i) => 0 <= i < accepted.len() && !accepted[i] && forall|k: int|
                0 <= k < i ==> #[trigger] accepted[k],
            None => forall|k: int| 0 <= k < accepted.len() ==> #[trigger] accepted[k],
        },
    decreases accepted.len(),
{
    if accepted.len() > 0 {
        lemma_first_false(accepted.drop_last());
        assert forall|k: int| 0 <= k < accepted.len() - 1 implies accepted.drop_last()[k]
            == accepted[k] by {}
        match first_false(accepted.drop_last()) {
            Some(i) => {
                assert(accepted.drop_last()[i] == accepted[i]);
                assert forall|k: int| 0 <= k < i implies #[trigger] accepted[k] by {
                    assert(accepted.drop_last()[k]);
                }
            },
            None => {
                assert forall|k: int| 0 <= k < accepted.len() - 1 implies #[trigger] accepted[k] by {
                    assert(accepted.drop_last()[k]);
                }
            },
        }
    }
}

/// The position of the first pattern that was not accepted, if there is
/// one. `accepted` tells for each pattern whether it was.
pub fn first_rejected(accepted: &Vec<bool>) -> (at: Option<usize>)
    ensures
        match at {
            Some(i) => first_false(accepted@) == Some(i as int),
            None => first_false(accepted@).is_none(),
        },
{
    let mut i: usize = 0;
    proof {
        assert(accepted@.take(0) =~= Seq::<bool>::empty());
    }
    while i < accepted.len()
        invariant
            i <= accepted.len(),
            first_false(accepted@.take(i as int)).is_none(),
        decreases accepted.len() - i,
    {
        proof {
            let next = accepted@.take(i + 1);
            assert(next.drop_last() =~= accepted@.take(i as int));
            assert(next.last() == accepted@[i as int]);
        }
        if !accepted[i] {
            proof {
                lemma_first_false_prefix(accepted@, i + 1);
            }
            return Some(i);
        }
        i += 1;
    }
    proof {
        assert(accepted@.take(accepted.len() as int) =~= accepted@);
    }
    None
}

/// A first `false` found in a prefix is the first `false` of the whole.
proof fn lemma_first_false_prefix(accepted: Seq<bool>, len: int)
    requires
        0 <= len <= accepted.len(),
        first_false(accepted.take(len)).is_some(),
    ensures
        first_false(accepted) == first_false(accepted.take(len)),
    decreases accepted.len() - len,
{
    if len < accepted.len() {
        assert(accepted.take(len + 1).drop_last() =~= accepted.take(len));
        lemma_first_false_prefix(accepted, len + 1);
    } else {
        assert(accepted.take(len) =~= accepted);
    }
}

/// The files of a module, or the error of its first malformed pattern.
pub open spec fn items_found(accepted: Seq<bool>, found: Seq<Vec<GlobEntry>>) -> Result<
    Seq<Seq<char>>,
    ConfigError,
> {
    match first_false(accepted) {
        Some(i) => Err(ConfigError::MalformedPattern { index: i as usize }),
        None => Ok(files_found(found)),
    }
}

/// The files of a module whose patterns were accepted as `accepted` tells
/// and for whose patterns the entries `found` were found: the regular files
/// among them, pattern after pattern, unless a pattern was not accepted.
pub fn resolve_items(accepted: &Vec<bool>, found: &Vec<Vec<GlobEntry>>) -> (out: Result<
    Vec<String>,
    ConfigError,
>)
    ensures
        match out {
            Ok(files) => items_found(accepted@, found@) == Ok::<Seq<Seq<char>>, ConfigError>(
                texts(files@),
            ),
            Err(e) => items_found(accepted@, found@) == Err::<Seq<Seq<char>>, ConfigError>(e),
        },
{
    proof {
        lemma_first_false(accepted@);
    }
    match first_rejected(accepted) {
        Some(index) => Err(ConfigError::MalformedPattern { index }),
        None => Ok(regular_files(found)),
    }
}

/// For each pattern, whether `glob::glob` accepts it.
pub open spec fn accepted_patterns(patterns: Seq<String>) -> Seq<bool> {
    patterns.map_values(|p: String| glob_accepts(p@))
}

impl ModuleConfig {
    /// For each pattern of the module, whether it is well formed.
    pub fn check_patterns(&self) -> (accepted: Vec<bool>)
        ensures
            accepted@ == accepted_patterns(self.patterns@),
    {
        let mut accepted: Vec<bool> = Vec::new();
        let mut i: usize = 0;
        while i < self.patterns.len()
            invariant
                i <= self.patterns.len(),
                accepted@.len() == i,
                forall|k: int| 0 <= k < i ==> accepted@[k] == glob_accepts(self.patterns@[k]@),
            decreases self.patterns.len() - i,
        {
            accepted.push(pattern_accepted(self.patterns[i].as_str()));
            i += 1;
        }
        proof {
            assert(accepted@ =~= accepted_patterns(self.patterns@));
        }
        accepted
    }

    /// The position of the first pattern of the module that is malformed.
    pub fn malformed_pattern(&self) -> (at: Option<usize>)
        ensures
            match at {
                Some(i) => first_false(accepted_patterns(self.patterns@)) == Some(i as int),
                None => first_false(accepted_patterns(self.patterns@)).is_none(),
            },
    {
        first_rejected(&self.check_patterns())
    }

    /// The files of the module: the regular files among the entries found
    /// for its patterns, pattern after pattern. Directories and unreadable
    /// entries are passed over. `found` holds the entries found for each
    /// pattern. A malformed pattern is an error, whatever was found.
    pub fn get_item_paths(&self, found: &Vec<Vec<GlobEntry>>) -> (out: Result<
        Vec<String>,
        ConfigError,
    >)
        ensures
            match out {
                Ok(files) => items_found(accepted_patterns(self.patterns@), found@) == Ok::<
                    Seq<Seq<char>>,
                    ConfigError,
                >(texts(files@)),
                Err(e) => items_found(accepted_patterns(self.patterns@), found@) == Err::<
                    Seq<Seq<char>>,
                    ConfigError,
                >(e),
            },
    {
        resolve_items(&self.check_patterns(), found)
    }
}

/// Appends to `out` the paths of the regular files among `entries`.
fn collect_files(entries: &Vec<GlobEntry>, out: &mut Vec<String>)
    ensures
        texts(final(out)@) == texts(old(out)@) + files_among(entries@),
{
    let ghost start = texts(out@);
    let mut i: usize = 0;
    proof {
        assert(entries@.take(0) =~= Seq::<GlobEntry>::empty());
        assert(start + files_among(entries@.take(0)) =~= start);
    }
    while i < entries.len()
        invariant
            i <= entries.len(),
            texts(out@) == start + files_among(entries@.take(i as int)),
        decreases entries.len() - i,
    {
        let ghost done = files_among(entries@.take(i as int));
        proof {
            let next = entries@.take(i + 1);
            assert(next.drop_last() =~= entries@.take(i as int));
            assert(next.last() == entries@[i as int]);
        }
        match &entries[i] {
            GlobEntry::Found { path, is_file } => {
                if *is_file {
                    let file = path.clone();
                    proof {
                        assert(texts(out@.push(file)) =~= texts(out@).push(file@));
                        assert((start + done).push(file@) =~= start + done.push(file@));
                    }
                    out.push(file);
                }
            },
            GlobEntry::Unreadable => {},
        }
        i += 1;
    }
    proof {
        assert(entries@.take(entries.len() as int) =~= entries@);
    }
}

/// The paths of the regular files among the entries found for each pattern.
pub fn regular_files(found: &Vec<Vec<GlobEntry>>) -> (files: Vec<String>)
    ensures
        texts(files@) == files_found(found@),
{
    let mut files: Vec<String> = Vec::new();
    let mut i: usize = 0;
    proof {
        assert(found@.take(0) =~= Seq::<Vec<GlobEntry>>::empty());
        assert(texts(files@) =~= Seq::<Seq<char>>::empty());
    }
    while i < found.len()
        invariant
            i <= found.len(),
            texts(files@) == files_found(found@.take(i as int)),
        decreases found.len() - i,
    {
        proof {
            let next = found@.take(i + 1);
            assert(next.drop_last() =~= found@.take(i as int));
            assert(next.last() == found@[i as int]);
        }
        collect_files(&found[i], &mut files);
        i += 1;
    }
    proof {
        assert(found@.take(found.len() as int) =~= found@);
    }
    files
}

/// A module together with its name.
#[derive(Debug)]
pub struct NamedModule {
    pub name: String,
    pub module: ModuleConfig,
}

/// The configuration of a capture: modules under distinct names, in the
/// order in which their names were first entered, and the hooks to store
/// with the snapshot unless others are given for the capture.
#[derive(Debug)]
pub struct SnapConfig {
    pub modules: Vec<NamedModule>,
    pub hooks: Option<Hooks>,
}

impl SnapConfig {
    /// The modules of the configuration with their names, in order.
    pub open spec fn entries(&self) -> Seq<NamedModule> {
        self.modules@
    }

    /// The invariant of the type: no two modules have the same name.
    pub open spec fn wf(&self) -> bool {
        forall|i: int, j: int|
            0 <= i < j < self.entries().len() ==> (#[trigger] self.entries()[i]).name@ != (
            #[trigger] self.entries()[j]).name@
    }

    /// A configuration without modules.
    pub fn new(hooks: Option<Hooks>) -> (config: SnapConfig)
        ensures
            config.wf(),
            config.entries().len() == 0,
            config.hooks == hooks,
    {
        SnapConfig { modules: Vec::new(), hooks }
    }

    /// The number of modules.
    pub fn module_count(&self) -> (n: usize)
        ensures
            n == self.entries().len(),
    {
        self.modules.len()
    }

    /// The module at position `at`, with its name.
    pub fn module_at(&self, at: usize) -> (entry: &NamedModule)
        requires
            at < self.entries().len(),
        ensures
            *entry == self.entries()[at as int],
    {
        &self.modules[at]
    }

    /// The position of the module with the given name, if there is one.
    pub fn position(&self, name: &str) -> (at: Option<usize>)
        ensures
            match at {
                Some(i) => i < self.entries().len() && self.entries()[i as int].name@ == name@,
                None => forall|k: int|
                    0 <= k < self.entries().len() ==> (#[trigger] self.entries()[k]).name@
                        != name@,
            },
    {
        let mut i: usize = 0;
        while i < self.modules.len()
            invariant
                i <= self.modules.len(),
                forall|k: int| 0 <= k < i ==> (#[trigger] self.entries()[k]).name@ != name@,
            decreases self.modules.len() - i,
        {
            if str_eq(self.modules[i].name.as_str(), name) {
                return Some(i);
            }
            i += 1;
        }
        None
    }

    /// The first module that has a malformed pattern, and the position of
    /// its first malformed pattern, if there is such a module.
    pub fn malformed_module(&self) -> (at: Option<(usize, usize)>)
        ensures
            match at {
                Some((m, p)) => m < self.entries().len() && first_false(
                    accepted_patterns(self.entries()[m as int].module.patterns@),
                ) == Some(p as int) && forall|k: int|
                    0 <= k < m ==> first_false(
                        accepted_patterns((#[trigger] self.entries()[k]).module.patterns@),
                    ).is_none(),
                None => forall|k: int|
                    0 <= k < self.entries().len() ==> first_false(
                        accepted_patterns((#[trigger] self.entries()[k]).module.patterns@),
                    ).is_none(),
            },
    {
        let mut i: usize = 0;
        while i < self.modules.len()
            invariant
                i <= self.modules.len(),
                forall|k: int|
                    0 <= k < i ==> first_false(
                        accepted_patterns((#[trigger] self.entries()[k]).module.patterns@),
                    ).is_none(),
            decreases self.modules.len() - i,
        {
            match self.modules[i].module.malformed_pattern() {
                Some(p) => {
                    return Some((i, p));
                },
                None => {},
            }
            i += 1;
        }
        None
    }

    /// Enters a module under a name. A module that is already there under
    /// that name is replaced and keeps its place; a new name goes to the end.
    pub fn insert_module(&mut self, name: String, module: ModuleConfig)
        requires
            old(self).wf(),
        ensures
            final(self).wf(),
            final(self).hooks == old(self).hooks,
            final(self).entries() == match choose_position(old(self).entries(), name@) {
                Some(i) => old(self).entries().update(i, NamedModule { name, module }),
                None => old(self).entries().push(NamedModule { name, module }),
            },
    {
        let ghost start = self.entries();
        match self.position(name.as_str()) {
            Some(i) => {
                proof {
                    lemma_choose_position(start, i as int);
                }
                self.modules.set(i, NamedModule { name, module });
            },
            None => {
                self.modules.push(NamedModule { name, module });
            },
        }
    }
}

/// The position of a module with the given name among `entries`, if one
/// has it.
pub open spec fn choose_position(entries: Seq<NamedModule>, name: Seq<char>) -> Option<int> {
    if exists|i: int| 0 <= i < entries.len() && (#[trigger] entries[i]).name@ == name {
        Some(choose|i: int| 0 <= i < entries.len() && (#[trigger] entries[i]).name@ == name)
    } else {
        None
    }
}

/// Where names are distinct, a name is found at the one place where it
/// stands.
proof fn lemma_choose_position(entries: Seq<NamedModule>, at: int)
    requires
        0 <= at < entries.len(),
        forall|i: int, j: int|
            0 <= i < j < entries.len() ==> (#[trigger] entries[i]).name@ != (
            #[trigger] entries[j]).name@,
    ensures
        choose_position(entries, entries[at].name@) == Some(at),
{
    let name = entries[at].name@;
    assert(entries[at].name@ == name);
    let found = choose|i: int| 0 <= i < entries.len() && (#[trigger] entries[i]).name@ == name;
    if found < at {
        assert(entries[found].name@ != entries[at].name@);
    }
    if at < found {
        assert(entries[at].name@ != entries[found].name@);
    }
}

} // verus!
