//! Locating manifests: a depth-bounded walk over a directory tree that the
//! caller lists one directory at a time.
//!
//! The locator keeps the directories that are still to be listed and the
//! manifests found so far. The caller asks which directory is next, lists it,
//! and hands the listing back. The depth bound is the only thing that ends a
//! walk through directories that lead back into themselves.

use crate::path::{PathView, RelPath};
use crate::course::lemma_absorb_keeps_wf;
use vstd::prelude::*;
use vstd::string::StringExecFns;

verus! {

/// What a directory entry leads to, links followed.
#[derive(Debug, Clone, Copy, PartialEq, Eq, Structural)]
pub enum EntryKind {
    Directory,
    File,
    /// Neither of the two: a link that leads nowhere, a socket, a device.
    Other,
}

/// One entry of a directory listing.
#[derive(Debug)]
pub struct DirEntry {
    pub name: String,
    pub kind: EntryKind,
}

/// An entry as its name and kind.
pub struct EntryView {
    pub name: Seq<char>,
    pub kind: EntryKind,
}

impl View for DirEntry {
    type V = EntryView;

    open spec fn view(&self) -> EntryView {
        EntryView { name: self.name@, kind: self.kind }
    }
}

/// The entries of a listing, each as its view.
pub open spec fn entry_views(entries: Seq<DirEntry>) -> Seq<EntryView> {
    entries.map_values(|e: DirEntry| e@)
}

/// The paths of a list, each as its components.
pub open spec fn path_views(paths: Seq<RelPath>) -> Seq<PathView> {
    paths.map_values(|p: RelPath| p@)
}

/// The file name that makes a file a manifest.
pub open spec fn manifest_name() -> Seq<char> {
    "package.json"@
}

/// What a walk is told: the directory names it must not enter, and how deep
/// it may look. The entries of the root lie at depth 1.
#[derive(Debug)]
pub struct LocatorConfig {
    pub exclude: Vec<String>,
    pub max_depth: u32,
}

/// A configuration as a sequence of names and a number.
pub struct ConfigView {
    pub exclude: Seq<Seq<char>>,
    pub max_depth: nat,
}

impl View for LocatorConfig {
    type V = ConfigView;

    open spec fn view(&self) -> ConfigView {
        ConfigView {
            exclude: Seq::new(self.exclude@.len(), |i: int| self.exclude@[i]@),
            max_depth: self.max_depth as nat,
        }
    }
}

impl ConfigView {
    /// Whether `name` is, letter for letter, one of the excluded names.
    pub open spec fn excludes(self, name: Seq<char>) -> bool {
        self.exclude.contains(name)
    }

    /// Whether none of the directories along `dir` bears an excluded name.
    pub open spec fn clear(self, dir: PathView) -> bool {
        forall|k: int| 0 <= k < dir.len() ==> !self.excludes(#[trigger] dir[k])
    }

    /// Whether a walk may list `dir`: its entries lie within the depth bound
    /// and no directory on the way to them is excluded.
    pub open spec fn may_list(self, dir: PathView) -> bool {
        dir.len() < self.max_depth && self.clear(dir)
    }

    /// Whether a walk may report `file`: a manifest by its name, within the
    /// depth bound, below no excluded directory.
    pub open spec fn may_report(self, file: PathView) -> bool {
        &&& 1 <= file.len() <= self.max_depth
        &&& file.last() == manifest_name()
        &&& self.clear(file.drop_last())
    }

    /// Whether a walk enters the directory entry `entry`.
    pub open spec fn enters(self, entry: EntryView) -> bool {
        entry.kind == EntryKind::Directory && !self.excludes(entry.name)
    }
}

/// Whether `entry` is a manifest: a file of that exact name.
pub open spec fn is_manifest(entry: EntryView) -> bool {
    entry.kind == EntryKind::File && entry.name == manifest_name()
}

/// Whether the path names an excluded directory: its last component is an
/// excluded name. The root has no name and is never excluded.
pub open spec fn excluded_path(config: ConfigView, path: PathView) -> bool {
    path.len() > 0 && config.excludes(path.last())
}

/// What an entry of `dir` adds to the manifests: its path if it is one.
pub open spec fn manifest_at(dir: PathView) -> spec_fn(EntryView) -> Option<PathView> {
    |e: EntryView|
        if is_manifest(e) {
            Some(dir.push(e.name))
        } else {
            None
        }
}

/// What an entry of `dir` adds to the directories to walk: its path if the
/// walk enters it.
pub open spec fn subdir_at(config: ConfigView, dir: PathView) -> spec_fn(EntryView) -> Option<
    PathView,
> {
    |e: EntryView|
        if config.enters(e) {
            Some(dir.push(e.name))
        } else {
            None
        }
}

/// The manifests that the listing `entries` of `dir` holds, in its order.
pub open spec fn manifests_in(dir: PathView, entries: Seq<EntryView>) -> Seq<PathView> {
    entries.filter_map(manifest_at(dir))
}

/// The directories that a walk enters from the listing `entries` of `dir`,
/// in its order.
pub open spec fn subdirs_in(config: ConfigView, dir: PathView, entries: Seq<EntryView>) -> Seq<
    PathView,
> {
    entries.filter_map(subdir_at(config, dir))
}

impl Default for LocatorConfig {
    /// The launcher's own setting: `node_modules` is not entered, and the walk
    /// looks four levels deep.
    fn default() -> (out: LocatorConfig)
        ensures
            out@.exclude == seq!["node_modules"@],
            out@.max_depth == 4,
    {
        let mut exclude: Vec<String> = Vec::new();
        exclude.push(String::from_str("node_modules"));
        let out = LocatorConfig { exclude, max_depth: 4 };
        out
    }
}

impl LocatorConfig {
    /// Whether `name` is one of the excluded names.
    pub fn excludes(&self, name: &String) -> (out: bool)
        ensures
            out == self@.excludes(name@),
    {
        let mut i: usize = 0;
        while i < self.exclude.len()
            invariant
                i <= self.exclude.len(),
                forall|k: int| 0 <= k < i ==> self@.exclude[k] != name@,
            decreases self.exclude.len() - i,
        {
            if self.exclude[i] == *name {
                assert(self@.exclude[i as int] == name@);
                return true;
            }
            i += 1;
        }
        false
    }
}

/// Whether the directory at `path` is to be left out of a walk.
pub fn is_excluded_dir(path: &RelPath, config: &LocatorConfig) -> (out: bool)
    ensures
        out == excluded_path(config@, path@),
{
    match path.file_name() {
        Some(name) => config.excludes(name),
        None => false,
    }
}

/// A walk as the directories still to be listed and the manifests found so
/// far. The last pending directory is the next to be listed.
pub struct LocatorView {
    pub config: ConfigView,
    pub pending: Seq<PathView>,
    pub found: Seq<PathView>,
}

impl LocatorView {
    /// What holds of every walk, from its start to its end: each pending
    /// directory may be listed and each manifest found may be reported.
    pub open spec fn wf(self) -> bool {
        &&& forall|i: int|
            0 <= i < self.pending.len() ==> self.config.may_list(#[trigger] self.pending[i])
        &&& forall|i: int|
            0 <= i < self.found.len() ==> self.config.may_report(#[trigger] self.found[i])
    }

    /// The walk at its start: nothing found, and the root pending unless the
    /// depth bound is zero.
    pub open spec fn start(config: ConfigView) -> LocatorView {
        LocatorView {
            config,
            pending: if config.max_depth >= 1 {
                seq![PathView::empty()]
            } else {
                Seq::empty()
            },
            found: Seq::empty(),
        }
    }

    /// The walk after the listing `entries` of its next directory: the
    /// manifests of the listing are found, and the directories it enters are
    /// pending in place of the one listed, the first of them next. Directories
    /// whose own entries would lie beyond the depth bound are not taken up.
    /// A walk with nothing pending stays as it is.
    pub open spec fn absorb(self, entries: Seq<EntryView>) -> LocatorView {
        if self.pending.len() == 0 {
            self
        } else {
            let dir = self.pending.last();
            LocatorView {
                config: self.config,
                pending: self.pending.drop_last() + if dir.len() + 1 < self.config.max_depth {
                    subdirs_in(self.config, dir, entries).reverse()
                } else {
                    Seq::empty()
                },
                found: self.found + manifests_in(dir, entries),
            }
        }
    }
}

/// A walk in progress.
pub struct Locator {
    config: LocatorConfig,
    manifest: String,
    pending: Vec<RelPath>,
    found: Vec<RelPath>,
}

impl View for Locator {
    type V = LocatorView;

    closed spec fn view(&self) -> LocatorView {
        LocatorView {
            config: self.config@,
            pending: path_views(self.pending@),
            found: path_views(self.found@),
        }
    }
}

impl Locator {
    #[verifier::type_invariant]
    spec fn inv(self) -> bool {
        self@.wf() && self.manifest@ == manifest_name()
    }

    /// Starts a walk at the root.
    pub fn new(config: LocatorConfig) -> (out: Locator)
        ensures
            out@ == LocatorView::start(config@),
    {
        let mut pending: Vec<RelPath> = Vec::new();
        if config.max_depth >= 1 {
            pending.push(RelPath::root());
        }
        let out = Locator {
            config,
            manifest: String::from_str("package.json"),
            pending,
            found: Vec::new(),
        };
        assert(out@.pending =~= LocatorView::start(config@).pending);
        assert(out@.found =~= LocatorView::start(config@).found);
        out
    }

    /// The directory to list next, or `None` when the walk is over.
    pub fn next_dir(&self) -> (out: Option<&RelPath>)
        ensures
            match out {
                Some(dir) => self@.pending.len() > 0 && dir@ == self@.pending.last()
                    && self@.config.may_list(dir@),
                None => self@.pending.len() == 0,
            },
    {
        proof {
            use_type_invariant(self);
        }
        let n: usize = self.pending.len();
        if n == 0 {
            None
        } else {
            assert(self@.pending[n - 1] == self.pending@[n - 1]@);
            Some(&self.pending[n - 1])
        }
    }

    /// Whether the walk is over: no directory is left to list.
    pub fn is_done(&self) -> (out: bool)
        ensures
            out == (self@.pending.len() == 0),
    {
        self.pending.len() == 0
    }

    /// Takes the listing of the directory that `next_dir` named, and gives
    /// the walk as it goes on from there.
    ///
    /// Every manifest of the listing is found. Every directory of the listing
    /// that bears no excluded name becomes pending, unless its own entries
    /// would lie beyond the depth bound. Nothing else of the listing counts.
    pub fn absorb(self, entries: &Vec<DirEntry>) -> (out: Locator)
        ensures
            out@ == self@.absorb(entry_views(entries@)),
    {
        proof {
            use_type_invariant(&self);
        }
        let ghost start = self@;
        let ghost listing = entry_views(entries@);
        if self.pending.len() == 0 {
            return self;
        }
        let Locator { config, manifest, mut pending, mut found } = self;
        let ghost cfg = config@;
        let dir = pending.pop().unwrap();
        let ghost rest = path_views(pending@);
        assert(rest =~= start.pending.drop_last());
        let deeper: bool = dir.depth() < config.max_depth as usize && config.max_depth as usize
            - dir.depth() > 1;
        let ghost take_subs = subdir_at(cfg, dir@);
        let ghost take_manifest = manifest_at(dir@);
        let mut subs: Vec<RelPath> = Vec::new();
        let mut i: usize = 0;
        while i < entries.len()
            invariant
                i <= entries.len(),
                listing == entry_views(entries@),
                cfg == config@,
                manifest@ == manifest_name(),
                deeper == (dir@.len() + 1 < cfg.max_depth),
                take_subs == subdir_at(cfg, dir@),
                take_manifest == manifest_at(dir@),
                path_views(found@) == start.found + listing.take(i as int).filter_map(
                    take_manifest,
                ),
                path_views(subs@) == if deeper {
                    listing.take(i as int).filter_map(take_subs)
                } else {
                    Seq::empty()
                },
            decreases entries.len() - i,
        {
            let entry = &entries[i];
            proof {
                listing.lemma_filter_map_take_succ(take_subs, i as int);
                listing.lemma_filter_map_take_succ(take_manifest, i as int);
            }
            let ghost found_before = path_views(found@);
            match entry.kind {
                EntryKind::Directory => {
                    let sub = dir.child(entry.name.as_str());
                    if deeper && !is_excluded_dir(&sub, &config) {
                        subs.push(sub);
                    }
                },
                EntryKind::File => {
                    if entry.name == manifest {
                        found.push(dir.child(entry.name.as_str()));
                        assert(path_views(found@) =~= found_before + seq![
                            take_manifest(listing[i as int]).unwrap(),
                        ]);
                    }
                },
                EntryKind::Other => {},
            }
            i += 1;
        }
        assert(listing.take(i as int) =~= listing);
        let ghost all_subs = path_views(subs@);
        while subs.len() > 0
            invariant
                subs@.len() <= all_subs.len(),
                path_views(subs@) == all_subs.take(subs@.len() as int),
                path_views(pending@) == rest + all_subs.skip(subs@.len() as int).reverse(),
            decreases subs.len(),
        {
            let ghost m = subs@.len() as int;
            let ghost pending_before = path_views(pending@);
            let ghost subs_before = subs@;
            let sub = subs.pop().unwrap();
            assert(sub@ == all_subs[m - 1]) by {
                assert(path_views(subs_before)[m - 1] == all_subs.take(m)[m - 1]);
            }
            pending.push(sub);
            assert(path_views(pending@) =~= pending_before.push(all_subs[m - 1]));
        }
        assert(all_subs.skip(0) =~= all_subs);
        proof {
            lemma_absorb_keeps_wf(start, listing);
        }
        Locator { config, manifest, pending, found }
    }

    /// The manifests found so far, in the order in which they were found.
    /// Each of them may be reported.
    pub fn found(&self) -> (out: &Vec<RelPath>)
        ensures
            path_views(out@) == self@.found,
            forall|i: int| 0 <= i < out@.len() ==> self@.config.may_report(#[trigger] out@[i]@),
    {
        proof {
            use_type_invariant(self);
            assert forall|i: int| 0 <= i < self.found@.len() implies self@.config.may_report(
                #[trigger] self.found@[i]@,
            ) by {
                assert(self@.found[i] == self.found@[i]@);
            }
        }
        &self.found
    }
}

} // verus!
