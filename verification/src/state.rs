//! The state of a whole project: open files, compiled roots, which roots
//! each file belongs to, include paths and configuration.
use vstd::prelude::*;
use dashmap::DashMap;
use std::collections::HashSet;
use crate::config::{config_resolved, path_key, same_path, resolved_path, texts, ProjectConfig, ResolvedConfig, ResolvedTarget};
use crate::includes::{include_target, include_target_from, path_parent};
use crate::project::{share_path, FilePath};
use crate::strings::str_eq;
use crate::unit::{path_texts, RootUnit};

verus! {

#[verifier::external_type_specification]
#[verifier::external_body]
#[verifier::reject_recursive_types(K)]
#[verifier::reject_recursive_types(V)]
#[verifier::reject_recursive_types(S)]
pub struct ExDashMap<K, V, S>(DashMap<K, V, S>);

/// The text of an open file, and the version the editor gave it.
#[derive(Debug)]
pub struct FileSnapshot {
    pub version: i32,
    pub text: String,
}

/// The open files a map holds: path to version and text.
pub uninterp spec fn open_files(m: DashMap<FilePath, FileSnapshot>) -> Map<Seq<char>, (i32, Seq<char>)>;

/// The paths of the roots a map holds compiled units for.
pub uninterp spec fn unit_roots(m: DashMap<FilePath, RootUnit>) -> Set<Seq<char>>;

/// The roots a map records for each file.
pub uninterp spec fn root_links(m: DashMap<FilePath, HashSet<FilePath>>) -> Map<Seq<char>, Set<Seq<char>>>;

/// An empty map of open files.
///
/// Trusted: calls `DashMap::new`, which dashmap documents as an empty map.
#[verifier::external_body]
fn new_open_files() -> (m: DashMap<FilePath, FileSnapshot>)
    ensures
        open_files(m).dom() == Set::<Seq<char>>::empty(),
{
    DashMap::new()
}

/// Trusted: calls `DashMap::new`, which dashmap documents as an empty map.
#[verifier::external_body]
fn new_units() -> (m: DashMap<FilePath, RootUnit>)
    ensures
        unit_roots(m) == Set::<Seq<char>>::empty(),
{
    DashMap::new()
}

/// Trusted: calls `DashMap::new`, which dashmap documents as an empty map.
#[verifier::external_body]
fn new_links() -> (m: DashMap<FilePath, HashSet<FilePath>>)
    ensures
        root_links(m).dom() == Set::<Seq<char>>::empty(),
{
    DashMap::new()
}

/// Stores the snapshot of an open file.
///
/// Trusted: calls `DashMap::insert`, which replaces the value stored under
/// an equal key or adds the pair; keys compare by their text.
#[verifier::external_body]
fn store_open_file(m: &mut DashMap<FilePath, FileSnapshot>, k: FilePath, v: FileSnapshot)
    ensures
        open_files(*final(m)) == open_files(*old(m)).insert(k@, (v.version, v.text@)),
{
    m.insert(k, v);
}

/// Forgets an open file.
///
/// Trusted: calls `DashMap::remove`, which removes the pair with an equal key
/// if there is one.
#[verifier::external_body]
fn drop_open_file(m: &mut DashMap<FilePath, FileSnapshot>, k: &FilePath)
    ensures
        open_files(*final(m)) == open_files(*old(m)).remove(k@),
{
    m.remove(k);
}

/// The text of an open file.
///
/// Trusted: calls `DashMap::get` and copies the text of the snapshot found.
#[verifier::external_body]
fn open_file_text(m: &DashMap<FilePath, FileSnapshot>, k: &FilePath) -> (r: Option<String>)
    ensures
        match r {
            Some(t) => open_files(*m).dom().contains(k@) && t@ == open_files(*m)[k@].1,
            None => !open_files(*m).dom().contains(k@),
        },
{
    m.get(k).map(|s| s.text.clone())
}

/// Stores the unit compiled for a root.
///
/// Trusted: calls `DashMap::insert`, which replaces the value stored under
/// an equal key or adds the pair.
#[verifier::external_body]
fn store_unit(m: &mut DashMap<FilePath, RootUnit>, k: FilePath, v: RootUnit)
    ensures
        unit_roots(*final(m)) == unit_roots(*old(m)).insert(k@),
{
    m.insert(k, v);
}

/// Whether a unit is stored for a root.
///
/// Trusted: calls `DashMap::contains_key`.
#[verifier::external_body]
fn has_unit(m: &DashMap<FilePath, RootUnit>, k: &FilePath) -> (r: bool)
    ensures
        r == unit_roots(*m).contains(k@),
{
    m.contains_key(k)
}

/// The roots recorded for `file` in `links`, none when there are none.
pub open spec fn links_of(links: Map<Seq<char>, Set<Seq<char>>>, file: Seq<char>) -> Set<Seq<char>> {
    if links.dom().contains(file) {
        links[file]
    } else {
        Set::empty()
    }
}

/// Records that `file` belongs to `root`.
///
/// Trusted: calls `DashMap::entry`, `Entry::or_default` (an empty set for a
/// new key) and `HashSet::insert` on the set stored for the file.
#[verifier::external_body]
fn link_file(m: &mut DashMap<FilePath, HashSet<FilePath>>, file: FilePath, root: FilePath)
    ensures
        root_links(*final(m)) == root_links(*old(m)).insert(
            file@,
            links_of(root_links(*old(m)), file@).insert(root@),
        ),
{
    m.entry(file).or_default().insert(root);
}

/// One of the roots recorded for `file`.
///
/// Trusted: calls `DashMap::get` and takes the first element that
/// `HashSet::iter` yields. Which element that is depends on the hasher's
/// random seed, so only that it is one of them is stated.
#[verifier::external_body]
fn some_linked_root(m: &DashMap<FilePath, HashSet<FilePath>>, file: &FilePath) -> (r: Option<FilePath>)
    ensures
        match r {
            Some(x) => links_of(root_links(*m), file@).contains(x@),
            None => links_of(root_links(*m), file@) == Set::<Seq<char>>::empty(),
        },
{
    m.get(file).and_then(|s| s.iter().next().cloned())
}

/// All roots recorded for `file`.
///
/// Trusted: calls `DashMap::get` and collects what `HashSet::iter` yields:
/// each element once, in an order that depends on the hasher's random seed.
#[verifier::external_body]
fn linked_roots(m: &DashMap<FilePath, HashSet<FilePath>>, file: &FilePath) -> (r: Vec<FilePath>)
    ensures
        path_texts(r@).to_set() == links_of(root_links(*m), file@),
        path_texts(r@).no_duplicates(),
{
    match m.get(file) {
        Some(s) => s.iter().cloned().collect(),
        None => Vec::new(),
    }
}

/// Whether `s` holds a path that is the same path as `p` (compared as `Path`
/// compares paths, not as text).
pub open spec fn has_path(s: Seq<Seq<char>>, p: Seq<char>) -> bool {
    exists|i: int| 0 <= i < s.len() && path_key(#[trigger] s[i]) == path_key(p)
}

/// No two entries of `s` are the same path.
pub open spec fn distinct_paths(s: Seq<Seq<char>>) -> bool {
    forall|i: int, j: int| 0 <= i < j < s.len() ==> path_key(#[trigger] s[i]) != path_key(#[trigger] s[j])
}

/// `acc` followed by each path of `items` that is not the same path as one
/// already there.
pub open spec fn with_new(acc: Seq<Seq<char>>, items: Seq<Seq<char>>) -> Seq<Seq<char>>
    decreases items.len(),
{
    if items.len() == 0 {
        acc
    } else {
        let a = with_new(acc, items.drop_last());
        if has_path(a, items.last()) {
            a
        } else {
            a.push(items.last())
        }
    }
}

/// Whether `v` holds the same path as `p`.
fn holds(v: &Vec<String>, p: &str) -> (r: bool)
    ensures
        r == has_path(texts(v@), p@),
{
    let mut i: usize = 0;
    while i < v.len()
        invariant
            i <= v@.len(),
            forall|m: int| 0 <= m < i ==> path_key((#[trigger] v@[m])@) != path_key(p@),
        decreases v@.len() - i,
    {
        if same_path(v[i].as_str(), p) {
            assert(path_key(texts(v@)[i as int]) == path_key(p@));
            return true;
        }
        i += 1;
    }
    assert(!has_path(texts(v@), p@)) by {
        if has_path(texts(v@), p@) {
            let m = choose|m: int| 0 <= m < texts(v@).len() && path_key(#[trigger] texts(v@)[m]) == path_key(p@);
            assert(texts(v@)[m] == v@[m]@);
        }
    }
    false
}

/// Appends each path of `items` that `v` does not hold yet.
fn push_new(v: &mut Vec<String>, items: &Vec<String>)
    ensures
        texts(final(v)@) == with_new(texts(old(v)@), texts(items@)),
{
    let ghost start = texts(v@);
    let mut i: usize = 0;
    while i < items.len()
        invariant
            i <= items@.len(),
            start == texts(old(v)@),
            texts(v@) == with_new(start, texts(items@).take(i as int)),
        decreases items@.len() - i,
    {
        assert(texts(items@).take(i as int + 1).drop_last() =~= texts(items@).take(i as int));
        let ghost before = v@;
        if !holds(v, items[i].as_str()) {
            v.push(items[i].clone());
            assert(texts(v@) =~= texts(before).push(items@[i as int]@));
        }
        i += 1;
    }
    assert(texts(items@).take(items@.len() as int) =~= texts(items@));
}

/// The index of the first target whose root is `root`.
pub open spec fn target_for(ts: Seq<ResolvedTarget>, root: Seq<char>, i: int) -> Option<int>
    decreases ts.len() - i,
{
    if i < 0 || i >= ts.len() {
        None
    } else if ts[i].root@ == root {
        Some(i)
    } else {
        target_for(ts, root, i + 1)
    }
}

/// The include paths for a root: the global ones, then those of the first
/// target with that root that are not among them yet.
pub open spec fn paths_for_root(globals: Seq<Seq<char>>, config: Option<ResolvedConfig>, root: Seq<char>) -> Seq<Seq<char>> {
    match config {
        None => globals,
        Some(c) => match target_for(c.targets@, root, 0) {
            None => globals,
            Some(i) => with_new(globals, texts(c.targets@[i].include_paths@)),
        },
    }
}

/// The roots of the targets whose entry in `present` is true, in order.
pub open spec fn present_roots(ts: Seq<ResolvedTarget>, present: Seq<bool>) -> Seq<Seq<char>>
    decreases ts.len(),
{
    if ts.len() == 0 {
        seq![]
    } else {
        let prev = present_roots(ts.drop_last(), present);
        let i = ts.len() - 1;
        if i < present.len() && present[i] {
            prev.push(ts[i].root@)
        } else {
            prev
        }
    }
}

/// Whether a configuration names targets.
pub open spec fn has_targets(config: Option<ResolvedConfig>) -> bool {
    config matches Some(c) && c.targets@.len() > 0
}

/// How the roots of a project are found.
#[derive(Debug)]
pub enum Discovery {
    /// The roots the configuration names (those that exist).
    Explicit(Vec<FilePath>),
    /// Every P4 file under this directory not included by another one.
    Scan(String),
    /// No workspace is known, so there are no roots.
    Nothing,
}

/// The paths of `all` that are not among `included`, in order.
pub open spec fn not_included(all: Seq<Seq<char>>, included: Seq<Seq<char>>) -> Seq<Seq<char>>
    decreases all.len(),
{
    if all.len() == 0 {
        seq![]
    } else {
        let prev = not_included(all.drop_last(), included);
        if included.contains(all.last()) {
            prev
        } else {
            prev.push(all.last())
        }
    }
}

/// The roots recorded for each file of `files` in turn, each with `root`
/// added.
pub open spec fn link_all(
    links: Map<Seq<char>, Set<Seq<char>>>,
    files: Seq<Seq<char>>,
    root: Seq<char>,
) -> Map<Seq<char>, Set<Seq<char>>>
    decreases files.len(),
{
    if files.len() == 0 {
        links
    } else {
        let m = link_all(links, files.drop_last(), root);
        m.insert(files.last(), links_of(m, files.last()).insert(root))
    }
}

/// The state of a project.
pub struct ProjectState {
    pub workspace_root: Option<String>,
    /// The files open in the editor.
    pub vfs: DashMap<FilePath, FileSnapshot>,
    /// The compiled unit of each root.
    pub roots: DashMap<FilePath, RootUnit>,
    /// The roots each file belongs to.
    pub file_to_roots: DashMap<FilePath, HashSet<FilePath>>,
    pub include_paths: Vec<String>,
    pub config: Option<ResolvedConfig>,
}

impl ProjectState {
    /// A project with no workspace, no files and no configuration.
    pub fn new() -> (p: Self)
        ensures
            p.workspace_root is None,
            open_files(p.vfs).dom() == Set::<Seq<char>>::empty(),
            unit_roots(p.roots) == Set::<Seq<char>>::empty(),
            root_links(p.file_to_roots).dom() == Set::<Seq<char>>::empty(),
            p.include_paths@.len() == 0,
            p.config is None,
    {
        ProjectState {
            workspace_root: None,
            vfs: new_open_files(),
            roots: new_units(),
            file_to_roots: new_links(),
            include_paths: Vec::new(),
            config: None,
        }
    }

    /// Sets the workspace root. With the configuration found there, its
    /// resolved form becomes the project's configuration and its include
    /// paths are added to the project's (each once).
    pub fn set_workspace_root(&mut self, root: String, config: Option<ProjectConfig>)
        ensures
            final(self).workspace_root == Some(root),
            match config {
                Some(c) => {
                    &&& final(self).config matches Some(r) && config_resolved(r, c, root@)
                    &&& texts(final(self).include_paths@) == with_new(
                        texts(old(self).include_paths@),
                        texts(final(self).config->0.include_paths@),
                    )
                },
                None => {
                    &&& final(self).config == old(self).config
                    &&& final(self).include_paths == old(self).include_paths
                },
            },
            open_files(final(self).vfs) == open_files(old(self).vfs),
            unit_roots(final(self).roots) == unit_roots(old(self).roots),
            root_links(final(self).file_to_roots) == root_links(old(self).file_to_roots),
    {
        if let Some(c) = config {
            let resolved = c.resolve(root.as_str());
            push_new(&mut self.include_paths, &resolved.include_paths);
            self.config = Some(resolved);
        }
        self.workspace_root = Some(root);
    }

    /// Adds an include path unless the project has it already.
    pub fn add_include_path(&mut self, path: String)
        ensures
            texts(final(self).include_paths@) == with_new(texts(old(self).include_paths@), seq![path@]),
            final(self).workspace_root == old(self).workspace_root,
            final(self).config == old(self).config,
            open_files(final(self).vfs) == open_files(old(self).vfs),
            unit_roots(final(self).roots) == unit_roots(old(self).roots),
            root_links(final(self).file_to_roots) == root_links(old(self).file_to_roots),
    {
        let ghost start = texts(self.include_paths@);
        assert(seq![path@].drop_last() =~= Seq::<Seq<char>>::empty());
        assert(with_new(start, Seq::<Seq<char>>::empty()) == start);
        assert(with_new(start, seq![path@]) == if has_path(start, path@) {
            start
        } else {
            start.push(path@)
        });
        if !holds(&self.include_paths, path.as_str()) {
            let ghost p = path@;
            self.include_paths.push(path);
            assert(texts(self.include_paths@) =~= start.push(p));
        }
    }

    /// Whether the configuration names targets.
    pub fn has_explicit_targets(&self) -> (r: bool)
        ensures
            r == has_targets(self.config),
    {
        match &self.config {
            Some(c) => c.targets.len() > 0,
            None => false,
        }
    }

    /// The roots the configuration names, keeping target `i` only when
    /// `present[i]` says its root file exists; none when the configuration
    /// names no targets.
    pub fn explicit_roots(&self, present: &Vec<bool>) -> (r: Option<Vec<FilePath>>)
        ensures
            match r {
                Some(v) => has_targets(self.config) && path_texts(v@) == present_roots(
                    self.config->0.targets@,
                    present@,
                ),
                None => !has_targets(self.config),
            },
    {
        let c = match &self.config {
            Some(c) => c,
            None => return None,
        };
        if c.targets.len() == 0 {
            return None;
        }
        let mut out: Vec<FilePath> = Vec::new();
        let mut i: usize = 0;
        while i < c.targets.len()
            invariant
                i <= c.targets@.len(),
                path_texts(out@) == present_roots(c.targets@.take(i as int), present@),
            decreases c.targets@.len() - i,
        {
            assert(c.targets@.take(i as int + 1).drop_last() =~= c.targets@.take(i as int));
            if i < present.len() && present[i] {
                let ghost before = out@;
                out.push(std::sync::Arc::new(c.targets[i].root.clone()));
                assert(path_texts(out@) =~= path_texts(before).push(c.targets@[i as int].root@));
            }
            i += 1;
        }
        assert(c.targets@.take(c.targets@.len() as int) =~= c.targets@);
        Some(out)
    }

    /// The include paths for compiling `root`: the global ones, then those
    /// of the first target with that root that are not among them yet.
    pub fn include_paths_for_root(&self, root: &FilePath) -> (r: Vec<String>)
        ensures
            texts(r@) == paths_for_root(texts(self.include_paths@), self.config, root@),
    {
        let mut paths = self.include_paths.clone();
        assert(texts(paths@) =~= texts(self.include_paths@));
        let ghost cfg = self.config;
        if let Some(c) = &self.config {
            assert(cfg == Some(*c));
            let mut i: usize = 0;
            while i < c.targets.len()
                invariant
                    i <= c.targets@.len(),
                    cfg == Some(*c),
                    cfg == self.config,
                    target_for(c.targets@, root@, i as int) == target_for(c.targets@, root@, 0),
                    texts(paths@) == texts(self.include_paths@),
                decreases c.targets@.len() - i,
            {
                if str_eq(c.targets[i].root.as_str(), root.as_str()) {
                    push_new(&mut paths, &c.targets[i].include_paths);
                    return paths;
                }
                i += 1;
            }
        }
        paths
    }

    /// The text of `path` when it is open in the editor.
    pub fn open_text(&self, path: &FilePath) -> (r: Option<String>)
        ensures
            match r {
                Some(t) => open_files(self.vfs).dom().contains(path@) && t@ == open_files(self.vfs)[path@].1,
                None => !open_files(self.vfs).dom().contains(path@),
            },
    {
        open_file_text(&self.vfs, path)
    }

    /// Records the editor's text of an open file.
    pub fn update_file(&mut self, path: FilePath, version: i32, text: String)
        ensures
            open_files(final(self).vfs) == open_files(old(self).vfs).insert(path@, (version, text@)),
            unit_roots(final(self).roots) == unit_roots(old(self).roots),
            root_links(final(self).file_to_roots) == root_links(old(self).file_to_roots),
            final(self).include_paths == old(self).include_paths,
            final(self).config == old(self).config,
            final(self).workspace_root == old(self).workspace_root,
    {
        store_open_file(&mut self.vfs, path, FileSnapshot { version, text });
    }

    /// Forgets the editor's text of a file.
    pub fn remove_file(&mut self, path: &FilePath)
        ensures
            open_files(final(self).vfs) == open_files(old(self).vfs).remove(path@),
            unit_roots(final(self).roots) == unit_roots(old(self).roots),
            root_links(final(self).file_to_roots) == root_links(old(self).file_to_roots),
            final(self).include_paths == old(self).include_paths,
            final(self).config == old(self).config,
            final(self).workspace_root == old(self).workspace_root,
    {
        drop_open_file(&mut self.vfs, path);
    }

    /// How to find the roots: the configured ones when targets are
    /// configured (keeping those `present` marks as existing), else a scan of
    /// the workspace, else none.
    pub fn discovery(&self, present: &Vec<bool>) -> (r: Discovery)
        ensures
            match r {
                Discovery::Explicit(v) => has_targets(self.config) && path_texts(v@) == present_roots(
                    self.config->0.targets@,
                    present@,
                ),
                Discovery::Scan(w) => !has_targets(self.config) && self.workspace_root == Some(w),
                Discovery::Nothing => !has_targets(self.config) && self.workspace_root is None,
            },
    {
        if let Some(roots) = self.explicit_roots(present) {
            return Discovery::Explicit(roots);
        }
        match &self.workspace_root {
            Some(w) => Discovery::Scan(w.clone()),
            None => Discovery::Nothing,
        }
    }

    /// The root for `file`: the file itself when it is a root, else one of
    /// the roots it belongs to.
    pub fn find_root_for_file(&self, file: &FilePath) -> (r: Option<FilePath>)
        ensures
            match r {
                Some(x) => if unit_roots(self.roots).contains(file@) {
                    x@ == file@
                } else {
                    links_of(root_links(self.file_to_roots), file@).contains(x@)
                },
                None => !unit_roots(self.roots).contains(file@) && links_of(
                    root_links(self.file_to_roots),
                    file@,
                ) == Set::<Seq<char>>::empty(),
            },
    {
        if has_unit(&self.roots, file) {
            return Some(share_path(file));
        }
        some_linked_root(&self.file_to_roots, file)
    }

    /// Stores the unit compiled for `root_path`, and records that each of
    /// its files belongs to that root.
    pub fn record_root(&mut self, root_path: FilePath, unit: RootUnit)
        ensures
            unit_roots(final(self).roots) == unit_roots(old(self).roots).insert(root_path@),
            root_links(final(self).file_to_roots) == link_all(
                root_links(old(self).file_to_roots),
                path_texts(unit.include_order@),
                root_path@,
            ),
            open_files(final(self).vfs) == open_files(old(self).vfs),
            final(self).include_paths == old(self).include_paths,
            final(self).config == old(self).config,
            final(self).workspace_root == old(self).workspace_root,
    {
        let ghost files = path_texts(unit.include_order@);
        let ghost start = root_links(self.file_to_roots);
        let mut i: usize = 0;
        while i < unit.include_order.len()
            invariant
                i <= unit.include_order@.len(),
                files == path_texts(unit.include_order@),
                unit_roots(self.roots) == unit_roots(old(self).roots),
                open_files(self.vfs) == open_files(old(self).vfs),
                self.include_paths == old(self).include_paths,
                self.config == old(self).config,
                self.workspace_root == old(self).workspace_root,
                root_links(self.file_to_roots) == link_all(start, files.take(i as int), root_path@),
            decreases unit.include_order@.len() - i,
        {
            assert(files.take(i as int + 1).drop_last() =~= files.take(i as int));
            link_file(&mut self.file_to_roots, share_path(&unit.include_order[i]), share_path(&root_path));
            i += 1;
        }
        assert(files.take(files.len() as int) =~= files);
        store_unit(&mut self.roots, root_path, unit);
    }

    /// The roots to compile again when `file` changes: those it belongs to,
    /// each once.
    pub fn roots_of_file(&self, file: &FilePath) -> (r: Vec<FilePath>)
        ensures
            path_texts(r@).to_set() == links_of(root_links(self.file_to_roots), file@),
            path_texts(r@).no_duplicates(),
    {
        linked_roots(&self.file_to_roots, file)
    }

    /// Where an `#include` of `inc` written in `from_file` may be, in the
    /// order they are tried: next to `from_file`, then under each include
    /// path of the project.
    pub fn include_candidates(&self, from_file: &FilePath, inc: &str) -> (r: Vec<String>)
        ensures
            texts(r@) == seq![include_target(path_parent(from_file@), inc@)] + self.include_paths@.map_values(
                |p: String| resolved_path(p@, inc@),
            ),
    {
        include_candidates_with(from_file, inc, &self.include_paths)
    }
}

/// Law: adding paths keeps the paths already there, in front and in order;
/// afterwards every added path is there (as a path); and when no path was
/// there twice before, none is after.
pub proof fn law_with_new(acc: Seq<Seq<char>>, items: Seq<Seq<char>>)
    ensures
        with_new(acc, items).len() >= acc.len(),
        with_new(acc, items).take(acc.len() as int) == acc,
        forall|i: int| 0 <= i < items.len() ==> has_path(with_new(acc, items), #[trigger] items[i]),
        distinct_paths(acc) ==> distinct_paths(with_new(acc, items)),
    decreases items.len(),
{
    if items.len() > 0 {
        let dl = items.drop_last();
        law_with_new(acc, dl);
        let a = with_new(acc, dl);
        let x = items.last();
        if !has_path(a, x) {
            let b = a.push(x);
            assert(b.take(acc.len() as int) =~= a.take(acc.len() as int));
            assert(b[a.len() as int] == x);
            assert forall|i: int| 0 <= i < items.len() implies has_path(b, #[trigger] items[i]) by {
                if i < dl.len() {
                    assert(dl[i] == items[i]);
                    assert(has_path(a, dl[i]));
                    let k = choose|k: int| 0 <= k < a.len() && path_key(#[trigger] a[k]) == path_key(dl[i]);
                    assert(b[k] == a[k]);
                } else {
                    assert(b[a.len() as int] == items[i]);
                }
            }
            if distinct_paths(acc) {
                assert forall|i: int, j: int| 0 <= i < j < b.len() implies path_key(#[trigger] b[i]) != path_key(
                    #[trigger] b[j],
                ) by {
                    if j == a.len() {
                        assert(b[i] == a[i]);
                        if path_key(a[i]) == path_key(x) {
                            assert(has_path(a, x));
                        }
                    } else {
                        assert(b[i] == a[i]);
                        assert(b[j] == a[j]);
                    }
                }
            }
        } else {
            assert forall|i: int| 0 <= i < items.len() implies has_path(a, #[trigger] items[i]) by {
                if i < dl.len() {
                    assert(dl[i] == items[i]);
                }
            }
        }
    }
}

/// Law: after the files of a unit are recorded for `root`, every one of them
/// has `root` among its roots, each keeps the roots it had, and the roots of
/// every other file are unchanged.
pub proof fn law_link_all(links: Map<Seq<char>, Set<Seq<char>>>, files: Seq<Seq<char>>, root: Seq<char>, f: Seq<char>)
    ensures
        links_of(link_all(links, files, root), f) == if files.contains(f) {
            links_of(links, f).insert(root)
        } else {
            links_of(links, f)
        },
    decreases files.len(),
{
    if files.len() > 0 {
        let dl = files.drop_last();
        law_link_all(links, dl, root, f);
        let x = files.last();
        assert(files.contains(f) <==> dl.contains(f) || x == f) by {
            vstd::seq_lib::lemma_seq_contains_after_push(dl, x, f);
            assert(dl.push(x) =~= files);
        }
        if x == f {
            assert(links_of(links, f).insert(root).insert(root) =~= links_of(links, f).insert(root));
        }
    }
}

/// Law: the roots found by a scan are exactly the scanned files that no file
/// includes.
pub proof fn law_not_included(all: Seq<Seq<char>>, included: Seq<Seq<char>>, x: Seq<char>)
    ensures
        not_included(all, included).contains(x) <==> all.contains(x) && !included.contains(x),
    decreases all.len(),
{
    if all.len() > 0 {
        let dl = all.drop_last();
        law_not_included(dl, included, x);
        assert(dl.push(all.last()) =~= all);
        vstd::seq_lib::lemma_seq_contains_after_push(dl, all.last(), x);
        let prev = not_included(dl, included);
        vstd::seq_lib::lemma_seq_contains_after_push(prev, all.last(), x);
    }
}

/// Law: after the editor's text of a file is recorded, reading the file
/// gives that text, and every other open file reads as before.
pub proof fn law_open_text_after_update(
    files: Map<Seq<char>, (i32, Seq<char>)>,
    path: Seq<char>,
    version: i32,
    text: Seq<char>,
    other: Seq<char>,
)
    ensures
        files.insert(path, (version, text)).dom().contains(path),
        files.insert(path, (version, text))[path].1 == text,
        other != path ==> (files.insert(path, (version, text)).dom().contains(other) == files.dom().contains(other)),
        other != path && files.dom().contains(other) ==> files.insert(path, (version, text))[other] == files[other],
        !files.remove(path).dom().contains(path),
{
}

/// Where an `#include` of `inc` written in `from_file` may be, in the order
/// they are tried: next to `from_file`, then under each of `include_paths`.
pub fn include_candidates_with(from_file: &FilePath, inc: &str, include_paths: &Vec<String>) -> (r: Vec<String>)
    ensures
        texts(r@) == seq![include_target(path_parent(from_file@), inc@)] + include_paths@.map_values(
            |p: String| resolved_path(p@, inc@),
        ),
{
    let parent = crate::includes::parent_path(from_file.as_str());
    let mut out: Vec<String> = Vec::new();
    out.push(include_target_from(parent, inc));
    let mut i: usize = 0;
    while i < include_paths.len()
        invariant
            i <= include_paths@.len(),
            texts(out@) == seq![include_target(path_parent(from_file@), inc@)] + include_paths@.take(
                i as int,
            ).map_values(|p: String| resolved_path(p@, inc@)),
        decreases include_paths@.len() - i,
    {
        let ghost before = out@;
        out.push(crate::config::resolve_path(include_paths[i].as_str(), inc));
        assert(include_paths@.take(i as int + 1).map_values(|p: String| resolved_path(p@, inc@))
            =~= include_paths@.take(i as int).map_values(|p: String| resolved_path(p@, inc@)).push(
            resolved_path(include_paths@[i as int]@, inc@),
        ));
        assert(texts(out@) =~= texts(before).push(resolved_path(include_paths@[i as int]@, inc@)));
        i += 1;
    }
    assert(include_paths@.take(include_paths@.len() as int) =~= include_paths@);
    out
}

/// The paths of `all` that no other file includes: the roots found by a
/// scan of the workspace.
pub fn roots_not_included(all: &Vec<FilePath>, included: &Vec<FilePath>) -> (r: Vec<FilePath>)
    ensures
        path_texts(r@) == not_included(path_texts(all@), path_texts(included@)),
{
    let ghost inc = path_texts(included@);
    let mut out: Vec<FilePath> = Vec::new();
    let mut i: usize = 0;
    while i < all.len()
        invariant
            i <= all@.len(),
            inc == path_texts(included@),
            path_texts(out@) == not_included(path_texts(all@).take(i as int), inc),
        decreases all@.len() - i,
    {
        assert(path_texts(all@).take(i as int + 1).drop_last() =~= path_texts(all@).take(i as int));
        let mut found = false;
        let mut j: usize = 0;
        while j < included.len()
            invariant
                j <= included@.len(),
                i < all@.len(),
                inc == path_texts(included@),
                found == inc.take(j as int).contains(all@[i as int]@),
            decreases included@.len() - j,
        {
            assert(inc.take(j as int + 1) =~= inc.take(j as int).push(included@[j as int]@));
            proof {
                vstd::seq_lib::lemma_seq_contains_after_push(
                    inc.take(j as int),
                    included@[j as int]@,
                    all@[i as int]@,
                );
            }
            if str_eq(included[j].as_str(), all[i].as_str()) {
                found = true;
            }
            j += 1;
        }
        assert(inc.take(included@.len() as int) =~= inc);
        if !found {
            let ghost before = out@;
            out.push(share_path(&all[i]));
            assert(path_texts(out@) =~= path_texts(before).push(all@[i as int]@));
        }
        i += 1;
    }
    assert(path_texts(all@).take(all@.len() as int) =~= path_texts(all@));
    out
}

} // verus!
