//! The in-memory trees of files and directories of one side.
use vstd::prelude::*;
use crate::filter::{passes, sources, OperateDirection, SyncContext};
use crate::path::{
    clean_abs, diff_paths, file_name, is_name, join, join_path, lemma_join_parts, lemma_parent_name_round_trip,
    lemma_under_extend, name_of, parent, parent_of, rel_of, under, check_abs, check_name, check_under,
};

verus! {

/// What the loader does with one entry of a directory.
#[derive(Clone, Copy, PartialEq, Eq, Structural)]
pub enum EntryKind {
    /// The filter rejects it: it takes no part in the sync.
    Skipped,
    /// A file, recorded as it is.
    File,
    /// A directory whose contents are loaded as well.
    Subtree,
    /// A directory recorded without its contents.
    Leaf,
}

/// What becomes of an entry: rejected by the filter of its side, a file, or
/// a directory that is loaded (when recursive) or kept as a leaf.
pub open spec fn entry_kind(admitted: bool, is_dir: bool, recursive: bool) -> EntryKind {
    if !admitted {
        EntryKind::Skipped
    } else if !is_dir {
        EntryKind::File
    } else if recursive {
        EntryKind::Subtree
    } else {
        EntryKind::Leaf
    }
}

/// What a file or directory entry is made of: its name, the root of its
/// side, and the directory that holds it.
pub type FileView = (Seq<char>, Seq<char>, Seq<char>);

/// A file (or directory) entry of a tree.
pub struct FileInfo {
    pub name: String,
    pub root: String,
    pub absolute_dir: String,
}

/// An entry whose root is a clean absolute path, whose directory lies under
/// it, and whose name is one component.
pub open spec fn file_wf(f: FileView) -> bool {
    clean_abs(f.1) && under(f.2, f.1) && is_name(f.0)
}

/// The path of an entry relative to its root.
pub open spec fn file_rel(f: FileView) -> Seq<char> {
    rel_of(join_path(f.2, f.0), f.1)
}

impl View for FileInfo {
    type V = FileView;

    open spec fn view(&self) -> FileView {
        (self.name@, self.root@, self.absolute_dir@)
    }
}

impl FileInfo {
    pub fn new(name: String, root: String, absolute_dir: String) -> (r: Self)
        ensures
            r@ == (name@, root@, absolute_dir@),
    {
        FileInfo { name, root, absolute_dir }
    }

    pub fn copy(&self) -> (r: Self)
        ensures
            r@ == self@,
    {
        FileInfo {
            name: self.name.clone(),
            root: self.root.clone(),
            absolute_dir: self.absolute_dir.clone(),
        }
    }

    /// The absolute path of the entry itself.
    pub fn absolute_dir_with_self(&self) -> (r: String)
        ensures
            r@ == join_path(self.absolute_dir@, self.name@),
    {
        join(self.absolute_dir.as_str(), self.name.as_str())
    }

    /// The path of the entry, to hand to the filesystem.
    pub fn to_path(&self) -> (r: String)
        ensures
            r@ == join_path(self.absolute_dir@, self.name@),
    {
        self.absolute_dir_with_self()
    }

    /// The path of the entry relative to its root.
    pub fn relative_path(&self) -> (r: String)
        requires
            file_wf(self@),
        ensures
            r@ == file_rel(self@),
    {
        proof {
            lemma_under_extend(self.absolute_dir@, self.root@, self.name@);
        }
        let full = self.absolute_dir_with_self();
        let r = diff_paths(full.as_str(), self.root.as_str());
        r.unwrap()
    }

    /// The path of the directory that holds the entry, relative to the root.
    pub fn relative_path_without_file(&self) -> (r: String)
        requires
            file_wf(self@),
        ensures
            r@ == rel_of(self.absolute_dir@, self.root@),
            r@ == parent_of(file_rel(self@)),
    {
        proof {
            lemma_under_extend(self.absolute_dir@, self.root@, self.name@);
            lemma_join_parts(rel_of(self.absolute_dir@, self.root@), self.name@);
            let n = self.name@;
            if self.absolute_dir@ == self.root@ {
                crate::path::lemma_last_sep(n, -1);
            }
        }
        let rel = self.relative_path();
        parent(rel.as_str())
    }
}

/// One directory of a tree, with the entries that passed the filter.
pub struct DirectoryInfo {
    pub root: String,
    pub absolute_dir: String,
    pub sub_dirs: Vec<DirectoryInfo>,
    pub files: Vec<FileInfo>,
}

/// `p` starts with a single separator, as an absolute path does.
pub open spec fn starts_with_one_sep(p: Seq<char>) -> bool {
    p.len() > 0 && p[0] == '/' && (p.len() < 2 || p[1] != '/')
}

/// The name of a directory: the last component of its path.
pub open spec fn dir_name(d: DirectoryInfo) -> Seq<char> {
    name_of(d.absolute_dir@)
}

/// The entry that stands for directory `d` in the directory above it.
pub open spec fn dir_entry(d: DirectoryInfo) -> FileView {
    (dir_name(d), d.root@, parent_of(d.absolute_dir@))
}

/// `f` is a file entry of `d`.
pub open spec fn file_in(d: DirectoryInfo, f: FileInfo) -> bool {
    f.root@ == d.root@ && f.absolute_dir@ == d.absolute_dir@ && is_name(f.name@)
}

/// `s` is a subdirectory of `d`, one name below it.
pub open spec fn sub_in(d: DirectoryInfo, s: DirectoryInfo) -> bool {
    s.root@ == d.root@ && is_name(dir_name(s)) && s.absolute_dir@ == join_path(
        d.absolute_dir@,
        dir_name(s),
    )
}

/// Every entry of the tree below `d` sits where its parent says.
pub open spec fn tree_wf(d: DirectoryInfo) -> bool
    decreases d,
{
    &&& forall|i: int| 0 <= i < d.files@.len() ==> file_in(d, #[trigger] d.files@[i])
    &&& forall|i: int|
        0 <= i < d.sub_dirs@.len() ==> {
            &&& sub_in(d, #[trigger] d.sub_dirs@[i])
            &&& tree_wf(d.sub_dirs@[i])
        }
}

/// A tree whose root is a clean absolute path, whose directory lies under it,
/// and whose entries sit where their parents say.
pub open spec fn dir_wf(d: DirectoryInfo) -> bool {
    clean_abs(d.root@) && under(d.absolute_dir@, d.root@) && tree_wf(d)
}

pub proof fn lemma_sub_wf(d: DirectoryInfo, i: int)
    requires
        dir_wf(d),
        0 <= i < d.sub_dirs@.len(),
    ensures
        dir_wf(d.sub_dirs@[i]),
        file_wf(dir_entry(d.sub_dirs@[i])),
        dir_entry(d.sub_dirs@[i]).2 == d.absolute_dir@,
{
    let s = d.sub_dirs@[i];
    assert(sub_in(d, s));
    lemma_under_extend(d.absolute_dir@, d.root@, dir_name(s));
    lemma_join_parts(d.absolute_dir@, dir_name(s));
}

pub proof fn lemma_file_wf(d: DirectoryInfo, i: int)
    requires
        dir_wf(d),
        0 <= i < d.files@.len(),
    ensures
        file_wf(d.files@[i]@),
{
    assert(file_in(d, d.files@[i]));
}

/// Whether every entry below `d` sits where its parent says.
fn check_tree(d: &DirectoryInfo) -> (r: bool)
    ensures
        r == tree_wf(*d),
    decreases d,
{
    let mut i: usize = 0;
    while i < d.files.len()
        invariant
            i <= d.files@.len(),
            forall|j: int| 0 <= j < i ==> file_in(*d, #[trigger] d.files@[j]),
        decreases d.files@.len() - i,
    {
        let f = &d.files[i];
        if !(f.root == d.root && f.absolute_dir == d.absolute_dir && check_name(f.name.as_str())) {
            assert(!file_in(*d, d.files@[i as int]));
            return false;
        }
        i = i + 1;
    }
    let mut k: usize = 0;
    while k < d.sub_dirs.len()
        invariant
            k <= d.sub_dirs@.len(),
            forall|j: int| 0 <= j < d.files@.len() ==> file_in(*d, #[trigger] d.files@[j]),
            forall|j: int|
                0 <= j < k ==> {
                    &&& sub_in(*d, #[trigger] d.sub_dirs@[j])
                    &&& tree_wf(d.sub_dirs@[j])
                },
        decreases d.sub_dirs@.len() - k,
    {
        let s = &d.sub_dirs[k];
        assert(decreases_to!(*d => d.sub_dirs@[k as int]));
        let n = file_name(s.absolute_dir.as_str());
        let expected = join(d.absolute_dir.as_str(), n.as_str());
        if !(s.root == d.root && check_name(n.as_str()) && s.absolute_dir == expected && check_tree(s)) {
            assert(!(sub_in(*d, d.sub_dirs@[k as int]) && tree_wf(d.sub_dirs@[k as int])));
            return false;
        }
        k = k + 1;
    }
    true
}

impl DirectoryInfo {
    /// An empty directory at `absolute_dir` of the side rooted at `root`.
    pub fn create(root: String, absolute_dir: String) -> (r: Self)
        ensures
            r.root@ == root@,
            r.absolute_dir@ == absolute_dir@,
            r.sub_dirs@.len() == 0,
            r.files@.len() == 0,
    {
        DirectoryInfo { root, absolute_dir, sub_dirs: Vec::new(), files: Vec::new() }
    }

    /// Whether the tree is well formed (see `dir_wf`).
    pub fn is_well_formed(&self) -> (r: bool)
        ensures
            r == dir_wf(*self),
    {
        check_abs(self.root.as_str()) && check_under(
            self.absolute_dir.as_str(),
            self.root.as_str(),
        ) && check_tree(self)
    }

    /// The name of the directory.
    pub fn name(&self) -> (r: String)
        ensures
            r@ == dir_name(*self),
    {
        file_name(self.absolute_dir.as_str())
    }

    /// The entry that stands for this directory in the one above it.
    /// For an absolute path, the entry leads back to the directory: its
    /// absolute path and its path relative to the root are the directory's.
    pub fn to_file_info(&self) -> (r: FileInfo)
        ensures
            r@ == dir_entry(*self),
            starts_with_one_sep(self.absolute_dir@) ==> join_path(r@.2, r@.0)
                == self.absolute_dir@ && file_rel(r@) == rel_of(self.absolute_dir@, self.root@),
    {
        proof {
            if starts_with_one_sep(self.absolute_dir@) {
                lemma_parent_name_round_trip(self.absolute_dir@);
            }
        }
        FileInfo::new(self.name(), self.root.clone(), parent(self.absolute_dir.as_str()))
    }

    /// The path of the directory relative to its root.
    pub fn relative_path(&self) -> (r: String)
        requires
            clean_abs(self.root@),
            under(self.absolute_dir@, self.root@),
        ensures
            r@ == rel_of(self.absolute_dir@, self.root@),
    {
        diff_paths(self.absolute_dir.as_str(), self.root.as_str()).unwrap()
    }

    /// What the loader does with the entry at `abs_path` on the side
    /// `direction`.
    pub fn classify(
        context: &SyncContext,
        direction: &OperateDirection,
        abs_path: &str,
        is_dir: bool,
        recursive: bool,
    ) -> (r: EntryKind)
        ensures
            r == entry_kind(
                passes(
                    sources(context.side(*direction).allow@),
                    sources(context.side(*direction).exclude@),
                    abs_path@,
                ),
                is_dir,
                recursive,
            ),
    {
        if !context.check_include_and_exclude(abs_path, direction) {
            EntryKind::Skipped
        } else if !is_dir {
            EntryKind::File
        } else if recursive {
            EntryKind::Subtree
        } else {
            EntryKind::Leaf
        }
    }

    /// Records the file at `abs_path`, under this directory's root.
    pub fn add_file(&mut self, abs_path: &str)
        ensures
            final(self).files@.len() == old(self).files@.len() + 1,
            final(self).files@.take(old(self).files@.len() as int) == old(self).files@,
            final(self).files@.last()@ == (name_of(abs_path@), old(self).root@, parent_of(abs_path@)),
            starts_with_one_sep(abs_path@) ==> join_path(
                final(self).files@.last().absolute_dir@,
                final(self).files@.last().name@,
            ) == abs_path@,
            final(self).sub_dirs@ == old(self).sub_dirs@,
            final(self).root == old(self).root,
            final(self).absolute_dir == old(self).absolute_dir,
    {
        proof {
            if starts_with_one_sep(abs_path@) {
                lemma_parent_name_round_trip(abs_path@);
            }
        }
        let f = FileInfo::new(file_name(abs_path), self.root.clone(), parent(abs_path));
        self.files.push(f);
        assert(self.files@.take(old(self).files@.len() as int) =~= old(self).files@);
    }

    /// Records the directory at `abs_path` without its contents.
    pub fn add_leaf(&mut self, abs_path: String)
        ensures
            final(self).sub_dirs@.len() == old(self).sub_dirs@.len() + 1,
            final(self).sub_dirs@.take(old(self).sub_dirs@.len() as int) == old(self).sub_dirs@,
            final(self).sub_dirs@.last().root@ == old(self).root@,
            final(self).sub_dirs@.last().absolute_dir@ == abs_path@,
            final(self).sub_dirs@.last().sub_dirs@.len() == 0,
            final(self).sub_dirs@.last().files@.len() == 0,
            final(self).files@ == old(self).files@,
            final(self).root == old(self).root,
            final(self).absolute_dir == old(self).absolute_dir,
    {
        let d = DirectoryInfo::create(self.root.clone(), abs_path);
        self.sub_dirs.push(d);
        assert(self.sub_dirs@.take(old(self).sub_dirs@.len() as int) =~= old(self).sub_dirs@);
    }

    /// Records a loaded subdirectory.
    pub fn add_sub_dir(&mut self, sub: DirectoryInfo)
        ensures
            final(self).sub_dirs@ == old(self).sub_dirs@.push(sub),
            final(self).files@ == old(self).files@,
            final(self).root == old(self).root,
            final(self).absolute_dir == old(self).absolute_dir,
    {
        self.sub_dirs.push(sub);
    }

    /// One step of loading: classifies the entry at `abs_path` on the side
    /// `direction` and records it. An entry the filter rejects leaves the
    /// directory as it was; a file is recorded; a directory is recorded as a
    /// leaf when not recursive; for `EntryKind::Subtree` the caller loads the
    /// subdirectory and hands it to `add_sub_dir`.
    pub fn take_entry(
        &mut self,
        context: &SyncContext,
        direction: &OperateDirection,
        abs_path: String,
        is_dir: bool,
        recursive: bool,
    ) -> (r: EntryKind)
        ensures
            r == entry_kind(
                passes(
                    sources(context.side(*direction).allow@),
                    sources(context.side(*direction).exclude@),
                    abs_path@,
                ),
                is_dir,
                recursive,
            ),
            r == EntryKind::Skipped || r == EntryKind::Subtree ==> *final(self) == *old(self),
            r == EntryKind::File ==> {
                &&& final(self).files@.len() == old(self).files@.len() + 1
                &&& final(self).files@.take(old(self).files@.len() as int) == old(self).files@
                &&& final(self).files@.last()@ == (
                    name_of(abs_path@),
                    old(self).root@,
                    parent_of(abs_path@),
                )
                &&& final(self).sub_dirs@ == old(self).sub_dirs@
            },
            r == EntryKind::Leaf ==> {
                &&& final(self).sub_dirs@.len() == old(self).sub_dirs@.len() + 1
                &&& final(self).sub_dirs@.take(old(self).sub_dirs@.len() as int)
                    == old(self).sub_dirs@
                &&& final(self).sub_dirs@.last().root@ == old(self).root@
                &&& final(self).sub_dirs@.last().absolute_dir@ == abs_path@
                &&& final(self).sub_dirs@.last().sub_dirs@.len() == 0
                &&& final(self).sub_dirs@.last().files@.len() == 0
                &&& final(self).files@ == old(self).files@
            },
            final(self).root == old(self).root,
            final(self).absolute_dir == old(self).absolute_dir,
    {
        let kind = DirectoryInfo::classify(context, direction, abs_path.as_str(), is_dir, recursive);
        match kind {
            EntryKind::File => self.add_file(abs_path.as_str()),
            EntryKind::Leaf => self.add_leaf(abs_path),
            _ => {},
        }
        kind
    }
}

} // verus!
