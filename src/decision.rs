//! The decision engine: which entries to add, delete or update.
use vstd::prelude::*;
use crate::path::{place, place_under, rel_of};
use crate::tree::{
    dir_entry, dir_name, dir_wf, file_wf, lemma_file_wf, lemma_sub_wf, DirectoryInfo, FileInfo,
    FileView,
};

verus! {

/// What is done to an entry.
#[derive(Clone, Copy, PartialEq, Eq, Structural)]
pub enum FileAction {
    Add,
    Del,
    Update,
}

/// One operation: the action, the source entry (none for a deletion) and
/// the destination entry.
pub struct DecisionResultItem {
    pub action: FileAction,
    pub src_file_info: Option<FileInfo>,
    pub dest_file_info: FileInfo,
}

pub type ItemView = (FileAction, Option<FileView>, FileView);

impl View for DecisionResultItem {
    type V = ItemView;

    open spec fn view(&self) -> ItemView {
        (
            self.action,
            match self.src_file_info {
                Some(f) => Some(f@),
                None => None,
            },
            self.dest_file_info@,
        )
    }
}

pub open spec fn item_views(v: Seq<DecisionResultItem>) -> Seq<ItemView> {
    v.map_values(|it: DecisionResultItem| it@)
}

/// The operations of one kind found in one directory, keyed by the path of
/// that directory relative to the source root.
pub struct DecisionGroup {
    pub dir: String,
    pub items: Vec<DecisionResultItem>,
}

pub type GroupView = (Seq<char>, Seq<ItemView>);

impl View for DecisionGroup {
    type V = GroupView;

    open spec fn view(&self) -> GroupView {
        (self.dir@, item_views(self.items@))
    }
}

pub open spec fn group_views(v: Seq<DecisionGroup>) -> Seq<GroupView> {
    v.map_values(|g: DecisionGroup| g@)
}

/// A file present on both sides, whose contents decide whether it is updated.
pub struct UpdateCandidate {
    pub dir: String,
    pub src: FileInfo,
    pub dest: FileInfo,
}

pub type CandidateView = (Seq<char>, FileView, FileView);

impl View for UpdateCandidate {
    type V = CandidateView;

    open spec fn view(&self) -> CandidateView {
        (self.dir@, self.src@, self.dest@)
    }
}

pub open spec fn candidate_views(v: Seq<UpdateCandidate>) -> Seq<CandidateView> {
    v.map_values(|c: UpdateCandidate| c@)
}

/// Additions, deletions and the candidates for update, in that order.
pub type DecisionView = (Seq<GroupView>, Seq<GroupView>, Seq<CandidateView>);

pub open spec fn concat_views(a: DecisionView, b: DecisionView) -> DecisionView {
    (a.0 + b.0, a.1 + b.1, a.2 + b.2)
}

pub open spec fn empty_view() -> DecisionView {
    (Seq::empty(), Seq::empty(), Seq::empty())
}

/// Position of the first `name` in `names`, or -1.
pub open spec fn first_index(names: Seq<Seq<char>>, name: Seq<char>) -> int
    decreases names.len(),
{
    if names.len() == 0 {
        -1
    } else {
        let k = first_index(names.drop_last(), name);
        if k >= 0 {
            k
        } else if names.last() == name {
            names.len() - 1
        } else {
            -1
        }
    }
}

pub open spec fn strs(v: Seq<String>) -> Seq<Seq<char>> {
    v.map_values(|s: String| s@)
}

pub open spec fn file_names(fs: Seq<FileInfo>) -> Seq<Seq<char>> {
    fs.map_values(|f: FileInfo| f.name@)
}

pub open spec fn dir_names(ds: Seq<DirectoryInfo>) -> Seq<Seq<char>> {
    ds.map_values(|d: DirectoryInfo| dir_name(d))
}

pub open spec fn has_file(d: DirectoryInfo, name: Seq<char>) -> bool {
    first_index(file_names(d.files@), name) >= 0
}

pub open spec fn has_dir(d: DirectoryInfo, name: Seq<char>) -> bool {
    first_index(dir_names(d.sub_dirs@), name) >= 0
}

/// The destination entry for a new source entry: the same name, in the
/// directory at the same relative path under the destination root.
pub open spec fn dest_entry(src: FileView, to_root: Seq<char>) -> FileView {
    (src.0, to_root, place_under(to_root, rel_of(src.2, src.1)))
}

pub open spec fn add_view(src: FileView, to_root: Seq<char>) -> ItemView {
    (FileAction::Add, Some(src), dest_entry(src, to_root))
}

pub open spec fn del_view(dest: FileView) -> ItemView {
    (FileAction::Del, None, dest)
}

pub open spec fn update_view(c: CandidateView) -> ItemView {
    (FileAction::Update, Some(c.1), c.2)
}

/// Subdirectories of `from` with no namesake among those of `to`.
pub open spec fn dir_adds(from: DirectoryInfo, to: DirectoryInfo) -> Seq<ItemView> {
    from.sub_dirs@.filter_map(
        |s: DirectoryInfo|
            if has_dir(to, dir_name(s)) {
                None
            } else {
                Some(add_view(dir_entry(s), to.root@))
            },
    )
}

/// Files of `from` with no namesake among those of `to`.
pub open spec fn file_adds(from: DirectoryInfo, to: DirectoryInfo) -> Seq<ItemView> {
    from.files@.filter_map(
        |f: FileInfo|
            if has_file(to, f.name@) {
                None
            } else {
                Some(add_view(f@, to.root@))
            },
    )
}

/// Subdirectories of `to` with no namesake among those of `from`.
pub open spec fn dir_dels(from: DirectoryInfo, to: DirectoryInfo) -> Seq<ItemView> {
    to.sub_dirs@.filter_map(
        |s: DirectoryInfo|
            if has_dir(from, dir_name(s)) {
                None
            } else {
                Some(del_view(dir_entry(s)))
            },
    )
}

/// Files of `to` with no namesake among those of `from`.
pub open spec fn file_dels(from: DirectoryInfo, to: DirectoryInfo) -> Seq<ItemView> {
    to.files@.filter_map(
        |f: FileInfo|
            if has_file(from, f.name@) {
                None
            } else {
                Some(del_view(f@))
            },
    )
}

/// Files of `to` with a namesake among those of `from`, paired with it.
pub open spec fn level_candidates(from: DirectoryInfo, to: DirectoryInfo, key: Seq<char>) -> Seq<
    CandidateView,
> {
    to.files@.filter_map(
        |f: FileInfo|
            if has_file(from, f.name@) {
                Some(
                    (
                        key,
                        from.files@[first_index(file_names(from.files@), f.name@)]@,
                        f@,
                    ),
                )
            } else {
                None
            },
    )
}

/// The additions found in one directory: subdirectories first (only when
/// recursive), then files.
pub open spec fn level_adds(from: DirectoryInfo, to: DirectoryInfo, recursive: bool) -> Seq<
    ItemView,
> {
    (if recursive {
        dir_adds(from, to)
    } else {
        Seq::empty()
    }) + file_adds(from, to)
}

/// The deletions found in one directory: subdirectories first (only when
/// recursive), then files.
pub open spec fn level_dels(from: DirectoryInfo, to: DirectoryInfo, recursive: bool) -> Seq<
    ItemView,
> {
    (if recursive {
        dir_dels(from, to)
    } else {
        Seq::empty()
    }) + file_dels(from, to)
}

pub open spec fn level_view(from: DirectoryInfo, to: DirectoryInfo, recursive: bool) -> DecisionView {
    let key = rel_of(from.absolute_dir@, from.root@);
    (
        seq![(key, level_adds(from, to, recursive))],
        seq![(key, level_dels(from, to, recursive))],
        level_candidates(from, to, key),
    )
}

/// The whole decision for a pair of directories: this level, then, when
/// recursive, each subdirectory of `from` that has a namesake in `to`, in
/// the order of `from`.
pub open spec fn decide(from: DirectoryInfo, to: DirectoryInfo, recursive: bool) -> DecisionView
    decreases from, from.sub_dirs@.len() + 1,
{
    if recursive {
        concat_views(level_view(from, to, recursive), decide_from(from, to, recursive, 0))
    } else {
        level_view(from, to, recursive)
    }
}

/// The decisions for the subdirectories of `from` from position `i` on.
pub open spec fn decide_from(from: DirectoryInfo, to: DirectoryInfo, recursive: bool, i: int) -> DecisionView
    decreases from, from.sub_dirs@.len() - i,
{
    if i < 0 || i >= from.sub_dirs@.len() {
        empty_view()
    } else {
        let s = from.sub_dirs@[i];
        let k = first_index(dir_names(to.sub_dirs@), dir_name(s));
        let rest = decide_from(from, to, recursive, i + 1);
        if 0 <= k < to.sub_dirs@.len() {
            concat_views(decide(s, to.sub_dirs@[k], recursive), rest)
        } else {
            rest
        }
    }
}

pub proof fn lemma_first_index(names: Seq<Seq<char>>, name: Seq<char>, i: int)
    requires
        -1 <= i < names.len(),
        i >= 0 ==> names[i] == name,
        forall|j: int| 0 <= j < names.len() && (i < 0 || j < i) ==> names[j] != name,
    ensures
        first_index(names, name) == i,
    decreases names.len(),
{
    if names.len() > 0 {
        let t = names.drop_last();
        if i == names.len() - 1 {
            lemma_first_index(t, name, -1);
        } else {
            lemma_first_index(t, name, i);
        }
    }
}

pub proof fn lemma_first_index_bounds(names: Seq<Seq<char>>, name: Seq<char>)
    ensures
        -1 <= first_index(names, name) < names.len(),
        first_index(names, name) >= 0 ==> names[first_index(names, name)] == name,
        first_index(names, name) < 0 ==> forall|j: int| 0 <= j < names.len() ==> names[j] != name,
    decreases names.len(),
{
    if names.len() > 0 {
        let t = names.drop_last();
        lemma_first_index_bounds(t, name);
        assert forall|j: int| 0 <= j < t.len() implies names[j] == t[j] by {}
    }
}

/// Position of the first `name` in `names`.
pub fn position(names: &Vec<String>, name: &String) -> (r: Option<usize>)
    ensures
        r matches Some(k) ==> k == first_index(strs(names@), name@),
        r is None ==> first_index(strs(names@), name@) == -1,
{
    let mut i: usize = 0;
    while i < names.len()
        invariant
            i <= names@.len(),
            forall|j: int| 0 <= j < i ==> strs(names@)[j] != name@,
        decreases names@.len() - i,
    {
        if names[i] == *name {
            proof {
                lemma_first_index(strs(names@), name@, i as int);
            }
            return Some(i);
        }
        i = i + 1;
    }
    proof {
        lemma_first_index(strs(names@), name@, -1);
    }
    None
}

fn names_of_files(fs: &Vec<FileInfo>) -> (r: Vec<String>)
    ensures
        strs(r@) == file_names(fs@),
{
    let mut r: Vec<String> = Vec::new();
    let mut i: usize = 0;
    while i < fs.len()
        invariant
            i <= fs@.len(),
            r@.len() == i,
            strs(r@) == file_names(fs@.take(i as int)),
        decreases fs@.len() - i,
    {
        proof {
            assert(fs@.take(i as int + 1) =~= fs@.take(i as int).push(fs@[i as int]));
        }
        let ghost old_r = r@;
        r.push(fs[i].name.clone());
        assert(r@ =~= old_r.push(r@[i as int]));
        assert forall|j: int| 0 <= j < i implies strs(r@)[j] == file_names(fs@.take(i as int + 1))[j] by {
            assert(strs(old_r)[j] == file_names(fs@.take(i as int))[j]);
        }
        i = i + 1;
        assert(strs(r@) =~= file_names(fs@.take(i as int)));
    }
    assert(fs@.take(i as int) =~= fs@);
    r
}

fn names_of_dirs(ds: &Vec<DirectoryInfo>) -> (r: Vec<String>)
    ensures
        strs(r@) == dir_names(ds@),
{
    let mut r: Vec<String> = Vec::new();
    let mut i: usize = 0;
    while i < ds.len()
        invariant
            i <= ds@.len(),
            r@.len() == i,
            strs(r@) == dir_names(ds@.take(i as int)),
        decreases ds@.len() - i,
    {
        proof {
            assert(ds@.take(i as int + 1) =~= ds@.take(i as int).push(ds@[i as int]));
        }
        let ghost old_r = r@;
        r.push(ds[i].name());
        assert(r@ =~= old_r.push(r@[i as int]));
        assert forall|j: int| 0 <= j < i implies strs(r@)[j] == dir_names(ds@.take(i as int + 1))[j] by {
            assert(strs(old_r)[j] == dir_names(ds@.take(i as int))[j]);
        }
        i = i + 1;
        assert(strs(r@) =~= dir_names(ds@.take(i as int)));
    }
    assert(ds@.take(i as int) =~= ds@);
    r
}

fn push_item(v: &mut Vec<DecisionResultItem>, it: DecisionResultItem)
    ensures
        item_views(final(v)@) == item_views(old(v)@).push(it@),
{
    v.push(it);
    assert(item_views(final(v)@) =~= item_views(old(v)@).push(it@));
}

fn push_candidate(v: &mut Vec<UpdateCandidate>, c: UpdateCandidate)
    ensures
        candidate_views(final(v)@) == candidate_views(old(v)@).push(c@),
{
    v.push(c);
    assert(candidate_views(final(v)@) =~= candidate_views(old(v)@).push(c@));
}

/// The names of both sides of one directory pair.
struct Names {
    from_files: Vec<String>,
    to_files: Vec<String>,
    from_dirs: Vec<String>,
    to_dirs: Vec<String>,
}

impl Names {
    spec fn of(&self, from: DirectoryInfo, to: DirectoryInfo) -> bool {
        &&& strs(self.from_files@) == file_names(from.files@)
        &&& strs(self.to_files@) == file_names(to.files@)
        &&& strs(self.from_dirs@) == dir_names(from.sub_dirs@)
        &&& strs(self.to_dirs@) == dir_names(to.sub_dirs@)
    }
}

/// A decision for one pair of directories and, below them, their namesakes.
pub struct DecisionTask<'a> {
    pub from_dict_info: &'a DirectoryInfo,
    pub to_dict_info: &'a DirectoryInfo,
    pub recursive: bool,
}

impl<'a> DecisionTask<'a> {
    pub fn new(from_dict_info: &'a DirectoryInfo, to_dict_info: &'a DirectoryInfo, recursive: bool) -> (r: Self)
        ensures
            r.from_dict_info == from_dict_info,
            r.to_dict_info == to_dict_info,
            r.recursive == recursive,
    {
        DecisionTask { from_dict_info, to_dict_info, recursive }
    }

    /// The destination entry for the new source entry `src`.
    fn gene_add_dest_file_info(&self, src: &FileInfo) -> (r: FileInfo)
        requires
            file_wf(src@),
        ensures
            r@ == dest_entry(src@, self.to_dict_info.root@),
    {
        let rel = src.relative_path_without_file();
        let dir = place(self.to_dict_info.root.as_str(), rel.as_str());
        FileInfo::new(src.name.clone(), self.to_dict_info.root.clone(), dir)
    }

    /// Additions: entries of the source with no namesake in the destination.
    fn find_add(&self, names: &Names) -> (r: Vec<DecisionResultItem>)
        requires
            dir_wf(*self.from_dict_info),
            names.of(*self.from_dict_info, *self.to_dict_info),
        ensures
            item_views(r@) == level_adds(*self.from_dict_info, *self.to_dict_info, self.recursive),
    {
        let from = self.from_dict_info;
        let ghost to = *self.to_dict_info;
        let mut items: Vec<DecisionResultItem> = Vec::new();
        if self.recursive {
            let mut i: usize = 0;
            while i < from.sub_dirs.len()
                invariant
                    dir_wf(*from),
                    names.of(*from, to),
                    to == *self.to_dict_info,
                    i <= from.sub_dirs@.len(),
                    item_views(items@) == from.sub_dirs@.take(i as int).filter_map(
                        |s: DirectoryInfo|
                            if has_dir(to, dir_name(s)) {
                                None
                            } else {
                                Some(add_view(dir_entry(s), to.root@))
                            },
                    ),
                decreases from.sub_dirs@.len() - i,
            {
                proof {
                    from.sub_dirs@.lemma_filter_map_take_succ(
                        |s: DirectoryInfo|
                            if has_dir(to, dir_name(s)) {
                                None
                            } else {
                                Some(add_view(dir_entry(s), to.root@))
                            },
                        i as int,
                    );
                    lemma_sub_wf(*from, i as int);
                }
                let s = &from.sub_dirs[i];
                let n = s.name();
                assert(n@ == dir_names(from.sub_dirs@)[i as int]);
                if position(&names.to_dirs, &n).is_none() {
                    let src = s.to_file_info();
                    let dest = self.gene_add_dest_file_info(&src);
                    push_item(
                        &mut items,
                        DecisionResultItem { action: FileAction::Add, src_file_info: Some(src), dest_file_info: dest },
                    );
                }
                i = i + 1;
            }
            assert(from.sub_dirs@.take(i as int) =~= from.sub_dirs@);
        }
        let ghost dirs_part = item_views(items@);
        let mut i: usize = 0;
        while i < from.files.len()
            invariant
                dir_wf(*from),
                names.of(*from, to),
                to == *self.to_dict_info,
                i <= from.files@.len(),
                item_views(items@) == dirs_part + from.files@.take(i as int).filter_map(
                    |f: FileInfo|
                        if has_file(to, f.name@) {
                            None
                        } else {
                            Some(add_view(f@, to.root@))
                        },
                ),
            decreases from.files@.len() - i,
        {
            proof {
                from.files@.lemma_filter_map_take_succ(
                    |f: FileInfo|
                        if has_file(to, f.name@) {
                            None
                        } else {
                            Some(add_view(f@, to.root@))
                        },
                    i as int,
                );
                lemma_file_wf(*from, i as int);
            }
            let f = &from.files[i];
            assert(f.name@ == file_names(from.files@)[i as int]);
            if position(&names.to_files, &f.name).is_none() {
                let src = f.copy();
                let dest = self.gene_add_dest_file_info(&src);
                push_item(
                    &mut items,
                    DecisionResultItem { action: FileAction::Add, src_file_info: Some(src), dest_file_info: dest },
                );
            }
            i = i + 1;
        }
        assert(from.files@.take(i as int) =~= from.files@);
        assert(item_views(items@) =~= level_adds(*from, to, self.recursive));
        items
    }

    /// Deletions: entries of the destination with no namesake in the source.
    fn find_del(&self, names: &Names) -> (r: Vec<DecisionResultItem>)
        requires
            names.of(*self.from_dict_info, *self.to_dict_info),
        ensures
            item_views(r@) == level_dels(*self.from_dict_info, *self.to_dict_info, self.recursive),
    {
        let to = self.to_dict_info;
        let ghost from = *self.from_dict_info;
        let mut items: Vec<DecisionResultItem> = Vec::new();
        if self.recursive {
            let mut i: usize = 0;
            while i < to.sub_dirs.len()
                invariant
                    names.of(from, *to),
                    from == *self.from_dict_info,
                    i <= to.sub_dirs@.len(),
                    item_views(items@) == to.sub_dirs@.take(i as int).filter_map(
                        |s: DirectoryInfo|
                            if has_dir(from, dir_name(s)) {
                                None
                            } else {
                                Some(del_view(dir_entry(s)))
                            },
                    ),
                decreases to.sub_dirs@.len() - i,
            {
                proof {
                    to.sub_dirs@.lemma_filter_map_take_succ(
                        |s: DirectoryInfo|
                            if has_dir(from, dir_name(s)) {
                                None
                            } else {
                                Some(del_view(dir_entry(s)))
                            },
                        i as int,
                    );
                }
                let s = &to.sub_dirs[i];
                let n = s.name();
                assert(n@ == dir_names(to.sub_dirs@)[i as int]);
                if position(&names.from_dirs, &n).is_none() {
                    let dest = s.to_file_info();
                    push_item(
                        &mut items,
                        DecisionResultItem { action: FileAction::Del, src_file_info: None, dest_file_info: dest },
                    );
                }
                i = i + 1;
            }
            assert(to.sub_dirs@.take(i as int) =~= to.sub_dirs@);
        }
        let ghost dirs_part = item_views(items@);
        let mut i: usize = 0;
        while i < to.files.len()
            invariant
                names.of(from, *to),
                from == *self.from_dict_info,
                i <= to.files@.len(),
                item_views(items@) == dirs_part + to.files@.take(i as int).filter_map(
                    |f: FileInfo|
                        if has_file(from, f.name@) {
                            None
                        } else {
                            Some(del_view(f@))
                        },
                ),
            decreases to.files@.len() - i,
        {
            proof {
                to.files@.lemma_filter_map_take_succ(
                    |f: FileInfo|
                        if has_file(from, f.name@) {
                            None
                        } else {
                            Some(del_view(f@))
                        },
                    i as int,
                );
            }
            let f = &to.files[i];
            assert(f.name@ == file_names(to.files@)[i as int]);
            if position(&names.from_files, &f.name).is_none() {
                push_item(
                    &mut items,
                    DecisionResultItem { action: FileAction::Del, src_file_info: None, dest_file_info: f.copy() },
                );
            }
            i = i + 1;
        }
        assert(to.files@.take(i as int) =~= to.files@);
        assert(item_views(items@) =~= level_dels(from, *to, self.recursive));
        items
    }

    /// Files present on both sides: each is paired with its namesake in the
    /// source, under the key `key`.
    fn find_update(&self, key: &String, names: &Names) -> (r: Vec<UpdateCandidate>)
        requires
            names.of(*self.from_dict_info, *self.to_dict_info),
        ensures
            candidate_views(r@) == level_candidates(*self.from_dict_info, *self.to_dict_info, key@),
    {
        let to = self.to_dict_info;
        let from = self.from_dict_info;
        let mut items: Vec<UpdateCandidate> = Vec::new();
        let mut i: usize = 0;
        while i < to.files.len()
            invariant
                names.of(*from, *to),
                i <= to.files@.len(),
                candidate_views(items@) == to.files@.take(i as int).filter_map(
                    |f: FileInfo|
                        if has_file(*from, f.name@) {
                            Some((key@, from.files@[first_index(file_names(from.files@), f.name@)]@, f@))
                        } else {
                            None
                        },
                ),
            decreases to.files@.len() - i,
        {
            proof {
                to.files@.lemma_filter_map_take_succ(
                    |f: FileInfo|
                        if has_file(*from, f.name@) {
                            Some((key@, from.files@[first_index(file_names(from.files@), f.name@)]@, f@))
                        } else {
                            None
                        },
                    i as int,
                );
            }
            let f = &to.files[i];
            assert(f.name@ == file_names(to.files@)[i as int]);
            match position(&names.from_files, &f.name) {
                Some(k) => {
                    proof {
                        lemma_first_index_bounds(file_names(from.files@), f.name@);
                    }
                    let c = UpdateCandidate { dir: key.clone(), src: from.files[k].copy(), dest: f.copy() };
                    push_candidate(&mut items, c);
                },
                None => {},
            }
            i = i + 1;
        }
        assert(to.files@.take(i as int) =~= to.files@);
        items
    }

    /// Appends to `out` and `cands` the decision for this pair of directories.
    fn decide_into(&self, out: &mut DecisionResult, cands: &mut Vec<UpdateCandidate>)
        requires
            dir_wf(*self.from_dict_info),
            dir_wf(*self.to_dict_info),
        ensures
            result_view(*final(out), final(cands)@) == concat_views(
                result_view(*old(out), old(cands)@),
                decide(*self.from_dict_info, *self.to_dict_info, self.recursive),
            ),
            final(out).update_items@ == old(out).update_items@,
        decreases *self.from_dict_info,
    {
        let from = self.from_dict_info;
        let to = self.to_dict_info;
        let names = Names {
            from_files: names_of_files(&from.files),
            to_files: names_of_files(&to.files),
            from_dirs: names_of_dirs(&from.sub_dirs),
            to_dirs: names_of_dirs(&to.sub_dirs),
        };
        let key = from.relative_path();
        let adds = self.find_add(&names);
        let dels = self.find_del(&names);
        let mut found = self.find_update(&key, &names);
        let ghost before = result_view(*out, cands@);
        push_group(&mut out.add_items, DecisionGroup { dir: key.clone(), items: adds });
        push_group(&mut out.del_items, DecisionGroup { dir: key, items: dels });
        let ghost found_view = candidate_views(found@);
        cands.append(&mut found);
        assert(candidate_views(cands@) =~= before.2 + found_view);
        let ghost start = result_view(*out, cands@);
        proof {
            let lv = level_view(*from, *to, self.recursive);
            assert(start.0 =~= before.0 + lv.0);
            assert(start.1 =~= before.1 + lv.1);
            assert(start == concat_views(before, lv));
        }
        if !self.recursive {
            return;
        }
        let mut i: usize = 0;
        while i < from.sub_dirs.len()
            invariant
                dir_wf(*from),
                dir_wf(*to),
                self.recursive,
                from == self.from_dict_info,
                to == self.to_dict_info,
                names.of(*from, *to),
                i <= from.sub_dirs@.len(),
                out.update_items@ == old(out).update_items@,
                concat_views(result_view(*out, cands@), decide_from(*from, *to, true, i as int))
                    == concat_views(start, decide_from(*from, *to, true, 0)),
            decreases from.sub_dirs@.len() - i,
        {
            let s = &from.sub_dirs[i];
            let n = s.name();
            assert(n@ == dir_names(from.sub_dirs@)[i as int]);
            let ghost prev = result_view(*out, cands@);
            let ghost rest = decide_from(*from, *to, true, i + 1);
            match position(&names.to_dirs, &n) {
                Some(k) => {
                    proof {
                        lemma_first_index_bounds(dir_names(to.sub_dirs@), n@);
                        lemma_sub_wf(*from, i as int);
                        lemma_sub_wf(*to, k as int);
                        assert(decreases_to!(*from => from.sub_dirs@[i as int]));
                    }
                    let sub = DecisionTask::new(s, &to.sub_dirs[k], true);
                    sub.decide_into(out, cands);
                    proof {
                        lemma_concat_assoc(prev, decide(*s, to.sub_dirs@[k as int], true), rest);
                    }
                },
                None => {},
            }
            i = i + 1;
        }
        proof {
            lemma_concat_empty(result_view(*out, cands@));
            lemma_concat_assoc(
                result_view(*old(out), old(cands)@),
                level_view(*from, *to, true),
                decide_from(*from, *to, true, 0),
            );
        }
    }

    /// The decision for the two trees: additions and deletions grouped by
    /// directory, and the files present on both sides, whose contents
    /// decide on updates (see `DecisionResult::add_updates`).
    pub fn make_decision(&self) -> (r: (DecisionResult, Vec<UpdateCandidate>))
        requires
            dir_wf(*self.from_dict_info),
            dir_wf(*self.to_dict_info),
        ensures
            result_view(r.0, r.1@) == decide(*self.from_dict_info, *self.to_dict_info, self.recursive),
            r.0.update_items@.len() == 0,
    {
        let mut out = DecisionResult::new();
        let mut cands: Vec<UpdateCandidate> = Vec::new();
        self.decide_into(&mut out, &mut cands);
        proof {
            let d = decide(*self.from_dict_info, *self.to_dict_info, self.recursive);
            assert(result_view(out, cands@).0 =~= d.0);
            assert(result_view(out, cands@).1 =~= d.1);
            assert(result_view(out, cands@).2 =~= d.2);
        }
        (out, cands)
    }
}

pub proof fn lemma_concat_assoc(a: DecisionView, b: DecisionView, c: DecisionView)
    ensures
        concat_views(concat_views(a, b), c) == concat_views(a, concat_views(b, c)),
{
    assert(concat_views(concat_views(a, b), c).0 =~= concat_views(a, concat_views(b, c)).0);
    assert(concat_views(concat_views(a, b), c).1 =~= concat_views(a, concat_views(b, c)).1);
    assert(concat_views(concat_views(a, b), c).2 =~= concat_views(a, concat_views(b, c)).2);
}

pub proof fn lemma_concat_empty(a: DecisionView)
    ensures
        concat_views(a, empty_view()) == a,
{
    assert(concat_views(a, empty_view()).0 =~= a.0);
    assert(concat_views(a, empty_view()).1 =~= a.1);
    assert(concat_views(a, empty_view()).2 =~= a.2);
}

fn push_group(v: &mut Vec<DecisionGroup>, g: DecisionGroup)
    ensures
        group_views(final(v)@) == group_views(old(v)@).push(g@),
{
    v.push(g);
    assert(group_views(final(v)@) =~= group_views(old(v)@).push(g@));
}

/// The additions and deletions of `r`, with the candidates `cands`.
pub open spec fn result_view(r: DecisionResult, cands: Seq<UpdateCandidate>) -> DecisionView {
    (group_views(r.add_items@), group_views(r.del_items@), candidate_views(cands))
}

/// Number of operations in the groups `gs`.
pub open spec fn count_items(gs: Seq<GroupView>) -> nat
    decreases gs.len(),
{
    if gs.len() == 0 {
        0
    } else {
        count_items(gs.drop_last()) + gs.last().1.len()
    }
}

/// The operations to perform, by kind, each kind grouped by directory.
pub struct DecisionResult {
    pub add_items: Vec<DecisionGroup>,
    pub del_items: Vec<DecisionGroup>,
    pub update_items: Vec<DecisionGroup>,
}

impl DecisionResult {
    pub open spec fn adds(&self) -> Seq<GroupView> {
        group_views(self.add_items@)
    }

    pub open spec fn dels(&self) -> Seq<GroupView> {
        group_views(self.del_items@)
    }

    pub open spec fn updates(&self) -> Seq<GroupView> {
        group_views(self.update_items@)
    }

    /// The number of operations of all kinds.
    pub open spec fn total(&self) -> nat {
        count_items(self.adds()) + count_items(self.dels()) + count_items(self.updates())
    }

    pub fn new() -> (r: Self)
        ensures
            r.adds().len() == 0,
            r.dels().len() == 0,
            r.updates().len() == 0,
    {
        DecisionResult { add_items: Vec::new(), del_items: Vec::new(), update_items: Vec::new() }
    }

    /// The number of operations of all kinds (`usize::MAX` if there are more).
    pub fn total_count(&self) -> (r: usize)
        ensures
            r == capped(self.total()),
    {
        let a = count_groups(&self.add_items);
        let d = count_groups(&self.del_items);
        let u = count_groups(&self.update_items);
        capped_add(capped_add(a, d), u)
    }

    /// Whether there is nothing to do.
    pub fn is_empty(&self) -> (r: bool)
        ensures
            r == (self.total() == 0),
    {
        self.total_count() == 0
    }

    /// Adds the groups of `other` after those of `self`, kind by kind; groups
    /// with the same directory are all kept.
    pub fn merge(&mut self, other: DecisionResult)
        ensures
            final(self).adds() == old(self).adds() + other.adds(),
            final(self).dels() == old(self).dels() + other.dels(),
            final(self).updates() == old(self).updates() + other.updates(),
    {
        let mut other = other;
        let ghost o = other;
        self.add_items.append(&mut other.add_items);
        self.del_items.append(&mut other.del_items);
        self.update_items.append(&mut other.update_items);
        assert(self.adds() =~= old(self).adds() + o.adds());
        assert(self.dels() =~= old(self).dels() + o.dels());
        assert(self.updates() =~= old(self).updates() + o.updates());
    }

    /// Adds an update for each candidate whose entry in `changed` is true, in
    /// the order of `cands`: to the last group when that group has the
    /// candidate's directory, else in a new group for that directory.
    pub fn add_updates(&mut self, cands: &Vec<UpdateCandidate>, changed: &Vec<bool>)
        requires
            changed@.len() == cands@.len(),
        ensures
            final(self).updates() == settled(
                old(self).updates(),
                candidate_views(cands@),
                changed@,
                cands@.len() as int,
            ),
            final(self).adds() == old(self).adds(),
            final(self).dels() == old(self).dels(),
    {
        let mut i: usize = 0;
        while i < cands.len()
            invariant
                changed@.len() == cands@.len(),
                i <= cands@.len(),
                self.updates() == settled(
                    old(self).updates(),
                    candidate_views(cands@),
                    changed@,
                    i as int,
                ),
                self.adds() == old(self).adds(),
                self.dels() == old(self).dels(),
            decreases cands@.len() - i,
        {
            if changed[i] {
                let c = &cands[i];
                let ghost cv = candidate_views(cands@)[i as int];
                let ghost before = self.updates();
                let item = DecisionResultItem {
                    action: FileAction::Update,
                    src_file_info: Some(c.src.copy()),
                    dest_file_info: c.dest.copy(),
                };
                assert(item@ == update_view(cv));
                let n = self.update_items.len();
                if n > 0 && self.update_items[n - 1].dir == c.dir {
                    let ghost last = self.update_items@[n - 1];
                    assert(before.last() == last@);
                    let mut g = self.update_items.pop().unwrap();
                    assert(group_views(self.update_items@) =~= before.drop_last());
                    push_item(&mut g.items, item);
                    push_group(&mut self.update_items, g);
                } else {
                    let mut items: Vec<DecisionResultItem> = Vec::new();
                    push_item(&mut items, item);
                    assert(item_views(items@) =~= seq![update_view(cv)]);
                    push_group(&mut self.update_items, DecisionGroup { dir: c.dir.clone(), items });
                }
            }
            i = i + 1;
        }
    }
}

/// `gs` with the update for candidate `c`: in the last group when that group
/// has the candidate's directory, else in a new group.
pub open spec fn with_update(gs: Seq<GroupView>, c: CandidateView) -> Seq<GroupView> {
    if gs.len() > 0 && gs.last().0 == c.0 {
        gs.drop_last().push((c.0, gs.last().1.push(update_view(c))))
    } else {
        gs.push((c.0, seq![update_view(c)]))
    }
}

/// `gs` with the updates for the first `n` candidates `cs` whose entry in
/// `changed` is true.
pub open spec fn settled(gs: Seq<GroupView>, cs: Seq<CandidateView>, changed: Seq<bool>, n: int) -> Seq<
    GroupView,
>
    decreases n,
{
    if n <= 0 {
        gs
    } else if changed[n - 1] {
        with_update(settled(gs, cs, changed, n - 1), cs[n - 1])
    } else {
        settled(gs, cs, changed, n - 1)
    }
}

pub open spec fn capped(n: nat) -> nat {
    if n > usize::MAX {
        usize::MAX as nat
    } else {
        n
    }
}

fn capped_add(a: usize, b: usize) -> (r: usize)
    ensures
        r == capped((a + b) as nat),
{
    if a > usize::MAX - b {
        usize::MAX
    } else {
        a + b
    }
}

/// The number of operations in the groups `gs`.
fn count_groups(gs: &Vec<DecisionGroup>) -> (r: usize)
    ensures
        r == capped(count_items(group_views(gs@))),
{
    let mut cnt: usize = 0;
    let mut i: usize = 0;
    while i < gs.len()
        invariant
            i <= gs@.len(),
            cnt == capped(count_items(group_views(gs@.take(i as int)))),
        decreases gs@.len() - i,
    {
        assert(group_views(gs@.take(i as int + 1)).drop_last() =~= group_views(gs@.take(i as int)));
        cnt = capped_add(cnt, gs[i].items.len());
        i = i + 1;
    }
    assert(gs@.take(i as int) =~= gs@);
    cnt
}

/// Whether two contents are the same: lengths first, then byte by byte.
pub fn is_same_file(a: &[u8], b: &[u8]) -> (r: bool)
    ensures
        r == (a@ == b@),
{
    if a.len() != b.len() {
        return false;
    }
    let mut i: usize = 0;
    while i < a.len()
        invariant
            a@.len() == b@.len(),
            i <= a@.len(),
            forall|j: int| 0 <= j < i ==> a@[j] == b@[j],
        decreases a@.len() - i,
    {
        if a[i] != b[i] {
            return false;
        }
        i = i + 1;
    }
    assert(a@ =~= b@);
    true
}

/// Whether a file present on both sides is to be updated: exactly when the
/// contents differ, whatever the modification times.
pub fn check_has_updated(src: &[u8], dest: &[u8]) -> (r: bool)
    ensures
        r == (src@ != dest@),
{
    !is_same_file(src, dest)
}

} // verus!
