//! What holds of every decision.
use vstd::prelude::*;
use crate::decision::{
    count_items, decide, decide_from, dir_names, file_names, first_index, has_dir, has_file,
    dest_entry, level_adds, level_dels, lemma_first_index_bounds, settled, CandidateView,
    GroupView, ItemView,
};
use crate::path::{clean_abs, join_path, place_under, rel_of, under};
use crate::tree::{
    dir_entry, dir_name, dir_wf, file_rel, file_wf, lemma_file_wf, lemma_sub_wf, DirectoryInfo,
    FileInfo, FileView,
};

verus! {

/// `name` stands on both sides as an entry that is compared, not added or
/// deleted: a file on both sides, or (when recursive) a directory on both.
pub open spec fn on_both(from: DirectoryInfo, to: DirectoryInfo, recursive: bool, name: Seq<char>) -> bool {
    (has_file(from, name) && has_file(to, name)) || (recursive && has_dir(from, name) && has_dir(
        to,
        name,
    ))
}

/// No name of `d` is both a file and a directory, as a filesystem ensures.
pub open spec fn kinds_apart_within(d: DirectoryInfo) -> bool {
    forall|n: Seq<char>| !(#[trigger] has_file(d, n) && has_dir(d, n))
}

/// No name is a file in one place and a directory in another, on either side
/// or across them.
pub open spec fn kinds_apart(from: DirectoryInfo, to: DirectoryInfo) -> bool {
    &&& kinds_apart_within(from)
    &&& kinds_apart_within(to)
    &&& forall|n: Seq<char>|
        {
            &&& !(#[trigger] has_file(from, n) && has_dir(to, n))
            &&& !(has_dir(from, n) && #[trigger] has_file(to, n))
        }
}

proof fn lemma_dir_present(ds: Seq<DirectoryInfo>, k: int)
    requires
        0 <= k < ds.len(),
    ensures
        first_index(dir_names(ds), dir_name(ds[k])) >= 0,
{
    lemma_first_index_bounds(dir_names(ds), dir_name(ds[k]));
    assert(dir_names(ds)[k] == dir_name(ds[k]));
}

proof fn lemma_file_present(fs: Seq<FileInfo>, k: int)
    requires
        0 <= k < fs.len(),
    ensures
        first_index(file_names(fs), fs[k].name@) >= 0,
{
    lemma_first_index_bounds(file_names(fs), fs[k].name@);
    assert(file_names(fs)[k] == fs[k].name@);
}

proof fn lemma_in_concat(a: Seq<ItemView>, b: Seq<ItemView>, x: ItemView)
    requires
        (a + b).contains(x),
    ensures
        a.contains(x) || b.contains(x),
{
    let i = choose|i: int| 0 <= i < (a + b).len() && (a + b)[i] == x;
    if i < a.len() {
        assert(a[i] == x);
    } else {
        assert(b[i - a.len()] == x);
    }
}

/// Where an addition comes from: a directory (when recursive) or a file of
/// the source whose name the destination lacks.
proof fn lemma_add_origin(from: DirectoryInfo, to: DirectoryInfo, recursive: bool, x: ItemView)
    requires
        level_adds(from, to, recursive).contains(x),
    ensures
        (recursive && has_dir(from, x.2.0) && !has_dir(to, x.2.0)) || (has_file(from, x.2.0)
            && !has_file(to, x.2.0)),
{
    let fd = |s: DirectoryInfo|
        if has_dir(to, dir_name(s)) {
            None
        } else {
            Some(crate::decision::add_view(dir_entry(s), to.root@))
        };
    let ff = |f: FileInfo|
        if has_file(to, f.name@) {
            None
        } else {
            Some(crate::decision::add_view(f@, to.root@))
        };
    let dirs: Seq<ItemView> = if recursive {
        from.sub_dirs@.filter_map(fd)
    } else {
        Seq::empty()
    };
    lemma_in_concat(dirs, from.files@.filter_map(ff), x);
    if dirs.contains(x) {
        from.sub_dirs@.lemma_filter_map_contains(fd, x);
        let s = choose|s: DirectoryInfo| from.sub_dirs@.contains(s) && fd(s) == Some(x);
        let k = choose|k: int| 0 <= k < from.sub_dirs@.len() && from.sub_dirs@[k] == s;
        lemma_dir_present(from.sub_dirs@, k);
    } else {
        from.files@.lemma_filter_map_contains(ff, x);
        let f = choose|f: FileInfo| from.files@.contains(f) && ff(f) == Some(x);
        let k = choose|k: int| 0 <= k < from.files@.len() && from.files@[k] == f;
        lemma_file_present(from.files@, k);
    }
}

/// Where a deletion comes from: a directory (when recursive) or a file of
/// the destination whose name the source lacks.
proof fn lemma_del_origin(from: DirectoryInfo, to: DirectoryInfo, recursive: bool, x: ItemView)
    requires
        level_dels(from, to, recursive).contains(x),
    ensures
        (recursive && has_dir(to, x.2.0) && !has_dir(from, x.2.0)) || (has_file(to, x.2.0)
            && !has_file(from, x.2.0)),
{
    let fd = |s: DirectoryInfo|
        if has_dir(from, dir_name(s)) {
            None
        } else {
            Some(crate::decision::del_view(dir_entry(s)))
        };
    let ff = |f: FileInfo|
        if has_file(from, f.name@) {
            None
        } else {
            Some(crate::decision::del_view(f@))
        };
    let dirs: Seq<ItemView> = if recursive {
        to.sub_dirs@.filter_map(fd)
    } else {
        Seq::empty()
    };
    lemma_in_concat(dirs, to.files@.filter_map(ff), x);
    if dirs.contains(x) {
        to.sub_dirs@.lemma_filter_map_contains(fd, x);
        let s = choose|s: DirectoryInfo| to.sub_dirs@.contains(s) && fd(s) == Some(x);
        let k = choose|k: int| 0 <= k < to.sub_dirs@.len() && to.sub_dirs@[k] == s;
        lemma_dir_present(to.sub_dirs@, k);
    } else {
        to.files@.lemma_filter_map_contains(ff, x);
        let f = choose|f: FileInfo| to.files@.contains(f) && ff(f) == Some(x);
        let k = choose|k: int| 0 <= k < to.files@.len() && to.files@[k] == f;
        lemma_file_present(to.files@, k);
    }
}

/// At one directory level, a name present on both sides (a file on both,
/// compared for update, or when recursive a directory on both, recursed into)
/// is neither added nor deleted, provided that within each side no name is
/// both a file and a directory.
pub proof fn lemma_shared_names_not_added_or_deleted(
    from: DirectoryInfo,
    to: DirectoryInfo,
    recursive: bool,
)
    requires
        kinds_apart_within(from),
        kinds_apart_within(to),
    ensures
        forall|x: ItemView| #[trigger]
            level_adds(from, to, recursive).contains(x) ==> !on_both(from, to, recursive, x.2.0),
        forall|y: ItemView| #[trigger]
            level_dels(from, to, recursive).contains(y) ==> !on_both(from, to, recursive, y.2.0),
{
    assert forall|x: ItemView| #[trigger]
        level_adds(from, to, recursive).contains(x) implies !on_both(from, to, recursive, x.2.0) by {
        lemma_add_origin(from, to, recursive, x);
        let n = x.2.0;
        assert(!(has_file(from, n) && has_dir(from, n)));
    }
    assert forall|y: ItemView| #[trigger]
        level_dels(from, to, recursive).contains(y) implies !on_both(from, to, recursive, y.2.0) by {
        lemma_del_origin(from, to, recursive, y);
        let n = y.2.0;
        assert(!(has_file(to, n) && has_dir(to, n)));
    }
}

/// At one directory level, the names added, the names deleted and the names
/// present on both sides are pairwise disjoint, provided that no name is a
/// file in one place and a directory in another. Without the last proviso a
/// name that is a file in the source and a directory in the destination is
/// both added and deleted.
pub proof fn lemma_level_names_disjoint(from: DirectoryInfo, to: DirectoryInfo, recursive: bool)
    requires
        kinds_apart(from, to),
    ensures
        forall|x: ItemView, y: ItemView|
            #[trigger] level_adds(from, to, recursive).contains(x) && #[trigger] level_dels(
                from,
                to,
                recursive,
            ).contains(y) ==> x.2.0 != y.2.0,
        forall|x: ItemView| #[trigger]
            level_adds(from, to, recursive).contains(x) ==> !on_both(from, to, recursive, x.2.0),
        forall|y: ItemView| #[trigger]
            level_dels(from, to, recursive).contains(y) ==> !on_both(from, to, recursive, y.2.0),
{
    lemma_shared_names_not_added_or_deleted(from, to, recursive);
    assert forall|x: ItemView, y: ItemView|
        #[trigger] level_adds(from, to, recursive).contains(x) && #[trigger] level_dels(
            from,
            to,
            recursive,
        ).contains(y) implies x.2.0 != y.2.0 by {
        lemma_add_origin(from, to, recursive, x);
        lemma_del_origin(from, to, recursive, y);
        let n = x.2.0;
        assert(!(has_file(from, n) && has_dir(to, n)));
        assert(!(has_dir(from, n) && has_file(to, n)));
    }
}

/// The destination holds what the source holds: the same file names and,
/// when recursive, the same directory names, each directory mirroring its
/// namesake.
pub open spec fn mirrors(from: DirectoryInfo, to: DirectoryInfo, recursive: bool) -> bool
    decreases from,
{
    &&& forall|n: Seq<char>| #[trigger] has_file(from, n) == has_file(to, n)
    &&& recursive ==> forall|n: Seq<char>| #[trigger] has_dir(from, n) == has_dir(to, n)
    &&& recursive ==> forall|i: int|
        0 <= i < from.sub_dirs@.len() ==> mirrors(
            #[trigger] from.sub_dirs@[i],
            to.sub_dirs@[first_index(dir_names(to.sub_dirs@), dir_name(from.sub_dirs@[i]))],
            recursive,
        )
}

proof fn lemma_count_concat(a: Seq<GroupView>, b: Seq<GroupView>)
    ensures
        count_items(a + b) == count_items(a) + count_items(b),
    decreases b.len(),
{
    if b.len() > 0 {
        lemma_count_concat(a, b.drop_last());
        assert((a + b).drop_last() =~= a + b.drop_last());
    }
}

proof fn lemma_none_kept<A>(s: Seq<A>, f: spec_fn(A) -> Option<ItemView>)
    requires
        forall|i: int| 0 <= i < s.len() ==> f(#[trigger] s[i]) is None,
    ensures
        s.filter_map(f).len() == 0,
{
    if s.filter_map(f).len() > 0 {
        let x = s.filter_map(f)[0];
        assert(s.filter_map(f).contains(x));
        s.lemma_filter_map_contains(f, x);
    }
}

proof fn lemma_level_quiet(from: DirectoryInfo, to: DirectoryInfo, recursive: bool)
    requires
        mirrors(from, to, recursive),
    ensures
        level_adds(from, to, recursive).len() == 0,
        level_dels(from, to, recursive).len() == 0,
{
    assert forall|i: int| 0 <= i < from.files@.len() implies has_file(to, #[trigger] from.files@[i].name@) by {
        lemma_file_present(from.files@, i);
        assert(has_file(from, from.files@[i].name@));
    }
    assert forall|i: int| 0 <= i < to.files@.len() implies has_file(from, #[trigger] to.files@[i].name@) by {
        lemma_file_present(to.files@, i);
    }
    lemma_none_kept(
        from.files@,
        |f: FileInfo|
            if has_file(to, f.name@) {
                None
            } else {
                Some(crate::decision::add_view(f@, to.root@))
            },
    );
    lemma_none_kept(
        to.files@,
        |f: FileInfo|
            if has_file(from, f.name@) {
                None
            } else {
                Some(crate::decision::del_view(f@))
            },
    );
    if recursive {
        assert forall|i: int| 0 <= i < from.sub_dirs@.len() implies has_dir(
            to,
            dir_name(#[trigger] from.sub_dirs@[i]),
        ) by {
            lemma_dir_present(from.sub_dirs@, i);
            assert(has_dir(from, dir_name(from.sub_dirs@[i])));
        }
        assert forall|i: int| 0 <= i < to.sub_dirs@.len() implies has_dir(
            from,
            dir_name(#[trigger] to.sub_dirs@[i]),
        ) by {
            lemma_dir_present(to.sub_dirs@, i);
        }
        lemma_none_kept(
            from.sub_dirs@,
            |s: DirectoryInfo|
                if has_dir(to, dir_name(s)) {
                    None
                } else {
                    Some(crate::decision::add_view(dir_entry(s), to.root@))
                },
        );
        lemma_none_kept(
            to.sub_dirs@,
            |s: DirectoryInfo|
                if has_dir(from, dir_name(s)) {
                    None
                } else {
                    Some(crate::decision::del_view(dir_entry(s)))
                },
        );
    }
}

/// When the destination mirrors the source, the decision adds and deletes
/// nothing, at any depth.
pub proof fn lemma_decide_quiet(from: DirectoryInfo, to: DirectoryInfo, recursive: bool)
    requires
        mirrors(from, to, recursive),
    ensures
        count_items(decide(from, to, recursive).0) == 0,
        count_items(decide(from, to, recursive).1) == 0,
    decreases from, from.sub_dirs@.len() + 1,
{
    lemma_level_quiet(from, to, recursive);
    let lv = crate::decision::level_view(from, to, recursive);
    assert(count_items(lv.0) == 0) by {
        assert(lv.0.drop_last() =~= Seq::<GroupView>::empty());
        assert(count_items(Seq::<GroupView>::empty()) == 0);
        assert(lv.0.last().1.len() == 0);
    }
    assert(count_items(lv.1) == 0) by {
        assert(lv.1.drop_last() =~= Seq::<GroupView>::empty());
        assert(count_items(Seq::<GroupView>::empty()) == 0);
        assert(lv.1.last().1.len() == 0);
    }
    if recursive {
        lemma_decide_from_quiet(from, to, recursive, 0);
        let rest = decide_from(from, to, recursive, 0);
        lemma_count_concat(lv.0, rest.0);
        lemma_count_concat(lv.1, rest.1);
    }
}

/// When the destination mirrors the source, the decisions for the
/// subdirectories from position `i` on add and delete nothing.
pub proof fn lemma_decide_from_quiet(from: DirectoryInfo, to: DirectoryInfo, recursive: bool, i: int)
    requires
        mirrors(from, to, recursive),
        recursive,
        0 <= i,
    ensures
        count_items(decide_from(from, to, recursive, i).0) == 0,
        count_items(decide_from(from, to, recursive, i).1) == 0,
    decreases from, from.sub_dirs@.len() - i,
{
    if i < from.sub_dirs@.len() {
        let s = from.sub_dirs@[i];
        let k = first_index(dir_names(to.sub_dirs@), dir_name(s));
        lemma_decide_from_quiet(from, to, recursive, i + 1);
        if 0 <= k < to.sub_dirs@.len() {
            assert(mirrors(s, to.sub_dirs@[k], recursive));
            lemma_decide_quiet(s, to.sub_dirs@[k], recursive);
            let rest = decide_from(from, to, recursive, i + 1);
            let d = decide(s, to.sub_dirs@[k], recursive);
            lemma_count_concat(d.0, rest.0);
            lemma_count_concat(d.1, rest.1);
        }
    }
}

/// When no candidate's contents differ, settling the updates adds nothing.
pub proof fn lemma_settled_quiet(gs: Seq<GroupView>, cs: Seq<CandidateView>, changed: Seq<bool>, n: int)
    requires
        n <= changed.len(),
        forall|i: int| 0 <= i < changed.len() ==> !changed[i],
    ensures
        settled(gs, cs, changed, n) == gs,
    decreases n,
{
    if n > 0 {
        lemma_settled_quiet(gs, cs, changed, n - 1);
    }
}

/// Deciding again once the destination mirrors the source, and every file
/// present on both sides has the same contents, leaves nothing to do: no
/// addition, no deletion, no update.
pub proof fn lemma_rerun_is_empty(
    from: DirectoryInfo,
    to: DirectoryInfo,
    recursive: bool,
    changed: Seq<bool>,
)
    requires
        mirrors(from, to, recursive),
        changed.len() == decide(from, to, recursive).2.len(),
        forall|i: int| 0 <= i < changed.len() ==> !changed[i],
    ensures
        count_items(decide(from, to, recursive).0) == 0,
        count_items(decide(from, to, recursive).1) == 0,
        settled(Seq::empty(), decide(from, to, recursive).2, changed, changed.len() as int).len()
            == 0,
{
    lemma_decide_quiet(from, to, recursive);
    lemma_settled_quiet(Seq::empty(), decide(from, to, recursive).2, changed, changed.len() as int);
}

/// The destination made for a new entry lies at the same path relative to
/// the destination root as the entry does relative to the source root.
pub proof fn lemma_dest_entry_rel(src: FileView, to_root: Seq<char>)
    requires
        file_wf(src),
        clean_abs(to_root),
    ensures
        file_wf(dest_entry(src, to_root)),
        file_rel(dest_entry(src, to_root)) == file_rel(src),
{
    let rel = rel_of(src.2, src.1);
    let dir = place_under(to_root, rel);
    crate::path::lemma_under_extend(src.2, src.1, src.0);
    if rel.len() == 0 {
        assert(src.2 == src.1) by {
            if src.2 != src.1 {
                assert(rel.len() > 0);
            }
        }
        crate::path::lemma_under_extend(to_root, to_root, src.0);
    } else {
        assert(src.2 != src.1);
        let d = join_path(to_root, rel);
        let w = crate::path::with_sep(to_root);
        assert(d.subrange(0, w.len() as int) =~= w);
        assert(d.subrange(w.len() as int, d.len() as int) =~= rel);
        crate::path::lemma_clean_rel_start(rel);
        assert(under(d, to_root));
        assert(rel_of(d, to_root) == rel);
        crate::path::lemma_under_extend(d, to_root, src.0);
    }
}

/// Every addition found in a directory of a well-formed source tree names a
/// well-formed source entry and, for a clean destination root, a destination
/// at the same relative path under that root.
pub proof fn lemma_added_entries_keep_relative_paths(
    from: DirectoryInfo,
    to: DirectoryInfo,
    recursive: bool,
)
    requires
        dir_wf(from),
        clean_abs(to.root@),
    ensures
        forall|x: ItemView| #[trigger]
            level_adds(from, to, recursive).contains(x) ==> x.1 is Some && file_wf(x.1->Some_0)
                && file_wf(x.2) && file_rel(x.2) == file_rel(x.1->Some_0) && x.2.1 == to.root@,
{
    assert forall|x: ItemView| #[trigger]
        level_adds(from, to, recursive).contains(x) implies x.1 is Some && file_wf(x.1->Some_0)
            && file_wf(x.2) && file_rel(x.2) == file_rel(x.1->Some_0) && x.2.1 == to.root@ by {
        let fd = |s: DirectoryInfo|
            if has_dir(to, dir_name(s)) {
                None
            } else {
                Some(crate::decision::add_view(dir_entry(s), to.root@))
            };
        let ff = |f: FileInfo|
            if has_file(to, f.name@) {
                None
            } else {
                Some(crate::decision::add_view(f@, to.root@))
            };
        let dirs: Seq<ItemView> = if recursive {
            from.sub_dirs@.filter_map(fd)
        } else {
            Seq::empty()
        };
        lemma_in_concat(dirs, from.files@.filter_map(ff), x);
        if dirs.contains(x) {
            from.sub_dirs@.lemma_filter_map_contains(fd, x);
            let s = choose|s: DirectoryInfo| from.sub_dirs@.contains(s) && fd(s) == Some(x);
            let k = choose|k: int| 0 <= k < from.sub_dirs@.len() && from.sub_dirs@[k] == s;
            lemma_sub_wf(from, k);
            lemma_dest_entry_rel(dir_entry(s), to.root@);
        } else {
            from.files@.lemma_filter_map_contains(ff, x);
            let f = choose|f: FileInfo| from.files@.contains(f) && ff(f) == Some(x);
            let k = choose|k: int| 0 <= k < from.files@.len() && from.files@[k] == f;
            lemma_file_wf(from, k);
            lemma_dest_entry_rel(f@, to.root@);
        }
    }
}

} // verus!
