//! Absolute and relative paths, held as strings with `/` between components.
use vstd::prelude::*;

verus! {

/// Index of the last separator in `s`, or -1 when there is none.
pub open spec fn last_sep(s: Seq<char>) -> int
    decreases s.len(),
{
    if s.len() == 0 {
        -1
    } else if s.last() == '/' {
        s.len() - 1
    } else {
        last_sep(s.drop_last())
    }
}

pub open spec fn no_sep(s: Seq<char>) -> bool {
    forall|i: int| 0 <= i < s.len() ==> s[i] != '/'
}

/// One component of a path: not empty, no separator, not `.` nor `..`.
pub open spec fn is_name(s: Seq<char>) -> bool {
    &&& s.len() > 0
    &&& no_sep(s)
    &&& s != seq!['.']
    &&& s != seq!['.', '.']
}

/// A relative path made of one or more names.
pub open spec fn clean_rel(s: Seq<char>) -> bool
    decreases s.len(),
{
    let k = last_sep(s);
    if k < 0 || k >= s.len() {
        is_name(s)
    } else {
        is_name(s.subrange(k + 1, s.len() as int)) && clean_rel(s.subrange(0, k))
    }
}

/// `/` itself, or an absolute path made of names.
pub open spec fn clean_abs(s: Seq<char>) -> bool {
    s == seq!['/'] || (s.len() > 1 && s[0] == '/' && clean_rel(s.subrange(1, s.len() as int)))
}

/// `dir` ended by a separator: `/` already is, any other gets one.
pub open spec fn with_sep(dir: Seq<char>) -> Seq<char> {
    if dir == seq!['/'] {
        dir
    } else {
        dir.push('/')
    }
}

/// `name` inside `dir`: `/a` for `a` in `/`, `/x/a` for `a` in `/x`.
pub open spec fn join_path(dir: Seq<char>, name: Seq<char>) -> Seq<char> {
    with_sep(dir) + name
}

/// `d` is `root` itself or lies below it.
pub open spec fn under(d: Seq<char>, root: Seq<char>) -> bool {
    let w = with_sep(root);
    d == root || (d.len() > w.len() && d.subrange(0, w.len() as int) == w && clean_rel(
        d.subrange(w.len() as int, d.len() as int),
    ))
}

/// The path of `d` relative to `root`, for `d` under `root`.
pub open spec fn rel_of(d: Seq<char>, root: Seq<char>) -> Seq<char> {
    if d == root {
        Seq::empty()
    } else {
        d.subrange(with_sep(root).len() as int, d.len() as int)
    }
}

/// The last component of `s`.
pub open spec fn name_of(s: Seq<char>) -> Seq<char> {
    s.subrange(last_sep(s) + 1, s.len() as int)
}

/// What remains of `s` without its last component.
pub open spec fn parent_of(s: Seq<char>) -> Seq<char> {
    let k = last_sep(s);
    if k < 0 {
        Seq::empty()
    } else if k == 0 {
        seq!['/']
    } else {
        s.subrange(0, k)
    }
}

/// The directory `rel` under `root`; `root` itself when `rel` is empty.
pub open spec fn place_under(root: Seq<char>, rel: Seq<char>) -> Seq<char> {
    if rel.len() == 0 {
        root
    } else {
        join_path(root, rel)
    }
}

pub proof fn lemma_last_sep(s: Seq<char>, k: int)
    requires
        -1 <= k < s.len(),
        k >= 0 ==> s[k] == '/',
        forall|j: int| k < j < s.len() ==> s[j] != '/',
    ensures
        last_sep(s) == k,
    decreases s.len(),
{
    if s.len() > 0 && s.last() != '/' {
        lemma_last_sep(s.drop_last(), k);
    }
}

pub proof fn lemma_last_sep_bounds(s: Seq<char>)
    ensures
        -1 <= last_sep(s) < s.len(),
        last_sep(s) >= 0 ==> s[last_sep(s)] == '/',
        forall|j: int| last_sep(s) < j < s.len() ==> s[j] != '/',
    decreases s.len(),
{
    if s.len() > 0 && s.last() != '/' {
        let t = s.drop_last();
        lemma_last_sep_bounds(t);
        assert forall|j: int| last_sep(s) < j < s.len() implies s[j] != '/' by {
            if j < t.len() {
                assert(s[j] == t[j]);
            }
        }
    }
}

pub proof fn lemma_join_parts(dir: Seq<char>, name: Seq<char>)
    requires
        no_sep(name),
    ensures
        last_sep(join_path(dir, name)) == with_sep(dir).len() - 1,
        name_of(join_path(dir, name)) == name,
        join_path(dir, name).subrange(0, with_sep(dir).len() as int) == with_sep(dir),
        dir != seq!['/'] ==> join_path(dir, name).subrange(0, dir.len() as int) == dir,
        dir.len() > 0 ==> parent_of(join_path(dir, name)) == dir,
{
    let s = join_path(dir, name);
    let w = with_sep(dir);
    lemma_last_sep(s, w.len() - 1);
    assert(s.subrange(w.len() as int, s.len() as int) =~= name);
    assert(s.subrange(0, w.len() as int) =~= w);
    if dir != seq!['/'] {
        assert(s.subrange(0, dir.len() as int) =~= dir);
    }
}

/// Splitting a path that starts with one separator at its last separator,
/// and joining the parts again, gives the path back.
pub proof fn lemma_parent_name_round_trip(p: Seq<char>)
    requires
        p.len() > 0,
        p[0] == '/',
        p.len() < 2 || p[1] != '/',
    ensures
        join_path(parent_of(p), name_of(p)) == p,
{
    lemma_last_sep_bounds(p);
    let k = last_sep(p);
    if k == 0 {
        assert(join_path(parent_of(p), name_of(p)) =~= p);
    } else {
        assert(k >= 2);
        assert(parent_of(p).len() == k);
        assert(parent_of(p) != seq!['/']);
        assert(join_path(parent_of(p), name_of(p)) =~= p);
    }
}

/// A clean relative path is neither empty nor starts with a separator.
pub proof fn lemma_clean_rel_start(s: Seq<char>)
    requires
        clean_rel(s),
    ensures
        s.len() > 0,
        s[0] != '/',
        s != seq!['/'],
    decreases s.len(),
{
    lemma_last_sep_bounds(s);
    let k = last_sep(s);
    if k >= 0 {
        lemma_clean_rel_start(s.subrange(0, k));
        assert(s[0] == s.subrange(0, k)[0]);
    }
}

pub proof fn lemma_name_is_clean(n: Seq<char>)
    requires
        is_name(n),
    ensures
        clean_rel(n),
{
    lemma_last_sep(n, -1);
}

pub proof fn lemma_clean_extend(r: Seq<char>, n: Seq<char>)
    requires
        clean_rel(r),
        is_name(n),
    ensures
        clean_rel(join_path(r, n)),
{
    lemma_clean_rel_start(r);
    lemma_join_parts(r, n);
    let s = join_path(r, n);
    assert(s.subrange(r.len() + 1int, s.len() as int) =~= n);
}

/// A name joined to a directory under `root` stays under `root`.
pub proof fn lemma_under_extend(d: Seq<char>, root: Seq<char>, n: Seq<char>)
    requires
        under(d, root),
        is_name(n),
    ensures
        under(join_path(d, n), root),
        rel_of(join_path(d, n), root) == (if d == root {
            n
        } else {
            join_path(rel_of(d, root), n)
        }),
{
    let s = join_path(d, n);
    let w = with_sep(root);
    if d == root {
        lemma_name_is_clean(n);
        assert(s.subrange(0, w.len() as int) =~= w);
        assert(s.subrange(w.len() as int, s.len() as int) =~= n);
    } else {
        let r = d.subrange(w.len() as int, d.len() as int);
        lemma_clean_extend(r, n);
        lemma_clean_rel_start(r);
        assert(d != seq!['/']);
        assert(d =~= w + r);
        assert(s =~= w + join_path(r, n));
        assert(s.subrange(0, w.len() as int) =~= w);
        assert(s.subrange(w.len() as int, s.len() as int) =~= join_path(r, n));
    }
}

/// Index of the last separator in `s`.
pub fn last_sep_index(s: &str) -> (r: Option<usize>)
    ensures
        r matches Some(k) ==> k == last_sep(s@),
        r is None ==> last_sep(s@) == -1,
{
    let mut i: usize = s.unicode_len();
    while i > 0
        invariant
            i <= s@.len(),
            forall|j: int| i <= j < s@.len() ==> s@[j] != '/',
        decreases i,
    {
        if s.get_char(i - 1) == '/' {
            proof {
                lemma_last_sep(s@, i - 1);
            }
            return Some(i - 1);
        }
        i = i - 1;
    }
    proof {
        lemma_last_sep(s@, -1);
    }
    None
}

/// The last component of `s` (all of `s` when it has no separator).
pub fn file_name(s: &str) -> (r: String)
    ensures
        r@ == name_of(s@),
{
    proof {
        lemma_last_sep_bounds(s@);
    }
    let len = s.unicode_len();
    match last_sep_index(s) {
        Some(k) => s.substring_char(k + 1, len).to_owned(),
        None => s.substring_char(0, len).to_owned(),
    }
}

/// `s` without its last component: `/` for a component right below the root,
/// empty when `s` has no separator.
pub fn parent(s: &str) -> (r: String)
    ensures
        r@ == parent_of(s@),
{
    proof {
        lemma_last_sep_bounds(s@);
    }
    match last_sep_index(s) {
        Some(k) => {
            if k == 0 {
                let r = String::from_str("/");
                proof {
                    reveal_strlit("/");
                }
                assert(r@ =~= seq!['/']);
                r
            } else {
                s.substring_char(0, k).to_owned()
            }
        },
        None => String::new(),
    }
}

/// `name` inside `dir`: `dir`, a separator unless `dir` is `/`, then `name`.
pub fn join(dir: &str, name: &str) -> (r: String)
    ensures
        r@ == join_path(dir@, name@),
{
    proof {
        reveal_strlit("/");
        assert("/"@ =~= seq!['/']);
    }
    let mut r = String::from_str(dir);
    if !same(dir, "/") {
        r.append("/");
    }
    r.append(name);
    assert(r@ =~= join_path(dir@, name@));
    r
}

/// The directory `rel` under `root`; `root` itself when `rel` is empty.
pub fn place(root: &str, rel: &str) -> (r: String)
    ensures
        r@ == place_under(root@, rel@),
{
    if rel.unicode_len() == 0 {
        root.to_owned()
    } else {
        join(root, rel)
    }
}

/// Whether `s` is one name (see `is_name`).
pub fn check_name(s: &str) -> (r: bool)
    ensures
        r == is_name(s@),
{
    let len = s.unicode_len();
    if len == 0 {
        return false;
    }
    let mut i: usize = 0;
    while i < len
        invariant
            len == s@.len(),
            i <= len,
            forall|j: int| 0 <= j < i ==> s@[j] != '/',
        decreases len - i,
    {
        if s.get_char(i) == '/' {
            return false;
        }
        i = i + 1;
    }
    if len == 1 && s.get_char(0) == '.' {
        assert(s@ =~= seq!['.']);
        return false;
    }
    if len == 2 && s.get_char(0) == '.' && s.get_char(1) == '.' {
        assert(s@ =~= seq!['.', '.']);
        return false;
    }
    true
}

/// Whether `s` is a clean relative path (see `clean_rel`).
pub fn check_rel(s: &str) -> (r: bool)
    ensures
        r == clean_rel(s@),
    decreases s@.len(),
{
    proof {
        lemma_last_sep_bounds(s@);
    }
    let len = s.unicode_len();
    match last_sep_index(s) {
        None => check_name(s),
        Some(k) => {
            let last = s.substring_char(k + 1, len);
            let rest = s.substring_char(0, k);
            check_name(last) && check_rel(rest)
        },
    }
}

/// Whether `s` is a clean absolute path (see `clean_abs`).
pub fn check_abs(s: &str) -> (r: bool)
    ensures
        r == clean_abs(s@),
{
    proof {
        reveal_strlit("/");
        assert("/"@ =~= seq!['/']);
    }
    if same(s, "/") {
        return true;
    }
    let len = s.unicode_len();
    if len < 2 || s.get_char(0) != '/' {
        return false;
    }
    check_rel(s.substring_char(1, len))
}

/// Whether `a` and `b` hold the same characters.
pub fn same(a: &str, b: &str) -> (r: bool)
    ensures
        r == (a@ == b@),
{
    a.to_owned() == b.to_owned()
}

/// Whether `d` is `root` or lies below it (see `under`).
pub fn check_under(d: &str, root: &str) -> (r: bool)
    ensures
        r == under(d@, root@),
{
    proof {
        reveal_strlit("/");
        assert("/"@ =~= seq!['/']);
    }
    let dl = d.unicode_len();
    let rl = root.unicode_len();
    if same(d, root) {
        return true;
    }
    let is_top = same(root, "/");
    if dl <= rl {
        return false;
    }
    let wl = if is_top {
        rl
    } else {
        rl + 1
    };
    if dl <= wl {
        return false;
    }
    let head = d.substring_char(0, rl);
    if !same(head, root) {
        proof {
            if d@.subrange(0, wl as int) == with_sep(root@) {
                assert(d@.subrange(0, wl as int).subrange(0, rl as int) =~= head@);
                assert(with_sep(root@).subrange(0, rl as int) =~= root@);
            }
        }
        return false;
    }
    if !is_top && d.get_char(rl) != '/' {
        assert(d@.subrange(0, wl as int)[rl as int] == d@[rl as int]);
        return false;
    }
    assert(d@.subrange(0, wl as int) =~= with_sep(root@));
    check_rel(d.substring_char(wl, dl))
}

/// Relies on pathdiff::diff_paths, for paths whose separator is `/`: for an
/// absolute `base` made of names (or `/`) and a `path` that is `base`, or
/// `base` followed by a separator and names, the result is the part of `path`
/// after `base` (empty for `base` itself).
#[verifier::external_body]
pub(crate) fn diff_paths(path: &str, base: &str) -> (r: Option<String>)
    ensures
        clean_abs(base@) && under(path@, base@) ==> r is Some && r->Some_0@ == rel_of(path@, base@),
{
    match pathdiff::diff_paths(path, base) {
        Some(p) => p.into_os_string().into_string().ok(),
        None => None,
    }
}

} // verus!
