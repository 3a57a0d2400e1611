//! The human-readable summary of a decision.
use vstd::prelude::*;
use crate::decision::{group_views, item_views, DecisionGroup, DecisionResult, GroupView, ItemView};
use crate::execute::flat;
use crate::path::{check_abs, check_name, check_under, join_path};
use crate::tree::{file_rel, file_wf, FileInfo, FileView};

verus! {

/// How an entry is shown: relative to its root when well formed, else by
/// its absolute path.
pub open spec fn shown(f: FileView) -> Seq<char> {
    if file_wf(f) {
        file_rel(f)
    } else {
        join_path(f.2, f.0)
    }
}

/// One line per item: a tab, the destination entry, a newline.
pub open spec fn item_lines(items: Seq<ItemView>) -> Seq<char>
    decreases items.len(),
{
    if items.len() == 0 {
        Seq::empty()
    } else {
        item_lines(items.drop_last()) + "\t"@ + shown(items.last().2) + "\n"@
    }
}

/// A titled section: the title and a newline followed by the lines of the
/// groups, or the title and `none` when there is no group.
pub open spec fn section(title: Seq<char>, gs: Seq<GroupView>, none: Seq<char>) -> Seq<char> {
    if gs.len() == 0 {
        title + none
    } else {
        title + "\n"@ + item_lines(flat(gs))
    }
}

pub open spec fn summary_text(r: DecisionResult) -> Seq<char> {
    if r.total() == 0 {
        "无任务需执行"@
    } else {
        "——分析结果——\n"@ + section("· 新增："@, r.adds(), "\t无\n"@) + section(
            "· 删除："@,
            r.dels(),
            "无\n"@,
        ) + section("· 更新："@, r.updates(), "无\n"@)
    }
}

/// How `f` is shown in the summary.
fn shown_path(f: &FileInfo) -> (r: String)
    ensures
        r@ == shown(f@),
{
    if check_abs(f.root.as_str()) && check_under(f.absolute_dir.as_str(), f.root.as_str())
        && check_name(f.name.as_str()) {
        f.relative_path()
    } else {
        f.absolute_dir_with_self()
    }
}

/// Appends the section titled `title` for the groups `gs` to `out`.
fn push_section(out: &mut String, title: &str, gs: &Vec<DecisionGroup>, none: &str)
    ensures
        final(out)@ == old(out)@ + section(title@, group_views(gs@), none@),
{
    out.append(title);
    if gs.len() == 0 {
        out.append(none);
        return;
    }
    out.append("\n");
    let ghost head = out@;
    let mut g: usize = 0;
    while g < gs.len()
        invariant
            g <= gs@.len(),
            out@ == head + item_lines(flat(group_views(gs@.take(g as int)))),
        decreases gs@.len() - g,
    {
        let items = &gs[g].items;
        let ghost before = flat(group_views(gs@.take(g as int)));
        let mut i: usize = 0;
        while i < items.len()
            invariant
                i <= items@.len(),
                items == gs@[g as int].items,
                out@ == head + item_lines(before + item_views(items@.take(i as int))),
            decreases items@.len() - i,
        {
            let ghost done = before + item_views(items@.take(i as int));
            out.append("\t");
            out.append(shown_path(&items[i].dest_file_info).as_str());
            out.append("\n");
            proof {
                let next = before + item_views(items@.take(i as int + 1));
                assert(next =~= done.push(items@[i as int]@));
                assert(next.drop_last() =~= done);
            }
            i = i + 1;
        }
        proof {
            assert(items@.take(i as int) =~= items@);
            assert(group_views(gs@.take(g as int + 1)).drop_last() =~= group_views(
                gs@.take(g as int),
            ));
        }
        g = g + 1;
    }
    assert(gs@.take(g as int) =~= gs@);
    proof {
        reveal_strlit("\n");
    }
}

impl DecisionResult {
    /// The summary: a line per operation under the heading of its kind, or
    /// a single line when there is nothing to do.
    pub fn summary(&self) -> (r: String)
        ensures
            r@ == summary_text(*self),
    {
        if self.is_empty() {
            return String::from_str("无任务需执行");
        }
        let mut out = String::from_str("——分析结果——\n");
        push_section(&mut out, "· 新增：", &self.add_items, "\t无\n");
        push_section(&mut out, "· 删除：", &self.del_items, "无\n");
        push_section(&mut out, "· 更新：", &self.update_items, "无\n");
        out
    }
}

} // verus!
