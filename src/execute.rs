//! The execution engine's plan: the operations of a decision in the order
//! in which they are applied, each with its progress line.
use vstd::prelude::*;
use crate::decision::{
    group_views, item_views, DecisionGroup, DecisionResult, DecisionResultItem, FileAction,
    GroupView, ItemView, capped,
};
use crate::path::join_path;
use crate::tree::FileView;

verus! {

pub open spec fn digit(d: nat) -> char {
    seq!['0', '1', '2', '3', '4', '5', '6', '7', '8', '9'][d as int]
}

/// `n` in decimal digits, without leading zeros.
pub open spec fn decimal(n: nat) -> Seq<char>
    decreases n,
{
    if n < 10 {
        seq![digit(n)]
    } else {
        decimal(n / 10).push(digit(n % 10))
    }
}

/// Relies on `usize`'s `Display` through `ToString::to_string`: the decimal
/// digits of the number, without sign or leading zeros.
#[verifier::external_body]
fn decimal_string(n: usize) -> (r: String)
    ensures
        r@ == decimal(n as nat),
{
    n.to_string()
}

/// The prefix that marks a verbatim path.
pub open spec fn verbatim_prefix() -> Seq<char> {
    seq!['\\', '\\', '?', '\\']
}

/// `p` without a leading verbatim prefix.
pub open spec fn adjusted(p: Seq<char>) -> Seq<char> {
    if p.len() >= 4 && p.subrange(0, 4) == verbatim_prefix() {
        p.subrange(4, p.len() as int)
    } else {
        p
    }
}

/// Removes a leading verbatim prefix (`\\?\`) from a path.
pub fn adjust_canonicalization(p: String) -> (r: String)
    ensures
        r@ == adjusted(p@),
{
    let s = p.as_str();
    let len = s.unicode_len();
    if len >= 4 && s.get_char(0) == '\\' && s.get_char(1) == '\\' && s.get_char(2) == '?'
        && s.get_char(3) == '\\' {
        assert(p@.subrange(0, 4) =~= verbatim_prefix());
        s.substring_char(4, len).to_owned()
    } else {
        assert(p@.len() >= 4 ==> p@.subrange(0, 4)[0] == p@[0]);
        assert(p@.len() >= 4 ==> p@.subrange(0, 4)[1] == p@[1]);
        assert(p@.len() >= 4 ==> p@.subrange(0, 4)[2] == p@[2]);
        assert(p@.len() >= 4 ==> p@.subrange(0, 4)[3] == p@[3]);
        p
    }
}

/// `"<count>/<total>"`.
pub open spec fn progress(count: nat, total: nat) -> Seq<char> {
    decimal(count) + seq!['/'] + decimal(total)
}

pub open spec fn abs_of(f: FileView) -> Seq<char> {
    adjusted(join_path(f.2, f.0))
}

pub open spec fn src_abs(it: ItemView) -> Seq<char> {
    match it.1 {
        Some(f) => join_path(f.2, f.0),
        None => Seq::empty(),
    }
}

/// The status line of an operation, numbered `count` of `total`.
pub open spec fn log_line(it: ItemView, count: nat, total: nat) -> Seq<char> {
    match it.0 {
        FileAction::Add => progress(count, total) + "  Copying - "@ + adjusted(src_abs(it)) + " to "@
            + abs_of(it.2),
        FileAction::Del => progress(count, total) + "  Deleting - "@ + abs_of(it.2),
        FileAction::Update => progress(count, total) + "  Updating - "@ + adjusted(src_abs(it))
            + " to "@ + abs_of(it.2),
    }
}

/// One filesystem operation to apply, with its status line.
pub struct Operation {
    pub action: FileAction,
    /// The absolute path of the source entry (empty for a deletion).
    pub src: String,
    /// The absolute path of the destination entry.
    pub dest: String,
    pub log: String,
}

pub type OperationView = (FileAction, Seq<char>, Seq<char>, Seq<char>);

impl View for Operation {
    type V = OperationView;

    open spec fn view(&self) -> OperationView {
        (self.action, self.src@, self.dest@, self.log@)
    }
}

pub open spec fn operation_views(v: Seq<Operation>) -> Seq<OperationView> {
    v.map_values(|o: Operation| o@)
}

/// The operation for item `it`, numbered `count` of `total`.
pub open spec fn operation(it: ItemView, count: nat, total: nat) -> OperationView {
    (it.0, src_abs(it), join_path(it.2.2, it.2.0), log_line(it, count, total))
}

/// All items of the groups `gs`, group after group.
pub open spec fn flat(gs: Seq<GroupView>) -> Seq<ItemView>
    decreases gs.len(),
{
    if gs.len() == 0 {
        Seq::empty()
    } else {
        flat(gs.drop_last()) + gs.last().1
    }
}

/// The operations for `items`, numbered from `start` on (modulo the counter's
/// range).
pub open spec fn operations(items: Seq<ItemView>, start: nat, total: nat) -> Seq<OperationView> {
    Seq::new(
        items.len(),
        |k: int| operation(items[k], next_count(start, k as nat), total),
    )
}

/// The counter after `k` increments from `start`, wrapping at `usize::MAX`.
pub open spec fn next_count(start: nat, k: nat) -> nat {
    ((start + k) % (usize::MAX as nat + 1)) as nat
}

/// Numbering of one more operation: `next_count` moves on by one.
pub proof fn lemma_next_count_step(start: nat, k: nat)
    ensures
        next_count(next_count(start, k), 1) == next_count(start, k + 1),
{
    let m = usize::MAX as nat + 1;
    vstd::arithmetic::div_mod::lemma_add_mod_noop((start + k) as int, 1, m as int);
    vstd::arithmetic::div_mod::lemma_small_mod(1, m);
}

/// Counting `a` then `b` operations counts `a + b`.
pub proof fn lemma_next_count_add(start: nat, a: nat, b: nat)
    ensures
        next_count(next_count(start, a), b) == next_count(start, a + b),
{
    let m = usize::MAX as nat + 1;
    vstd::arithmetic::div_mod::lemma_add_mod_noop((start + a) as int, b as int, m as int);
    vstd::arithmetic::div_mod::lemma_mod_twice(b as int, m as int);
    vstd::arithmetic::div_mod::lemma_add_mod_noop(next_count(start, a) as int, b as int, m as int);
    vstd::arithmetic::div_mod::lemma_mod_twice((start + a) as int, m as int);
}

proof fn lemma_operations_push(items: Seq<ItemView>, x: ItemView, start: nat, total: nat)
    ensures
        operations(items.push(x), start, total) == operations(items, start, total).push(
            operation(x, next_count(start, items.len()), total),
        ),
{
    assert(operations(items.push(x), start, total) =~= operations(items, start, total).push(
        operation(x, next_count(start, items.len()), total),
    ));
}

/// Applies a decision: additions, then updates, then deletions, numbering
/// the operations with a counter.
pub struct DecisionExecuteTask {
    pub decision: DecisionResult,
    pub total_count: usize,
}

impl DecisionExecuteTask {
    pub fn new(decision: DecisionResult) -> (r: Self)
        ensures
            r.decision == decision,
            r.total_count == capped(decision.total()),
    {
        let total_count = decision.total_count();
        DecisionExecuteTask { decision, total_count }
    }

    /// The progress prefix `"<count>/<total>"` with the count before this
    /// operation; the counter then moves on by one.
    pub fn count_and_progress_prefix(&self, counter: &mut usize) -> (r: String)
        ensures
            r@ == progress(*old(counter) as nat, self.total_count as nat),
            *final(counter) == next_count(*old(counter) as nat, 1),
    {
        let cnt = *counter;
        proof {
            if cnt == usize::MAX {
                vstd::arithmetic::div_mod::lemma_mod_self_0(usize::MAX as int + 1);
            } else {
                vstd::arithmetic::div_mod::lemma_small_mod(cnt as nat + 1, usize::MAX as nat + 1);
            }
        }
        *counter = if cnt == usize::MAX {
            0
        } else {
            cnt + 1
        };
        let mut r = decimal_string(cnt);
        r.append("/");
        let t = decimal_string(self.total_count);
        r.append(t.as_str());
        proof {
            reveal_strlit("/");
        }
        assert(r@ =~= progress(cnt as nat, self.total_count as nat));
        r
    }

    /// The operation for `item`, with its status line; the counter moves on
    /// by one.
    pub fn log_progress(&self, counter: &mut usize, item: &DecisionResultItem) -> (r: Operation)
        ensures
            r@ == operation(item@, *old(counter) as nat, self.total_count as nat),
            *final(counter) == next_count(*old(counter) as nat, 1),
    {
        let src = match &item.src_file_info {
            Some(f) => f.absolute_dir_with_self(),
            None => String::new(),
        };
        let dest = item.dest_file_info.absolute_dir_with_self();
        let ghost count = *counter as nat;
        let ghost total = self.total_count as nat;
        assert(src@ == src_abs(item@));
        let mut log = self.count_and_progress_prefix(counter);
        match item.action {
            FileAction::Add => {
                log.append("  Copying - ");
                log.append(adjust_canonicalization(src.clone()).as_str());
                log.append(" to ");
                log.append(adjust_canonicalization(dest.clone()).as_str());
                assert(log@ =~= log_line(item@, count, total));
            },
            FileAction::Del => {
                log.append("  Deleting - ");
                log.append(adjust_canonicalization(dest.clone()).as_str());
                assert(log@ =~= log_line(item@, count, total));
            },
            FileAction::Update => {
                log.append("  Updating - ");
                log.append(adjust_canonicalization(src.clone()).as_str());
                log.append(" to ");
                log.append(adjust_canonicalization(dest.clone()).as_str());
                assert(log@ =~= log_line(item@, count, total));
            },
        }
        Operation { action: item.action, src, dest, log }
    }

    /// The operations for the groups `gs`, in order, numbered by `counter`.
    fn plan_groups(&self, gs: &Vec<DecisionGroup>, counter: &mut usize) -> (r: Vec<Operation>)
        ensures
            operation_views(r@) == operations(
                flat(group_views(gs@)),
                *old(counter) as nat,
                self.total_count as nat,
            ),
            *final(counter) == next_count(*old(counter) as nat, flat(group_views(gs@)).len()),
    {
        let ghost start = *counter as nat;
        let ghost total = self.total_count as nat;
        let mut ops: Vec<Operation> = Vec::new();
        proof {
            vstd::arithmetic::div_mod::lemma_small_mod(start, usize::MAX as nat + 1);
            assert(operation_views(ops@) =~= operations(Seq::empty(), start, total));
        }
        let mut g: usize = 0;
        while g < gs.len()
            invariant
                g <= gs@.len(),
                operation_views(ops@) == operations(flat(group_views(gs@.take(g as int))), start, total),
                *counter == next_count(start, flat(group_views(gs@.take(g as int))).len()),
                total == self.total_count,
            decreases gs@.len() - g,
        {
            let items = &gs[g].items;
            let ghost before = flat(group_views(gs@.take(g as int)));
            let mut i: usize = 0;
            while i < items.len()
                invariant
                    i <= items@.len(),
                    items == gs@[g as int].items,
                    operation_views(ops@) == operations(
                        before + item_views(items@.take(i as int)),
                        start,
                        total,
                    ),
                    *counter == next_count(start, (before + item_views(items@.take(i as int))).len()),
                    total == self.total_count,
                decreases items@.len() - i,
            {
                let ghost done = before + item_views(items@.take(i as int));
                let op = self.log_progress(counter, &items[i]);
                proof {
                    lemma_next_count_step(start, done.len());
                    lemma_operations_push(done, items@[i as int]@, start, total);
                    assert(before + item_views(items@.take(i as int + 1)) =~= done.push(
                        items@[i as int]@,
                    ));
                }
                let ghost old_ops = ops@;
                ops.push(op);
                assert(operation_views(ops@) =~= operation_views(old_ops).push(op@));
                i = i + 1;
            }
            proof {
                assert(items@.take(i as int) =~= items@);
                assert(group_views(gs@.take(g as int + 1)).drop_last() =~= group_views(
                    gs@.take(g as int),
                ));
            }
            g = g + 1;
        }
        assert(gs@.take(g as int) =~= gs@);
        ops
    }

    /// The copies for the additions, numbered by `counter`.
    pub fn execute_add_task(&self, counter: &mut usize) -> (r: Vec<Operation>)
        ensures
            operation_views(r@) == operations(
                flat(self.decision.adds()),
                *old(counter) as nat,
                self.total_count as nat,
            ),
            *final(counter) == next_count(*old(counter) as nat, flat(self.decision.adds()).len()),
    {
        self.plan_groups(&self.decision.add_items, counter)
    }

    /// The overwriting copies for the updates, numbered by `counter`.
    pub fn execute_update_task(&self, counter: &mut usize) -> (r: Vec<Operation>)
        ensures
            operation_views(r@) == operations(
                flat(self.decision.updates()),
                *old(counter) as nat,
                self.total_count as nat,
            ),
            *final(counter) == next_count(*old(counter) as nat, flat(self.decision.updates()).len()),
    {
        self.plan_groups(&self.decision.update_items, counter)
    }

    /// The removals for the deletions, numbered by `counter`.
    pub fn execute_del_task(&self, counter: &mut usize) -> (r: Vec<Operation>)
        ensures
            operation_views(r@) == operations(
                flat(self.decision.dels()),
                *old(counter) as nat,
                self.total_count as nat,
            ),
            *final(counter) == next_count(*old(counter) as nat, flat(self.decision.dels()).len()),
    {
        self.plan_groups(&self.decision.del_items, counter)
    }

    /// Every operation of the decision in the order in which it is applied:
    /// all additions, then all updates, then all deletions, numbered from 0.
    pub fn execute(&self) -> (r: Vec<Operation>)
        ensures
            operation_views(r@) == operations(
                flat(self.decision.adds()) + flat(self.decision.updates()) + flat(
                    self.decision.dels(),
                ),
                0,
                self.total_count as nat,
            ),
    {
        let mut counter: usize = 0;
        let mut ops = self.execute_add_task(&mut counter);
        let ghost a = flat(self.decision.adds());
        let ghost u = flat(self.decision.updates());
        let ghost d = flat(self.decision.dels());
        let ghost total = self.total_count as nat;
        let ghost c1 = counter as nat;
        let mut ups = self.execute_update_task(&mut counter);
        let ghost c2 = counter as nat;
        let mut dels = self.execute_del_task(&mut counter);
        let ghost v1 = operation_views(ops@);
        let ghost v2 = operation_views(ups@);
        let ghost v3 = operation_views(dels@);
        ops.append(&mut ups);
        ops.append(&mut dels);
        proof {
            lemma_operations_concat(a, u, 0, c1, total);
            lemma_next_count_add(0, a.len(), u.len());
            assert((a + u).len() == a.len() + u.len());
            lemma_operations_concat(a + u, d, 0, c2, total);
            assert(operation_views(ops@) =~= v1 + v2 + v3);
        }
        ops
    }
}

/// Numbering two runs one after the other numbers their concatenation.
proof fn lemma_operations_concat(a: Seq<ItemView>, b: Seq<ItemView>, start: nat, mid: nat, total: nat)
    requires
        mid == next_count(start, a.len()),
    ensures
        operations(a + b, start, total) == operations(a, start, total) + operations(b, mid, total),
{
    let m = usize::MAX as nat + 1;
    assert forall|k: int| 0 <= k < b.len() implies #[trigger] next_count(mid, k as nat) == next_count(
        start,
        (a.len() + k) as nat,
    ) by {
        vstd::arithmetic::div_mod::lemma_add_mod_noop((start + a.len()) as int, k, m as int);
        vstd::arithmetic::div_mod::lemma_add_mod_noop(mid as int, k, m as int);
        vstd::arithmetic::div_mod::lemma_mod_twice((start + a.len()) as int, m as int);
    }
    assert(operations(a + b, start, total) =~= operations(a, start, total) + operations(b, mid, total));
}

} // verus!
