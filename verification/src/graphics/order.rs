//! The order in which the tasks of a frame are carried out: by the order of
//! their surfaces, and within a surface that does not keep its tasks in
//! submission order, by the tasks' own order; tasks that compare equal keep
//! the order they were submitted in.
use vstd::prelude::*;

verus! {

/// Where a frame task goes: the order of its surface, whether that surface
/// keeps its tasks in submission order, and the task's own order.
#[derive(Debug, Clone, Copy, PartialEq, Eq, Structural)]
pub struct TaskOrder {
    pub surface_order: u64,
    pub sequence: bool,
    pub order: u64,
}

/// Whether a task at `a` may come before a task at `b`: its surface comes
/// first, or the surfaces share their order and either `a`'s surface keeps
/// submission order or `a`'s own order is no larger.
pub open spec fn not_after(a: TaskOrder, b: TaskOrder) -> bool {
    a.surface_order < b.surface_order || (a.surface_order == b.surface_order && (a.sequence || a.order <= b.order))
}

fn not_after_exec(a: TaskOrder, b: TaskOrder) -> (r: bool)
    ensures
        r == not_after(a, b),
{
    a.surface_order < b.surface_order || (a.surface_order == b.surface_order && (a.sequence || a.order <= b.order))
}

/// Where a task at `x` goes in `out`, at or after `p`: after every task that
/// may come before it.
pub open spec fn insert_place<T>(out: Seq<(TaskOrder, T)>, x: TaskOrder, p: nat) -> nat
    decreases out.len() - p,
{
    if p >= out.len() || !not_after(out[p as int].0, x) {
        p
    } else {
        insert_place(out, x, p + 1)
    }
}

/// The tasks `v` in the order they are carried out: each task, in submission
/// order, goes after the tasks already placed that may come before it.
pub open spec fn ordered_tasks<T>(v: Seq<(TaskOrder, T)>) -> Seq<(TaskOrder, T)>
    decreases v.len(),
{
    if v.len() == 0 {
        v
    } else {
        let out = ordered_tasks(v.drop_last());
        out.insert(insert_place(out, v.last().0, 0) as int, v.last())
    }
}

/// Orders the tasks of a frame as `ordered_tasks` says.
pub fn order_tasks<T: Copy>(tasks: &Vec<(TaskOrder, T)>) -> (r: Vec<(TaskOrder, T)>)
    ensures
        r@ == ordered_tasks(tasks@),
{
    let mut out: Vec<(TaskOrder, T)> = Vec::new();
    let mut i: usize = 0;
    while i < tasks.len()
        invariant
            i <= tasks@.len(),
            out@ == ordered_tasks(tasks@.subrange(0, i as int)),
        decreases tasks.len() - i,
    {
        let x = tasks[i];
        let mut p: usize = 0;
        while p < out.len() && not_after_exec(out[p].0, x.0)
            invariant
                p <= out@.len(),
                insert_place(out@, x.0, p as nat) == insert_place(out@, x.0, 0),
            decreases out.len() - p,
        {
            p += 1;
        }
        proof {
            assert(tasks@.subrange(0, i + 1).drop_last() =~= tasks@.subrange(0, i as int));
            assert(tasks@.subrange(0, i + 1).last() == x);
        }
        out.insert(p, x);
        i += 1;
    }
    proof {
        assert(tasks@.subrange(0, tasks@.len() as int) =~= tasks@);
    }
    out
}

/// Surfaces of one order agree on whether they keep submission order.
pub open spec fn consistent<T>(v: Seq<(TaskOrder, T)>) -> bool {
    forall|i: int, j: int|
        0 <= i < v.len() && 0 <= j < v.len() && (#[trigger] v[i]).0.surface_order == (#[trigger] v[j]).0.surface_order
            ==> v[i].0.sequence == v[j].0.sequence
}

/// No task comes after one it must precede.
pub open spec fn in_task_order<T>(v: Seq<(TaskOrder, T)>) -> bool {
    forall|a: int, b: int| 0 <= a < b < v.len() ==> not_after((#[trigger] v[a]).0, (#[trigger] v[b]).0)
}

proof fn lemma_insert_place<T>(out: Seq<(TaskOrder, T)>, x: TaskOrder, p: nat)
    requires
        p <= out.len(),
        forall|j: int| 0 <= j < p ==> not_after(out[j].0, x),
    ensures
        insert_place(out, x, p) <= out.len(),
        forall|j: int| 0 <= j < insert_place(out, x, p) ==> not_after(out[j].0, x),
        insert_place(out, x, p) < out.len() ==> !not_after(out[insert_place(out, x, p) as int].0, x),
    decreases out.len() - p,
{
    if p < out.len() && not_after(out[p as int].0, x) {
        lemma_insert_place(out, x, p + 1);
    }
}

/// Ordering the tasks keeps every task, each as often as it was submitted;
/// and when surfaces of one order agree on whether they keep submission
/// order, no task comes after one it must precede.
pub proof fn law_ordered_tasks<T>(v: Seq<(TaskOrder, T)>)
    ensures
        ordered_tasks(v).len() == v.len(),
        ordered_tasks(v).to_multiset() == v.to_multiset(),
        consistent(v) ==> in_task_order(ordered_tasks(v)),
    decreases v.len(),
{
    broadcast use vstd::seq_lib::to_multiset_insert, vstd::seq_lib::to_multiset_build, vstd::seq_lib::to_multiset_contains;
    if v.len() > 0 {
        let pre = v.drop_last();
        let x = v.last();
        law_ordered_tasks(pre);
        let out = ordered_tasks(pre);
        lemma_insert_place(out, x.0, 0);
        let p = insert_place(out, x.0, 0) as int;
        let r = out.insert(p, x);
        assert(v =~= pre.push(x));
        assert(r.to_multiset() == v.to_multiset());
        if consistent(v) {
            assert(consistent(pre)) by {
                assert forall|i: int, j: int|
                    0 <= i < pre.len() && 0 <= j < pre.len() && (#[trigger] pre[i]).0.surface_order
                        == (#[trigger] pre[j]).0.surface_order implies pre[i].0.sequence == pre[j].0.sequence by {
                    assert(pre[i] == v[i] && pre[j] == v[j]);
                }
            }
            assert forall|k: int| 0 <= k < out.len() implies #[trigger] v.contains(out[k]) by {
                assert(out.to_multiset().count(out[k]) > 0);
                assert(v.to_multiset().count(out[k]) > 0);
            }
            assert forall|a: int, b: int| 0 <= a < b < r.len() implies not_after((#[trigger] r[a]).0, (#[trigger] r[b]).0) by {
                if b < p {
                    assert(r[a] == out[a] && r[b] == out[b]);
                } else if b == p {
                    assert(r[a] == out[a] && r[b] == x);
                } else if a == p {
                    assert(r[b] == out[b - 1] && r[a] == x);
                    let y = out[p];
                    let z = out[b - 1];
                    assert(v.contains(y) && v.contains(z));
                    let iy = choose|i: int| 0 <= i < v.len() && v[i] == y;
                    let iz = choose|i: int| 0 <= i < v.len() && v[i] == z;
                    assert(v[v.len() - 1] == x);
                    assert(!not_after(y.0, x.0));
                    if b - 1 > p {
                        assert(not_after(y.0, z.0));
                    }
                } else if a < p {
                    assert(r[a] == out[a] && r[b] == out[b - 1]);
                } else {
                    assert(r[a] == out[a - 1] && r[b] == out[b - 1]);
                }
            }
        }
    }
}

} // verus!
