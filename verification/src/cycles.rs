//! Predecessor chains, and why a chain that runs out of depth is a cycle.

use vstd::prelude::*;
use crate::pom::{lemma_find_task, spec_find_task, ScheduleError, Task};
use crate::schedule::{
    lemma_latest_end_is_latest, spec_actual_end_date, spec_actual_start_date, spec_latest_end,
    spec_predecessor_end,
};

verus! {

pub open spec fn is_cyclic_error(r: Result<int, ScheduleError>) -> bool {
    r matches Err(ScheduleError::CyclicDependency { .. })
}

/// One of the predecessor links of `from` names the task at index `to`.
pub open spec fn links_to(tasks: Seq<Task>, from: Task, to: int) -> bool {
    exists|k: int|
        0 <= k < from.predecessors@.len() && #[trigger] spec_find_task(
            tasks,
            from.predecessors@[k],
        ) == Some(to)
}

/// Every member of `chain` is the index of a task, and each is a
/// predecessor of the one before it.
pub open spec fn is_predecessor_chain(tasks: Seq<Task>, chain: Seq<int>) -> bool {
    &&& forall|k: int| 0 <= k < chain.len() ==> 0 <= #[trigger] chain[k] < tasks.len()
    &&& forall|k: int| 0 <= k < chain.len() - 1 ==> #[trigger] is_link_at(tasks, chain, k)
}

/// The member of `chain` after position `k` is a predecessor of the one at
/// `k`.
pub open spec fn is_link_at(tasks: Seq<Task>, chain: Seq<int>, k: int) -> bool {
    links_to(tasks, tasks[chain[k]], chain[k + 1])
}

/// Some task is its own predecessor, directly or through others.
pub open spec fn has_predecessor_cycle(tasks: Seq<Task>) -> bool {
    exists|chain: Seq<int>|
        #[trigger] is_predecessor_chain(tasks, chain) && chain.len() >= 2 && chain[0]
            == chain[chain.len() - 1]
}

/// More indices than there are tasks: two of them are the same.
proof fn lemma_repeated_index(chain: Seq<int>, n: int) -> (at: (int, int))
    requires
        0 <= n < chain.len(),
        forall|k: int| 0 <= k < chain.len() ==> 0 <= #[trigger] chain[k] < n,
    ensures
        0 <= at.0 < at.1 < chain.len(),
        chain[at.0] == chain[at.1],
{
    if chain.no_duplicates() {
        chain.unique_seq_to_set();
        vstd::set_lib::lemma_int_range(0, n);
        assert(chain.to_set().subset_of(vstd::set_lib::set_int_range(0, n))) by {
            assert forall|v: int| chain.to_set().contains(v) implies vstd::set_lib::set_int_range(
                0,
                n,
            ).contains(v) by {
                let k = choose|k: int| 0 <= k < chain.len() && chain[k] == v;
                assert(0 <= chain[k] < n);
            }
        }
        vstd::set_lib::lemma_len_subset(chain.to_set(), vstd::set_lib::set_int_range(0, n));
        assert(false);
    }
    let (i, j) = choose|i: int, j: int|
        0 <= i < chain.len() && 0 <= j < chain.len() && i != j && chain[i] == chain[j];
    if i < j {
        (i, j)
    } else {
        (j, i)
    }
}

/// Where the latest end date fails for want of depth, a chain of
/// `depth + 1` tasks leads on from one of the predecessors.
proof fn lemma_cyclic_latest_end_has_chain(
    tasks: Seq<Task>,
    task: Task,
    from: int,
    floor: int,
    depth: nat,
) -> (chain: Seq<int>)
    requires
        is_cyclic_error(spec_latest_end(tasks, task, from, floor, depth)),
    ensures
        chain.len() == depth + 1,
        is_predecessor_chain(tasks, chain),
        links_to(tasks, task, chain[0]),
    decreases depth, 0nat, task.predecessors@.len() - from,
{
    let pred = task.predecessors@[from];
    lemma_find_task(tasks, pred);
    let i = spec_find_task(tasks, pred)->Some_0;
    if depth == 0 {
        seq![i]
    } else {
        match spec_actual_end_date(tasks, tasks[i], (depth - 1) as nat) {
            Err(e) => {
                let rest = lemma_cyclic_end_has_chain(tasks, tasks[i], (depth - 1) as nat);
                let chain = seq![i] + rest;
                assert forall|k: int| 0 <= k < chain.len() - 1 implies #[trigger] is_link_at(
                    tasks,
                    chain,
                    k,
                ) by {
                    if k > 0 {
                        assert(is_link_at(tasks, rest, k - 1));
                        assert(chain[k] == rest[k - 1]);
                        assert(chain[k + 1] == rest[k]);
                    }
                }
                chain
            },
            Ok(end) => lemma_cyclic_latest_end_has_chain(
                tasks,
                task,
                from + 1,
                if end > floor {
                    end
                } else {
                    floor
                },
                depth,
            ),
        }
    }
}

/// Where the end date of a task fails for want of depth, a chain of
/// `depth + 1` tasks leads on from one of its predecessors.
proof fn lemma_cyclic_end_has_chain(tasks: Seq<Task>, task: Task, depth: nat) -> (chain: Seq<int>)
    requires
        is_cyclic_error(spec_actual_end_date(tasks, task, depth)),
    ensures
        chain.len() == depth + 1,
        is_predecessor_chain(tasks, chain),
        links_to(tasks, task, chain[0]),
    decreases depth, 2nat, 0nat,
{
    lemma_cyclic_latest_end_has_chain(tasks, task, 0, task.earliest_start_date@, depth)
}

/// A schedule fails with `CyclicDependency` only where the predecessor
/// links of the project hold a cycle: with as much depth as there are
/// tasks, no chain without a repeated task runs out of it.
pub proof fn lemma_cyclic_error_means_cycle(tasks: Seq<Task>, task: Task, depth: nat)
    requires
        depth >= tasks.len(),
        is_cyclic_error(spec_actual_start_date(tasks, task, depth)) || is_cyclic_error(
            spec_actual_end_date(tasks, task, depth),
        ),
    ensures
        has_predecessor_cycle(tasks),
{
    let chain = lemma_cyclic_latest_end_has_chain(
        tasks,
        task,
        0,
        task.earliest_start_date@,
        depth,
    );
    let (a, b) = lemma_repeated_index(chain, tasks.len() as int);
    let cycle = chain.subrange(a, b + 1);
    assert forall|k: int| 0 <= k < cycle.len() - 1 implies #[trigger] is_link_at(
        tasks,
        cycle,
        k,
    ) by {
        assert(is_link_at(tasks, chain, a + k));
        assert(cycle[k] == chain[a + k]);
        assert(cycle[k + 1] == chain[a + k + 1]);
    }
    assert forall|k: int| 0 <= k < cycle.len() implies 0 <= #[trigger] cycle[k] < tasks.len() by {
        assert(cycle[k] == chain[a + k]);
    }
    assert(is_predecessor_chain(tasks, cycle));
}

/// Where the dates of a task are found, no chain of predecessors that
/// leads on from it is longer than the depth.
proof fn lemma_dated_chain_is_short(tasks: Seq<Task>, task: Task, depth: nat, chain: Seq<int>)
    requires
        task.predecessors@.len() > 0,
        spec_actual_start_date(tasks, task, depth).is_ok(),
        chain.len() >= 1,
        is_predecessor_chain(tasks, chain),
        links_to(tasks, task, chain[0]),
    ensures
        chain.len() <= depth,
    decreases chain.len(),
{
    let k = choose|k: int|
        0 <= k < task.predecessors@.len() && #[trigger] spec_find_task(
            tasks,
            task.predecessors@[k],
        ) == Some(chain[0]);
    lemma_latest_end_is_latest(tasks, task, 0, task.earliest_start_date@, depth);
    assert(spec_predecessor_end(tasks, task, k, depth).is_ok());
    assert(spec_predecessor_end(tasks, task, k, (depth - 1) as nat).is_ok());
    let next = tasks[chain[0]];
    assert(spec_actual_end_date(tasks, next, (depth - 1) as nat).is_ok());
    if chain.len() > 1 {
        let rest = chain.subrange(1, chain.len() as int);
        assert(is_link_at(tasks, chain, 0));
        assert forall|j: int| 0 <= j < rest.len() - 1 implies #[trigger] is_link_at(
            tasks,
            rest,
            j,
        ) by {
            assert(is_link_at(tasks, chain, j + 1));
        }
        assert forall|j: int| 0 <= j < rest.len() implies 0 <= #[trigger] rest[j]
            < tasks.len() by {
            assert(rest[j] == chain[j + 1]);
        }
        assert(next.predecessors@.len() > 0);
        lemma_dated_chain_is_short(tasks, next, (depth - 1) as nat, rest);
    }
}

/// A chain that comes back to a task it has passed can be walked again
/// and again: `turns` more times round give a chain that much longer.
proof fn lemma_cycle_unrolls(tasks: Seq<Task>, chain: Seq<int>, a: int, b: int, turns: nat) -> (long:
    Seq<int>)
    requires
        is_predecessor_chain(tasks, chain),
        0 <= a < b < chain.len(),
        chain[a] == chain[b],
    ensures
        is_predecessor_chain(tasks, long),
        long.len() == b + 1 + turns * (b - a),
        long[0] == chain[0],
        long[long.len() - 1] == chain[b],
    decreases turns,
{
    if turns == 0 {
        let long = chain.subrange(0, b + 1);
        assert(turns * (b - a) == 0) by (nonlinear_arith)
            requires
                turns == 0,
        {
        }
        assert forall|j: int| 0 <= j < long.len() - 1 implies #[trigger] is_link_at(
            tasks,
            long,
            j,
        ) by {
            assert(is_link_at(tasks, chain, j));
        }
        long
    } else {
        let shorter = lemma_cycle_unrolls(tasks, chain, a, b, (turns - 1) as nat);
        let round = chain.subrange(a + 1, b + 1);
        let long = shorter + round;
        assert(long.len() == b + 1 + turns * (b - a)) by (nonlinear_arith)
            requires
                long.len() == shorter.len() + (b - a),
                shorter.len() == b + 1 + (turns - 1) * (b - a),
        {
        }
        assert forall|j: int| 0 <= j < long.len() - 1 implies #[trigger] is_link_at(
            tasks,
            long,
            j,
        ) by {
            if j < shorter.len() - 1 {
                assert(is_link_at(tasks, shorter, j));
            } else if j == shorter.len() - 1 {
                assert(is_link_at(tasks, chain, a));
                assert(long[j] == chain[a]);
                assert(long[j + 1] == chain[a + 1]);
            } else {
                assert(is_link_at(tasks, chain, a + 1 + (j - shorter.len())));
                assert(long[j] == chain[a + 1 + (j - shorter.len())]);
                assert(long[j + 1] == chain[a + 2 + (j - shorter.len())]);
            }
        }
        assert forall|j: int| 0 <= j < long.len() implies 0 <= #[trigger] long[j]
            < tasks.len() by {
            if j < shorter.len() {
                assert(long[j] == shorter[j]);
            } else {
                assert(long[j] == chain[a + 1 + (j - shorter.len())]);
            }
        }
        long
    }
}

/// A task whose dates are found reaches no cycle: on a chain of
/// predecessors that leads on from it, no task comes twice. So a task that
/// does reach a cycle always fails.
pub proof fn lemma_dated_task_reaches_no_cycle(
    tasks: Seq<Task>,
    task: Task,
    depth: nat,
    chain: Seq<int>,
)
    requires
        spec_actual_start_date(tasks, task, depth).is_ok(),
        chain.len() >= 1,
        is_predecessor_chain(tasks, chain),
        links_to(tasks, task, chain[0]),
    ensures
        chain.no_duplicates(),
{
    if !chain.no_duplicates() {
        let (i, j) = choose|i: int, j: int|
            0 <= i < chain.len() && 0 <= j < chain.len() && i != j && chain[i] == chain[j];
        let a = if i < j {
            i
        } else {
            j
        };
        let b = if i < j {
            j
        } else {
            i
        };
        let long = lemma_cycle_unrolls(tasks, chain, a, b, depth);
        assert(long.len() > depth) by (nonlinear_arith)
            requires
                long.len() == b + 1 + depth * (b - a),
                0 <= a < b,
        {
        }
        lemma_dated_chain_is_short(tasks, task, depth, long);
    }
}

} // verus!
