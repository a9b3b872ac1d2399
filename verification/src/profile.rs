//! The profiled planner: a makespan-minimizing executor allocation driven
//! by a table of measured execution times.
//!
//! Given, for each workload, the measured run time under each executor
//! count, the planner splits a budget of executors so that the slowest
//! workload finishes as early as possible.  The dynamic program fills
//! `dp[i][k]`, the best achievable makespan for the first `i + 1`
//! workloads using at most `k` executors, and reconstructs the assignment
//! from the recorded decisions.

use vstd::prelude::*;

use crate::cluster::ClusterState;
use crate::resource::{plan_floor, Planner, ResourcePlan, WorkloadType};

verus! {

/// The sentinel standing for an unachievable makespan.
pub open spec fn dp_inf() -> int {
    u64::MAX as int
}

/// The larger of two makespans.
pub open spec fn max_i(a: int, b: int) -> int {
    if a >= b {
        a
    } else {
        b
    }
}

/// The smaller of two makespans.
pub open spec fn min_i(a: int, b: int) -> int {
    if a <= b {
        a
    } else {
        b
    }
}

/// The best single-workload makespan over executor counts `1..=w`.
pub open spec fn row_min(row: Seq<u64>, w: int) -> int
    decreases w,
{
    if w < 1 {
        dp_inf()
    } else {
        min_i(row_min(row, w - 1), row[w - 1] as int)
    }
}

/// One step of the recurrence: the best makespan for the current workload
/// taking `1..=w` executors out of `k`, in front of the previous row.
pub open spec fn dp_min_row(prev: Seq<int>, row: Seq<u64>, k: int, w: int) -> int
    decreases w,
{
    if w < 1 {
        dp_inf()
    } else {
        let below = if 0 <= k - w < prev.len() {
            prev[k - w]
        } else {
            dp_inf()
        };
        min_i(dp_min_row(prev, row, k, w - 1), max_i(below, row[w - 1] as int))
    }
}

/// Row `i` of the dynamic program: entry `k` is the best achievable
/// makespan for workloads `0..=i` using at most `k` executors in all,
/// each workload taking at least one.
pub open spec fn dp_rows(times: Seq<Seq<u64>>, m: nat, i: int) -> Seq<int>
    decreases i,
{
    if i <= 0 {
        Seq::new(m + 1, |k: int| row_min(times[0], k))
    } else {
        let prev = dp_rows(times, m, i - 1);
        Seq::new(m + 1, |k: int| dp_min_row(prev, times[i], k, k))
    }
}

/// The makespan of one assignment: the largest per-workload time drawn
/// from the table.
pub open spec fn assign_max(times: Seq<Seq<u64>>, ws: Seq<int>) -> int
    decreases ws.len(),
{
    if ws.len() == 0 {
        0
    } else {
        max_i(assign_max(times, ws.drop_last()), times[ws.len() - 1][ws.last() - 1] as int)
    }
}

/// Sum of an assignment.
pub open spec fn sum_ws(ws: Seq<int>) -> int
    decreases ws.len(),
{
    if ws.len() == 0 {
        0
    } else {
        sum_ws(ws.drop_last()) + ws.last()
    }
}

/// True when `ws` assigns every one of the first `i + 1` workloads at
/// least one executor and at most `k` in all.
pub open spec fn valid_assign(times: Seq<Seq<u64>>, ws: Seq<int>, i: int, k: int) -> bool {
    &&& ws.len() == i + 1
    &&& forall|j: int| 0 <= j <= i ==> 1 <= #[trigger] ws[j]
    &&& sum_ws(ws) <= k
}

/// Every table entry is a real measurement, below the sentinel.
pub open spec fn times_ok(times: Seq<Seq<u64>>, m: nat) -> bool {
    &&& times.len() >= 1
    &&& forall|i: int| 0 <= i < times.len() ==> (#[trigger] times[i]).len() >= m
    &&& forall|i: int, w: int|
        0 <= i < times.len() && 0 <= w < times[i].len() ==> (#[trigger] times[i][w]) < u64::MAX
}

/// The single-row minimum is bounded by every entry it ranges over.
proof fn lemma_row_min_le(row: Seq<u64>, w: int, pick: int)
    requires
        1 <= pick <= w,
    ensures
        row_min(row, w) <= row[pick - 1],
    decreases w,
{
    if pick < w {
        lemma_row_min_le(row, w - 1, pick);
    }
}

/// The recurrence step is bounded by every choice it ranges over.
proof fn lemma_dp_min_row_le(prev: Seq<int>, row: Seq<u64>, k: int, w: int, pick: int)
    requires
        1 <= pick <= w,
    ensures
        dp_min_row(prev, row, k, w) <= max_i(
            if 0 <= k - pick < prev.len() {
                prev[k - pick]
            } else {
                dp_inf()
            },
            row[pick - 1] as int,
        ),
    decreases w,
{
    if pick < w {
        lemma_dp_min_row_le(prev, row, k, w - 1, pick);
    }
}

/// The rows of the dynamic program have full width.
pub proof fn lemma_dp_rows_len(times: Seq<Seq<u64>>, m: nat, i: int)
    ensures
        dp_rows(times, m, i).len() == m + 1,
    decreases i,
{
    if i > 0 {
        lemma_dp_rows_len(times, m, i - 1);
    }
}

/// Lower bound: no valid assignment beats the dynamic program's entry.
pub proof fn lemma_dp_lower(times: Seq<Seq<u64>>, m: nat, i: int, k: int, ws: Seq<int>)
    requires
        0 <= i < times.len(),
        0 <= k <= m,
        valid_assign(times, ws, i, k),
    ensures
        dp_rows(times, m, i)[k] <= assign_max(times, ws),
    decreases i,
{
    lemma_dp_rows_len(times, m, i);
    let w = ws[i];
    lemma_sum_ws_at_least(ws.drop_last());
    assert(w <= k - i);
    assert(ws.drop_last().len() == i);
    assert(assign_max(times, ws) == max_i(
        assign_max(times, ws.drop_last()),
        times[i][w - 1] as int,
    ));
    if i == 0 {
        lemma_row_min_le(times[0], k, w);
        assert(dp_rows(times, m, 0)[k] == row_min(times[0], k));
        assert(assign_max(times, ws.drop_last()) == 0);
    } else {
        let prev = dp_rows(times, m, i - 1);
        lemma_dp_rows_len(times, m, i - 1);
        lemma_dp_lower(times, m, i - 1, k - w, ws.drop_last());
        lemma_dp_min_row_le(prev, times[i], k, k, w);
        assert(dp_rows(times, m, i)[k] == dp_min_row(prev, times[i], k, k));
    }
}

/// An assignment of one-or-more executors sums to at least its length.
proof fn lemma_sum_ws_at_least(ws: Seq<int>)
    requires
        forall|j: int| 0 <= j < ws.len() ==> 1 <= #[trigger] ws[j],
    ensures
        sum_ws(ws) >= ws.len(),
    decreases ws.len(),
{
    if ws.len() > 0 {
        lemma_sum_ws_at_least(ws.drop_last());
    }
}

/// With fewer executors than workloads, nothing is achievable.
pub proof fn lemma_dp_small_budget(times: Seq<Seq<u64>>, m: nat, i: int, k: int)
    requires
        0 <= i,
        k <= i,
        0 <= k <= m,
    ensures
        dp_rows(times, m, i)[k] == dp_inf(),
    decreases i,
{
    lemma_dp_rows_len(times, m, i);
    if i == 0 {
        assert(dp_rows(times, m, 0)[k] == row_min(times[0], k));
    } else {
        let prev = dp_rows(times, m, i - 1);
        lemma_dp_rows_len(times, m, i - 1);
        assert forall|u: int| u <= k - 1 && 0 <= u < prev.len() implies #[trigger] prev[u]
            == dp_inf() by {
            lemma_dp_small_budget(times, m, i - 1, u);
        }
        lemma_dp_min_row_inf(prev, times[i], k, k);
        assert(dp_rows(times, m, i)[k] == dp_min_row(prev, times[i], k, k));
    }
}

/// When every reachable previous entry is unachievable, so is the step.
proof fn lemma_dp_min_row_inf(prev: Seq<int>, row: Seq<u64>, k: int, w: int)
    requires
        forall|u: int| u <= k - 1 && 0 <= u < prev.len() ==> #[trigger] prev[u] == dp_inf(),
    ensures
        dp_min_row(prev, row, k, w) == dp_inf(),
    decreases w,
{
    if w >= 1 {
        lemma_dp_min_row_inf(prev, row, k, w - 1);
    }
}

/// The view of an executor-count vector as a mathematical assignment.
pub open spec fn ws_of(s: Seq<u32>) -> Seq<int> {
    s.map_values(|x: u32| x as int)
}

/// The view of a table of rows as a table of sequences.
pub open spec fn table_view(t: Seq<Vec<u64>>) -> Seq<Seq<u64>> {
    t.map_values(|v: Vec<u64>| v@)
}

/// An assignment bounded elementwise is bounded as a whole.
proof fn lemma_assign_max_le(times: Seq<Seq<u64>>, ws: Seq<int>, b: int)
    requires
        b >= 0,
        forall|j: int| 0 <= j < ws.len() ==> (times[j][#[trigger] ws[j] - 1]) as int <= b,
    ensures
        assign_max(times, ws) <= b,
    decreases ws.len(),
{
    if ws.len() > 0 {
        lemma_assign_max_le(times, ws.drop_last(), b);
    }
}

/// What a recorded decision means for its cell: when the cell is
/// achievable, the decision names an executor count that achieves it.
pub open spec fn decision_ok(times: Seq<Seq<u64>>, m: nat, i: int, k: int, d: int) -> bool {
    dp_rows(times, m, i)[k] < dp_inf() ==> {
        &&& 1 <= d <= k
        &&& (i == 0 ==> times[0][d - 1] as int == dp_rows(times, m, 0)[k])
        &&& (i >= 1 ==> {
            let prev = dp_rows(times, m, i - 1);
            let below = if 0 <= k - d < prev.len() {
                prev[k - d]
            } else {
                dp_inf()
            };
            max_i(below, times[i][d - 1] as int) == dp_rows(times, m, i)[k]
        })
    }
}

/// A vector of `len` copies of `val`.
fn filled_u64(len: usize, val: u64) -> (r: Vec<u64>)
    ensures
        r@.len() == len,
        forall|i: int| 0 <= i < len ==> #[trigger] r@[i] == val,
{
    let mut v: Vec<u64> = Vec::new();
    let mut i: usize = 0;
    while i < len
        invariant
            0 <= i <= len,
            v@.len() == i,
            forall|j: int| 0 <= j < i ==> #[trigger] v@[j] == val,
        decreases len - i,
    {
        v.push(val);
        i = i + 1;
    }
    v
}

/// A vector of `len` copies of `val`.
fn filled_usize(len: usize, val: usize) -> (r: Vec<usize>)
    ensures
        r@.len() == len,
        forall|i: int| 0 <= i < len ==> #[trigger] r@[i] == val,
{
    let mut v: Vec<usize> = Vec::new();
    let mut i: usize = 0;
    while i < len
        invariant
            0 <= i <= len,
            v@.len() == i,
            forall|j: int| 0 <= j < i ==> #[trigger] v@[j] == val,
        decreases len - i,
    {
        v.push(val);
        i = i + 1;
    }
    v
}

/// A vector of `len` copies of `val`.
fn filled_u32(len: usize, val: u32) -> (r: Vec<u32>)
    ensures
        r@.len() == len,
        forall|i: int| 0 <= i < len ==> #[trigger] r@[i] == val,
{
    let mut v: Vec<u32> = Vec::new();
    let mut i: usize = 0;
    while i < len
        invariant
            0 <= i <= len,
            v@.len() == i,
            forall|j: int| 0 <= j < i ==> #[trigger] v@[j] == val,
        decreases len - i,
    {
        v.push(val);
        i = i + 1;
    }
    v
}

/// Walks the decision table backwards from the chosen budget, reading
/// off the executor count of each workload.
pub fn reconstruct_nexecs(
    decision: &Vec<Vec<usize>>,
    num_workloads: usize,
    optimal_total_nexec: usize,
    table: Ghost<Seq<Seq<u64>>>,
    m: Ghost<nat>,
    best: Ghost<int>,
) -> (r: Vec<u32>)
    requires
        num_workloads == decision@.len(),
        num_workloads >= 1,
        table@.len() == num_workloads,
        optimal_total_nexec <= m@,
        m@ <= u32::MAX,
        forall|a: int| 0 <= a < num_workloads ==> (#[trigger] decision@[a])@.len() == m@ + 1,
        forall|a: int, k: int|
            0 <= a < num_workloads && 0 <= k <= m@ ==> decision_ok(
                table@,
                m@,
                a,
                k,
                (#[trigger] decision@[a]@[k]) as int,
            ),
        dp_rows(table@, m@, num_workloads - 1)[optimal_total_nexec as int] <= best@,
        best@ < dp_inf(),
    ensures
        r@.len() == num_workloads,
        forall|j: int| 0 <= j < num_workloads ==> 1 <= #[trigger] r@[j] && r@[j] <= m@,
        sum_ws(ws_of(r@)) <= optimal_total_nexec,
        assign_max(table@, ws_of(r@)) <= best@,
{
    let mut nexecs: Vec<u32> = filled_u32(num_workloads, 0);
    let mut remaining_exec: usize = optimal_total_nexec;
    let mut i: usize = num_workloads;
    while i > 0
        invariant
            0 <= i <= num_workloads == decision@.len() == table@.len(),
            num_workloads >= 1,
            remaining_exec <= optimal_total_nexec <= m@ <= u32::MAX,
            nexecs@.len() == num_workloads,
            forall|a: int| 0 <= a < num_workloads ==> (#[trigger] decision@[a])@.len() == m@ + 1,
            forall|a: int, k: int|
                0 <= a < num_workloads && 0 <= k <= m@ ==> decision_ok(
                    table@,
                    m@,
                    a,
                    k,
                    (#[trigger] decision@[a]@[k]) as int,
                ),
            best@ < dp_inf(),
            i > 0 ==> dp_rows(table@, m@, i - 1)[remaining_exec as int] <= best@,
            forall|j: int| i <= j < num_workloads ==> 1 <= #[trigger] nexecs@[j] && nexecs@[j] <= m@,
            sum_ws(ws_of(nexecs@.skip(i as int))) == optimal_total_nexec - remaining_exec,
            forall|j: int|
                i <= j < num_workloads ==> (table@[j][#[trigger] nexecs@[j] - 1]) as int <= best@,
        decreases i,
    {
        i = i - 1;
        let d = decision[i][remaining_exec];
        proof {
            assert(decision_ok(table@, m@, i as int, remaining_exec as int, d as int));
            assert(dp_rows(table@, m@, i as int)[remaining_exec as int] < dp_inf());
        }
        let ghost old_nexecs = nexecs@;
        nexecs[i] = d as u32;
        remaining_exec = remaining_exec - d;
        proof {
            assert(ws_of(nexecs@.skip(i as int)) =~= seq![d as int] + ws_of(
                old_nexecs.skip(i as int + 1),
            ));
            assert(ws_of(old_nexecs.skip(i as int + 1)) =~= ws_of(nexecs@.skip(i as int + 1)));
            lemma_sum_ws_prepend(d as int, ws_of(nexecs@.skip(i as int + 1)));
            if i > 0 {
                let prev = dp_rows(table@, m@, i as int - 1);
                lemma_dp_rows_len(table@, m@, i as int - 1);
                assert(prev[remaining_exec as int] <= best@);
            }
        }
    }
    proof {
        assert(nexecs@.skip(0) =~= nexecs@);
        lemma_assign_max_le(table@, ws_of(nexecs@), best@);
    }
    nexecs
}

/// Prepending an element adds it to the sum.
proof fn lemma_sum_ws_prepend(x: int, s: Seq<int>)
    ensures
        sum_ws(seq![x] + s) == x + sum_ws(s),
    decreases s.len(),
{
    if s.len() == 0 {
        assert((seq![x] + s).drop_last() =~= Seq::<int>::empty());
        assert((seq![x] + s).last() == x);
        assert(sum_ws(Seq::<int>::empty()) == 0);
        assert(sum_ws(s) == 0);
    } else {
        assert((seq![x] + s).drop_last() =~= seq![x] + s.drop_last());
        assert((seq![x] + s).last() == s.last());
        lemma_sum_ws_prepend(x, s.drop_last());
    }
}

/// Fills the dynamic program over the time table and returns the least
/// achievable makespan together with the executor counts that achieve
/// it.  Entry `dp[i][k]` is the best makespan for workloads `0..=i`
/// given at most `k` executors; the recorded decision reconstructs the
/// split.
pub fn min_execution_time(times: &Vec<Vec<u64>>, max_exec: usize) -> (r: (u64, Vec<u32>))
    requires
        1 <= times@.len() <= max_exec,
        max_exec < u32::MAX,
        times_ok(table_view(times@), max_exec as nat),
    ensures
        ({
            let tv = table_view(times@);
            let m = max_exec as nat;
            let last = dp_rows(tv, m, times@.len() - 1);
            &&& r.0 < u64::MAX
            &&& forall|k: int| 0 <= k <= max_exec ==> r.0 as int <= #[trigger] last[k]
            &&& r.1@.len() == times@.len()
            &&& forall|j: int| 0 <= j < r.1@.len() ==> 1 <= #[trigger] r.1@[j] && r.1@[j] <= max_exec
            &&& sum_ws(ws_of(r.1@)) <= max_exec
            &&& assign_max(tv, ws_of(r.1@)) == r.0
            &&& forall|ws: Seq<int>|
                valid_assign(tv, ws, times@.len() - 1, max_exec as int) ==> r.0 as int
                    <= assign_max(tv, ws)
        }),
{
    let w_count = times.len();
    let ghost tv = table_view(times@);
    let ghost m = max_exec as nat;
    let mut dp_t: Vec<Vec<u64>> = Vec::new();
    let mut decision: Vec<Vec<usize>> = Vec::new();

    let mut i: usize = 0;
    while i < w_count
        invariant
            tv == table_view(times@),
            m == max_exec as nat,
            times_ok(tv, m),
            1 <= w_count == times@.len() <= max_exec < u32::MAX,
            0 <= i <= w_count,
            dp_t@.len() == i,
            decision@.len() == i,
            forall|a: int| 0 <= a < i ==> (#[trigger] dp_t@[a])@.len() == max_exec + 1,
            forall|a: int| 0 <= a < i ==> (#[trigger] decision@[a])@.len() == max_exec + 1,
            forall|a: int, k: int|
                0 <= a < i && 0 <= k <= max_exec ==> (#[trigger] dp_t@[a]@[k]) as int == dp_rows(
                    tv,
                    m,
                    a,
                )[k],
            forall|a: int, k: int|
                0 <= a < i && 0 <= k <= max_exec ==> decision_ok(
                    tv,
                    m,
                    a,
                    k,
                    (#[trigger] decision@[a]@[k]) as int,
                ),
        decreases w_count - i,
    {
        proof {
            lemma_dp_rows_len(tv, m, i as int);
            if i > 0 {
                lemma_dp_rows_len(tv, m, i as int - 1);
            }
        }
        let mut row: Vec<u64> = filled_u64(max_exec + 1, u64::MAX);
        let mut dec_row: Vec<usize> = filled_usize(max_exec + 1, 0);
        proof {
            assert forall|kk: int| 0 <= kk <= i implies dp_rows(tv, m, i as int)[kk]
                == dp_inf() by {
                lemma_dp_small_budget(tv, m, i as int, kk);
            }
        }
        let mut k: usize = i + 1;
        while k <= max_exec
            invariant
                tv == table_view(times@),
                m == max_exec as nat,
                times_ok(tv, m),
                1 <= w_count == times@.len() <= max_exec < u32::MAX,
                0 <= i < w_count,
                i + 1 <= k <= max_exec + 1,
                dp_t@.len() == i,
                decision@.len() == i,
                row@.len() == max_exec + 1,
                dec_row@.len() == max_exec + 1,
                dp_rows(tv, m, i as int).len() == m + 1,
                i > 0 ==> dp_rows(tv, m, i as int - 1).len() == m + 1,
                forall|a: int| 0 <= a < i ==> (#[trigger] dp_t@[a])@.len() == max_exec + 1,
                forall|a: int, kk: int|
                    0 <= a < i && 0 <= kk <= max_exec ==> (#[trigger] dp_t@[a]@[kk]) as int
                        == dp_rows(tv, m, a)[kk],
                forall|a: int, kk: int|
                    0 <= a < i && 0 <= kk <= max_exec ==> decision_ok(
                        tv,
                        m,
                        a,
                        kk,
                        (#[trigger] decision@[a]@[kk]) as int,
                    ),
                forall|a: int| 0 <= a < i ==> (#[trigger] decision@[a])@.len() == max_exec + 1,
                forall|kk: int|
                    0 <= kk < k ==> (#[trigger] row@[kk]) as int == dp_rows(tv, m, i as int)[kk],
                forall|kk: int|
                    0 <= kk < k ==> decision_ok(
                        tv,
                        m,
                        i as int,
                        kk,
                        (#[trigger] dec_row@[kk]) as int,
                    ),
            decreases max_exec + 1 - k,
        {
            let mut best: u64 = u64::MAX;
            let mut darg: usize = 0;
            let mut w: usize = 1;
            while w <= k
                invariant
                    tv == table_view(times@),
                    m == max_exec as nat,
                    times_ok(tv, m),
                    1 <= w_count == times@.len() <= max_exec < u32::MAX,
                    0 <= i < w_count,
                    i + 1 <= k <= max_exec,
                    1 <= w <= k + 1,
                    dp_t@.len() == i,
                    i > 0 ==> dp_rows(tv, m, i as int - 1).len() == m + 1,
                    forall|a: int| 0 <= a < i ==> (#[trigger] dp_t@[a])@.len() == max_exec + 1,
                    forall|a: int, kk: int|
                        0 <= a < i && 0 <= kk <= max_exec ==> (#[trigger] dp_t@[a]@[kk]) as int
                            == dp_rows(tv, m, a)[kk],
                    best as int == (if i == 0 {
                        row_min(tv[0], w - 1)
                    } else {
                        dp_min_row(dp_rows(tv, m, i as int - 1), tv[i as int], k as int, w - 1)
                    }),
                    best < u64::MAX ==> 1 <= darg <= w - 1,
                    best < u64::MAX && i == 0 ==> tv[0][darg - 1] as int == best as int,
                    best < u64::MAX && i > 0 ==> ({
                        let prev = dp_rows(tv, m, i as int - 1);
                        let below = if 0 <= k - darg < prev.len() {
                            prev[k as int - darg]
                        } else {
                            dp_inf()
                        };
                        max_i(below, tv[i as int][darg - 1] as int) == best as int
                    }),
                decreases k + 1 - w,
            {
                let t = times[i][w - 1];
                let cand: u64 = if i == 0 {
                    t
                } else {
                    let below = dp_t[i - 1][k - w];
                    if below >= t {
                        below
                    } else {
                        t
                    }
                };
                if cand < best {
                    best = cand;
                    darg = w;
                }
                w = w + 1;
            }
            row[k] = best;
            dec_row[k] = darg;
            k = k + 1;
        }
        dp_t.push(row);
        decision.push(dec_row);
        i = i + 1;
    }

    // The least achievable makespan over every budget up to `max_exec`;
    // ties go to the larger budget.
    proof {
        lemma_dp_rows_len(tv, m, w_count as int - 1);
    }
    let mut best: u64 = u64::MAX;
    let mut bestk: usize = 0;
    let mut k: usize = 0;
    while k <= max_exec
        invariant
            tv == table_view(times@),
            m == max_exec as nat,
            1 <= w_count == times@.len() <= max_exec < u32::MAX,
            0 <= k <= max_exec + 1,
            dp_t@.len() == w_count,
            dp_rows(tv, m, w_count as int - 1).len() == m + 1,
            (#[trigger] dp_t@[w_count - 1])@.len() == max_exec + 1,
            forall|kk: int|
                0 <= kk <= max_exec ==> (#[trigger] dp_t@[w_count - 1]@[kk]) as int == dp_rows(
                    tv,
                    m,
                    w_count as int - 1,
                )[kk],
            forall|kk: int|
                0 <= kk < k ==> best as int <= #[trigger] dp_rows(tv, m, w_count as int - 1)[kk],
            k > 0 ==> bestk < k && best as int == dp_rows(tv, m, w_count as int - 1)[bestk as int],
            k == 0 ==> best == u64::MAX && bestk == 0,
            bestk <= max_exec,
        decreases max_exec + 1 - k,
    {
        let cell = dp_t[w_count - 1][k];
        if cell <= best || k == 0 {
            best = cell;
            bestk = k;
        }
        k = k + 1;
    }

    // Feasible: giving every workload one executor stays within budget.
    proof {
        let ones = Seq::new(w_count as nat, |j: int| 1int);
        lemma_sum_ws_ones(ones);
        assert(valid_assign(tv, ones, w_count as int - 1, max_exec as int));
        lemma_dp_lower(tv, m, w_count as int - 1, max_exec as int, ones);
        assert forall|j: int| 0 <= j < ones.len() implies (tv[j][#[trigger] ones[j] - 1]) as int
            <= dp_inf() - 1 by {
            assert(tv[j][0] < u64::MAX);
        }
        lemma_assign_max_le(tv, ones, dp_inf() - 1);
        assert(dp_rows(tv, m, w_count as int - 1)[max_exec as int] < dp_inf());
        assert(best < u64::MAX);
    }

    let nexecs = reconstruct_nexecs(
        &decision,
        w_count,
        bestk,
        Ghost(tv),
        Ghost(m),
        Ghost(best as int),
    );
    proof {
        assert forall|ws: Seq<int>|
            valid_assign(tv, ws, times@.len() - 1, max_exec as int) implies best as int
            <= assign_max(tv, ws) by {
            lemma_dp_lower(tv, m, w_count as int - 1, max_exec as int, ws);
        }
        assert(valid_assign(tv, ws_of(nexecs@), times@.len() - 1, max_exec as int));
        assert(assign_max(tv, ws_of(nexecs@)) == best as int);
    }
    (best, nexecs)
}

/// An all-ones assignment sums to its length.
proof fn lemma_sum_ws_ones(ws: Seq<int>)
    requires
        forall|j: int| 0 <= j < ws.len() ==> #[trigger] ws[j] == 1,
    ensures
        sum_ws(ws) == ws.len(),
    decreases ws.len(),
{
    if ws.len() > 0 {
        lemma_sum_ws_ones(ws.drop_last());
    }
}


/// Measured run times of the `wc` workload for one through twenty-one
/// executors, in milliseconds.
pub open spec fn spec_wc_times() -> Seq<u64> {
    seq![82250u64, 67000, 66000, 72500, 67000, 65500, 65000, 85000, 66000, 67000, 71500, 78000, 78000, 79500, 94000, 95000, 97500, 117000, 115000, 111000, 130000]
}

fn wc_times_vec() -> (r: Vec<u64>)
    ensures
        r@ == spec_wc_times(),
        r@.len() == 21,
        forall|i: int| 0 <= i < 21 ==> #[trigger] r@[i] < u64::MAX,
{
    let v: Vec<u64> = vec![82250u64, 67000, 66000, 72500, 67000, 65500, 65000, 85000, 66000, 67000, 71500, 78000, 78000, 79500, 94000, 95000, 97500, 117000, 115000, 111000, 130000];
    proof {
        assert(v@ =~= spec_wc_times());
        assert(forall|i: int| 0 <= i < 21 ==> #[trigger] v@[i] < u64::MAX);
    }
    v
}

/// Measured run times of the `pi` workload for one through twenty-one
/// executors, in milliseconds.
pub open spec fn spec_pi_times() -> Seq<u64> {
    seq![103000u64, 67100, 57500, 55000, 53000, 54000, 50000, 50000, 48000, 46000, 45500, 46000, 44500, 44000, 43000, 42400, 43250, 43400, 44600, 43500, 43400]
}

fn pi_times_vec() -> (r: Vec<u64>)
    ensures
        r@ == spec_pi_times(),
        r@.len() == 21,
        forall|i: int| 0 <= i < 21 ==> #[trigger] r@[i] < u64::MAX,
{
    let v: Vec<u64> = vec![103000u64, 67100, 57500, 55000, 53000, 54000, 50000, 50000, 48000, 46000, 45500, 46000, 44500, 44000, 43000, 42400, 43250, 43400, 44600, 43500, 43400];
    proof {
        assert(v@ =~= spec_pi_times());
        assert(forall|i: int| 0 <= i < 21 ==> #[trigger] v@[i] < u64::MAX);
    }
    v
}

/// Measured run times of the `svm` workload for one through twenty-one
/// executors, in milliseconds.
pub open spec fn spec_svm_times() -> Seq<u64> {
    seq![71300u64, 74800, 80000, 85000, 87000, 91500, 95000, 92000, 95500, 95000, 96500, 101000, 102500, 107000, 140000, 200000, 220000, 260000, 310000, 390000, 420000]
}

fn svm_times_vec() -> (r: Vec<u64>)
    ensures
        r@ == spec_svm_times(),
        r@.len() == 21,
        forall|i: int| 0 <= i < 21 ==> #[trigger] r@[i] < u64::MAX,
{
    let v: Vec<u64> = vec![71300u64, 74800, 80000, 85000, 87000, 91500, 95000, 92000, 95500, 95000, 96500, 101000, 102500, 107000, 140000, 200000, 220000, 260000, 310000, 390000, 420000];
    proof {
        assert(v@ =~= spec_svm_times());
        assert(forall|i: int| 0 <= i < 21 ==> #[trigger] v@[i] < u64::MAX);
    }
    v
}

/// Measured run times of the `sort` workload for one through twenty-one
/// executors, in milliseconds.
pub open spec fn spec_sort_times() -> Seq<u64> {
    seq![280000u64, 162000, 121500, 128000, 100000, 100000, 94000, 105000, 97000, 103000, 95000, 89000, 88000, 94000, 104000, 115000, 112000, 129000, 132000, 140000, 140000]
}

fn sort_times_vec() -> (r: Vec<u64>)
    ensures
        r@ == spec_sort_times(),
        r@.len() == 21,
        forall|i: int| 0 <= i < 21 ==> #[trigger] r@[i] < u64::MAX,
{
    let v: Vec<u64> = vec![280000u64, 162000, 121500, 128000, 100000, 100000, 94000, 105000, 97000, 103000, 95000, 89000, 88000, 94000, 104000, 115000, 112000, 129000, 132000, 140000, 140000];
    proof {
        assert(v@ =~= spec_sort_times());
        assert(forall|i: int| 0 <= i < 21 ==> #[trigger] v@[i] < u64::MAX);
    }
    v
}

/// The measured row of a known workload name; empty for any other name.
pub open spec fn spec_row_for(name: Seq<char>) -> Seq<u64> {
    if name == "wc"@ {
        spec_wc_times()
    } else if name == "pi"@ {
        spec_pi_times()
    } else if name == "svm"@ {
        spec_svm_times()
    } else if name == "sort"@ {
        spec_sort_times()
    } else {
        Seq::empty()
    }
}

/// The measured execution times of one workload, by name.
pub fn profiled_row(name: &str) -> (r: Option<Vec<u64>>)
    ensures
        match r {
            Some(v) => v@ == spec_row_for(name@) && v@.len() == 21 && forall|i: int|
                0 <= i < 21 ==> #[trigger] v@[i] < u64::MAX,
            None => spec_row_for(name@).len() == 0,
        },
{
    let owned: String = name.to_owned();
    if owned == String::from_str("wc") {
        Some(wc_times_vec())
    } else if owned == String::from_str("pi") {
        Some(pi_times_vec())
    } else if owned == String::from_str("svm") {
        Some(svm_times_vec())
    } else if owned == String::from_str("sort") {
        Some(sort_times_vec())
    } else {
        None
    }
}

/// The whole profile: for each known workload name, its measured run
/// times under one through twenty-one executors.
pub fn profiled_table() -> (r: Vec<(String, Vec<u64>)>)
    ensures
        r@.len() == 4,
        r@[0].0@ == "wc"@ && r@[0].1@ == spec_wc_times(),
        r@[1].0@ == "pi"@ && r@[1].1@ == spec_pi_times(),
        r@[2].0@ == "svm"@ && r@[2].1@ == spec_svm_times(),
        r@[3].0@ == "sort"@ && r@[3].1@ == spec_sort_times(),
{
    let mut t: Vec<(String, Vec<u64>)> = Vec::new();
    t.push((String::from_str("wc"), wc_times_vec()));
    t.push((String::from_str("pi"), pi_times_vec()));
    t.push((String::from_str("svm"), svm_times_vec()));
    t.push((String::from_str("sort"), sort_times_vec()));
    t
}

/// The time table named by a metadata list.
pub open spec fn spec_meta_rows(meta: Seq<String>) -> Seq<Seq<u64>> {
    meta.map_values(|s: String| spec_row_for(s@))
}

/// The executor counts a batch of plans carries.
pub open spec fn plan_ws(plans: Seq<ResourcePlan>) -> Seq<int> {
    plans.map_values(|p: ResourcePlan| p.nexec as int)
}

/// What the profiled planner asks of its input: at least one named
/// workload, every name in the profile, and a core total that leaves
/// each workload an executor yet stays within the profiled range.
pub open spec fn profiled_req(state: ClusterState, meta: Seq<String>) -> bool {
    &&& 1 <= meta.len()
    &&& forall|i: int| 0 <= i < meta.len() ==> spec_row_for((#[trigger] meta[i])@).len() == 21
    &&& state.total_core >= 2 * meta.len()
    &&& state.total_core - meta.len() <= 21
}

/// What the profiled planner guarantees: one minimal plan per workload
/// whose executor counts fit the budget, with no better assignment of
/// the same budget.
pub open spec fn profiled_plan_ens(
    pre: ClusterState,
    meta: Seq<String>,
    plans: Seq<ResourcePlan>,
) -> bool {
    let tv = spec_meta_rows(meta);
    let m = pre.total_core - meta.len();
    &&& plans.len() == meta.len()
    &&& forall|i: int|
        0 <= i < plans.len() ==> (#[trigger] plans[i]).driver_cpu == 1 && plans[i].driver_mem_mb
            == 1024 && plans[i].exec_cpu == 1 && plans[i].exec_mem_mb == 1024 && 1 <= plans[i].nexec
            <= m
    &&& sum_ws(plan_ws(plans)) <= m
    &&& assign_max(tv, plan_ws(plans)) < dp_inf()
    &&& forall|ws: Seq<int>|
        valid_assign(tv, ws, meta.len() - 1, m as int) ==> assign_max(tv, plan_ws(plans))
            <= #[trigger] assign_max(tv, ws)
}

/// Plans every named workload from the profile: resolves each name to
/// its measured row and splits the executor budget so that the slowest
/// workload finishes as early as possible.
pub fn from_profiled(
    state: &mut ClusterState,
    _workload_types: Vec<WorkloadType>,
    meta: Vec<String>,
) -> (plans: Vec<ResourcePlan>)
    requires
        profiled_req(*old(state), meta@),
    ensures
        *final(state) == *old(state),
        profiled_plan_ens(*old(state), meta@, plans@),
{
    let w = meta.len();
    let mut rows: Vec<Vec<u64>> = Vec::new();
    let mut i: usize = 0;
    while i < w
        invariant
            0 <= i <= w == meta@.len(),
            profiled_req(*state, meta@),
            rows@.len() == i,
            forall|j: int|
                0 <= j < i ==> (#[trigger] rows@[j])@ == spec_row_for(meta@[j]@),
            forall|j: int| 0 <= j < i ==> (#[trigger] rows@[j])@.len() == 21,
            forall|j: int, v: int|
                0 <= j < i && 0 <= v < 21 ==> (#[trigger] rows@[j]@[v]) < u64::MAX,
        decreases w - i,
    {
        let row = match profiled_row(meta[i].as_str()) {
            Some(v) => v,
            None => {
                proof {
                    assert(false);
                }
                Vec::new()
            },
        };
        rows.push(row);
        i = i + 1;
    }

    let ncore = state.total_core as usize;
    let max_exec = ncore - w;  // one driver core per workload
    proof {
        assert(table_view(rows@) =~= spec_meta_rows(meta@));
        assert(times_ok(table_view(rows@), max_exec as nat));
    }
    let r = min_execution_time(&rows, max_exec);
    let nexecs = r.1;

    let mut plans: Vec<ResourcePlan> = Vec::new();
    let mut i: usize = 0;
    while i < w
        invariant
            0 <= i <= w,
            nexecs@.len() == w,
            plans@.len() == i,
            forall|j: int|
                0 <= j < w ==> 1 <= #[trigger] nexecs@[j] && nexecs@[j] <= max_exec,
            max_exec <= u32::MAX,
            forall|j: int|
                0 <= j < i ==> #[trigger] plans@[j] == (ResourcePlan {
                    driver_cpu: 1,
                    driver_mem_mb: 1024,
                    exec_cpu: 1,
                    exec_mem_mb: 1024,
                    nexec: nexecs@[j],
                }),
        decreases w - i,
    {
        plans.push(
            ResourcePlan {
                driver_cpu: 1,
                driver_mem_mb: 1024,
                exec_cpu: 1,
                exec_mem_mb: 1024,
                nexec: nexecs[i],
            },
        );
        i = i + 1;
    }
    proof {
        assert(plan_ws(plans@) =~= ws_of(nexecs@));
    }
    plans
}

/// The planner that reads the measured profile and minimizes the
/// makespan of the batch.
pub struct ProfiledPlanner;

impl Planner for ProfiledPlanner {
    open spec fn plan_req(
        state: ClusterState,
        workload_types: Seq<WorkloadType>,
        meta: Seq<String>,
    ) -> bool {
        profiled_req(state, meta) && meta.len() == workload_types.len()
    }

    open spec fn plan_ens(
        pre: ClusterState,
        post: ClusterState,
        workload_types: Seq<WorkloadType>,
        meta: Seq<String>,
        plans: Seq<ResourcePlan>,
    ) -> bool {
        post == pre && profiled_plan_ens(pre, meta, plans)
    }

    fn plan(state: &mut ClusterState, workload_types: &[WorkloadType], meta: Vec<String>) -> (plans:
        Vec<ResourcePlan>) {
        let types_vec = vstd::slice::slice_to_vec(workload_types);
        from_profiled(state, types_vec, meta)
    }
}

} // verus!
