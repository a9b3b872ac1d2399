//! The workload-aware fair planner.
//!
//! Compute workloads weigh 0.3 and storage workloads 0.7; each class is
//! given the ceiling of its normalized share of the totals, with a floor
//! of two cores and two gibibytes.  Compute workloads are served first at
//! full share; storage workloads then take their share clamped to what
//! remains, and a work-stealing rebalance moves executors from compute
//! plans (down to one each) onto storage plans that fell short of the
//! largest storage allocation.
//!
//! The weights enter only through the ratios `3 / (3 c + 7 s)` and
//! `7 / (3 c + 7 s)`, so all shares are computed exactly in integers.

use vstd::prelude::*;

use crate::cluster::ClusterState;
use crate::resource::{plan_floor, Planner, ResourcePlan, WorkloadType};

verus! {

/// How many entries of `types` from position `i` on are of type `t`.
pub open spec fn count_from(types: Seq<WorkloadType>, i: int, t: WorkloadType) -> nat
    decreases types.len() - i,
{
    if i < 0 || i >= types.len() {
        0
    } else {
        (if types[i] == t {
            1nat
        } else {
            0nat
        }) + count_from(types, i + 1, t)
    }
}

/// The common denominator of the normalized shares: ten times the
/// weighted workload count.
pub open spec fn wa_denom(types: Seq<WorkloadType>) -> nat {
    3 * count_from(types, 0, WorkloadType::Compute) + 7 * count_from(
        types,
        0,
        WorkloadType::Storage,
    )
}

/// Ceiling division.
pub open spec fn ceil_div(a: nat, b: nat) -> nat
    recommends
        b > 0,
{
    (((a + b - 1) as int) / (b as int)) as nat
}

/// Core budget of one compute workload: the ceiling of its share of the
/// total, floored at two.
pub open spec fn wa_c_core(total: nat, types: Seq<WorkloadType>) -> nat {
    let x = ceil_div(3 * total, wa_denom(types));
    if x > 2 {
        x
    } else {
        2
    }
}

/// Memory budget of one compute workload in mebibytes, floored at two
/// gibibytes.
pub open spec fn wa_c_mem(total_mem: nat, types: Seq<WorkloadType>) -> nat {
    let x = ceil_div(3 * total_mem, wa_denom(types));
    if x > 2048 {
        x
    } else {
        2048
    }
}

/// Core budget of one storage workload, before clamping.  When there is
/// no storage workload the value is never drawn on and is left at the
/// floor.
pub open spec fn wa_s_core(total: nat, types: Seq<WorkloadType>) -> nat {
    if count_from(types, 0, WorkloadType::Storage) == 0 {
        2
    } else {
        let x = ceil_div(7 * total, wa_denom(types));
        if x > 2 {
            x
        } else {
            2
        }
    }
}

/// Memory budget of one storage workload in mebibytes, before clamping.
/// When there is no storage workload the value is never drawn on and is
/// left at the floor.
pub open spec fn wa_s_mem(total_mem: nat, types: Seq<WorkloadType>) -> nat {
    if count_from(types, 0, WorkloadType::Storage) == 0 {
        2048
    } else {
        let x = ceil_div(7 * total_mem, wa_denom(types));
        if x > 2048 {
            x
        } else {
            2048
        }
    }
}

/// Cores assigned to workloads `i..` before the rebalance: compute
/// workloads hold their full share (already paid for out of `rc`), each
/// storage workload takes its share clamped to what remains.
pub open spec fn wa_cores_from(
    types: Seq<WorkloadType>,
    i: int,
    c_core: u32,
    s_core: u32,
    rc: u32,
) -> Seq<u32>
    decreases types.len() - i,
{
    if i < 0 || i >= types.len() {
        Seq::empty()
    } else if types[i] == WorkloadType::Storage {
        let core = if s_core <= rc {
            s_core
        } else {
            rc
        };
        seq![core] + wa_cores_from(types, i + 1, c_core, s_core, (rc - core) as u32)
    } else {
        seq![c_core] + wa_cores_from(types, i + 1, c_core, s_core, rc)
    }
}

/// Cores left over after the storage pass over workloads `i..`.
pub open spec fn wa_rem_core_from(types: Seq<WorkloadType>, i: int, s_core: u32, rc: u32) -> u32
    decreases types.len() - i,
{
    if i < 0 || i >= types.len() {
        rc
    } else if types[i] == WorkloadType::Storage {
        let core = if s_core <= rc {
            s_core
        } else {
            rc
        };
        wa_rem_core_from(types, i + 1, s_core, (rc - core) as u32)
    } else {
        wa_rem_core_from(types, i + 1, s_core, rc)
    }
}

/// Memory left over after the storage pass over workloads `i..`.
pub open spec fn wa_rem_mem_from(types: Seq<WorkloadType>, i: int, s_mem: u32, rm: u32) -> u32
    decreases types.len() - i,
{
    if i < 0 || i >= types.len() {
        rm
    } else if types[i] == WorkloadType::Storage {
        let mem = if s_mem <= rm {
            s_mem
        } else {
            rm
        };
        wa_rem_mem_from(types, i + 1, s_mem, (rm - mem) as u32)
    } else {
        wa_rem_mem_from(types, i + 1, s_mem, rm)
    }
}

/// Per-workload core shortfall: how far each storage allocation fell
/// below the largest storage allocation seen up to its turn.  Compute
/// workloads have no shortfall.
pub open spec fn wa_gaps_from(types: Seq<WorkloadType>, cores: Seq<u32>, i: int, mx: u32) -> Seq<
    u32,
>
    decreases types.len() - i,
{
    if i < 0 || i >= types.len() {
        Seq::empty()
    } else if types[i] == WorkloadType::Storage {
        let mx2 = if cores[i] > mx {
            cores[i]
        } else {
            mx
        };
        seq![(mx2 - cores[i]) as u32] + wa_gaps_from(types, cores, i + 1, mx2)
    } else {
        seq![0u32] + wa_gaps_from(types, cores, i + 1, mx)
    }
}

/// True when executors can be stolen from workload `i`: it is a compute
/// workload still holding more than one executor.
pub open spec fn stealable_at(nexecs: Seq<u32>, types: Seq<WorkloadType>, i: int) -> bool {
    0 <= i < types.len() && types[i] == WorkloadType::Compute && nexecs[i] > 1
}

/// The first stealable workload on the circular sweep that starts at
/// `ptr` and has already passed `k` positions.
pub open spec fn wa_scan(nexecs: Seq<u32>, types: Seq<WorkloadType>, ptr: int, k: int) -> Option<
    int,
>
    recommends
        types.len() > 0,
    decreases types.len() - k,
{
    let n = types.len() as int;
    if k < 0 || k >= n {
        None
    } else {
        let i = (ptr + k) % n;
        if stealable_at(nexecs, types, i) {
            Some(i)
        } else {
            wa_scan(nexecs, types, ptr, k + 1)
        }
    }
}

/// Steals up to `gap` executors for the storage workload `dst`, one per
/// step, each from the first stealable compute workload on the circular
/// sweep from `ptr`; the sweep cursor advances past each donor.  Stops
/// early when no compute workload can spare an executor.  Returns the new
/// executor counts and the final cursor.
pub open spec fn wa_steal(
    nexecs: Seq<u32>,
    types: Seq<WorkloadType>,
    ptr: int,
    dst: int,
    gap: nat,
) -> (Seq<u32>, int)
    recommends
        types.len() > 0,
    decreases gap,
{
    if gap == 0 {
        (nexecs, ptr)
    } else {
        match wa_scan(nexecs, types, ptr, 0) {
            Option::None => (nexecs, ptr),
            Option::Some(i) => {
                let moved = nexecs.update(i, (nexecs[i] - 1) as u32).update(
                    dst,
                    (nexecs[dst] + 1) as u32,
                );
                wa_steal(moved, types, (i + 1) % (types.len() as int), dst, (gap - 1) as nat)
            },
        }
    }
}


/// The sweep finds no donor when no compute workload can spare one.
proof fn lemma_wa_scan_exhausted(nexecs: Seq<u32>, types: Seq<WorkloadType>, ptr: int, k: int)
    requires
        forall|i: int| 0 <= i < types.len() ==> !stealable_at(nexecs, types, i),
    ensures
        wa_scan(nexecs, types, ptr, k) is None,
    decreases types.len() - k,
{
    if 0 <= k < types.len() {
        lemma_wa_scan_exhausted(nexecs, types, ptr, k + 1);
    }
}

/// Rebalance termination, the early half: once every compute workload
/// is down to one executor, stealing changes nothing, whatever gap is
/// left.  (The other half is the step count: each steal pays one unit
/// of gap, so a gap is exhausted in at most that many steps.)
pub proof fn lemma_steal_stops_without_donors(
    nexecs: Seq<u32>,
    types: Seq<WorkloadType>,
    ptr: int,
    dst: int,
    gap: nat,
)
    requires
        forall|i: int| 0 <= i < types.len() ==> !stealable_at(nexecs, types, i),
    ensures
        wa_steal(nexecs, types, ptr, dst, gap) == (nexecs, ptr),
    decreases gap,
{
    if gap > 0 {
        lemma_wa_scan_exhausted(nexecs, types, ptr, 0);
    }
}

/// Runs the rebalance for every storage workload from position `d` on
/// that has a positive shortfall, in index order, threading the sweep
/// cursor.
pub open spec fn wa_rebalance(
    nexecs: Seq<u32>,
    types: Seq<WorkloadType>,
    gaps: Seq<u32>,
    ptr: int,
    d: int,
) -> (Seq<u32>, int)
    recommends
        types.len() > 0,
    decreases types.len() - d,
{
    if d < 0 || d >= types.len() {
        (nexecs, ptr)
    } else if types[d] == WorkloadType::Storage && gaps[d] > 0 {
        let step = wa_steal(nexecs, types, ptr, d, gaps[d] as nat);
        wa_rebalance(step.0, types, gaps, step.1, d + 1)
    } else {
        wa_rebalance(nexecs, types, gaps, ptr, d + 1)
    }
}

/// The cores each workload holds before the rebalance, for a run on
/// totals `(total, total_mem)`.
pub open spec fn wa_cores(total: nat, types: Seq<WorkloadType>) -> Seq<u32> {
    let c_core = wa_c_core(total, types);
    let s_core = wa_s_core(total, types);
    let nc = count_from(types, 0, WorkloadType::Compute);
    let rc1 = (total - nc * c_core) as nat;
    wa_cores_from(types, 0, c_core as u32, s_core as u32, rc1 as u32)
}

/// The executor count of each workload after the rebalance.
pub open spec fn wa_final_nexecs(total: nat, types: Seq<WorkloadType>) -> Seq<u32> {
    let cores = wa_cores(total, types);
    let gaps = wa_gaps_from(types, cores, 0, 0);
    let nexecs0 = cores.map_values(|c: u32| (c - 1) as u32);
    wa_rebalance(nexecs0, types, gaps, 0, 0).0
}

/// What the planner asks of its input: the totals must cover the compute
/// shares in full and leave every storage workload at least two cores.
pub open spec fn wa_req(state: ClusterState, types: Seq<WorkloadType>) -> bool {
    let total = state.total_core as nat;
    let total_mem = state.total_mem_mb as nat;
    let nc = count_from(types, 0, WorkloadType::Compute);
    let ns = count_from(types, 0, WorkloadType::Storage);
    &&& types.len() <= u32::MAX
    &&& (types.len() > 0 ==> {
        &&& nc * wa_c_core(total, types) + (if ns > 0 {
            (ns - 1) * wa_s_core(total, types) + 2
        } else {
            0
        }) <= total
        &&& nc * wa_c_mem(total_mem, types) <= total_mem
    })
}

/// What the planner leaves behind: one plan per workload carrying the
/// rebalanced executor count, and the totals less everything handed out.
pub open spec fn wa_plan_ens(
    pre: ClusterState,
    post: ClusterState,
    types: Seq<WorkloadType>,
    plans: Seq<ResourcePlan>,
) -> bool {
    let total = pre.total_core as nat;
    let total_mem = pre.total_mem_mb as nat;
    let nc = count_from(types, 0, WorkloadType::Compute);
    let rc1 = (total - nc * wa_c_core(total, types)) as nat;
    let rm1 = (total_mem - nc * wa_c_mem(total_mem, types)) as nat;
    let nexecs = wa_final_nexecs(total, types);
    if types.len() == 0 {
        post == pre && plans.len() == 0
    } else {
        &&& plans.len() == types.len()
        &&& forall|i: int|
            0 <= i < types.len() ==> #[trigger] plans[i] == (ResourcePlan {
                driver_cpu: 1,
                driver_mem_mb: 1024,
                exec_cpu: 1,
                exec_mem_mb: 1024,
                nexec: nexecs[i],
            })
        &&& post.nodes == pre.nodes
        &&& post.total_core == wa_rem_core_from(
            types,
            0,
            wa_s_core(total, types) as u32,
            rc1 as u32,
        )
        &&& post.total_mem_mb == wa_rem_mem_from(
            types,
            0,
            wa_s_mem(total_mem, types) as u32,
            rm1 as u32,
        )
    }
}

/// Sum of a sequence of 32-bit counts.
pub open spec fn sum_u32(s: Seq<u32>) -> nat
    decreases s.len(),
{
    if s.len() == 0 {
        0
    } else {
        sum_u32(s.drop_last()) + s.last() as nat
    }
}

/// Every element is bounded by the sum.
pub proof fn lemma_sum_u32_elem(s: Seq<u32>, i: int)
    requires
        0 <= i < s.len(),
    ensures
        s[i] <= sum_u32(s),
    decreases s.len(),
{
    if i < s.len() - 1 {
        lemma_sum_u32_elem(s.drop_last(), i);
    }
}

/// Any two distinct elements together are bounded by the sum.
pub proof fn lemma_sum_u32_pair(s: Seq<u32>, i: int, j: int)
    requires
        0 <= i < s.len(),
        0 <= j < s.len(),
        i != j,
    ensures
        s[i] + s[j] <= sum_u32(s),
    decreases s.len(),
{
    if i < s.len() - 1 && j < s.len() - 1 {
        lemma_sum_u32_pair(s.drop_last(), i, j);
    } else if i == s.len() - 1 {
        lemma_sum_u32_elem(s.drop_last(), j);
    } else {
        lemma_sum_u32_elem(s.drop_last(), i);
    }
}

/// Updating one element moves the sum by the difference.
pub proof fn lemma_sum_u32_update(s: Seq<u32>, i: int, v: u32)
    requires
        0 <= i < s.len(),
    ensures
        sum_u32(s.update(i, v)) == sum_u32(s) - s[i] + v,
    decreases s.len(),
{
    if i == s.len() - 1 {
        assert(s.update(i, v).drop_last() =~= s.drop_last());
        assert(s.update(i, v).last() == v);
    } else {
        assert(s.update(i, v).drop_last() =~= s.drop_last().update(i, v));
        assert(s.update(i, v).last() == s.last());
        lemma_sum_u32_update(s.drop_last(), i, v);
    }
}

/// A found donor is indeed stealable and lies in range.
pub proof fn lemma_wa_scan_found(nexecs: Seq<u32>, types: Seq<WorkloadType>, ptr: int, k: int)
    requires
        types.len() > 0,
        wa_scan(nexecs, types, ptr, k) is Some,
    ensures
        stealable_at(nexecs, types, wa_scan(nexecs, types, ptr, k).unwrap()),
    decreases types.len() - k,
{
    let n = types.len() as int;
    if 0 <= k < n {
        let i = (ptr + k) % n;
        if !stealable_at(nexecs, types, i) {
            lemma_wa_scan_found(nexecs, types, ptr, k + 1);
        }
    }
}

/// The steal loop preserves length and total executor count, keeps every
/// workload at one executor or more, never takes from storage workloads,
/// and leaves the cursor in range.
pub proof fn lemma_wa_steal_props(
    nexecs: Seq<u32>,
    types: Seq<WorkloadType>,
    ptr: int,
    dst: int,
    gap: nat,
)
    requires
        0 < types.len(),
        nexecs.len() == types.len(),
        0 <= ptr < types.len(),
        0 <= dst < types.len(),
        types[dst] == WorkloadType::Storage,
        forall|i: int| 0 <= i < nexecs.len() ==> 1 <= #[trigger] nexecs[i],
        sum_u32(nexecs) <= u32::MAX,
    ensures
        ({
            let r = wa_steal(nexecs, types, ptr, dst, gap);
            &&& r.0.len() == nexecs.len()
            &&& sum_u32(r.0) == sum_u32(nexecs)
            &&& forall|i: int| 0 <= i < nexecs.len() ==> 1 <= #[trigger] r.0[i]
            &&& forall|i: int|
                0 <= i < nexecs.len() && types[i] == WorkloadType::Storage ==> #[trigger] r.0[i]
                    >= nexecs[i]
            &&& 0 <= r.1 < types.len()
        }),
    decreases gap,
{
    if gap > 0 {
        let found = wa_scan(nexecs, types, ptr, 0);
        if found is Some {
            let i = found.unwrap();
            lemma_wa_scan_found(nexecs, types, ptr, 0);
            lemma_sum_u32_pair(nexecs, i, dst);
            let after_take = nexecs.update(i, (nexecs[i] - 1) as u32);
            lemma_sum_u32_update(nexecs, i, (nexecs[i] - 1) as u32);
            let moved = after_take.update(dst, (after_take[dst] + 1) as u32);
            lemma_sum_u32_update(after_take, dst, (after_take[dst] + 1) as u32);
            lemma_wa_steal_props(moved, types, (i + 1) % (types.len() as int), dst, (gap - 1) as nat);
        }
    }
}

/// What the whole rebalance preserves, for every starting position.
pub proof fn lemma_wa_rebalance_props(
    nexecs: Seq<u32>,
    types: Seq<WorkloadType>,
    gaps: Seq<u32>,
    ptr: int,
    d: int,
)
    requires
        0 < types.len(),
        nexecs.len() == types.len(),
        gaps.len() == types.len(),
        0 <= ptr < types.len(),
        forall|i: int| 0 <= i < nexecs.len() ==> 1 <= #[trigger] nexecs[i],
        sum_u32(nexecs) <= u32::MAX,
    ensures
        ({
            let r = wa_rebalance(nexecs, types, gaps, ptr, d);
            &&& r.0.len() == nexecs.len()
            &&& sum_u32(r.0) == sum_u32(nexecs)
            &&& forall|i: int| 0 <= i < nexecs.len() ==> 1 <= #[trigger] r.0[i]
            &&& 0 <= r.1 < types.len()
        }),
    decreases types.len() - d,
{
    if 0 <= d < types.len() {
        if types[d] == WorkloadType::Storage && gaps[d] > 0 {
            lemma_wa_steal_props(nexecs, types, ptr, d, gaps[d] as nat);
            let step = wa_steal(nexecs, types, ptr, d, gaps[d] as nat);
            lemma_wa_rebalance_props(step.0, types, gaps, step.1, d + 1);
        } else {
            lemma_wa_rebalance_props(nexecs, types, gaps, ptr, d + 1);
        }
    }
}

/// The first stealable workload on the circular sweep from `ptr`, after
/// `k` positions already passed.
fn find_steal_from(nexecs: &Vec<u32>, types: &[WorkloadType], ptr: usize, k: usize) -> (r: Option<
    usize,
>)
    requires
        nexecs@.len() == types@.len(),
        0 < types@.len() <= u32::MAX,
        ptr < types@.len(),
        k <= types@.len(),
    ensures
        match r {
            Some(i) => wa_scan(nexecs@, types@, ptr as int, k as int) == Some(i as int) && i
                < types@.len() && stealable_at(nexecs@, types@, i as int),
            None => wa_scan(nexecs@, types@, ptr as int, k as int) is None,
        },
    decreases types@.len() - k,
{
    let n = types.len();
    if k >= n {
        return None;
    }
    // `(ptr + k) % n` without risking overflow in the addition.
    let i = if k >= n - ptr {
        k - (n - ptr)
    } else {
        ptr + k
    };
    proof {
        let s = ptr as int + k as int;
        assert(s % (n as int) == if s < n {
            s
        } else {
            s - n
        }) by (nonlinear_arith)
            requires
                0 < (n as int) && 0 <= s < 2 * (n as int),
        ;
    }
    let is_compute = match types[i] {
        WorkloadType::Compute => true,
        WorkloadType::Storage => false,
    };
    if is_compute && nexecs[i] > 1 {
        Some(i)
    } else {
        find_steal_from(nexecs, types, ptr, k + 1)
    }
}

/// Steals up to `gap` executors for storage workload `dst`, sweeping
/// circularly from `ptr`; returns the cursor after the last donor.
fn steal_into(
    nexecs: &mut Vec<u32>,
    types: &[WorkloadType],
    ptr: usize,
    dst: usize,
    gap: u32,
) -> (p2: usize)
    requires
        old(nexecs)@.len() == types@.len(),
        0 < types@.len() <= u32::MAX,
        ptr < types@.len(),
        dst < types@.len(),
        types@[dst as int] == WorkloadType::Storage,
        forall|i: int| 0 <= i < old(nexecs)@.len() ==> 1 <= #[trigger] old(nexecs)@[i],
        sum_u32(old(nexecs)@) <= u32::MAX,
    ensures
        final(nexecs)@ == wa_steal(old(nexecs)@, types@, ptr as int, dst as int, gap as nat).0,
        p2 as int == wa_steal(old(nexecs)@, types@, ptr as int, dst as int, gap as nat).1,
        p2 < types@.len(),
    decreases gap,
{
    if gap == 0 {
        return ptr;
    }
    match find_steal_from(nexecs, types, ptr, 0) {
        None => ptr,
        Some(i) => {
            proof {
                lemma_sum_u32_pair(nexecs@, i as int, dst as int);
                lemma_sum_u32_update(nexecs@, i as int, (nexecs@[i as int] - 1) as u32);
                lemma_sum_u32_update(
                    nexecs@.update(i as int, (nexecs@[i as int] - 1) as u32),
                    dst as int,
                    (nexecs@[dst as int] + 1) as u32,
                );
            }
            let v = nexecs[i];
            nexecs[i] = v - 1;
            let d = nexecs[dst];
            nexecs[dst] = d + 1;
            proof {
                assert(i as int != dst as int);
            }
            let p = (i + 1) % types.len();
            steal_into(nexecs, types, p, dst, gap - 1)
        },
    }
}

/// The planner that weighs storage workloads more heavily than compute
/// workloads and rebalances storage shortfalls by stealing executors from
/// compute plans.
pub struct WorkloadAwareFairPlanner;

impl Planner for WorkloadAwareFairPlanner {
    open spec fn plan_req(
        state: ClusterState,
        workload_types: Seq<WorkloadType>,
        meta: Seq<String>,
    ) -> bool {
        wa_req(state, workload_types)
    }

    open spec fn plan_ens(
        pre: ClusterState,
        post: ClusterState,
        workload_types: Seq<WorkloadType>,
        meta: Seq<String>,
        plans: Seq<ResourcePlan>,
    ) -> bool {
        wa_plan_ens(pre, post, workload_types, plans)
    }

    fn plan(state: &mut ClusterState, workload_types: &[WorkloadType], meta: Vec<String>) -> (plans:
        Vec<ResourcePlan>) {
        let n = workload_types.len();
        if n == 0 {
            return Vec::new();
        }
        let ghost types = workload_types@;
        let ghost total = state.total_core as nat;
        let ghost total_mem = state.total_mem_mb as nat;

        // Count the two classes.
        let mut nc: u32 = 0;
        let mut ns: u32 = 0;
        let mut i: usize = 0;
        while i < n
            invariant
                types == workload_types@,
                0 <= i <= n == types.len() <= u32::MAX,
                nc + count_from(types, i as int, WorkloadType::Compute) == count_from(
                    types,
                    0,
                    WorkloadType::Compute,
                ),
                ns + count_from(types, i as int, WorkloadType::Storage) == count_from(
                    types,
                    0,
                    WorkloadType::Storage,
                ),
                nc + ns <= i,
            decreases n - i,
        {
            proof {
                lemma_count_from_le(types, i as int, WorkloadType::Compute);
                lemma_count_from_le(types, i as int, WorkloadType::Storage);
            }
            match workload_types[i] {
                WorkloadType::Compute => {
                    nc = nc + 1;
                },
                WorkloadType::Storage => {
                    ns = ns + 1;
                },
            }
            i = i + 1;
        }
        let ghost ghost_nc = count_from(types, 0, WorkloadType::Compute);
        let ghost ghost_ns = count_from(types, 0, WorkloadType::Storage);

        // The exact integer shares.
        let denom: u64 = 3 * (nc as u64) + 7 * (ns as u64);
        proof {
            lemma_count_from_total(types, 0);
            assert(denom == wa_denom(types));
            assert(denom >= 3);
        }
        let c_core: u32 = share_of(state.total_core, 3, denom, 2);
        let c_mem: u32 = share_of(state.total_mem_mb, 3, denom, 2048);
        let s_core: u32 = if ns > 0 {
            share_of(state.total_core, 7, denom, 2)
        } else {
            2
        };
        let s_mem: u32 = if ns > 0 {
            share_of(state.total_mem_mb, 7, denom, 2048)
        } else {
            2048
        };
        proof {
            assert(c_core == wa_c_core(total, types));
            assert(c_mem == wa_c_mem(total_mem, types));
            assert(s_core == wa_s_core(total, types));
            assert(s_mem == wa_s_mem(total_mem, types));
        }

        // Pay for the compute pass up front.
        proof {
            if ghost_ns > 0 {
                assert(ghost_nc * c_core + ((ghost_ns - 1) * s_core + 2) <= total);
                assert((ghost_ns - 1) * s_core >= 0) by (nonlinear_arith)
                    requires
                        ghost_ns >= 1,
                ;
            }
            assert(ghost_nc * c_core <= total);
            assert(ghost_nc * c_mem <= total_mem);
        }
        let rc1: u32 = state.total_core - mul_u32(nc, c_core);
        let rm1: u32 = state.total_mem_mb - mul_u32(nc, c_mem);

        // One pass assigns cores to every workload and records storage
        // shortfalls against the running maximum.
        let mut cores: Vec<u32> = Vec::new();
        let mut gaps: Vec<u32> = Vec::new();
        let mut rc: u32 = rc1;
        let mut rm: u32 = rm1;
        let mut mx: u32 = 0;
        let ghost cores_full = wa_cores_from(types, 0, c_core, s_core, rc1);
        proof {
            assert(wa_cores_from(types, 0, c_core, s_core, rc1) =~= cores_full.skip(0));
            assert(wa_gaps_from(types, cores_full, 0, 0) =~= wa_gaps_from(
                types,
                cores_full,
                0,
                0,
            ).skip(0));
            assert(sum_u32(Seq::<u32>::empty()) == 0);
            lemma_wa_cores_from_len(types, 0, c_core, s_core, rc1);
            lemma_wa_gaps_from_len(types, cores_full, 0, 0);
        }
        let mut i: usize = 0;
        while i < n
            invariant
                types == workload_types@,
                0 <= i <= n == types.len() <= u32::MAX,
                wa_gaps_from(types, cores_full, 0, 0).len() == n,
                cores@.len() == i,
                gaps@.len() == i,
                cores_full == wa_cores_from(types, 0, c_core, s_core, rc1),
                wa_cores_from(types, i as int, c_core, s_core, rc) =~= cores_full.skip(i as int),
                wa_gaps_from(types, cores_full, i as int, mx) =~= wa_gaps_from(
                    types,
                    cores_full,
                    0,
                    0,
                ).skip(i as int),
                wa_rem_core_from(types, i as int, s_core, rc) == wa_rem_core_from(
                    types,
                    0,
                    s_core,
                    rc1,
                ),
                wa_rem_mem_from(types, i as int, s_mem, rm) == wa_rem_mem_from(
                    types,
                    0,
                    s_mem,
                    rm1,
                ),
                forall|j: int| 0 <= j < i ==> cores@[j] == cores_full[j],
                forall|j: int|
                    0 <= j < i ==> gaps@[j] == wa_gaps_from(types, cores_full, 0, 0)[j],
                forall|j: int| 0 <= j < i ==> 2 <= #[trigger] cores@[j],
                count_from(types, i as int, WorkloadType::Storage) > 0 ==> rc >= (count_from(
                    types,
                    i as int,
                    WorkloadType::Storage,
                ) - 1) * s_core + 2,
                s_core >= 2,
                c_core >= 2,
                sum_u32(cores@) + rc + count_from(types, i as int, WorkloadType::Compute) * c_core
                    == total,
                cores_full.len() == n,
            decreases n - i,
        {
            let ghost ns_rest = count_from(types, i as int, WorkloadType::Storage);
            let ghost nc_rest = count_from(types, i as int, WorkloadType::Compute);
            let is_storage = match workload_types[i] {
                WorkloadType::Compute => false,
                WorkloadType::Storage => true,
            };
            if is_storage {
                proof {
                    assert(ns_rest >= 1);
                    if ns_rest > 1 {
                        assert((ns_rest - 1) * s_core + 2 >= s_core + 2) by (nonlinear_arith)
                            requires
                                ns_rest >= 2 && s_core >= 0,
                        ;
                    }
                }
                let core = if s_core <= rc {
                    s_core
                } else {
                    rc
                };
                let mem = if s_mem <= rm {
                    s_mem
                } else {
                    rm
                };
                let mx2 = if core > mx {
                    core
                } else {
                    mx
                };
                let gap = mx2 - core;
                proof {
                    assert(cores_full.skip(i as int)[0] == core);
                    assert(cores_full[i as int] == core);
                    assert(cores_full.skip(i as int).drop_first() =~= cores_full.skip(i as int + 1));
                    assert(wa_gaps_from(types, cores_full, i as int, mx)[0] == gap);
                    assert(wa_gaps_from(types, cores_full, 0, 0).skip(i as int)[0] == gap);
                    assert(wa_gaps_from(types, cores_full, 0, 0)[i as int] == gap);
                    assert(wa_gaps_from(types, cores_full, 0, 0).skip(i as int).drop_first()
                        =~= wa_gaps_from(types, cores_full, 0, 0).skip(i as int + 1));
                    assert(cores@.push(core).drop_last() =~= cores@);
                    if ns_rest > 1 {
                        assert((ns_rest - 1) * s_core + 2 - s_core == (ns_rest - 2) * s_core
                            + 2) by (nonlinear_arith);
                    }
                }
                cores.push(core);
                gaps.push(gap);
                rc = rc - core;
                rm = rm - mem;
                mx = mx2;
            } else {
                proof {
                    assert(cores_full.skip(i as int)[0] == c_core);
                    assert(cores_full[i as int] == c_core);
                    assert(cores_full.skip(i as int).drop_first() =~= cores_full.skip(i as int + 1));
                    assert(wa_gaps_from(types, cores_full, i as int, mx)[0] == 0);
                    assert(wa_gaps_from(types, cores_full, 0, 0).skip(i as int)[0] == 0);
                    assert(wa_gaps_from(types, cores_full, 0, 0)[i as int] == 0);
                    assert(wa_gaps_from(types, cores_full, 0, 0).skip(i as int).drop_first()
                        =~= wa_gaps_from(types, cores_full, 0, 0).skip(i as int + 1));
                    assert(cores@.push(c_core).drop_last() =~= cores@);
                    assert(nc_rest * c_core == (nc_rest - 1) * c_core + c_core) by (
                    nonlinear_arith)
                        requires
                            nc_rest >= 1,
                    ;
                }
                cores.push(c_core);
                gaps.push(0);
            }
            i = i + 1;
        }
        let ghost gaps_full = wa_gaps_from(types, cores_full, 0, 0);
        proof {
            assert(cores@ =~= cores_full);
            assert(gaps@ =~= gaps_full);
            assert(count_from(types, n as int, WorkloadType::Compute) == 0);
            assert(count_from(types, n as int, WorkloadType::Compute) * c_core == 0) by (
            nonlinear_arith)
                requires
                    count_from(types, n as int, WorkloadType::Compute) == 0,
            ;
            assert(sum_u32(cores@) + rc == total);
        }

        // Executor counts: each share less the driver core.
        let mut nexecs: Vec<u32> = Vec::new();
        let mut i: usize = 0;
        while i < n
            invariant
                0 <= i <= n == types.len(),
                cores@.len() == n,
                nexecs@.len() == i,
                forall|j: int| 0 <= j < n ==> 2 <= #[trigger] cores@[j],
                forall|j: int| 0 <= j < i ==> nexecs@[j] == cores@[j] - 1,
            decreases n - i,
        {
            nexecs.push(cores[i] - 1);
            i = i + 1;
        }
        proof {
            assert(nexecs@ =~= cores@.map_values(|c: u32| (c - 1) as u32));
            lemma_sum_minus_one(cores@);
            assert(sum_u32(nexecs@) <= u32::MAX);
        }

        // The rebalance.
        let ghost nexecs0 = nexecs@;
        let mut ptr: usize = 0;
        let mut d: usize = 0;
        while d < n
            invariant
                types == workload_types@,
                0 <= d <= n == types.len() <= u32::MAX,
                nexecs@.len() == n,
                gaps@.len() == n,
                gaps_full.len() == n,
                gaps@ == gaps_full,
                ptr < n,
                forall|j: int| 0 <= j < n ==> 1 <= #[trigger] nexecs@[j],
                sum_u32(nexecs@) <= u32::MAX,
                wa_rebalance(nexecs@, types, gaps_full, ptr as int, d as int) == wa_rebalance(
                    nexecs0,
                    types,
                    gaps_full,
                    0,
                    0,
                ),
            decreases n - d,
        {
            let is_storage = match workload_types[d] {
                WorkloadType::Compute => false,
                WorkloadType::Storage => true,
            };
            if is_storage && gaps[d] > 0 {
                proof {
                    lemma_wa_steal_props(nexecs@, types, ptr as int, d as int, gaps@[d as int] as nat);
                }
                ptr = steal_into(&mut nexecs, workload_types, ptr, d, gaps[d]);
            }
            d = d + 1;
        }

        // Emit the plans and consume the capacity.
        let mut plans: Vec<ResourcePlan> = Vec::new();
        let mut i: usize = 0;
        while i < n
            invariant
                0 <= i <= n,
                nexecs@.len() == n,
                plans@.len() == i,
                forall|j: int| 0 <= j < n ==> 1 <= #[trigger] nexecs@[j],
                forall|j: int|
                    0 <= j < i ==> #[trigger] plans@[j] == (ResourcePlan {
                        driver_cpu: 1,
                        driver_mem_mb: 1024,
                        exec_cpu: 1,
                        exec_mem_mb: 1024,
                        nexec: nexecs@[j],
                    }),
            decreases n - i,
        {
            plans.push(
                ResourcePlan {
                    driver_cpu: 1,
                    driver_mem_mb: 1024,
                    exec_cpu: 1,
                    exec_mem_mb: 1024,
                    nexec: nexecs[i],
                },
            );
            i = i + 1;
        }
        state.total_core = rc;
        state.total_mem_mb = rm;
        proof {
            assert(wa_rebalance(nexecs@, types, gaps_full, ptr as int, n as int).0 == nexecs@);
            assert(nexecs@ == wa_rebalance(nexecs0, types, gaps_full, 0, 0).0);
            assert(cores_full == wa_cores(total, types));
            assert(nexecs@ == wa_final_nexecs(total, types));
            assert(wa_rem_core_from(types, n as int, s_core, rc) == rc);
            assert(wa_rem_mem_from(types, n as int, s_mem, rm) == rm);
        }
        plans
    }
}

/// The shortfall record covers every workload.
pub proof fn lemma_wa_gaps_from_len(types: Seq<WorkloadType>, cores: Seq<u32>, i: int, mx: u32)
    requires
        0 <= i <= types.len(),
    ensures
        wa_gaps_from(types, cores, i, mx).len() == types.len() - i,
    decreases types.len() - i,
{
    if i < types.len() {
        if types[i] == WorkloadType::Storage {
            let mx2 = if cores[i] > mx {
                cores[i]
            } else {
                mx
            };
            lemma_wa_gaps_from_len(types, cores, i + 1, mx2);
        } else {
            lemma_wa_gaps_from_len(types, cores, i + 1, mx);
        }
    }
}

/// The per-workload core assignment covers every workload.
pub proof fn lemma_wa_cores_from_len(
    types: Seq<WorkloadType>,
    i: int,
    c_core: u32,
    s_core: u32,
    rc: u32,
)
    requires
        0 <= i <= types.len(),
    ensures
        wa_cores_from(types, i, c_core, s_core, rc).len() == types.len() - i,
    decreases types.len() - i,
{
    if i < types.len() {
        if types[i] == WorkloadType::Storage {
            let core = if s_core <= rc {
                s_core
            } else {
                rc
            };
            lemma_wa_cores_from_len(types, i + 1, c_core, s_core, (rc - core) as u32);
        } else {
            lemma_wa_cores_from_len(types, i + 1, c_core, s_core, rc);
        }
    }
}


/// Whether the planner's precondition holds of this batch: computes the
/// shares and checks that the totals cover the compute pass in full and
/// leave every storage workload at least two cores.
pub fn wa_plan_applicable(state: &ClusterState, workload_types: &[WorkloadType]) -> (r: bool)
    requires
        workload_types@.len() <= u32::MAX,
    ensures
        r == wa_req(*state, workload_types@),
{
    let n = workload_types.len();
    if n == 0 {
        return true;
    }
    let ghost types = workload_types@;
    let mut nc: u32 = 0;
    let mut ns: u32 = 0;
    let mut i: usize = 0;
    while i < n
        invariant
            types == workload_types@,
            0 <= i <= n == types.len() <= u32::MAX,
            nc + count_from(types, i as int, WorkloadType::Compute) == count_from(
                types,
                0,
                WorkloadType::Compute,
            ),
            ns + count_from(types, i as int, WorkloadType::Storage) == count_from(
                types,
                0,
                WorkloadType::Storage,
            ),
            nc + ns <= i,
        decreases n - i,
    {
        proof {
            lemma_count_from_le(types, i as int, WorkloadType::Compute);
            lemma_count_from_le(types, i as int, WorkloadType::Storage);
        }
        match workload_types[i] {
            WorkloadType::Compute => {
                nc = nc + 1;
            },
            WorkloadType::Storage => {
                ns = ns + 1;
            },
        }
        i = i + 1;
    }
    let denom: u64 = 3 * (nc as u64) + 7 * (ns as u64);
    proof {
        lemma_count_from_total(types, 0);
        assert(denom == wa_denom(types));
        assert(denom >= 3);
    }
    let c_core: u32 = share_of(state.total_core, 3, denom, 2);
    let c_mem: u32 = share_of(state.total_mem_mb, 3, denom, 2048);
    let s_core: u32 = if ns > 0 {
        share_of(state.total_core, 7, denom, 2)
    } else {
        2
    };
    proof {
        assert(c_core == wa_c_core(state.total_core as nat, types));
        assert(c_mem == wa_c_mem(state.total_mem_mb as nat, types));
        assert(s_core == wa_s_core(state.total_core as nat, types));
    }
    proof {
        assert((nc as u64) * (c_core as u64) == nc * c_core) by (nonlinear_arith);
        assert((nc as u64) * (c_core as u64) <= u64::MAX) by (nonlinear_arith)
            requires
                nc <= u32::MAX && c_core <= u32::MAX,
        ;
        assert((nc as u64) * (c_mem as u64) == nc * c_mem) by (nonlinear_arith);
        assert((nc as u64) * (c_mem as u64) <= u64::MAX) by (nonlinear_arith)
            requires
                nc <= u32::MAX && c_mem <= u32::MAX,
        ;
    }
    let compute_cores: u64 = (nc as u64) * (c_core as u64);
    let compute_mem: u64 = (nc as u64) * (c_mem as u64);
    if compute_cores > state.total_core as u64 || compute_mem > state.total_mem_mb as u64 {
        return false;
    }
    if ns == 0 {
        return true;
    }
    proof {
        assert(((ns - 1) as u64) * (s_core as u64) == (ns - 1) * s_core) by (nonlinear_arith)
            requires
                ns >= 1,
        ;
        assert(((ns - 1) as u64) * (s_core as u64) <= u64::MAX) by (nonlinear_arith)
            requires
                1 <= ns <= u32::MAX && s_core <= u32::MAX,
        ;
    }
    let storage_cores: u64 = ((ns - 1) as u64) * (s_core as u64);
    let remaining: u64 = state.total_core as u64 - compute_cores;
    remaining >= 2 && storage_cores <= remaining - 2
}

/// Counting from `i` counts at most the entries from `i` on.
pub proof fn lemma_count_from_le(types: Seq<WorkloadType>, i: int, t: WorkloadType)
    requires
        0 <= i <= types.len(),
    ensures
        count_from(types, i, t) <= types.len() - i,
    decreases types.len() - i,
{
    if i < types.len() {
        lemma_count_from_le(types, i + 1, t);
    }
}

/// Every workload is of exactly one of the two types.
pub proof fn lemma_count_from_total(types: Seq<WorkloadType>, i: int)
    requires
        0 <= i <= types.len(),
    ensures
        count_from(types, i, WorkloadType::Compute) + count_from(types, i, WorkloadType::Storage)
            == types.len() - i,
    decreases types.len() - i,
{
    if i < types.len() {
        lemma_count_from_total(types, i + 1);
    }
}

/// One executor count below each of `s` sums to the sum of `s` less its
/// length.
pub proof fn lemma_sum_minus_one(s: Seq<u32>)
    requires
        forall|j: int| 0 <= j < s.len() ==> 1 <= #[trigger] s[j],
    ensures
        sum_u32(s.map_values(|c: u32| (c - 1) as u32)) + s.len() == sum_u32(s),
    decreases s.len(),
{
    if s.len() > 0 {
        assert(s.map_values(|c: u32| (c - 1) as u32).drop_last() =~= s.drop_last().map_values(
            |c: u32| (c - 1) as u32,
        ));
        lemma_sum_minus_one(s.drop_last());
    }
}

/// The ceiling share `max(ceil(weight * total / denom), floor_at)`,
/// computed exactly.
fn share_of(total: u32, weight: u64, denom: u64, floor_at: u32) -> (r: u32)
    requires
        denom >= 3,
        denom <= 10 * 0xFFFF_FFFF,
        weight == 3 || weight == 7,
        weight <= denom,
        floor_at >= 2,
    ensures
        ({
            let x = ceil_div((weight * total) as nat, denom as nat);
            r == if x > floor_at {
                x
            } else {
                floor_at as nat
            }
        }),
{
    let num: u64 = weight * (total as u64);
    let x: u64 = (num + denom - 1) / denom;
    proof {
        assert(x <= total) by (nonlinear_arith)
            requires
                denom >= weight >= 1 && num == weight * total && (x as int) == (num as int + denom
                    as int - 1) / (denom as int),
        ;
    }
    if x > floor_at as u64 {
        x as u32
    } else {
        floor_at
    }
}

/// `a * b` for counts whose product is known to fit.
fn mul_u32(a: u32, b: u32) -> (r: u32)
    requires
        a * b <= u32::MAX,
    ensures
        r == a * b,
{
    proof {
        assert((a as u64) * (b as u64) == (a * b) as u64) by (nonlinear_arith);
    }
    ((a as u64) * (b as u64)) as u32
}

} // verus!
