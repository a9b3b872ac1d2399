//! Resource plans and the fair planner.
//!
//! A planner divides the cluster's aggregate capacity across a batch of
//! workloads and emits one `ResourcePlan` per workload.  Every plan keeps
//! one core and one gibibyte for the driver, one core per executor, and
//! chooses the executor count; the strategies differ only in how many
//! cores each workload is given.

use vstd::prelude::*;

use crate::cluster::ClusterState;
use crate::numeric::{dec_digits, u32_to_dec};

verus! {

/// The broad character of a workload: bound by computation or by traffic
/// to the storage node.
#[derive(Debug, Clone, Copy, PartialEq, Eq, Structural)]
pub enum WorkloadType {
    /// Mainly uses CPU; bandwidth matters little.
    Compute,
    /// Mainly moves data; uses less CPU and usually runs longer.
    Storage,
}

impl WorkloadType {
    /// The label value naming this workload type.
    pub fn to_string(&self) -> (r: String)
        ensures
            *self == WorkloadType::Compute ==> r@ == "compute"@,
            *self == WorkloadType::Storage ==> r@ == "storage"@,
    {
        match self {
            WorkloadType::Compute => "compute".to_owned(),
            WorkloadType::Storage => "storage".to_owned(),
        }
    }
}

/// The resource shape of one workload: driver and executor sizes plus the
/// executor count.
#[derive(Debug, Clone, Copy, PartialEq, Eq, Structural)]
pub struct ResourcePlan {
    /// CPU cores of the driver pod.
    pub driver_cpu: u32,
    /// Memory of the driver pod, in mebibytes.
    pub driver_mem_mb: u32,
    /// CPU cores of each executor pod.
    pub exec_cpu: u32,
    /// Memory of each executor pod, in mebibytes.
    pub exec_mem_mb: u32,
    /// Number of executor pods.
    pub nexec: u32,
}

impl Default for ResourcePlan {
    /// A modest plan used before any planner has run.
    fn default() -> (r: Self)
        ensures
            r == (ResourcePlan {
                driver_cpu: 1,
                driver_mem_mb: 1024,
                exec_cpu: 2,
                exec_mem_mb: 2048,
                nexec: 4,
            }),
    {
        ResourcePlan { driver_cpu: 1, driver_mem_mb: 1024, exec_cpu: 2, exec_mem_mb: 2048, nexec: 4 }
    }
}

impl ResourcePlan {
    /// The driver core count, as the submit binary takes it.
    pub fn driver_cpu(&self) -> (r: String)
        ensures
            r@ == dec_digits(self.driver_cpu as nat),
    {
        u32_to_dec(self.driver_cpu)
    }

    /// The driver memory, as the submit binary takes it (`"1024m"`).
    pub fn driver_mem_mb(&self) -> (r: String)
        ensures
            r@ == dec_digits(self.driver_mem_mb as nat).push('m'),
    {
        let mut s = u32_to_dec(self.driver_mem_mb);
        s.append("m");
        proof {
            reveal_strlit("m");
            assert(s@ =~= dec_digits(self.driver_mem_mb as nat).push('m'));
        }
        s
    }

    /// The executor core count, as the submit binary takes it.
    pub fn exec_cpu(&self) -> (r: String)
        ensures
            r@ == dec_digits(self.exec_cpu as nat),
    {
        u32_to_dec(self.exec_cpu)
    }

    /// The executor memory, as the submit binary takes it (`"1024m"`).
    pub fn exec_mem_mb(&self) -> (r: String)
        ensures
            r@ == dec_digits(self.exec_mem_mb as nat).push('m'),
    {
        let mut s = u32_to_dec(self.exec_mem_mb);
        s.append("m");
        proof {
            reveal_strlit("m");
            assert(s@ =~= dec_digits(self.exec_mem_mb as nat).push('m'));
        }
        s
    }

    /// The executor count, as the submit binary takes it.
    pub fn nexec(&self) -> (r: String)
        ensures
            r@ == dec_digits(self.nexec as nat),
    {
        u32_to_dec(self.nexec)
    }
}

/// The floor every emitted plan respects: at least one executor, at least
/// one core each for driver and executors, at least a gibibyte of driver
/// memory.
pub open spec fn plan_floor(p: ResourcePlan) -> bool {
    p.nexec >= 1 && p.driver_cpu >= 1 && p.exec_cpu >= 1 && p.driver_mem_mb >= 1024
}

/// Sum of the executor counts of a batch of plans.
pub open spec fn sum_nexec(plans: Seq<ResourcePlan>) -> nat
    decreases plans.len(),
{
    if plans.len() == 0 {
        0
    } else {
        sum_nexec(plans.drop_last()) + plans.last().nexec as nat
    }
}

/// Sum of a sequence of naturals.
pub open spec fn sum_nat(s: Seq<nat>) -> nat
    decreases s.len(),
{
    if s.len() == 0 {
        0
    } else {
        sum_nat(s.drop_last()) + s.last()
    }
}

/// A planning strategy: divides the remaining cluster capacity across the
/// given workloads, one plan per workload, and consumes the capacity it
/// hands out from the cluster state.
pub trait Planner {
    /// What the strategy asks of its input.
    spec fn plan_req(state: ClusterState, workload_types: Seq<WorkloadType>, meta: Seq<String>) -> bool;

    /// What the strategy guarantees of its output.
    spec fn plan_ens(
        pre: ClusterState,
        post: ClusterState,
        workload_types: Seq<WorkloadType>,
        meta: Seq<String>,
        plans: Seq<ResourcePlan>,
    ) -> bool;

    /// Emits one plan per workload.
    fn plan(state: &mut ClusterState, workload_types: &[WorkloadType], meta: Vec<String>) -> (plans:
        Vec<ResourcePlan>)
        requires
            Self::plan_req(*old(state), workload_types@, meta@),
        ensures
            Self::plan_ens(*old(state), *final(state), workload_types@, meta@, plans@),
            plans@.len() == workload_types@.len(),
            forall|i: int| 0 <= i < plans@.len() ==> plan_floor(#[trigger] plans@[i]),
    ;
}

/// The cores the fair division hands to each of `w` workloads out of
/// `total`: repeatedly an even share of what remains.
pub open spec fn fair_cores(total: nat, w: nat) -> Seq<nat>
    decreases w,
{
    if w == 0 {
        Seq::empty()
    } else {
        seq![total / w] + fair_cores((total - total / w) as nat, (w - 1) as nat)
    }
}

/// The fair division gives every workload at least two cores and hands out
/// exactly the whole total.
pub proof fn lemma_fair_cores(total: nat, w: nat)
    requires
        total >= 2 * w,
    ensures
        fair_cores(total, w).len() == w,
        forall|i: int| 0 <= i < w ==> 2 <= #[trigger] fair_cores(total, w)[i] <= total,
        sum_nat(fair_cores(total, w)) == if w == 0 {
            0
        } else {
            total
        },
    decreases w,
{
    if w > 0 {
        let share = total / w;
        assert(2 <= share && share <= total && total - share >= 2 * (w - 1)) by (nonlinear_arith)
            requires
                total >= 2 * w && w >= 1 && share == total / w,
        ;
        lemma_fair_cores((total - share) as nat, (w - 1) as nat);
        let rest = fair_cores((total - share) as nat, (w - 1) as nat);
        let whole = fair_cores(total, w);
        assert(whole == seq![share] + rest);
        assert forall|i: int| 0 <= i < w implies 2 <= #[trigger] whole[i] <= total by {
            if i > 0 {
                assert(whole[i] == rest[i - 1]);
            }
        }
        if w == 1 {
            assert(whole =~= seq![share]);
            assert(sum_nat(seq![share]) == sum_nat(seq![share].drop_last()) + share);
            assert(seq![share].drop_last() =~= Seq::<nat>::empty());
            assert(share == total) by (nonlinear_arith)
                requires
                    w == 1 && share == total / w,
            ;
        } else {
            lemma_sum_nat_prepend(share, rest);
        }
    }
}

/// Prepending an element adds it to the sum.
pub proof fn lemma_sum_nat_prepend(x: nat, s: Seq<nat>)
    ensures
        sum_nat(seq![x] + s) == x + sum_nat(s),
    decreases s.len(),
{
    if s.len() == 0 {
        assert((seq![x] + s).drop_last() =~= Seq::<nat>::empty());
        assert((seq![x] + s).last() == x);
        assert(sum_nat(Seq::<nat>::empty()) == 0);
        assert(sum_nat(s) == 0);
    } else {
        assert((seq![x] + s).drop_last() =~= seq![x] + s.drop_last());
        assert((seq![x] + s).last() == s.last());
        lemma_sum_nat_prepend(x, s.drop_last());
    }
}

/// Plans whose executor counts are one below the given core shares sum to
/// the shares minus one driver core per plan.
pub proof fn lemma_sum_nexec_vs_cores(plans: Seq<ResourcePlan>, cores: Seq<nat>)
    requires
        plans.len() == cores.len(),
        forall|i: int| 0 <= i < cores.len() ==> 1 <= #[trigger] cores[i] <= u32::MAX,
        forall|i: int| 0 <= i < plans.len() ==> (#[trigger] plans[i]).nexec == cores[i] - 1,
    ensures
        sum_nexec(plans) + plans.len() == sum_nat(cores),
    decreases plans.len(),
{
    if plans.len() > 0 {
        lemma_sum_nexec_vs_cores(plans.drop_last(), cores.drop_last());
    }
}

/// Planner conservation: a fair-planner run drains the cluster's cores
/// completely, so the executor counts sum to the initial core total minus
/// one driver core per workload.
pub proof fn lemma_fair_planner_conservation(
    pre: ClusterState,
    post: ClusterState,
    workload_types: Seq<WorkloadType>,
    meta: Seq<String>,
    plans: Seq<ResourcePlan>,
)
    requires
        FairPlanner::plan_req(pre, workload_types, meta),
        FairPlanner::plan_ens(pre, post, workload_types, meta, plans),
        workload_types.len() > 0,
    ensures
        sum_nexec(plans) + workload_types.len() == pre.total_core,
        post.total_core == 0,
{
    let w = workload_types.len();
    let cores = fair_cores(pre.total_core as nat, w);
    lemma_fair_cores(pre.total_core as nat, w);
    assert forall|i: int| 0 <= i < plans.len() implies (#[trigger] plans[i]).nexec == cores[i]
        - 1 by {
        assert(plans[i] == (ResourcePlan {
            driver_cpu: 1,
            driver_mem_mb: 1024,
            exec_cpu: 1,
            exec_mem_mb: 1024,
            nexec: (cores[i] - 1) as u32,
        }));
    }
    lemma_sum_nexec_vs_cores(plans, cores);
}

/// The planner that treats every workload alike: each gets an even share
/// of what is still unassigned when its turn comes.
pub struct FairPlanner;

/// What the fair planner leaves behind: one plan per workload whose
/// executor count is that workload's fair core share minus the driver
/// core, and a cluster state drained to zero.
pub open spec fn fair_plan_ens(
    pre: ClusterState,
    post: ClusterState,
    workload_types: Seq<WorkloadType>,
    plans: Seq<ResourcePlan>,
) -> bool {
    let w = workload_types.len();
    let cores = fair_cores(pre.total_core as nat, w);
    let mems = fair_cores(pre.total_mem_mb as nat, w);
    &&& plans.len() == w
    &&& forall|i: int|
        0 <= i < w ==> #[trigger] plans[i] == (ResourcePlan {
            driver_cpu: 1,
            driver_mem_mb: 1024,
            exec_cpu: 1,
            exec_mem_mb: 1024,
            nexec: (cores[i] - 1) as u32,
        })
    &&& post.nodes == pre.nodes
    &&& post.total_core as nat == pre.total_core as nat - sum_nat(cores)
    &&& post.total_mem_mb as nat == pre.total_mem_mb as nat - sum_nat(mems)
}

impl Planner for FairPlanner {
    open spec fn plan_req(
        state: ClusterState,
        workload_types: Seq<WorkloadType>,
        meta: Seq<String>,
    ) -> bool {
        workload_types.len() <= u32::MAX && state.total_core >= 2 * workload_types.len()
            && state.total_mem_mb >= 2 * workload_types.len()
    }

    open spec fn plan_ens(
        pre: ClusterState,
        post: ClusterState,
        workload_types: Seq<WorkloadType>,
        meta: Seq<String>,
        plans: Seq<ResourcePlan>,
    ) -> bool {
        fair_plan_ens(pre, post, workload_types, plans)
    }

    fn plan(state: &mut ClusterState, workload_types: &[WorkloadType], meta: Vec<String>) -> (plans:
        Vec<ResourcePlan>) {
        let ghost pre = *state;
        let ghost w = workload_types@.len();
        let ghost cores_full = fair_cores(pre.total_core as nat, w);
        let ghost mems_full = fair_cores(pre.total_mem_mb as nat, w);
        proof {
            lemma_fair_cores(pre.total_core as nat, w);
            lemma_fair_cores(pre.total_mem_mb as nat, w);
        }

        let mut n_workload: u32 = workload_types.len() as u32;
        let mut plans: Vec<ResourcePlan> = Vec::new();

        while n_workload > 0
            invariant
                n_workload <= w <= u32::MAX,
                plans@.len() == w - n_workload,
                state.nodes == pre.nodes,
                state.total_core >= 2 * n_workload,
                state.total_mem_mb >= 2 * n_workload,
                fair_cores(state.total_core as nat, n_workload as nat) =~= cores_full.skip(
                    plans@.len() as int,
                ),
                fair_cores(state.total_mem_mb as nat, n_workload as nat) =~= mems_full.skip(
                    plans@.len() as int,
                ),
                state.total_core as nat == pre.total_core as nat - sum_nat(
                    cores_full.take(plans@.len() as int),
                ),
                state.total_mem_mb as nat == pre.total_mem_mb as nat - sum_nat(
                    mems_full.take(plans@.len() as int),
                ),
                forall|i: int|
                    0 <= i < plans@.len() ==> #[trigger] plans@[i] == (ResourcePlan {
                        driver_cpu: 1,
                        driver_mem_mb: 1024,
                        exec_cpu: 1,
                        exec_mem_mb: 1024,
                        nexec: (cores_full[i] - 1) as u32,
                    }),
                cores_full == fair_cores(pre.total_core as nat, w),
                mems_full == fair_cores(pre.total_mem_mb as nat, w),
                forall|i: int| 0 <= i < w ==> 2 <= #[trigger] cores_full[i],
                cores_full.len() == w && mems_full.len() == w,
            decreases n_workload,
        {
            let ghost done = plans@.len() as int;
            let core = state.total_core / n_workload;
            let mem_mb = state.total_mem_mb / n_workload;
            proof {
                assert(cores_full.skip(done)[0] == core as nat);
                assert(cores_full[done] == core as nat);
                assert(mems_full.skip(done)[0] == mem_mb as nat);
                assert(mems_full[done] == mem_mb as nat);
                assert(2 <= core) by (nonlinear_arith)
                    requires
                        state.total_core >= 2 * n_workload && n_workload >= 1 && core
                            == state.total_core / n_workload,
                ;
                assert(core <= state.total_core && mem_mb <= state.total_mem_mb) by (
                nonlinear_arith)
                    requires
                        n_workload >= 1 && core == state.total_core / n_workload && mem_mb
                            == state.total_mem_mb / n_workload,
                ;
                assert(state.total_core - core >= 2 * (n_workload - 1) && state.total_mem_mb
                    - mem_mb >= 2 * (n_workload - 1)) by (nonlinear_arith)
                    requires
                        state.total_core >= 2 * n_workload && n_workload >= 1 && core
                            == state.total_core / n_workload && mem_mb == state.total_mem_mb
                            / n_workload && state.total_mem_mb >= 2 * n_workload,
                ;
            }
            n_workload = n_workload - 1;

            let plan = ResourcePlan {
                driver_cpu: 1,
                driver_mem_mb: 1024,
                exec_cpu: 1,
                exec_mem_mb: 1024,
                nexec: core - 1,
            };

            state.total_core = state.total_core - core;
            state.total_mem_mb = state.total_mem_mb - mem_mb;

            plans.push(plan);

            proof {
                assert(cores_full.skip(done).drop_first() =~= cores_full.skip(done + 1));
                assert(mems_full.skip(done).drop_first() =~= mems_full.skip(done + 1));
                assert(fair_cores(state.total_core as nat, n_workload as nat) =~= cores_full.skip(
                    done + 1,
                ));
                assert(fair_cores(state.total_mem_mb as nat, n_workload as nat) =~= mems_full.skip(
                    done + 1,
                ));
                assert(cores_full.take(done + 1).drop_last() =~= cores_full.take(done));
                assert(mems_full.take(done + 1).drop_last() =~= mems_full.take(done));
            }
        }
        proof {
            assert(cores_full.take(w as int) =~= cores_full);
            assert(mems_full.take(w as int) =~= mems_full);
        }
        plans
    }
}

} // verus!
