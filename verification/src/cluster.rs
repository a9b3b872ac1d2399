//! The cluster snapshot: per-node allocatable resources and the aggregate
//! totals the planner consumes.
//!
//! The caller lists the nodes and hands in each node's name together with
//! its allocatable CPU and memory quantity strings; everything from there
//! on is computed here.  The reserved overhead of the cluster (three cores
//! plus one per node beyond the second, and five gibibytes of memory per
//! node) is subtracted from the totals up front.

use vstd::prelude::*;

use crate::numeric::dec_val;
use crate::quantity::{
    kib_digits, kib_factor, kibytes_of, kibytes_valid, millicore_digits, millicores_of,
    millicores_valid, quantity_to_kibytes, quantity_to_millicores,
};

verus! {

/// One node's allocatable resources, as reported by the orchestrator.
pub struct NodeQuantity {
    /// The node's name.
    pub name: String,
    /// The allocatable CPU, as a quantity string.
    pub cpu: String,
    /// The allocatable memory, as a quantity string.
    pub memory: String,
}

/// One node's allocatable resources, converted to base units.
pub struct NodeState {
    /// The node's name.
    pub name: String,
    /// Allocatable CPU in millicores.
    pub millicores: u64,
    /// Allocatable memory in kibibytes.
    pub mem_kib: u64,
}

/// The aggregate cluster capacity the planner draws from.  The totals are
/// net of reserved overhead and are decremented as the planner consumes
/// capacity.
pub struct ClusterState {
    /// Per-node allocatable resources, in snapshot order.
    pub nodes: Vec<NodeState>,
    /// Remaining whole CPU cores.
    pub total_core: u32,
    /// Remaining memory in mebibytes.
    pub total_mem_mb: u32,
}

/// Why a snapshot could not be aggregated.
#[derive(Debug, Clone, Copy, PartialEq, Eq, Structural)]
pub enum SnapshotError {
    /// Some node reported a malformed CPU or memory quantity.
    BadQuantity,
    /// The summed capacity does not fit the planner's counters.
    CapacityTooLarge,
    /// The reserved overhead exceeds the cluster's capacity.
    ReservedExceedsCapacity,
}

/// CPU cores reserved for system use on a cluster of `nr_node` nodes:
/// three, plus one for each node beyond the second.
pub open spec fn spec_reserved_core(nr_node: nat) -> nat {
    if nr_node <= 2 {
        3
    } else {
        (3 + (nr_node - 2)) as nat
    }
}

/// Memory reserved for system use, in mebibytes: five gibibytes per node.
pub open spec fn spec_reserved_mem(nr_node: nat) -> nat {
    5 * 1024 * nr_node
}

/// CPU cores reserved for system use on a cluster of `nr_node` nodes.
pub fn reserved_core(nr_node: u32) -> (r: u32)
    requires
        nr_node < u32::MAX,
    ensures
        r == spec_reserved_core(nr_node as nat),
{
    if nr_node <= 2 {
        3
    } else {
        3 + (nr_node - 2)
    }
}

/// Memory reserved for system use, in mebibytes.
pub fn reserved_mem(nr_node: u32) -> (r: u32)
    requires
        5 * 1024 * nr_node <= u32::MAX,
    ensures
        r == spec_reserved_mem(nr_node as nat),
{
    5 * 1024 * nr_node
}

/// True when every node of the snapshot reports well-formed quantities
/// whose converted values fit `u64`.
pub open spec fn snapshot_ok(q: Seq<NodeQuantity>) -> bool {
    forall|i: int|
        0 <= i < q.len() ==> millicores_valid(#[trigger] q[i].cpu@) && kibytes_valid(q[i].memory@)
            && millicores_of(q[i].cpu@) <= u64::MAX && kibytes_of(q[i].memory@) <= u64::MAX
}

/// Whole cores a node contributes to the cluster total.
pub open spec fn spec_node_cores(n: NodeQuantity) -> nat {
    millicores_of(n.cpu@) / 1000
}

/// Mebibytes a node contributes to the cluster total.
pub open spec fn spec_node_mem_mb(n: NodeQuantity) -> nat {
    kibytes_of(n.memory@) / 1024
}

/// Gross core total of a snapshot, before reserved overhead.
pub open spec fn spec_gross_cores(q: Seq<NodeQuantity>) -> nat
    decreases q.len(),
{
    if q.len() == 0 {
        0
    } else {
        spec_gross_cores(q.drop_last()) + spec_node_cores(q.last())
    }
}

/// Gross memory total of a snapshot in mebibytes, before reserved overhead.
pub open spec fn spec_gross_mem_mb(q: Seq<NodeQuantity>) -> nat
    decreases q.len(),
{
    if q.len() == 0 {
        0
    } else {
        spec_gross_mem_mb(q.drop_last()) + spec_node_mem_mb(q.last())
    }
}

/// A prefix of a snapshot never sums to more than the whole.
proof fn lemma_gross_prefix_le(q: Seq<NodeQuantity>, i: int)
    requires
        0 <= i <= q.len(),
    ensures
        spec_gross_cores(q.take(i)) <= spec_gross_cores(q),
        spec_gross_mem_mb(q.take(i)) <= spec_gross_mem_mb(q),
    decreases q.len() - i,
{
    if i < q.len() {
        lemma_gross_prefix_le(q, i + 1);
        assert(q.take(i + 1).drop_last() =~= q.take(i));
        assert(q.take(i + 1).last() == q[i]);
    } else {
        assert(q.take(i) =~= q);
    }
}

/// True when a snapshot's gross totals fit the planner's 32-bit counters.
pub open spec fn snapshot_fits(q: Seq<NodeQuantity>) -> bool {
    spec_gross_cores(q) <= u32::MAX && spec_gross_mem_mb(q) <= u32::MAX
}

/// True when a snapshot's gross totals cover the reserved overhead.
pub open spec fn snapshot_covers_reserve(q: Seq<NodeQuantity>) -> bool {
    spec_gross_cores(q) >= spec_reserved_core(q.len()) && spec_gross_mem_mb(q)
        >= spec_reserved_mem(q.len())
}

/// Builds the aggregate cluster state from a listed snapshot: converts each
/// node's quantities with the quantity parser, sums the totals, and
/// subtracts the reserved overhead.
pub fn build_cluster_state(snapshot: Vec<NodeQuantity>) -> (r: Result<ClusterState, SnapshotError>)
    ensures
        match r {
            Ok(state) => snapshot_ok(snapshot@) && snapshot_fits(snapshot@)
                && snapshot_covers_reserve(snapshot@) && state.nodes.len() == snapshot@.len()
                && (forall|i: int|
                0 <= i < snapshot@.len() ==> (#[trigger] state.nodes@[i]).name@
                    == snapshot@[i].name@ && state.nodes@[i].millicores == millicores_of(
                    snapshot@[i].cpu@,
                ) && state.nodes@[i].mem_kib == kibytes_of(snapshot@[i].memory@)) && state.total_core
                == spec_gross_cores(snapshot@) - spec_reserved_core(snapshot@.len())
                && state.total_mem_mb == spec_gross_mem_mb(snapshot@) - spec_reserved_mem(
                snapshot@.len(),
            ),
            Err(SnapshotError::BadQuantity) => !snapshot_ok(snapshot@),
            Err(SnapshotError::CapacityTooLarge) => snapshot_ok(snapshot@) && !snapshot_fits(
                snapshot@,
            ),
            Err(SnapshotError::ReservedExceedsCapacity) => snapshot_ok(snapshot@) && snapshot_fits(
                snapshot@,
            ) && !snapshot_covers_reserve(snapshot@),
        },
{
    let n = snapshot.len();
    let mut nodes: Vec<NodeState> = Vec::new();
    let mut i: usize = 0;
    while i < n
        invariant
            0 <= i <= n == snapshot@.len(),
            nodes@.len() == i,
            forall|j: int|
                0 <= j < i ==> millicores_valid(#[trigger] snapshot@[j].cpu@) && kibytes_valid(
                    snapshot@[j].memory@,
                ) && millicores_of(snapshot@[j].cpu@) <= u64::MAX && kibytes_of(snapshot@[j].memory@)
                    <= u64::MAX,
            forall|j: int|
                0 <= j < i ==> (#[trigger] nodes@[j]).name@ == snapshot@[j].name@
                    && nodes@[j].millicores == millicores_of(snapshot@[j].cpu@)
                    && nodes@[j].mem_kib == kibytes_of(snapshot@[j].memory@),
        decreases n - i,
    {
        let mc = match quantity_to_millicores(snapshot[i].cpu.as_str()) {
            Ok(v) => v,
            Err(_) => {
                proof {
                    let s = snapshot@[i as int].cpu@;
                    if millicores_valid(s) {
                        assert(dec_val(millicore_digits(s)) * 1000 >= dec_val(millicore_digits(s)))
                            by (nonlinear_arith);
                    }
                }
                return Err(SnapshotError::BadQuantity);
            },
        };
        let kib = match quantity_to_kibytes(snapshot[i].memory.as_str()) {
            Ok(v) => v,
            Err(_) => {
                proof {
                    let s = snapshot@[i as int].memory@;
                    if kibytes_valid(s) {
                        assert(dec_val(kib_digits(s)) * kib_factor(s) >= dec_val(kib_digits(s)))
                            by (nonlinear_arith)
                            requires
                                kib_factor(s) >= 1,
                        ;
                    }
                }
                return Err(SnapshotError::BadQuantity);
            },
        };
        let name = snapshot[i].name.clone();
        nodes.push(NodeState { name, millicores: mc, mem_kib: kib });
        i = i + 1;
    }

    let mut core_sum: u64 = 0;
    let mut mem_sum: u64 = 0;
    let mut i: usize = 0;
    while i < n
        invariant
            0 <= i <= n == snapshot@.len(),
            snapshot_ok(snapshot@),
            core_sum == spec_gross_cores(snapshot@.take(i as int)),
            mem_sum == spec_gross_mem_mb(snapshot@.take(i as int)),
            core_sum <= u32::MAX,
            mem_sum <= u32::MAX,
            nodes@.len() == n,
            forall|j: int|
                0 <= j < n ==> (#[trigger] nodes@[j]).millicores == millicores_of(snapshot@[j].cpu@)
                    && nodes@[j].mem_kib == kibytes_of(snapshot@[j].memory@),
        decreases n - i,
    {
        proof {
            assert(snapshot@.take(i + 1).drop_last() =~= snapshot@.take(i as int));
            assert(snapshot@.take(i + 1).last() == snapshot@[i as int]);
        }
        core_sum = core_sum + nodes[i].millicores / 1000;
        mem_sum = mem_sum + nodes[i].mem_kib / 1024;
        if core_sum > u32::MAX as u64 || mem_sum > u32::MAX as u64 {
            proof {
                lemma_gross_prefix_le(snapshot@, i + 1);
            }
            return Err(SnapshotError::CapacityTooLarge);
        }
        i = i + 1;
    }
    proof {
        assert(snapshot@.take(n as int) =~= snapshot@);
    }

    if n > u32::MAX as usize - 1 {
        // More nodes than the memory counter could hold the reserve for:
        // the reserve alone exceeds any representable capacity.
        proof {
            assert(spec_reserved_mem(snapshot@.len()) > u32::MAX) by (nonlinear_arith)
                requires
                    snapshot@.len() >= u32::MAX - 1,
            ;
        }
        return Err(SnapshotError::ReservedExceedsCapacity);
    }
    let rc: u64 = if n <= 2 {
        3
    } else {
        3 + (n as u64 - 2)
    };
    proof {
        assert(5 * 1024 * (n as u64) <= u64::MAX) by (nonlinear_arith)
            requires
                n <= u32::MAX,
        ;
    }
    let rm: u64 = 5 * 1024 * n as u64;
    assert(rc == spec_reserved_core(snapshot@.len()));
    assert(rm == spec_reserved_mem(snapshot@.len()));
    if core_sum < rc || mem_sum < rm {
        return Err(SnapshotError::ReservedExceedsCapacity);
    }
    Ok(
        ClusterState {
            nodes,
            total_core: (core_sum - rc) as u32,
            total_mem_mb: (mem_sum - rm) as u32,
        },
    )
}

} // verus!
