//! The capacity predicate: admit the nodes that still have room for the
//! pod.
//!
//! For every node the remaining capacity is its allocatable amount less
//! the summed requests of the pods already bound to it; a node is
//! admitted exactly when both the CPU and the memory remainder cover the
//! pod's request.

use vstd::prelude::*;

use crate::cluster::NodeState;
use crate::quantity::{
    kibytes_of, kibytes_valid, millicores_of, millicores_valid, quantity_to_kibytes,
    quantity_to_millicores, QuantityError,
};

verus! {

/// A pod's resource request, in base units.
#[derive(Debug, Clone)]
pub struct PodResource {
    /// The pod's name.
    pub name: String,
    /// Requested CPU, in millicores.
    pub millicore: u64,
    /// Requested memory, in kibibytes.
    pub mem_kb: u64,
}

/// The resource requests of one container, as quantity strings; a
/// container may omit either.
pub struct ContainerSpec {
    /// Requested CPU.
    pub cpu: Option<String>,
    /// Requested memory.
    pub memory: Option<String>,
}

/// A pod already placed in the cluster: where it is bound (empty when
/// unbound) and what its containers request.
pub struct BoundPod {
    /// The node the pod is bound to.
    pub node_name: String,
    /// The pod's containers.
    pub containers: Vec<ContainerSpec>,
}

/// Millicores a container requests; nothing when it names no CPU.
pub open spec fn spec_container_mc(c: ContainerSpec) -> nat {
    match c.cpu {
        Some(q) => millicores_of(q@),
        None => 0,
    }
}

/// Kibibytes a container requests; nothing when it names no memory.
pub open spec fn spec_container_kib(c: ContainerSpec) -> nat {
    match c.memory {
        Some(q) => kibytes_of(q@),
        None => 0,
    }
}

/// True when every quantity a container names is well-formed and fits.
pub open spec fn container_wf(c: ContainerSpec) -> bool {
    &&& match c.cpu {
        Some(q) => millicores_valid(q@) && millicores_of(q@) <= u64::MAX,
        None => true,
    }
    &&& match c.memory {
        Some(q) => kibytes_valid(q@) && kibytes_of(q@) <= u64::MAX,
        None => true,
    }
}

/// Millicores the pods bound to `node` request, all containers summed.
pub open spec fn spec_allocated_mc(pods: Seq<BoundPod>, node: Seq<char>) -> nat
    decreases pods.len(),
{
    if pods.len() == 0 {
        0
    } else {
        spec_allocated_mc(pods.drop_last(), node) + if pods.last().node_name@ == node {
            spec_pod_mc(pods.last().containers@)
        } else {
            0
        }
    }
}

/// Kibibytes the pods bound to `node` request, all containers summed.
pub open spec fn spec_allocated_kib(pods: Seq<BoundPod>, node: Seq<char>) -> nat
    decreases pods.len(),
{
    if pods.len() == 0 {
        0
    } else {
        spec_allocated_kib(pods.drop_last(), node) + if pods.last().node_name@ == node {
            spec_pod_kib(pods.last().containers@)
        } else {
            0
        }
    }
}

/// Millicores one pod's containers request together.
pub open spec fn spec_pod_mc(cs: Seq<ContainerSpec>) -> nat
    decreases cs.len(),
{
    if cs.len() == 0 {
        0
    } else {
        spec_pod_mc(cs.drop_last()) + spec_container_mc(cs.last())
    }
}

/// Kibibytes one pod's containers request together.
pub open spec fn spec_pod_kib(cs: Seq<ContainerSpec>) -> nat
    decreases cs.len(),
{
    if cs.len() == 0 {
        0
    } else {
        spec_pod_kib(cs.drop_last()) + spec_container_kib(cs.last())
    }
}

/// True when every bound pod carries only well-formed quantities and the
/// per-node sums stay within range.
pub open spec fn pods_wf(pods: Seq<BoundPod>) -> bool {
    forall|i: int, j: int|
        0 <= i < pods.len() && 0 <= j < pods[i].containers@.len() ==> container_wf(
            #[trigger] pods[i].containers@[j],
        )
}

/// The CPU still free on `node` once its bound pods are accounted for;
/// an overcommitted node has nothing free.
pub open spec fn spec_remaining_mc(node: NodeState, pods: Seq<BoundPod>) -> nat {
    if node.millicores >= spec_allocated_mc(pods, node.name@) {
        (node.millicores - spec_allocated_mc(pods, node.name@)) as nat
    } else {
        0
    }
}

/// The memory still free on `node` once its bound pods are accounted for.
pub open spec fn spec_remaining_kib(node: NodeState, pods: Seq<BoundPod>) -> nat {
    if node.mem_kib >= spec_allocated_kib(pods, node.name@) {
        (node.mem_kib - spec_allocated_kib(pods, node.name@)) as nat
    } else {
        0
    }
}

/// True when `node` still has room for the request.
pub open spec fn admits(node: NodeState, pods: Seq<BoundPod>, req: PodResource) -> bool {
    spec_remaining_mc(node, pods) >= req.millicore && spec_remaining_kib(node, pods) >= req.mem_kb
}

/// The names of the nodes that still have room for the request, in node
/// order.
pub open spec fn spec_admitted(nodes: Seq<NodeState>, pods: Seq<BoundPod>, req: PodResource) -> Seq<
    String,
>
    decreases nodes.len(),
{
    if nodes.len() == 0 {
        Seq::empty()
    } else {
        let rest = spec_admitted(nodes.drop_last(), pods, req);
        if admits(nodes.last(), pods, req) {
            rest.push(nodes.last().name)
        } else {
            rest
        }
    }
}

/// Builds a pod's resource request from its quantity strings.
pub fn pod_resource(name: String, cpu: &str, memory: &str) -> (r: Result<
    PodResource,
    QuantityError,
>)
    ensures
        match r {
            Ok(p) => millicores_valid(cpu@) && kibytes_valid(memory@) && p.name@ == name@
                && p.millicore == millicores_of(cpu@) && p.mem_kb == kibytes_of(memory@),
            Err(_) => !(millicores_valid(cpu@) && millicores_of(cpu@) <= u64::MAX && kibytes_valid(
                memory@,
            ) && kibytes_of(memory@) <= u64::MAX),
        },
{
    let millicore = match quantity_to_millicores(cpu) {
        Ok(v) => v,
        Err(e) => {
            proof {
                crate::quantity::lemma_millicores_ge_digits(cpu@);
            }
            return Err(e);
        },
    };
    let mem_kb = match quantity_to_kibytes(memory) {
        Ok(v) => v,
        Err(e) => {
            proof {
                crate::quantity::lemma_kibytes_ge_digits(memory@);
            }
            return Err(e);
        },
    };
    Ok(PodResource { name, millicore, mem_kb })
}

/// Sums the resource requests of the pods bound to `node_name`.
pub fn get_allocated_resources(pods: &Vec<BoundPod>, node_name: &String) -> (r: Result<
    (u64, u64),
    QuantityError,
>)
    requires
        pods_wf(pods@),
    ensures
        match r {
            Ok(v) => v.0 == spec_allocated_mc(pods@, node_name@) && v.1 == spec_allocated_kib(
                pods@,
                node_name@,
            ) && spec_allocated_mc(pods@, node_name@) <= u64::MAX && spec_allocated_kib(
                pods@,
                node_name@,
            ) <= u64::MAX,
            Err(QuantityError::Overflow) => spec_allocated_mc(pods@, node_name@) > u64::MAX
                || spec_allocated_kib(pods@, node_name@) > u64::MAX,
            Err(_) => false,
        },
{
    let mut mc: u64 = 0;
    let mut kib: u64 = 0;
    let mut i: usize = 0;
    while i < pods.len()
        invariant
            pods_wf(pods@),
            0 <= i <= pods@.len(),
            mc == spec_allocated_mc(pods@.take(i as int), node_name@),
            kib == spec_allocated_kib(pods@.take(i as int), node_name@),
        decreases pods@.len() - i,
    {
        proof {
            assert(pods@.take(i + 1).drop_last() =~= pods@.take(i as int));
            assert(pods@.take(i + 1).last() == pods@[i as int]);
        }
        if pods[i].node_name == *node_name {
            let pod_sums = match pod_request_sums(&pods[i].containers, Ghost(pods@), Ghost(i as int))
            {
                Ok(v) => v,
                Err(e) => {
                    proof {
                        lemma_allocated_ge_pod(pods@, node_name@, i as int);
                    }
                    return Err(e);
                },
            };
            if mc > u64::MAX - pod_sums.0 || kib > u64::MAX - pod_sums.1 {
                proof {
                    lemma_allocated_prefix_le(pods@, node_name@, i + 1);
                }
                return Err(QuantityError::Overflow);
            }
            mc = mc + pod_sums.0;
            kib = kib + pod_sums.1;
        }
        i = i + 1;
    }
    proof {
        assert(pods@.take(pods@.len() as int) =~= pods@);
    }
    Ok((mc, kib))
}

/// Sums one pod's container requests.  The ghost arguments place the
/// containers within a well-formed pod list so their quantities are
/// known to be parseable.
fn pod_request_sums(cs: &Vec<ContainerSpec>, pods: Ghost<Seq<BoundPod>>, at: Ghost<int>) -> (r:
    Result<(u64, u64), QuantityError>)
    requires
        pods_wf(pods@),
        0 <= at@ < pods@.len(),
        cs@ == pods@[at@].containers@,
    ensures
        match r {
            Ok(v) => v.0 == spec_pod_mc(cs@) && v.1 == spec_pod_kib(cs@),
            Err(QuantityError::Overflow) => spec_pod_mc(cs@) > u64::MAX || spec_pod_kib(cs@)
                > u64::MAX,
            Err(_) => false,
        },
{
    let mut mc: u64 = 0;
    let mut kib: u64 = 0;
    let mut j: usize = 0;
    while j < cs.len()
        invariant
            pods_wf(pods@),
            0 <= at@ < pods@.len(),
            cs@ == pods@[at@].containers@,
            0 <= j <= cs@.len(),
            mc == spec_pod_mc(cs@.take(j as int)),
            kib == spec_pod_kib(cs@.take(j as int)),
        decreases cs@.len() - j,
    {
        proof {
            assert(cs@.take(j + 1).drop_last() =~= cs@.take(j as int));
            assert(cs@.take(j + 1).last() == cs@[j as int]);
            assert(container_wf(pods@[at@].containers@[j as int]));
        }
        let c_mc: u64 = match &cs[j].cpu {
            Some(q) => {
                match quantity_to_millicores(q.as_str()) {
                    Ok(v) => v,
                    Err(e) => {
                        proof {
                            crate::quantity::lemma_millicores_ge_digits(q@);
                            assert(false);
                        }
                        return Err(e);
                    },
                }
            },
            None => 0,
        };
        let c_kib: u64 = match &cs[j].memory {
            Some(q) => {
                match quantity_to_kibytes(q.as_str()) {
                    Ok(v) => v,
                    Err(e) => {
                        proof {
                            crate::quantity::lemma_kibytes_ge_digits(q@);
                            assert(false);
                        }
                        return Err(e);
                    },
                }
            },
            None => 0,
        };
        if mc > u64::MAX - c_mc || kib > u64::MAX - c_kib {
            proof {
                lemma_pod_prefix_le(cs@, j + 1);
            }
            return Err(QuantityError::Overflow);
        }
        mc = mc + c_mc;
        kib = kib + c_kib;
        j = j + 1;
    }
    proof {
        assert(cs@.take(cs@.len() as int) =~= cs@);
    }
    Ok((mc, kib))
}

/// A prefix of the bound pods never requests more than all of them.
proof fn lemma_allocated_prefix_le(pods: Seq<BoundPod>, node: Seq<char>, i: int)
    requires
        0 <= i <= pods.len(),
    ensures
        spec_allocated_mc(pods.take(i), node) <= spec_allocated_mc(pods, node),
        spec_allocated_kib(pods.take(i), node) <= spec_allocated_kib(pods, node),
    decreases pods.len() - i,
{
    if i < pods.len() {
        lemma_allocated_prefix_le(pods, node, i + 1);
        assert(pods.take(i + 1).drop_last() =~= pods.take(i));
        assert(pods.take(i + 1).last() == pods[i]);
    } else {
        assert(pods.take(i) =~= pods);
    }
}

/// A prefix of a pod's containers never requests more than all of them.
proof fn lemma_pod_prefix_le(cs: Seq<ContainerSpec>, j: int)
    requires
        0 <= j <= cs.len(),
    ensures
        spec_pod_mc(cs.take(j)) <= spec_pod_mc(cs),
        spec_pod_kib(cs.take(j)) <= spec_pod_kib(cs),
    decreases cs.len() - j,
{
    if j < cs.len() {
        lemma_pod_prefix_le(cs, j + 1);
        assert(cs.take(j + 1).drop_last() =~= cs.take(j));
        assert(cs.take(j + 1).last() == cs[j]);
    } else {
        assert(cs.take(j) =~= cs);
    }
}

/// The remaining capacity of `node`: allocatable less allocated, floored
/// at nothing.
pub fn get_remaining_resources(node: &NodeState, pods: &Vec<BoundPod>) -> (r: Result<
    (u64, u64),
    QuantityError,
>)
    requires
        pods_wf(pods@),
    ensures
        match r {
            Ok(v) => v.0 == spec_remaining_mc(*node, pods@) && v.1 == spec_remaining_kib(
                *node,
                pods@,
            ),
            Err(QuantityError::Overflow) => spec_allocated_mc(pods@, node.name@) > u64::MAX
                || spec_allocated_kib(pods@, node.name@) > u64::MAX,
            Err(_) => false,
        },
{
    let allocated = match get_allocated_resources(pods, &node.name) {
        Ok(v) => v,
        Err(e) => {
            return Err(e);
        },
    };
    let rem_mc: u64 = if node.millicores >= allocated.0 {
        node.millicores - allocated.0
    } else {
        0
    };
    let rem_kib: u64 = if node.mem_kib >= allocated.1 {
        node.mem_kib - allocated.1
    } else {
        0
    };
    Ok((rem_mc, rem_kib))
}

/// Admits every node whose remaining CPU and memory cover the request.
/// This is the capacity filter: a returned node can hold the pod on top
/// of everything already bound to it.
pub fn judge(nodes: &Vec<NodeState>, pods: &Vec<BoundPod>, req: &PodResource) -> (r: Result<
    Vec<String>,
    QuantityError,
>)
    requires
        pods_wf(pods@),
    ensures
        match r {
            Ok(names) => names@ == spec_admitted(nodes@, pods@, *req),
            Err(QuantityError::Overflow) => exists|i: int|
                0 <= i < nodes@.len() && (spec_allocated_mc(pods@, (#[trigger] nodes@[i]).name@)
                    > u64::MAX || spec_allocated_kib(pods@, nodes@[i].name@) > u64::MAX),
            Err(_) => false,
        },
{
    let mut names: Vec<String> = Vec::new();
    let mut i: usize = 0;
    while i < nodes.len()
        invariant
            pods_wf(pods@),
            0 <= i <= nodes@.len(),
            names@ == spec_admitted(nodes@.take(i as int), pods@, *req),
        decreases nodes@.len() - i,
    {
        proof {
            assert(nodes@.take(i + 1).drop_last() =~= nodes@.take(i as int));
            assert(nodes@.take(i + 1).last() == nodes@[i as int]);
        }
        let remaining = match get_remaining_resources(&nodes[i], pods) {
            Ok(v) => v,
            Err(e) => {
                return Err(e);
            },
        };
        proof {
            lemma_admitted_push(nodes@, pods@, *req, i as int);
        }
        if remaining.0 >= req.millicore && remaining.1 >= req.mem_kb {
            names.push(nodes[i].name.clone());
            proof {
                assert(admits(nodes@[i as int], pods@, *req));
                assert(names@ =~= spec_admitted(nodes@.take(i + 1), pods@, *req));
            }
        } else {
            proof {
                assert(!admits(nodes@[i as int], pods@, *req));
                assert(names@ =~= spec_admitted(nodes@.take(i + 1), pods@, *req));
            }
        }
        i = i + 1;
    }
    proof {
        assert(nodes@.take(nodes@.len() as int) =~= nodes@);
    }
    Ok(names)
}

/// Predicate soundness: every admitted node has, beyond what its bound
/// pods already request, at least the pod's request in both dimensions.
pub proof fn lemma_predicate_sound(
    nodes: Seq<NodeState>,
    pods: Seq<BoundPod>,
    req: PodResource,
    j: int,
)
    requires
        0 <= j < spec_admitted(nodes, pods, req).len(),
    ensures
        exists|i: int|
            0 <= i < nodes.len() && (#[trigger] nodes[i]).name == spec_admitted(nodes, pods, req)[j]
                && spec_remaining_mc(nodes[i], pods) >= req.millicore && spec_remaining_kib(
                nodes[i],
                pods,
            ) >= req.mem_kb,
    decreases nodes.len(),
{
    let kept = spec_admitted(nodes, pods, req);
    if nodes.len() > 0 {
        let prefix = nodes.drop_last();
        if admits(nodes.last(), pods, req) && j == kept.len() - 1 {
            let w = nodes.len() - 1;
            assert(nodes[w].name == kept[j]);
        } else {
            lemma_predicate_sound(prefix, pods, req, j);
            let w = choose|i: int|
                0 <= i < prefix.len() && (#[trigger] prefix[i]).name == spec_admitted(
                    prefix,
                    pods,
                    req,
                )[j] && spec_remaining_mc(prefix[i], pods) >= req.millicore && spec_remaining_kib(
                    prefix[i],
                    pods,
                ) >= req.mem_kb;
            assert(spec_admitted(prefix, pods, req)[j] == kept[j]);
            assert(nodes[w] == prefix[w]);
        }
    }
}

/// One step of the admitted list: extending the node prefix appends the
/// new node's name exactly when it admits the request.
pub proof fn lemma_admitted_push(nodes: Seq<NodeState>, pods: Seq<BoundPod>, req: PodResource, i: int)
    requires
        0 <= i < nodes.len(),
    ensures
        spec_admitted(nodes.take(i + 1), pods, req) == if admits(nodes[i], pods, req) {
            spec_admitted(nodes.take(i), pods, req).push(nodes[i].name)
        } else {
            spec_admitted(nodes.take(i), pods, req)
        },
{
    assert(nodes.take(i + 1).drop_last() =~= nodes.take(i));
    assert(nodes.take(i + 1).last() == nodes[i]);
}

/// What one pod bound to a node requests is part of what the node's
/// bound pods request together.
proof fn lemma_allocated_ge_pod(pods: Seq<BoundPod>, node: Seq<char>, i: int)
    requires
        0 <= i < pods.len(),
        pods[i].node_name@ == node,
    ensures
        spec_allocated_mc(pods, node) >= spec_pod_mc(pods[i].containers@),
        spec_allocated_kib(pods, node) >= spec_pod_kib(pods[i].containers@),
    decreases pods.len(),
{
    if i < pods.len() - 1 {
        lemma_allocated_ge_pod(pods.drop_last(), node, i);
    }
}

} // verus!
