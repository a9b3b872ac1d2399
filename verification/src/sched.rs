//! The scheduler's decision core: filter, score, choose, record.
//!
//! One pod at a time: the capacity predicate filters the nodes, the
//! placement policy scores the survivors, the best score wins, and the
//! placement is appended to the group's history together with a
//! `Scheduled` event for the orchestrator.  The caller performs the
//! watching, binding and posting around these decisions and hands in
//! plain snapshots.

use vstd::prelude::*;

use crate::cluster::NodeState;
use crate::predicate::{judge, pod_resource, pods_wf, spec_admitted, BoundPod, PodResource};
use crate::priority::{
    index_in, priority_ens, spec_chosen_idx, spec_cursor, WorkloadNetworkAwarePriority,
};
use crate::quantity::{kibytes_of, kibytes_valid, millicores_of, millicores_valid, QuantityError};

verus! {

/// An unscheduled pod, as the decision core sees it: names, labels, and
/// the resource request of its leading container.
pub struct PodInfo {
    /// The pod's name.
    pub name: String,
    /// The pod's namespace.
    pub namespace: String,
    /// The pod's labels.
    pub labels: Vec<(String, String)>,
    /// The CPU request of the pod's leading container.
    pub cpu_request: String,
    /// The memory request of the pod's leading container.
    pub mem_request: String,
}

/// The first value a label list carries under `key`.
pub open spec fn spec_label(labels: Seq<(String, String)>, k: int, key: Seq<char>) -> Option<String>
    decreases labels.len() - k,
{
    if k < 0 || k >= labels.len() {
        None
    } else if labels[k].0@ == key {
        Some(labels[k].1)
    } else {
        spec_label(labels, k + 1, key)
    }
}

/// Looks a label up by key.
pub fn get_label(labels: &Vec<(String, String)>, key: &str) -> (r: Option<String>)
    ensures
        r == spec_label(labels@, 0, key@),
{
    get_label_from(labels, key, 0)
}

/// Looks a label up by key, scanning from position `k`.
fn get_label_from(labels: &Vec<(String, String)>, key: &str, k: usize) -> (r: Option<String>)
    requires
        k <= labels@.len(),
    ensures
        r == spec_label(labels@, k as int, key@),
    decreases labels@.len() - k,
{
    if k >= labels.len() {
        return None;
    }
    let owned: String = key.to_owned();
    if labels[k].0 == owned {
        Some(labels[k].1.clone())
    } else {
        get_label_from(labels, key, k + 1)
    }
}

/// The group identifier a pod carries.
pub fn get_pod_uuid(pod: &PodInfo) -> (r: Option<String>)
    ensures
        r == spec_label(pod.labels@, 0, "spark-uuid"@),
{
    get_label(&pod.labels, "spark-uuid")
}

/// The workload type a pod carries.
pub fn get_pod_workload_type(pod: &PodInfo) -> (r: Option<String>)
    ensures
        r == spec_label(pod.labels@, 0, "spark-workload-type"@),
{
    get_label(&pod.labels, "spark-workload-type")
}

/// True when a pod carries both labels the policy reads.
pub open spec fn pod_labeled(pod: PodInfo) -> bool {
    spec_label(pod.labels@, 0, "spark-uuid"@) is Some && spec_label(
        pod.labels@,
        0,
        "spark-workload-type"@,
    ) is Some
}

/// Why a pod could not be placed.
#[derive(Debug, Clone, Copy, PartialEq, Eq, Structural)]
pub enum SchedError {
    /// No node has room for the pod.
    NoFitForPod,
    /// A resource quantity could not be read.
    BadQuantity(QuantityError),
}

/// The nodes a group's pods were placed on, oldest first: the group's
/// entries of the placement log.
pub open spec fn spec_hist(log: Seq<(String, String)>, g: Seq<char>) -> Seq<Seq<char>>
    decreases log.len(),
{
    if log.len() == 0 {
        Seq::empty()
    } else {
        spec_hist(log.drop_last(), g) + if log.last().0@ == g {
            seq![log.last().1@]
        } else {
            Seq::empty()
        }
    }
}

/// A `Scheduled` event, ready for the orchestrator: one involved object
/// referencing the placed pod.
pub struct EventRecord {
    /// Always one.
    pub count: u32,
    /// The human-readable placement message.
    pub message: String,
    /// Always `Scheduled`.
    pub reason: String,
    /// Always `Normal`.
    pub type_: String,
    /// The scheduler this event speaks for.
    pub source_component: String,
    /// Always `Pod`.
    pub involved_kind: String,
    /// The placed pod's name.
    pub involved_name: String,
    /// The placed pod's namespace.
    pub involved_namespace: String,
    /// The pod's name with a trailing dash, for the orchestrator to
    /// complete.
    pub generate_name: String,
}

/// The shape every emitted event has (the pod named exactly once as the
/// involved object, reason `Scheduled`, type `Normal`, count one).
pub open spec fn event_shape(
    ev: EventRecord,
    pod_name: Seq<char>,
    pod_ns: Seq<char>,
    scheduler: Seq<char>,
    message: Seq<char>,
) -> bool {
    &&& ev.count == 1
    &&& ev.message@ == message
    &&& ev.reason@ == "Scheduled"@
    &&& ev.type_@ == "Normal"@
    &&& ev.source_component@ == scheduler
    &&& ev.involved_kind@ == "Pod"@
    &&& ev.involved_name@ == pod_name
    &&& ev.involved_namespace@ == pod_ns
    &&& ev.generate_name@ == pod_name.push('-')
}

/// Builds the `Scheduled` event for a placed pod.
pub fn build_event(pod_name: &String, pod_ns: &String, scheduler: &String, message: String) -> (ev:
    EventRecord)
    ensures
        event_shape(ev, pod_name@, pod_ns@, scheduler@, message@),
{
    let mut generate_name = pod_name.clone();
    generate_name.append("-");
    proof {
        reveal_strlit("Scheduled");
        reveal_strlit("Normal");
        reveal_strlit("Pod");
        reveal_strlit("-");
        assert(generate_name@ =~= pod_name@.push('-'));
    }
    EventRecord {
        count: 1,
        message,
        reason: "Scheduled".to_owned(),
        type_: "Normal".to_owned(),
        source_component: scheduler.clone(),
        involved_kind: "Pod".to_owned(),
        involved_name: pod_name.clone(),
        involved_namespace: pod_ns.clone(),
        generate_name,
    }
}

/// The scheduler's own state: the namespace it watches, the node order
/// the policy walks, the per-group round-robin cursors, and the log of
/// placements.
pub struct Scheduler {
    /// The namespace whose pods are scheduled.
    pub namespace: String,
    /// All cluster nodes, ascending by bandwidth to the storage node.
    pub all_nodes_bw_asc: Vec<String>,
    /// Per-group round-robin cursors into the node order.
    pub next_choice: Vec<(String, u32)>,
    /// The placement log: one `(group, node)` entry per placed pod, in
    /// placement order.
    pub sched_hist: Vec<(String, String)>,
}

/// The message announcing one placement.
pub open spec fn placement_message(pod_ns: Seq<char>, pod_name: Seq<char>, node: Seq<char>) -> Seq<
    char,
> {
    "Placed pod ["@ + pod_ns + "/"@ + pod_name + "] on "@ + node + "\n"@
}

impl Scheduler {
    /// A fresh scheduler for the configured namespace over the given
    /// node order: no cursors, no history.
    pub fn new(all_nodes_bw_asc: Vec<String>) -> (s: Scheduler)
        ensures
            s.namespace@ == "spark"@,
            s.all_nodes_bw_asc == all_nodes_bw_asc,
            s.next_choice@ == Seq::<(String, u32)>::empty(),
            s.sched_hist@ == Seq::<(String, String)>::empty(),
    {
        Scheduler {
            namespace: crate::spark_namespace(),
            all_nodes_bw_asc,
            next_choice: Vec::new(),
            sched_hist: Vec::new(),
        }
    }

    /// When the namespace has quiesced (no pods at all), forget the
    /// round-robin cursors so the next batch starts afresh.
    pub fn renew_if_no_pod(&mut self, pod_count: usize)
        ensures
            pod_count == 0 ==> final(self).next_choice@ == Seq::<(String, u32)>::empty(),
            pod_count != 0 ==> final(self).next_choice == old(self).next_choice,
            final(self).namespace == old(self).namespace,
            final(self).all_nodes_bw_asc == old(self).all_nodes_bw_asc,
            final(self).sched_hist == old(self).sched_hist,
    {
        if pod_count == 0 {
            self.next_choice.clear();
        }
    }

    /// The first node that scores strictly more than everything before
    /// it: with the policy's scores, the node scored one hundred.
    pub fn find_best_node(&self, priorities: &Vec<(String, u32)>) -> (r: String)
        ensures
            ({
                let bi = spec_best_from(priorities@, 0, -1, 0);
                if bi == -1 {
                    r@ == Seq::<char>::empty()
                } else {
                    0 <= bi < priorities@.len() && r@ == priorities@[bi].0@
                }
            }),
    {
        let mut best_node: Option<usize> = None;
        let mut max_p: u32 = 0;
        let mut k: usize = 0;
        while k < priorities.len()
            invariant
                0 <= k <= priorities@.len(),
                spec_best_from(
                    priorities@,
                    k as int,
                    match best_node {
                        Some(b) => b as int,
                        None => -1,
                    },
                    max_p,
                ) == spec_best_from(priorities@, 0, -1, 0),
                match best_node {
                    Some(b) => b < k,
                    None => true,
                },
            decreases priorities@.len() - k,
        {
            if priorities[k].1 > max_p {
                max_p = priorities[k].1;
                best_node = Some(k);
            }
            k = k + 1;
        }
        match best_node {
            Some(b) => priorities[b].0.clone(),
            None => String::new(),
        }
    }

    /// Chooses the node for one pod: filters the nodes by remaining
    /// capacity, scores the survivors, and takes the winner, advancing
    /// the group's cursor on the storage path.  Fails when no node fits
    /// or a quantity cannot be read; the history is untouched either
    /// way.
    pub fn evaluate(&mut self, pod: &PodInfo, nodes: &Vec<NodeState>, bound_pods: &Vec<BoundPod>) -> (r:
        Result<String, SchedError>)
        requires
            pods_wf(bound_pods@),
            pod_labeled(*pod),
            0 < old(self).all_nodes_bw_asc@.len() <= u32::MAX,
            forall|i: int|
                0 <= i < nodes@.len() ==> index_in(
                    old(self).all_nodes_bw_asc@,
                    (#[trigger] nodes@[i]).name@,
                ) < old(self).all_nodes_bw_asc@.len(),
        ensures
            final(self).namespace == old(self).namespace,
            final(self).all_nodes_bw_asc == old(self).all_nodes_bw_asc,
            final(self).sched_hist == old(self).sched_hist,
            ({
                let req = PodResource {
                    name: pod.name,
                    millicore: millicores_of(pod.cpu_request@) as u64,
                    mem_kb: kibytes_of(pod.mem_request@) as u64,
                };
                let cand = spec_admitted(nodes@, bound_pods@, req);
                let all = old(self).all_nodes_bw_asc@;
                let g = spec_label(pod.labels@, 0, "spark-uuid"@).unwrap()@;
                let wt = spec_label(pod.labels@, 0, "spark-workload-type"@).unwrap()@;
                let c = spec_cursor(old(self).next_choice@, g) as int;
                let ch = spec_chosen_idx(cand, all, wt, c);
                match r {
                    Ok(node) => {
                        &&& millicores_valid(pod.cpu_request@)
                        &&& kibytes_valid(pod.mem_request@)
                        &&& cand.len() > 0
                        &&& node@ == all[ch]@
                        &&& (wt == "compute"@ ==> final(self).next_choice@ == old(
                            self,
                        ).next_choice@)
                        &&& (wt != "compute"@ ==> spec_cursor(final(self).next_choice@, g) as int
                            == (ch + 1) % (all.len() as int) && (forall|h: Seq<char>|
                            h != g ==> #[trigger] spec_cursor(final(self).next_choice@, h)
                                == spec_cursor(old(self).next_choice@, h)))
                    },
                    Err(SchedError::NoFitForPod) => {
                        &&& millicores_valid(pod.cpu_request@)
                        &&& kibytes_valid(pod.mem_request@)
                        &&& cand.len() == 0
                        &&& final(self).next_choice@ == old(self).next_choice@
                    },
                    Err(SchedError::BadQuantity(_)) => {
                        &&& final(self).next_choice@ == old(self).next_choice@
                        &&& (!(millicores_valid(pod.cpu_request@) && millicores_of(pod.cpu_request@)
                            <= u64::MAX && kibytes_valid(pod.mem_request@) && kibytes_of(
                            pod.mem_request@,
                        ) <= u64::MAX) || exists|i: int|
                            0 <= i < nodes@.len() && (crate::predicate::spec_allocated_mc(
                                bound_pods@,
                                (#[trigger] nodes@[i]).name@,
                            ) > u64::MAX || crate::predicate::spec_allocated_kib(
                                bound_pods@,
                                nodes@[i].name@,
                            ) > u64::MAX))
                    },
                }
            }),
    {
        let req = match pod_resource(pod.name.clone(), pod.cpu_request.as_str(), pod.mem_request.as_str()) {
            Ok(v) => v,
            Err(e) => {
                return Err(SchedError::BadQuantity(e));
            },
        };
        let candidates = match judge(nodes, bound_pods, &req) {
            Ok(v) => v,
            Err(e) => {
                return Err(SchedError::BadQuantity(e));
            },
        };
        proof {
            let spec_req = PodResource {
                name: pod.name,
                millicore: millicores_of(pod.cpu_request@) as u64,
                mem_kb: kibytes_of(pod.mem_request@) as u64,
            };
            lemma_admitted_req_name_irrelevant(nodes@, bound_pods@, req, spec_req);
        }
        if candidates.len() == 0 {
            return Err(SchedError::NoFitForPod);
        }

        let group_id = match get_pod_uuid(pod) {
            Some(g) => g,
            None => {
                proof {
                    assert(false);
                }
                String::new()
            },
        };
        let workload_type = match get_pod_workload_type(pod) {
            Some(w) => w,
            None => {
                proof {
                    assert(false);
                }
                String::new()
            },
        };

        proof {
            let spec_req = PodResource {
                name: pod.name,
                millicore: millicores_of(pod.cpu_request@) as u64,
                mem_kb: kibytes_of(pod.mem_request@) as u64,
            };
            assert(req.millicore == spec_req.millicore && req.mem_kb == spec_req.mem_kb);
            assert(spec_admitted(nodes@, bound_pods@, req) == spec_admitted(
                nodes@,
                bound_pods@,
                spec_req,
            )) by {
                lemma_admitted_req_name_irrelevant(nodes@, bound_pods@, req, spec_req);
            }
            assert forall|j: int| 0 <= j < candidates@.len() implies index_in(
                self.all_nodes_bw_asc@,
                (#[trigger] candidates@[j])@,
            ) < self.all_nodes_bw_asc@.len() by {
                crate::predicate::lemma_predicate_sound(nodes@, bound_pods@, req, j);
                let w = choose|i: int|
                    0 <= i < nodes@.len() && (#[trigger] nodes@[i]).name == spec_admitted(
                        nodes@,
                        bound_pods@,
                        req,
                    )[j] && crate::predicate::spec_remaining_mc(nodes@[i], bound_pods@)
                        >= req.millicore && crate::predicate::spec_remaining_kib(
                        nodes@[i],
                        bound_pods@,
                    ) >= req.mem_kb;
                assert(index_in(self.all_nodes_bw_asc@, nodes@[w].name@)
                    < self.all_nodes_bw_asc@.len());
            }
        }

        let scores = WorkloadNetworkAwarePriority::priority(
            &candidates,
            &group_id,
            &workload_type,
            &mut self.next_choice,
            &self.all_nodes_bw_asc,
        );
        let best = self.find_best_node(&scores);
        proof {
            crate::priority::lemma_chosen_in_range(
                candidates@,
                self.all_nodes_bw_asc@,
                workload_type@,
                spec_cursor(old(self).next_choice@, group_id@) as int,
            );
            crate::priority::lemma_chosen_is_candidate(
                candidates@,
                self.all_nodes_bw_asc@,
                workload_type@,
                spec_cursor(old(self).next_choice@, group_id@) as int,
            );
            lemma_best_is_chosen(
                scores@,
                candidates@,
                self.all_nodes_bw_asc@,
                workload_type@,
                group_id@,
                old(self).next_choice@,
                self.next_choice@,
            );
        }
        Ok(best)
    }

    /// Records a successful placement: appends the node to the pod's
    /// group history and returns the `Scheduled` event announcing it.
    pub fn record_placement(&mut self, pod: &PodInfo, node_name: &String) -> (ev: EventRecord)
        requires
            pod_labeled(*pod),
        ensures
            final(self).namespace == old(self).namespace,
            final(self).all_nodes_bw_asc == old(self).all_nodes_bw_asc,
            final(self).next_choice == old(self).next_choice,
            ({
                let g = spec_label(pod.labels@, 0, "spark-uuid"@).unwrap()@;
                &&& spec_hist(final(self).sched_hist@, g) == spec_hist(
                    old(self).sched_hist@,
                    g,
                ).push(node_name@)
                &&& forall|h: Seq<char>|
                    h != g ==> #[trigger] spec_hist(final(self).sched_hist@, h) == spec_hist(
                        old(self).sched_hist@,
                        h,
                    )
            }),
            event_shape(
                ev,
                pod.name@,
                pod.namespace@,
                "spark-sched"@,
                placement_message(pod.namespace@, pod.name@, node_name@),
            ),
    {
        let group_id = match get_pod_uuid(pod) {
            Some(g) => g,
            None => {
                proof {
                    assert(false);
                }
                String::new()
            },
        };
        let ghost pre = self.sched_hist@;
        self.sched_hist.push((group_id, node_name.clone()));
        proof {
            let g = spec_label(pod.labels@, 0, "spark-uuid"@).unwrap()@;
            assert(self.sched_hist@.drop_last() =~= pre);
            assert forall|h: Seq<char>|
                h != g implies #[trigger] spec_hist(self.sched_hist@, h) == spec_hist(pre, h) by {
                assert(spec_hist(self.sched_hist@, h) == spec_hist(pre, h) + Seq::<
                    Seq<char>,
                >::empty());
                assert(spec_hist(pre, h) + Seq::<Seq<char>>::empty() =~= spec_hist(pre, h));
            }
            assert(spec_hist(self.sched_hist@, g) =~= spec_hist(pre, g).push(node_name@));
        }

        let mut message: String = "Placed pod [".to_owned();
        message.append(pod.namespace.as_str());
        message.append("/");
        message.append(pod.name.as_str());
        message.append("] on ");
        message.append(node_name.as_str());
        message.append("\n");
        proof {
            assert(message@ =~= placement_message(pod.namespace@, pod.name@, node_name@));
        }

        let scheduler = crate::scheduler_name();
        build_event(&pod.name, &pod.namespace, &scheduler, message)
    }

    /// The placement history of one group, oldest first.
    pub fn group_history(&self, group: &String) -> (r: Vec<String>)
        ensures
            r@.len() == spec_hist(self.sched_hist@, group@).len(),
            forall|j: int|
                0 <= j < r@.len() ==> (#[trigger] r@[j])@ == spec_hist(self.sched_hist@, group@)[j],
    {
        let mut out: Vec<String> = Vec::new();
        let mut i: usize = 0;
        while i < self.sched_hist.len()
            invariant
                0 <= i <= self.sched_hist@.len(),
                out@.len() == spec_hist(self.sched_hist@.take(i as int), group@).len(),
                forall|j: int|
                    0 <= j < out@.len() ==> (#[trigger] out@[j])@ == spec_hist(
                        self.sched_hist@.take(i as int),
                        group@,
                    )[j],
            decreases self.sched_hist@.len() - i,
        {
            proof {
                assert(self.sched_hist@.take(i + 1).drop_last() =~= self.sched_hist@.take(i as int));
                assert(self.sched_hist@.take(i + 1).last() == self.sched_hist@[i as int]);
            }
            if self.sched_hist[i].0 == *group {
                out.push(self.sched_hist[i].1.clone());
                proof {
                    assert(spec_hist(self.sched_hist@.take(i + 1), group@) =~= spec_hist(
                        self.sched_hist@.take(i as int),
                        group@,
                    ).push(self.sched_hist@[i as int].1@));
                }
            } else {
                proof {
                    assert(spec_hist(self.sched_hist@.take(i + 1), group@) =~= spec_hist(
                        self.sched_hist@.take(i as int),
                        group@,
                    ));
                }
            }
            i = i + 1;
        }
        proof {
            assert(self.sched_hist@.take(self.sched_hist@.len() as int) =~= self.sched_hist@);
        }
        out
    }
}

/// The running argmax of the score scan from position `k`: the index of
/// the first entry scoring strictly above everything before it.
pub open spec fn spec_best_from(m: Seq<(String, u32)>, k: int, best: int, max_p: u32) -> int
    decreases m.len() - k,
{
    if k < 0 || k >= m.len() {
        best
    } else if m[k].1 > max_p {
        spec_best_from(m, k + 1, k, m[k].1)
    } else {
        spec_best_from(m, k + 1, best, max_p)
    }
}

/// The admitted set does not depend on the request's name, only on its
/// amounts.
proof fn lemma_admitted_req_name_irrelevant(
    nodes: Seq<NodeState>,
    pods: Seq<BoundPod>,
    a: PodResource,
    b: PodResource,
)
    requires
        a.millicore == b.millicore,
        a.mem_kb == b.mem_kb,
    ensures
        spec_admitted(nodes, pods, a) == spec_admitted(nodes, pods, b),
    decreases nodes.len(),
{
    if nodes.len() > 0 {
        lemma_admitted_req_name_irrelevant(nodes.drop_last(), pods, a, b);
    }
}

/// With the policy's scores — no score above one hundred, and one
/// hundred exactly on the chosen node — the scan lands on an entry that
/// names the chosen node.
proof fn lemma_best_is_chosen(
    scores: Seq<(String, u32)>,
    cands: Seq<String>,
    all: Seq<String>,
    wt: Seq<char>,
    g: Seq<char>,
    pre_choice: Seq<(String, u32)>,
    post_choice: Seq<(String, u32)>,
)
    requires
        priority_ens(cands, all, wt, g, pre_choice, post_choice, scores),
        cands.len() > 0,
        0 <= spec_chosen_idx(cands, all, wt, spec_cursor(pre_choice, g) as int) < all.len(),
        exists|j: int|
            0 <= j < cands.len() && (#[trigger] cands[j])@ == all[spec_chosen_idx(
                cands,
                all,
                wt,
                spec_cursor(pre_choice, g) as int,
            )]@,
    ensures
        ({
            let bi = spec_best_from(scores, 0, -1, 0);
            0 <= bi < scores.len() && scores[bi].0@ == all[spec_chosen_idx(
                cands,
                all,
                wt,
                spec_cursor(pre_choice, g) as int,
            )]@
        }),
{
    let ch = spec_chosen_idx(cands, all, wt, spec_cursor(pre_choice, g) as int);
    let w = choose|j: int| 0 <= j < cands.len() && (#[trigger] cands[j])@ == all[ch]@;
    assert(scores[w].1 == 100);
    lemma_best_lands_on_100(scores, all[ch]@, 0, -1, 0);
}

/// A score scan over entries that score one hundred exactly on one name
/// (and nothing anywhere else) ends on an entry bearing that name, as
/// soon as any entry bears it.
proof fn lemma_best_lands_on_100(
    scores: Seq<(String, u32)>,
    chosen: Seq<char>,
    k: int,
    best: int,
    max_p: u32,
)
    requires
        0 <= k <= scores.len(),
        forall|j: int|
            0 <= j < scores.len() ==> (#[trigger] scores[j]).1 == if scores[j].0@ == chosen {
                100u32
            } else {
                0u32
            },
        exists|j: int| k <= j < scores.len() && (#[trigger] scores[j]).0@ == chosen,
        max_p < 100,
        best == -1 || (0 <= best < scores.len() && max_p == scores[best as int].1),
    ensures
        ({
            let bi = spec_best_from(scores, k, best, max_p);
            0 <= bi < scores.len() && scores[bi].0@ == chosen
        }),
    decreases scores.len() - k,
{
    let j0 = choose|j: int| k <= j < scores.len() && (#[trigger] scores[j]).0@ == chosen;
    if scores[k].1 > max_p {
        assert(scores[k].0@ == chosen);
        lemma_best_stays_on_100(scores, chosen, k + 1, k, scores[k].1);
    } else {
        assert(j0 > k);
        lemma_best_lands_on_100(scores, chosen, k + 1, best, max_p);
    }
}

/// Once the scan holds an entry scoring one hundred, it never moves.
proof fn lemma_best_stays_on_100(
    scores: Seq<(String, u32)>,
    chosen: Seq<char>,
    k: int,
    best: int,
    max_p: u32,
)
    requires
        0 <= k <= scores.len(),
        0 <= best < scores.len(),
        scores[best].0@ == chosen,
        max_p == 100,
        forall|j: int|
            0 <= j < scores.len() ==> (#[trigger] scores[j]).1 == if scores[j].0@ == chosen {
                100u32
            } else {
                0u32
            },
    ensures
        spec_best_from(scores, k, best, max_p) == best,
    decreases scores.len() - k,
{
    if k < scores.len() {
        lemma_best_stays_on_100(scores, chosen, k + 1, best, max_p);
    }
}


/// Whether an orchestrator response code reports a successful binding:
/// anything from 200 through 202.
pub fn bind_status_ok(code: i32) -> (r: bool)
    ensures
        r == (200 <= code <= 202),
{
    200 <= code && code <= 202
}

} // verus!
