use spark_sched::cluster::NodeState;
use spark_sched::predicate::{judge, pod_resource, BoundPod, ContainerSpec, PodResource};
use spark_sched::priority::{
    edges_to_storage, hard_coded_network_bandwidth_map, node_names, sort_nodes_by_bandwidth,
    NodeBandwidth, WorkloadNetworkAwarePriority,
};
use spark_sched::sched::{get_pod_uuid, get_pod_workload_type, PodInfo, SchedError, Scheduler};

fn node(name: &str, mc: u64, kib: u64) -> NodeState {
    NodeState { name: name.to_string(), millicores: mc, mem_kib: kib }
}

fn bound(node: &str, cpu: &str, mem: &str) -> BoundPod {
    BoundPod {
        node_name: node.to_string(),
        containers: vec![ContainerSpec {
            cpu: Some(cpu.to_string()),
            memory: Some(mem.to_string()),
        }],
    }
}

fn pod(name: &str, group: &str, wt: &str, cpu: &str, mem: &str) -> PodInfo {
    PodInfo {
        name: name.to_string(),
        namespace: "spark".to_string(),
        labels: vec![
            ("spark-uuid".to_string(), group.to_string()),
            ("spark-workload-type".to_string(), wt.to_string()),
        ],
        cpu_request: cpu.to_string(),
        mem_request: mem.to_string(),
    }
}

#[test]
fn predicate_exact_fit() {
    // 8000m / 8 GiB node with 6000m / 6 GiB already bound: a
    // 1500m / 2 GiB pod exactly fits the memory remainder.
    let nodes = vec![node("node02", 8000, 8388608)];
    let pods = vec![bound("node02", "6000m", "6291456Ki")];
    let req = pod_resource("p".to_string(), "1500m", "2Gi").unwrap();
    let admitted = judge(&nodes, &pods, &req).unwrap();
    assert_eq!(admitted, vec!["node02".to_string()]);
}

#[test]
fn predicate_rejects_overfull_node() {
    let nodes = vec![node("node02", 8000, 8388608)];
    let pods = vec![bound("node02", "7000m", "6291456Ki")];
    let req = pod_resource("p".to_string(), "1500m", "2Gi").unwrap();
    let admitted = judge(&nodes, &pods, &req).unwrap();
    assert!(admitted.is_empty());
}

#[test]
fn predicate_ignores_other_nodes_pods() {
    let nodes = vec![node("a", 4000, 4194304), node("b", 4000, 4194304)];
    let pods = vec![bound("a", "3500m", "1Gi")];
    let req = pod_resource("p".to_string(), "1000m", "1Gi").unwrap();
    let admitted = judge(&nodes, &pods, &req).unwrap();
    assert_eq!(admitted, vec!["b".to_string()]);
}

#[test]
fn pod_resource_parses() {
    let r = pod_resource("p".to_string(), "1500m", "2Gi").unwrap();
    assert_eq!(r.millicore, 1500);
    assert_eq!(r.mem_kb, 2097152);
    assert!(pod_resource("p".to_string(), "x", "2Gi").is_err());
}

#[test]
fn compute_pod_pins_to_top_bandwidth() {
    // Ascending order n1 < n02 < n03; candidates n1 and n03: the
    // compute pod pins to n03.
    let all = vec!["n1".to_string(), "n02".to_string(), "n03".to_string()];
    let cands = vec!["n1".to_string(), "n03".to_string()];
    let mut cursor: Vec<(String, u32)> = Vec::new();
    let scores = WorkloadNetworkAwarePriority::priority(
        &cands,
        &"g".to_string(),
        &"compute".to_string(),
        &mut cursor,
        &all,
    );
    assert_eq!(scores.len(), 2);
    assert_eq!(scores[0], ("n1".to_string(), 0));
    assert_eq!(scores[1], ("n03".to_string(), 100));
    assert!(cursor.is_empty());
}

#[test]
fn storage_pods_walk_round_robin() {
    // Three storage pods of one group over the full candidate set take
    // n1, n02, n03 in turn; the cursor walks 1, 2, 0.
    let all = vec!["n1".to_string(), "n02".to_string(), "n03".to_string()];
    let cands = all.clone();
    let g = "g".to_string();
    let wt = "storage".to_string();
    let mut cursor: Vec<(String, u32)> = Vec::new();

    let s1 = WorkloadNetworkAwarePriority::priority(&cands, &g, &wt, &mut cursor, &all);
    assert_eq!(s1[0], ("n1".to_string(), 100));
    assert_eq!(cursor, vec![("g".to_string(), 1)]);

    let s2 = WorkloadNetworkAwarePriority::priority(&cands, &g, &wt, &mut cursor, &all);
    assert_eq!(s2[1], ("n02".to_string(), 100));
    assert_eq!(cursor, vec![("g".to_string(), 2)]);

    let s3 = WorkloadNetworkAwarePriority::priority(&cands, &g, &wt, &mut cursor, &all);
    assert_eq!(s3[2], ("n03".to_string(), 100));
    assert_eq!(cursor, vec![("g".to_string(), 0)]);
}

#[test]
fn storage_cursor_falls_back_to_top() {
    // With the cursor past every candidate, the pod takes the highest
    // candidate instead.
    let all = vec!["n1".to_string(), "n02".to_string(), "n03".to_string()];
    let cands = vec!["n1".to_string()];
    let mut cursor = vec![("g".to_string(), 2u32)];
    let scores = WorkloadNetworkAwarePriority::priority(
        &cands,
        &"g".to_string(),
        &"storage".to_string(),
        &mut cursor,
        &all,
    );
    assert_eq!(scores[0], ("n1".to_string(), 100));
    // Chosen position 0, so the cursor wraps to 1.
    assert_eq!(cursor, vec![("g".to_string(), 1)]);
}

#[test]
fn priority_is_deterministic() {
    // Identical inputs, identical outcome.
    let all = vec!["n1".to_string(), "n02".to_string(), "n03".to_string()];
    let cands = all.clone();
    let g = "g".to_string();
    let wt = "storage".to_string();
    let mut c1 = vec![("g".to_string(), 1u32)];
    let mut c2 = vec![("g".to_string(), 1u32)];
    let s1 = WorkloadNetworkAwarePriority::priority(&cands, &g, &wt, &mut c1, &all);
    let s2 = WorkloadNetworkAwarePriority::priority(&cands, &g, &wt, &mut c2, &all);
    assert_eq!(s1, s2);
    assert_eq!(c1, c2);
}

#[test]
fn bandwidth_sort_orders_ascending_with_name_ties() {
    let nodes = vec![
        NodeBandwidth { name: "node03".to_string(), bw: 25 },
        NodeBandwidth { name: "xyji".to_string(), bw: u64::MAX },
        NodeBandwidth { name: "node1".to_string(), bw: 5 },
        NodeBandwidth { name: "node02".to_string(), bw: 20 },
    ];
    let sorted = sort_nodes_by_bandwidth(nodes);
    let names = node_names(&sorted);
    assert_eq!(
        names,
        vec![
            "node1".to_string(),
            "node02".to_string(),
            "node03".to_string(),
            "xyji".to_string()
        ]
    );

    let tied = vec![
        NodeBandwidth { name: "b".to_string(), bw: 7 },
        NodeBandwidth { name: "a".to_string(), bw: 7 },
    ];
    let tied_sorted = sort_nodes_by_bandwidth(tied);
    assert_eq!(tied_sorted[0].name, "a");
    assert_eq!(tied_sorted[1].name, "b");
}

#[test]
fn hardcoded_map_reaches_storage_node() {
    let map = hard_coded_network_bandwidth_map();
    assert_eq!(map.len(), 16);
    let edges = edges_to_storage(&map, &"xyji".to_string());
    // node1, node02, node03 and the storage node's own self edge.
    assert_eq!(edges.len(), 4);
    assert_eq!(edges[0].name, "node1");
    assert_eq!(edges[0].bw, 5);
    assert_eq!(edges[3].name, "xyji");
    assert_eq!(edges[3].bw, u64::MAX);
    let sorted = sort_nodes_by_bandwidth(edges);
    let names = node_names(&sorted);
    assert_eq!(
        names,
        vec![
            "node1".to_string(),
            "node02".to_string(),
            "node03".to_string(),
            "xyji".to_string()
        ]
    );
}

#[test]
fn scheduler_places_and_records() {
    let all = vec!["n1".to_string(), "n02".to_string(), "n03".to_string()];
    let mut sched = Scheduler::new(all);
    assert_eq!(sched.namespace, "spark");

    let nodes = vec![node("n1", 8000, 8388608), node("n02", 8000, 8388608)];
    let pods: Vec<BoundPod> = Vec::new();
    let p = pod("p1", "g1", "storage", "1000m", "1Gi");

    let best = sched.evaluate(&p, &nodes, &pods).unwrap();
    assert_eq!(best, "n1");
    let ev = sched.record_placement(&p, &best);
    assert_eq!(ev.reason, "Scheduled");
    assert_eq!(ev.type_, "Normal");
    assert_eq!(ev.count, 1);
    assert_eq!(ev.involved_kind, "Pod");
    assert_eq!(ev.involved_name, "p1");
    assert_eq!(ev.involved_namespace, "spark");
    assert_eq!(ev.generate_name, "p1-");
    assert_eq!(ev.source_component, "spark-sched");
    assert_eq!(ev.message, "Placed pod [spark/p1] on n1\n");

    let hist = sched.group_history(&"g1".to_string());
    assert_eq!(hist, vec!["n1".to_string()]);
}

#[test]
fn scheduler_no_fit() {
    let all = vec!["n1".to_string()];
    let mut sched = Scheduler::new(all);
    let nodes = vec![node("n1", 1000, 1048576)];
    let pods: Vec<BoundPod> = Vec::new();
    let p = pod("p1", "g1", "storage", "2000m", "1Gi");
    assert_eq!(sched.evaluate(&p, &nodes, &pods), Err(SchedError::NoFitForPod));
}

#[test]
fn scheduler_renewal_clears_cursors() {
    let all = vec!["n1".to_string(), "n02".to_string()];
    let mut sched = Scheduler::new(all);
    let nodes = vec![node("n1", 8000, 8388608), node("n02", 8000, 8388608)];
    let pods: Vec<BoundPod> = Vec::new();
    let p = pod("p1", "g1", "storage", "1000m", "1Gi");
    sched.evaluate(&p, &nodes, &pods).unwrap();
    assert!(!sched.next_choice.is_empty());
    sched.renew_if_no_pod(3);
    assert!(!sched.next_choice.is_empty());
    sched.renew_if_no_pod(0);
    assert!(sched.next_choice.is_empty());
}

#[test]
fn pod_label_lookup() {
    let p = pod("p1", "g1", "compute", "1000m", "1Gi");
    assert_eq!(get_pod_uuid(&p), Some("g1".to_string()));
    assert_eq!(get_pod_workload_type(&p), Some("compute".to_string()));
    let bare = PodInfo {
        name: "p".to_string(),
        namespace: "spark".to_string(),
        labels: Vec::new(),
        cpu_request: "1".to_string(),
        mem_request: "1Gi".to_string(),
    };
    assert_eq!(get_pod_uuid(&bare), None);
}

#[test]
fn find_best_node_takes_max_score() {
    let sched = Scheduler::new(vec!["n1".to_string()]);
    let scores = vec![
        ("a".to_string(), 0u32),
        ("b".to_string(), 100u32),
        ("c".to_string(), 0u32),
    ];
    assert_eq!(sched.find_best_node(&scores), "b");
    let none: Vec<(String, u32)> = Vec::new();
    assert_eq!(sched.find_best_node(&none), "");
}

#[test]
fn judge_respects_request_name_independence() {
    // Two requests that differ only in name admit the same nodes.
    let nodes = vec![node("a", 4000, 4194304)];
    let pods: Vec<BoundPod> = Vec::new();
    let r1 = PodResource { name: "x".to_string(), millicore: 1000, mem_kb: 1024 };
    let r2 = PodResource { name: "y".to_string(), millicore: 1000, mem_kb: 1024 };
    assert_eq!(judge(&nodes, &pods, &r1).unwrap(), judge(&nodes, &pods, &r2).unwrap());
}

#[test]
fn scheduler_pins_compute_to_top_bandwidth() {
    let all = vec!["n1".to_string(), "n02".to_string(), "n03".to_string()];
    let mut sched = Scheduler::new(all);
    let nodes = vec![node("n1", 8000, 8388608), node("n03", 8000, 8388608)];
    let pods: Vec<BoundPod> = Vec::new();
    let p = pod("p1", "g1", "compute", "1000m", "1Gi");
    let best = sched.evaluate(&p, &nodes, &pods).unwrap();
    assert_eq!(best, "n03");
    // The compute path leaves the cursors alone.
    assert!(sched.next_choice.is_empty());
}

#[test]
fn scheduler_spreads_storage_peers() {
    let all = vec!["n1".to_string(), "n02".to_string(), "n03".to_string()];
    let mut sched = Scheduler::new(all);
    let nodes = vec![
        node("n1", 8000, 8388608),
        node("n02", 8000, 8388608),
        node("n03", 8000, 8388608),
    ];
    let pods: Vec<BoundPod> = Vec::new();
    let p = pod("p1", "g1", "storage", "1000m", "1Gi");

    let first = sched.evaluate(&p, &nodes, &pods).unwrap();
    sched.record_placement(&p, &first);
    let second = sched.evaluate(&p, &nodes, &pods).unwrap();
    sched.record_placement(&p, &second);
    let third = sched.evaluate(&p, &nodes, &pods).unwrap();
    sched.record_placement(&p, &third);

    assert_eq!(
        vec![first.clone(), second.clone(), third.clone()],
        vec!["n1".to_string(), "n02".to_string(), "n03".to_string()]
    );
    let hist = sched.group_history(&"g1".to_string());
    assert_eq!(hist, vec![first, second, third]);
    // A different group keeps its own history.
    assert!(sched.group_history(&"other".to_string()).is_empty());
}
