use spark_sched::cluster::ClusterState;
use spark_sched::profile::{from_profiled, min_execution_time, profiled_table};
use spark_sched::resource::{FairPlanner, Planner, ResourcePlan, WorkloadType};
use spark_sched::workload::{wa_plan_applicable, WorkloadAwareFairPlanner};

fn state(cores: u32, mem_mb: u32) -> ClusterState {
    ClusterState { nodes: Vec::new(), total_core: cores, total_mem_mb: mem_mb }
}

#[test]
fn fair_split_over_four_workloads() {
    // 22 cores over 4 workloads: shares 5, 5, 6, 6, one driver core each.
    let mut st = state(22, 22 * 1024);
    let types = vec![
        WorkloadType::Compute,
        WorkloadType::Compute,
        WorkloadType::Storage,
        WorkloadType::Storage,
    ];
    let plans = FairPlanner::plan(&mut st, &types, Vec::new());
    let nexecs: Vec<u32> = plans.iter().map(|p| p.nexec).collect();
    assert_eq!(nexecs, vec![4, 4, 5, 5]);
    assert_eq!(st.total_core, 0);
    assert_eq!(st.total_mem_mb, 0);
    for p in &plans {
        assert_eq!(p.driver_cpu, 1);
        assert_eq!(p.driver_mem_mb, 1024);
        assert_eq!(p.exec_cpu, 1);
        assert_eq!(p.exec_mem_mb, 1024);
    }
}

#[test]
fn fair_conservation() {
    // The executor counts together use every core once drivers are paid.
    let mut st = state(22, 22 * 1024);
    let types = vec![WorkloadType::Compute; 4];
    let plans = FairPlanner::plan(&mut st, &types, Vec::new());
    let total: u32 = plans.iter().map(|p| p.nexec).sum();
    assert_eq!(total, 22 - 4);
}

#[test]
fn fair_floor_holds() {
    let mut st = state(8, 8 * 1024);
    let types = vec![WorkloadType::Storage; 4];
    let plans = FairPlanner::plan(&mut st, &types, Vec::new());
    for p in &plans {
        assert!(p.nexec >= 1);
        assert!(p.driver_cpu >= 1);
        assert!(p.exec_cpu >= 1);
        assert!(p.driver_mem_mb >= 1024);
    }
}

#[test]
fn workload_aware_weights_and_rebalance() {
    // 2 compute + 2 storage over 24 cores: compute share 4, storage
    // share 9; the second storage plan is clamped to 7 and then steals
    // its 2-core gap back from the compute plans.
    let mut st = state(24, 24 * 1024);
    let types = vec![
        WorkloadType::Compute,
        WorkloadType::Compute,
        WorkloadType::Storage,
        WorkloadType::Storage,
    ];
    let plans = WorkloadAwareFairPlanner::plan(&mut st, &types, Vec::new());
    let nexecs: Vec<u32> = plans.iter().map(|p| p.nexec).collect();
    assert_eq!(nexecs, vec![2, 2, 8, 8]);
    assert_eq!(st.total_core, 0);
}

#[test]
fn workload_aware_all_compute() {
    let mut st = state(8, 8 * 1024);
    let types = vec![WorkloadType::Compute, WorkloadType::Compute];
    let plans = WorkloadAwareFairPlanner::plan(&mut st, &types, Vec::new());
    let nexecs: Vec<u32> = plans.iter().map(|p| p.nexec).collect();
    // Share ceil(3*8/6) = 4 cores each.
    assert_eq!(nexecs, vec![3, 3]);
    assert_eq!(st.total_core, 0);
}

#[test]
fn workload_aware_empty_batch() {
    let mut st = state(10, 10 * 1024);
    let plans = WorkloadAwareFairPlanner::plan(&mut st, &[], Vec::new());
    assert!(plans.is_empty());
    assert_eq!(st.total_core, 10);
}

#[test]
fn profiled_dp_picks_even_split() {
    // Budget of 4 executors over pi and wc: (2, 2) minimizes the
    // slower of the two at 67100 ms.
    let rows = vec![
        vec![103000u64, 67100, 57500, 55000],
        vec![82250u64, 67000, 66000, 72500],
    ];
    let (time, nexecs) = min_execution_time(&rows, 4);
    assert_eq!(time, 67100);
    assert_eq!(nexecs, vec![2, 2]);
}

#[test]
fn profiled_planner_end_to_end() {
    // 6 cores, 2 workloads: 2 driver cores leave a budget of 4.
    let mut st = state(6, 6 * 1024);
    let meta = vec!["pi".to_string(), "wc".to_string()];
    let plans = from_profiled(&mut st, vec![WorkloadType::Compute; 2], meta);
    let nexecs: Vec<u32> = plans.iter().map(|p| p.nexec).collect();
    assert_eq!(nexecs, vec![2, 2]);
    // The profiled planner reads capacity but does not consume it.
    assert_eq!(st.total_core, 6);
}

#[test]
fn profiled_table_contents() {
    let table = profiled_table();
    assert_eq!(table.len(), 4);
    assert_eq!(table[0].0, "wc");
    assert_eq!(table[0].1[0], 82250);
    assert_eq!(table[1].0, "pi");
    assert_eq!(table[1].1.len(), 21);
    assert_eq!(table[1].1[3], 55000);
    assert_eq!(table[2].0, "svm");
    assert_eq!(table[3].0, "sort");
    assert_eq!(table[3].1[20], 140000);
}

#[test]
fn resource_plan_strings() {
    let p = ResourcePlan {
        driver_cpu: 1,
        driver_mem_mb: 1024,
        exec_cpu: 2,
        exec_mem_mb: 2048,
        nexec: 7,
    };
    assert_eq!(p.driver_cpu(), "1");
    assert_eq!(p.driver_mem_mb(), "1024m");
    assert_eq!(p.exec_cpu(), "2");
    assert_eq!(p.exec_mem_mb(), "2048m");
    assert_eq!(p.nexec(), "7");
}

#[test]
fn resource_plan_default() {
    let p = ResourcePlan::default();
    assert_eq!(p.driver_cpu, 1);
    assert_eq!(p.driver_mem_mb, 1024);
    assert_eq!(p.exec_cpu, 2);
    assert_eq!(p.exec_mem_mb, 2048);
    assert_eq!(p.nexec, 4);
}

#[test]
fn workload_type_names() {
    assert_eq!(WorkloadType::Compute.to_string(), "compute");
    assert_eq!(WorkloadType::Storage.to_string(), "storage");
}

#[test]
fn workload_aware_applicability_check() {
    let ok = state(24, 24 * 1024);
    let small = state(3, 24 * 1024);
    let types = vec![
        WorkloadType::Compute,
        WorkloadType::Compute,
        WorkloadType::Storage,
        WorkloadType::Storage,
    ];
    assert!(wa_plan_applicable(&ok, &types));
    assert!(!wa_plan_applicable(&small, &types));
}
