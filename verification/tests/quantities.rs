use spark_sched::cluster::{build_cluster_state, reserved_core, reserved_mem, NodeQuantity, SnapshotError};
use spark_sched::numeric::{parse_u64, u32_to_dec, u64_to_dec};
use spark_sched::quantity::{quantity_to_kibytes, quantity_to_millicores, QuantityError};

#[test]
fn millicores_with_suffix() {
    assert_eq!(quantity_to_millicores("500m"), Ok(500));
    assert_eq!(quantity_to_millicores("0m"), Ok(0));
}

#[test]
fn millicores_whole_cores() {
    assert_eq!(quantity_to_millicores("2"), Ok(2000));
    assert_eq!(quantity_to_millicores("8"), Ok(8000));
}

#[test]
fn millicores_bad_number() {
    assert_eq!(quantity_to_millicores(""), Err(QuantityError::BadNumber));
    assert_eq!(quantity_to_millicores("12a"), Err(QuantityError::BadNumber));
    assert_eq!(quantity_to_millicores("m"), Err(QuantityError::BadNumber));
    // Too large even for the parser.
    assert_eq!(
        quantity_to_millicores("99999999999999999999"),
        Err(QuantityError::BadNumber)
    );
}

#[test]
fn millicores_overflow() {
    // Parses, but scaling to millicores leaves the range.
    assert_eq!(
        quantity_to_millicores("18446744073709551615"),
        Err(QuantityError::Overflow)
    );
}

#[test]
fn kibytes_units() {
    assert_eq!(quantity_to_kibytes("1048576Ki"), Ok(1048576));
    assert_eq!(quantity_to_kibytes("3Mi"), Ok(3 * 1024));
    assert_eq!(quantity_to_kibytes("2Gi"), Ok(2 * 1024 * 1024));
}

#[test]
fn kibytes_unsupported_unit() {
    assert_eq!(quantity_to_kibytes("2G"), Err(QuantityError::UnsupportedUnit));
    assert_eq!(quantity_to_kibytes("512"), Err(QuantityError::UnsupportedUnit));
    assert_eq!(quantity_to_kibytes(""), Err(QuantityError::UnsupportedUnit));
}

#[test]
fn kibytes_bad_number() {
    assert_eq!(quantity_to_kibytes("Ki"), Err(QuantityError::BadNumber));
    assert_eq!(quantity_to_kibytes("1x2Mi"), Err(QuantityError::BadNumber));
}

#[test]
fn kibytes_overflow() {
    assert_eq!(
        quantity_to_kibytes("18446744073709551615Gi"),
        Err(QuantityError::Overflow)
    );
}

#[test]
fn decimal_round_trip() {
    assert_eq!(u64_to_dec(0), "0");
    assert_eq!(u32_to_dec(1024), "1024");
    assert_eq!(u64_to_dec(18446744073709551615), "18446744073709551615");
    assert_eq!(parse_u64("0"), Some(0));
    assert_eq!(parse_u64("1024"), Some(1024));
    assert_eq!(parse_u64(""), None);
    assert_eq!(parse_u64("12a"), None);
    assert_eq!(parse_u64("18446744073709551616"), None);
}

#[test]
fn snapshot_aggregates_and_reserves() {
    // Three nodes of 8 cores and 8 GiB: 24 cores and 24576 MB gross;
    // reserve 4 cores and 15360 MB.
    let snap = vec![
        NodeQuantity { name: "node1".to_string(), cpu: "8".to_string(), memory: "8388608Ki".to_string() },
        NodeQuantity { name: "node02".to_string(), cpu: "8".to_string(), memory: "8Gi".to_string() },
        NodeQuantity { name: "node03".to_string(), cpu: "8000m".to_string(), memory: "8192Mi".to_string() },
    ];
    let st = build_cluster_state(snap).unwrap();
    assert_eq!(st.nodes.len(), 3);
    assert_eq!(st.nodes[0].millicores, 8000);
    assert_eq!(st.nodes[0].mem_kib, 8388608);
    assert_eq!(st.total_core, 24 - 4);
    assert_eq!(st.total_mem_mb, 24576 - 15360);
}

#[test]
fn snapshot_rejects_bad_quantity() {
    let snap = vec![NodeQuantity {
        name: "n".to_string(),
        cpu: "eight".to_string(),
        memory: "8Gi".to_string(),
    }];
    assert!(matches!(build_cluster_state(snap), Err(SnapshotError::BadQuantity)));
}

#[test]
fn snapshot_rejects_tiny_cluster() {
    // One node with one core cannot even cover the reserve.
    let snap = vec![NodeQuantity {
        name: "n".to_string(),
        cpu: "1".to_string(),
        memory: "1Gi".to_string(),
    }];
    assert!(matches!(
        build_cluster_state(snap),
        Err(SnapshotError::ReservedExceedsCapacity)
    ));
}

#[test]
fn reserve_formulas() {
    assert_eq!(reserved_core(1), 3);
    assert_eq!(reserved_core(2), 3);
    assert_eq!(reserved_core(3), 4);
    assert_eq!(reserved_core(10), 11);
    assert_eq!(reserved_mem(3), 15360);
}
