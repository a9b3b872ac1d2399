use spark_sched::cmd::{
    parallelism_func, split_words, PvcParams, PySparkDriverParams, PySparkExecutorParams,
    PysparkSubmitBuilder,
};

fn pvc() -> PvcParams {
    PvcParams {
        name: "spark-local-dir-1".to_string(),
        claim_name: "claim".to_string(),
        mount_path: "/mnt".to_string(),
    }
}

fn builder() -> PysparkSubmitBuilder {
    PysparkSubmitBuilder::new()
        .path("/opt/spark/bin/spark-submit".to_string())
        .master("k8s://https://127.0.0.1:6443".to_string())
        .image("spark:latest".to_string())
        .parallelism(30)
        .driver_args(PySparkDriverParams {
            core: "1".to_string(),
            memory: "1024m".to_string(),
            pvc: pvc(),
        })
        .exec_args(PySparkExecutorParams {
            core: "1".to_string(),
            memory: "1024m".to_string(),
            nr: "5".to_string(),
            pvc: pvc(),
        })
        .workload_type("storage".to_string())
        .prog("pi.py 100".to_string())
}

#[test]
fn build_fills_defaults() {
    let sub = PysparkSubmitBuilder::new().build();
    let cmd = sub.into_command_with_id("id");
    // Defaults: cluster deploy mode, spark namespace and account.
    assert_eq!(cmd.args[3], "cluster");
    assert!(cmd.args.contains(&"spark.kubernetes.namespace=spark".to_string()));
    assert!(cmd
        .args
        .contains(&"spark.kubernetes.authenticate.driver.serviceAccountName=spark".to_string()));
}

#[test]
fn command_layout() {
    let sub = builder().build();
    let cmd = sub.into_command_with_id("0000-id");
    assert_eq!(cmd.prog, "/opt/spark/bin/spark-submit");
    assert_eq!(cmd.args[0], "--master");
    assert_eq!(cmd.args[1], "k8s://https://127.0.0.1:6443");
    assert_eq!(cmd.args[2], "--deploy-mode");
    assert_eq!(cmd.args[3], "cluster");
    assert_eq!(cmd.args[4], "--name");
    assert_eq!(cmd.args[5], "spark");
    assert!(cmd.args.contains(&"spark.default.parallelism=30".to_string()));
    assert!(cmd.args.contains(&"spark.driver.cores=1".to_string()));
    assert!(cmd.args.contains(&"spark.executor.instances=5".to_string()));
    assert!(cmd.args.contains(
        &"spark.kubernetes.driver.volumes.persistentVolumeClaim.spark-local-dir-1.options.claimName=claim"
            .to_string()
    ));
    assert!(cmd.args.contains(
        &"spark.kubernetes.executor.volumes.persistentVolumeClaim.spark-local-dir-1.mount.path=/mnt"
            .to_string()
    ));
    assert!(cmd.args.contains(&"spark.kubernetes.driver.label.spark-uuid=0000-id".to_string()));
    assert!(cmd.args.contains(&"spark.kubernetes.executor.label.spark-uuid=0000-id".to_string()));
    assert!(cmd
        .args
        .contains(&"spark.kubernetes.driver.label.spark-workload-type=storage".to_string()));
    // No scheduler was named, so no scheduler conf.
    assert!(!cmd.args.iter().any(|a| a.starts_with("spark.kubernetes.scheduler.name=")));
    // The program and its argument close the vector.
    let n = cmd.args.len();
    assert_eq!(cmd.args[n - 2], "pi.py");
    assert_eq!(cmd.args[n - 1], "100");
}

#[test]
fn scheduler_name_conf_when_set() {
    let sub = builder().scheduler("spark-sched".to_string()).build();
    let cmd = sub.into_command_with_id("id");
    assert!(cmd.args.contains(&"spark.kubernetes.scheduler.name=spark-sched".to_string()));
}

#[test]
fn fresh_group_identifier_is_stamped() {
    // The freshly drawn identifier is 36 characters and lands in both
    // label confs, identically.
    let sub = builder().build();
    let cmd = sub.into_command();
    let prefix_d = "spark.kubernetes.driver.label.spark-uuid=";
    let prefix_e = "spark.kubernetes.executor.label.spark-uuid=";
    let d = cmd.args.iter().find(|a| a.starts_with(prefix_d)).unwrap();
    let e = cmd.args.iter().find(|a| a.starts_with(prefix_e)).unwrap();
    let id_d = &d[prefix_d.len()..];
    let id_e = &e[prefix_e.len()..];
    assert_eq!(id_d.len(), 36);
    assert_eq!(id_d, id_e);
}

#[test]
fn distinct_submissions_get_distinct_groups() {
    let c1 = builder().build().into_command();
    let c2 = builder().build().into_command();
    let prefix = "spark.kubernetes.driver.label.spark-uuid=";
    let d1 = c1.args.iter().find(|a| a.starts_with(prefix)).unwrap();
    let d2 = c2.args.iter().find(|a| a.starts_with(prefix)).unwrap();
    assert_ne!(d1, d2);
}

#[test]
fn split_keeps_empty_pieces() {
    assert_eq!(split_words("a b"), vec!["a".to_string(), "b".to_string()]);
    assert_eq!(
        split_words("a  b"),
        vec!["a".to_string(), "".to_string(), "b".to_string()]
    );
    assert_eq!(split_words(""), vec!["".to_string()]);
    assert_eq!(split_words("one"), vec!["one".to_string()]);
}

#[test]
fn parallelism_is_five_per_core() {
    assert_eq!(parallelism_func("1".to_string(), "1".to_string(), "5".to_string()), 30);
    assert_eq!(parallelism_func("1".to_string(), "2".to_string(), "4".to_string()), 45);
}
