//! Building the argument vector of the external submit binary.
//!
//! A builder gathers the invocation's pieces, `build` fills in the
//! defaults, and `into_command` lays out the full argument vector: the
//! connection flags, one `--conf` pair per setting, the group and
//! workload-type labels on driver and executors, and finally the program
//! with its arguments.  Every submission is stamped with a freshly drawn
//! group identifier; the scheduler later treats pods sharing it as
//! peers.

use vstd::prelude::*;

use crate::numeric::dec_digits;
use crate::numeric::u32_to_dec;

verus! {

/// The persistent-volume claim mounted into driver and executors.
#[derive(PartialEq, Eq)]
pub struct PvcParams {
    /// The volume's name.
    pub name: String,
    /// The claim's name in the cluster.
    pub claim_name: String,
    /// Where the volume is mounted.
    pub mount_path: String,
}

/// The driver pod's parameters.
#[derive(PartialEq, Eq)]
pub struct PySparkDriverParams {
    /// The driver's core count, as the submit binary takes it.
    pub core: String,
    /// The driver's memory, as the submit binary takes it.
    pub memory: String,
    /// The claim mounted into the driver.
    pub pvc: PvcParams,
}

/// The executor pods' parameters.
#[derive(PartialEq, Eq)]
pub struct PySparkExecutorParams {
    /// Each executor's core count, as the submit binary takes it.
    pub core: String,
    /// Each executor's memory, as the submit binary takes it.
    pub memory: String,
    /// The number of executors, as the submit binary takes it.
    pub nr: String,
    /// The claim mounted into the executors.
    pub pvc: PvcParams,
}

/// Gathers the pieces of one submission.
pub struct PysparkSubmitBuilder {
    /// The spark-submit path.
    pub path: Option<String>,
    /// The master url.
    pub master: Option<String>,
    /// The deploy mode of the cluster.
    pub deploy_mode: Option<String>,
    /// The namespace of the cluster.
    pub ns: Option<String>,
    /// The service account of the cluster.
    pub service_account: Option<String>,
    /// The image repository of driver and executors.
    pub image: Option<String>,
    /// The parallelism of the job.
    pub parallelism: Option<u32>,
    /// The scheduler of the job.
    pub scheduler_name: Option<String>,
    /// The workload type label value of the job.
    pub workload_type: Option<String>,
    /// The parameters of the driver.
    pub driver_args: Option<PySparkDriverParams>,
    /// The parameters of the executors.
    pub exec_args: Option<PySparkExecutorParams>,
    /// The program (or script) to run, with its arguments.
    pub prog: Option<String>,
}

impl PysparkSubmitBuilder {
    /// An empty builder.
    pub fn new() -> (r: Self)
        ensures
            r.path is None && r.master is None && r.deploy_mode is None && r.ns is None
                && r.service_account is None && r.image is None && r.parallelism is None
                && r.scheduler_name is None && r.workload_type is None && r.driver_args is None
                && r.exec_args is None && r.prog is None,
    {
        Self {
            path: None,
            master: None,
            deploy_mode: None,
            ns: None,
            service_account: None,
            image: None,
            parallelism: None,
            scheduler_name: None,
            workload_type: None,
            driver_args: None,
            exec_args: None,
            prog: None,
        }
    }

    /// Sets the path.
    pub fn path(self, path: String) -> (r: Self)
        ensures
            r.path == Some(path),
            r.master == self.master && r.deploy_mode == self.deploy_mode && r.ns == self.ns && r.service_account == self.service_account && r.image == self.image && r.parallelism == self.parallelism && r.scheduler_name == self.scheduler_name && r.workload_type == self.workload_type && r.driver_args == self.driver_args && r.exec_args == self.exec_args && r.prog == self.prog,
    {
        Self { path: Some(path), ..self }
    }

    /// Sets the master.
    pub fn master(self, master: String) -> (r: Self)
        ensures
            r.master == Some(master),
            r.path == self.path && r.deploy_mode == self.deploy_mode && r.ns == self.ns && r.service_account == self.service_account && r.image == self.image && r.parallelism == self.parallelism && r.scheduler_name == self.scheduler_name && r.workload_type == self.workload_type && r.driver_args == self.driver_args && r.exec_args == self.exec_args && r.prog == self.prog,
    {
        Self { master: Some(master), ..self }
    }

    /// Sets the deploy mode.
    pub fn deploy_mode(self, deploy_mode: String) -> (r: Self)
        ensures
            r.deploy_mode == Some(deploy_mode),
            r.path == self.path && r.master == self.master && r.ns == self.ns && r.service_account == self.service_account && r.image == self.image && r.parallelism == self.parallelism && r.scheduler_name == self.scheduler_name && r.workload_type == self.workload_type && r.driver_args == self.driver_args && r.exec_args == self.exec_args && r.prog == self.prog,
    {
        Self { deploy_mode: Some(deploy_mode), ..self }
    }

    /// Sets the ns.
    pub fn ns(self, ns: String) -> (r: Self)
        ensures
            r.ns == Some(ns),
            r.path == self.path && r.master == self.master && r.deploy_mode == self.deploy_mode && r.service_account == self.service_account && r.image == self.image && r.parallelism == self.parallelism && r.scheduler_name == self.scheduler_name && r.workload_type == self.workload_type && r.driver_args == self.driver_args && r.exec_args == self.exec_args && r.prog == self.prog,
    {
        Self { ns: Some(ns), ..self }
    }

    /// Sets the service account.
    pub fn service_account(self, service_account: String) -> (r: Self)
        ensures
            r.service_account == Some(service_account),
            r.path == self.path && r.master == self.master && r.deploy_mode == self.deploy_mode && r.ns == self.ns && r.image == self.image && r.parallelism == self.parallelism && r.scheduler_name == self.scheduler_name && r.workload_type == self.workload_type && r.driver_args == self.driver_args && r.exec_args == self.exec_args && r.prog == self.prog,
    {
        Self { service_account: Some(service_account), ..self }
    }

    /// Sets the image.
    pub fn image(self, image: String) -> (r: Self)
        ensures
            r.image == Some(image),
            r.path == self.path && r.master == self.master && r.deploy_mode == self.deploy_mode && r.ns == self.ns && r.service_account == self.service_account && r.parallelism == self.parallelism && r.scheduler_name == self.scheduler_name && r.workload_type == self.workload_type && r.driver_args == self.driver_args && r.exec_args == self.exec_args && r.prog == self.prog,
    {
        Self { image: Some(image), ..self }
    }

    /// Sets the parallelism.
    pub fn parallelism(self, parallelism: u32) -> (r: Self)
        ensures
            r.parallelism == Some(parallelism),
            r.path == self.path && r.master == self.master && r.deploy_mode == self.deploy_mode && r.ns == self.ns && r.service_account == self.service_account && r.image == self.image && r.scheduler_name == self.scheduler_name && r.workload_type == self.workload_type && r.driver_args == self.driver_args && r.exec_args == self.exec_args && r.prog == self.prog,
    {
        Self { parallelism: Some(parallelism), ..self }
    }

    /// Sets the scheduler name.
    pub fn scheduler(self, scheduler_name: String) -> (r: Self)
        ensures
            r.scheduler_name == Some(scheduler_name),
            r.path == self.path && r.master == self.master && r.deploy_mode == self.deploy_mode && r.ns == self.ns && r.service_account == self.service_account && r.image == self.image && r.parallelism == self.parallelism && r.workload_type == self.workload_type && r.driver_args == self.driver_args && r.exec_args == self.exec_args && r.prog == self.prog,
    {
        Self { scheduler_name: Some(scheduler_name), ..self }
    }

    /// Sets the workload type.
    pub fn workload_type(self, workload_type: String) -> (r: Self)
        ensures
            r.workload_type == Some(workload_type),
            r.path == self.path && r.master == self.master && r.deploy_mode == self.deploy_mode && r.ns == self.ns && r.service_account == self.service_account && r.image == self.image && r.parallelism == self.parallelism && r.scheduler_name == self.scheduler_name && r.driver_args == self.driver_args && r.exec_args == self.exec_args && r.prog == self.prog,
    {
        Self { workload_type: Some(workload_type), ..self }
    }

    /// Sets the driver args.
    pub fn driver_args(self, driver_args: PySparkDriverParams) -> (r: Self)
        ensures
            r.driver_args == Some(driver_args),
            r.path == self.path && r.master == self.master && r.deploy_mode == self.deploy_mode && r.ns == self.ns && r.service_account == self.service_account && r.image == self.image && r.parallelism == self.parallelism && r.scheduler_name == self.scheduler_name && r.workload_type == self.workload_type && r.exec_args == self.exec_args && r.prog == self.prog,
    {
        Self { driver_args: Some(driver_args), ..self }
    }

    /// Sets the exec args.
    pub fn exec_args(self, exec_args: PySparkExecutorParams) -> (r: Self)
        ensures
            r.exec_args == Some(exec_args),
            r.path == self.path && r.master == self.master && r.deploy_mode == self.deploy_mode && r.ns == self.ns && r.service_account == self.service_account && r.image == self.image && r.parallelism == self.parallelism && r.scheduler_name == self.scheduler_name && r.workload_type == self.workload_type && r.driver_args == self.driver_args && r.prog == self.prog,
    {
        Self { exec_args: Some(exec_args), ..self }
    }

    /// Sets the prog.
    pub fn prog(self, prog: String) -> (r: Self)
        ensures
            r.prog == Some(prog),
            r.path == self.path && r.master == self.master && r.deploy_mode == self.deploy_mode && r.ns == self.ns && r.service_account == self.service_account && r.image == self.image && r.parallelism == self.parallelism && r.scheduler_name == self.scheduler_name && r.workload_type == self.workload_type && r.driver_args == self.driver_args && r.exec_args == self.exec_args,
    {
        Self { prog: Some(prog), ..self }
    }

    /// Closes the builder, filling the defaults: `cluster` deploy mode,
    /// the `spark` namespace and service account, and empty strings for
    /// everything else left unset.
    pub fn build(self) -> (r: PySparkSubmit)
        ensures
            r.path@ == spec_or_empty(self.path),
            r.master@ == spec_or_empty(self.master),
            r.deploy_mode@ == spec_or_default(self.deploy_mode, "cluster"@),
            r.ns@ == spec_or_default(self.ns, "spark"@),
            r.service_account@ == spec_or_default(self.service_account, "spark"@),
            r.image@ == spec_or_empty(self.image),
            r.parallelism == spec_or_zero(self.parallelism),
            r.scheduler_name@ == spec_or_empty(self.scheduler_name),
            r.workload_type@ == spec_or_empty(self.workload_type),
            self.driver_args is Some ==> r.driver_args == self.driver_args.unwrap(),
            self.exec_args is Some ==> r.exec_args == self.exec_args.unwrap(),
            r.prog@ == spec_or_empty(self.prog),
    {
        PySparkSubmit {
            path: or_empty(self.path),
            master: or_empty(self.master),
            deploy_mode: or_default(self.deploy_mode, "cluster"),
            ns: or_default(self.ns, "spark"),
            service_account: or_default(self.service_account, "spark"),
            image: or_empty(self.image),
            parallelism: match self.parallelism {
                Some(p) => p,
                None => 0,
            },
            scheduler_name: or_empty(self.scheduler_name),
            workload_type: or_empty(self.workload_type),
            driver_args: match self.driver_args {
                Some(d) => d,
                None => PySparkDriverParams {
                    core: String::new(),
                    memory: String::new(),
                    pvc: PvcParams {
                        name: String::new(),
                        claim_name: String::new(),
                        mount_path: String::new(),
                    },
                },
            },
            exec_args: match self.exec_args {
                Some(e) => e,
                None => PySparkExecutorParams {
                    core: String::new(),
                    memory: String::new(),
                    nr: String::new(),
                    pvc: PvcParams {
                        name: String::new(),
                        claim_name: String::new(),
                        mount_path: String::new(),
                    },
                },
            },
            prog: or_empty(self.prog),
        }
    }
}

/// The view of an optional string, empty when unset.
pub open spec fn spec_or_empty(o: Option<String>) -> Seq<char> {
    match o {
        Some(s) => s@,
        None => Seq::empty(),
    }
}

/// The view of an optional string, with a default.
pub open spec fn spec_or_default(o: Option<String>, d: Seq<char>) -> Seq<char> {
    match o {
        Some(s) => s@,
        None => d,
    }
}

/// An optional count, zero when unset.
pub open spec fn spec_or_zero(o: Option<u32>) -> u32 {
    match o {
        Some(p) => p,
        None => 0,
    }
}

/// An optional string, or the empty string.
fn or_empty(o: Option<String>) -> (r: String)
    ensures
        r@ == spec_or_empty(o),
{
    match o {
        Some(s) => s,
        None => String::new(),
    }
}

/// An optional string, or a default.
fn or_default(o: Option<String>, d: &str) -> (r: String)
    ensures
        r@ == spec_or_default(o, d@),
{
    match o {
        Some(s) => s,
        None => d.to_owned(),
    }
}

/// A closed submission, ready to be laid out as an argument vector.
pub struct PySparkSubmit {
    /// The spark-submit path.
    pub path: String,
    /// The master url.
    pub master: String,
    /// The deploy mode of the cluster.
    pub deploy_mode: String,
    /// The namespace of the cluster.
    pub ns: String,
    /// The service account of the cluster.
    pub service_account: String,
    /// The image repository of driver and executors.
    pub image: String,
    /// The parallelism of the job.
    pub parallelism: u32,
    /// The scheduler of the job; empty means the cluster's default.
    pub scheduler_name: String,
    /// The workload type label value of the job.
    pub workload_type: String,
    /// The parameters of the driver.
    pub driver_args: PySparkDriverParams,
    /// The parameters of the executors.
    pub exec_args: PySparkExecutorParams,
    /// The program (or script) to run, with its arguments.
    pub prog: String,
}

/// The position of the first space at or past `k`; the length when
/// there is none.
pub open spec fn first_space(s: Seq<char>, k: int) -> int
    decreases s.len() - k,
{
    if k < 0 || k >= s.len() {
        s.len() as int
    } else if s[k] == ' ' {
        k
    } else {
        first_space(s, k + 1)
    }
}

/// The program string cut at each space; empty pieces are kept, as the
/// submit binary's argument list keeps them.
pub open spec fn split_spaces(s: Seq<char>) -> Seq<Seq<char>>
    decreases s.len(),
{
    let f = first_space(s, 0);
    if 0 <= f < s.len() {
        seq![s.take(f)] + split_spaces(s.skip(f + 1))
    } else {
        seq![s]
    }
}

/// The position of the first space at or past `k`.
fn first_space_at(s: &str, k: usize) -> (r: usize)
    requires
        k <= s@.len(),
    ensures
        r == first_space(s@, k as int),
        r <= s@.len(),
    decreases s@.len() - k,
{
    let n = s.unicode_len();
    if k >= n {
        return n;
    }
    if s.get_char(k) == ' ' {
        k
    } else {
        first_space_at(s, k + 1)
    }
}

/// Cuts a program string at each space into the argument pieces.
pub fn split_words(s: &str) -> (r: Vec<String>)
    ensures
        r@.len() == split_spaces(s@).len(),
        forall|i: int| 0 <= i < r@.len() ==> (#[trigger] r@[i])@ == split_spaces(s@)[i],
    decreases s@.len(),
{
    let n = s.unicode_len();
    let f = first_space_at(s, 0);
    if f < n {
        let head = s.substring_char(0, f);
        let tail = s.substring_char(f + 1, n);
        proof {
            assert(head@ =~= s@.take(first_space(s@, 0)));
            assert(tail@ =~= s@.skip(first_space(s@, 0) + 1));
        }
        let mut out: Vec<String> = Vec::new();
        out.push(head.to_owned());
        let mut rest = split_words(tail);
        out.append(&mut rest);
        proof {
            assert forall|i: int| 0 <= i < out@.len() implies (#[trigger] out@[i])@ == split_spaces(
                s@,
            )[i] by {
                if i > 0 {
                    assert(out@[i]@ == split_spaces(tail@)[i - 1]);
                    assert(split_spaces(s@)[i] == split_spaces(tail@)[i - 1]);
                }
            }
        }
        out
    } else {
        let mut out: Vec<String> = Vec::new();
        out.push(s.to_owned());
        out
    }
}

/// Joins a fixed prefix to a value.
fn concat2(a: &str, b: &str) -> (r: String)
    ensures
        r@ == a@ + b@,
{
    let mut s = a.to_owned();
    s.append(b);
    s
}

/// Joins a prefix, a name, a middle piece and a value.
fn concat4(a: &str, b: &str, c: &str, d: &str) -> (r: String)
    ensures
        r@ == a@ + b@ + c@ + d@,
{
    let mut s = a.to_owned();
    s.append(b);
    s.append(c);
    s.append(d);
    s
}

/// The laid-out argument vector of one submission: everything after the
/// program path, in order.
pub open spec fn spec_submit_args(s: PySparkSubmit, id: Seq<char>) -> Seq<Seq<char>> {
    seq![
        "--master"@,
        s.master@,
        "--deploy-mode"@,
        s.deploy_mode@,
        "--name"@,
        "spark"@,
        "--conf"@,
        "spark.kubernetes.namespace="@ + s.ns@,
        "--conf"@,
        "spark.kubernetes.authenticate.driver.serviceAccountName="@ + s.service_account@,
        "--conf"@,
        "spark.kubernetes.container.image="@ + s.image@,
        "--conf"@,
        "spark.default.parallelism="@ + dec_digits(s.parallelism as nat),
        "--conf"@,
        "spark.driver.cores="@ + s.driver_args.core@,
        "--conf"@,
        "spark.driver.memory="@ + s.driver_args.memory@,
        "--conf"@,
        "spark.kubernetes.driver.volumes.persistentVolumeClaim."@ + s.driver_args.pvc.name@
            + ".options.claimName="@ + s.driver_args.pvc.claim_name@,
        "--conf"@,
        "spark.kubernetes.driver.volumes.persistentVolumeClaim."@ + s.driver_args.pvc.name@
            + ".mount.path="@ + s.driver_args.pvc.mount_path@,
        "--conf"@,
        "spark.executor.instances="@ + s.exec_args.nr@,
        "--conf"@,
        "spark.executor.cores="@ + s.exec_args.core@,
        "--conf"@,
        "spark.executor.memory="@ + s.exec_args.memory@,
        "--conf"@,
        "spark.kubernetes.executor.volumes.persistentVolumeClaim."@ + s.exec_args.pvc.name@
            + ".options.claimName="@ + s.exec_args.pvc.claim_name@,
        "--conf"@,
        "spark.kubernetes.executor.volumes.persistentVolumeClaim."@ + s.exec_args.pvc.name@
            + ".mount.path="@ + s.exec_args.pvc.mount_path@,
        "--conf"@,
        "spark.kubernetes.driver.label.spark-uuid="@ + id,
        "--conf"@,
        "spark.kubernetes.executor.label.spark-uuid="@ + id,
        "--conf"@,
        "spark.kubernetes.driver.label.spark-workload-type="@ + s.workload_type@,
        "--conf"@,
        "spark.kubernetes.executor.label.spark-workload-type="@ + s.workload_type@,
    ] + (if s.scheduler_name@.len() > 0 {
        seq!["--conf"@, "spark.kubernetes.scheduler.name="@ + s.scheduler_name@]
    } else {
        Seq::empty()
    }) + split_spaces(s.prog@)
}

impl PySparkSubmit {
    /// Lays the submission out as the submit binary's argument vector,
    /// stamped with the given group identifier.
    pub fn into_command_with_id(self, group_id: &str) -> (r: PySparkCommand)
        ensures
            r.prog@ == self.path@,
            r.args@.len() == spec_submit_args(self, group_id@).len(),
            forall|i: int|
                0 <= i < r.args@.len() ==> (#[trigger] r.args@[i])@ == spec_submit_args(
                    self,
                    group_id@,
                )[i],
    {
        let ghost pre = self;
        let mut cmd = PySparkCommand::new(self.path.as_str()).add_kv(
            "--master",
            self.master.as_str(),
        ).add_kv("--deploy-mode", self.deploy_mode.as_str()).add_kv("--name", "spark").add_conf(
            concat2("spark.kubernetes.namespace=", self.ns.as_str()),
        ).add_conf(
            concat2(
                "spark.kubernetes.authenticate.driver.serviceAccountName=",
                self.service_account.as_str(),
            ),
        ).add_conf(concat2("spark.kubernetes.container.image=", self.image.as_str())).add_conf(
            concat2("spark.default.parallelism=", u32_to_dec(self.parallelism).as_str()),
        ).add_conf(concat2("spark.driver.cores=", self.driver_args.core.as_str())).add_conf(
            concat2("spark.driver.memory=", self.driver_args.memory.as_str()),
        ).add_conf(
            concat4(
                "spark.kubernetes.driver.volumes.persistentVolumeClaim.",
                self.driver_args.pvc.name.as_str(),
                ".options.claimName=",
                self.driver_args.pvc.claim_name.as_str(),
            ),
        ).add_conf(
            concat4(
                "spark.kubernetes.driver.volumes.persistentVolumeClaim.",
                self.driver_args.pvc.name.as_str(),
                ".mount.path=",
                self.driver_args.pvc.mount_path.as_str(),
            ),
        ).add_conf(concat2("spark.executor.instances=", self.exec_args.nr.as_str())).add_conf(
            concat2("spark.executor.cores=", self.exec_args.core.as_str()),
        ).add_conf(concat2("spark.executor.memory=", self.exec_args.memory.as_str())).add_conf(
            concat4(
                "spark.kubernetes.executor.volumes.persistentVolumeClaim.",
                self.exec_args.pvc.name.as_str(),
                ".options.claimName=",
                self.exec_args.pvc.claim_name.as_str(),
            ),
        ).add_conf(
            concat4(
                "spark.kubernetes.executor.volumes.persistentVolumeClaim.",
                self.exec_args.pvc.name.as_str(),
                ".mount.path=",
                self.exec_args.pvc.mount_path.as_str(),
            ),
        ).add_conf(concat2("spark.kubernetes.driver.label.spark-uuid=", group_id)).add_conf(
            concat2("spark.kubernetes.executor.label.spark-uuid=", group_id),
        ).add_conf(
            concat2(
                "spark.kubernetes.driver.label.spark-workload-type=",
                self.workload_type.as_str(),
            ),
        ).add_conf(
            concat2(
                "spark.kubernetes.executor.label.spark-workload-type=",
                self.workload_type.as_str(),
            ),
        );

        if self.scheduler_name.unicode_len() > 0 {
            cmd = cmd.add_conf(
                concat2("spark.kubernetes.scheduler.name=", self.scheduler_name.as_str()),
            );
        }

        let words = split_words(self.prog.as_str());
        let mut i: usize = 0;
        let ghost head = cmd.args@;
        while i < words.len()
            invariant
                0 <= i <= words@.len(),
                cmd.args@.len() == head.len() + i,
                forall|t: int| 0 <= t < head.len() ==> (#[trigger] cmd.args@[t]) == head[t],
                forall|t: int|
                    0 <= t < i ==> (#[trigger] cmd.args@[head.len() + t]) == words@[t],
                cmd.prog@ == pre.path@,
                words@.len() == split_spaces(pre.prog@).len(),
                forall|t: int|
                    0 <= t < words@.len() ==> (#[trigger] words@[t])@ == split_spaces(pre.prog@)[t],
            decreases words@.len() - i,
        {
            cmd = cmd.arg(words[i].clone());
            i = i + 1;
        }

        proof {
            let want = spec_submit_args(pre, group_id@);
            assert(cmd.args@.len() == want.len());
            assert forall|t: int| 0 <= t < cmd.args@.len() implies (#[trigger] cmd.args@[t])@
                == want[t] by {
                if t < head.len() {
                    assert(cmd.args@[t] == head[t]);
                } else {
                    assert(cmd.args@[head.len() + (t - head.len())] == words@[t - head.len()]);
                }
            }
        }
        cmd
    }

    /// Lays the submission out with a freshly drawn group identifier.
    pub fn into_command(self) -> (r: PySparkCommand)
        ensures
            exists|id: Seq<char>|
                id.len() == 36 && r.prog@ == self.path@ && r.args@.len()
                    == #[trigger] spec_submit_args(self, id).len() && (forall|i: int|
                    0 <= i < r.args@.len() ==> (#[trigger] r.args@[i])@ == spec_submit_args(
                        self,
                        id,
                    )[i]),
    {
        let ghost pre = self;
        let id = fresh_group_id();
        let ghost idv = id@;
        let r = self.into_command_with_id(id.as_str());
        proof {
            assert(idv.len() == 36 && r.prog@ == pre.path@ && r.args@.len() == spec_submit_args(
                pre,
                idv,
            ).len() && (forall|i: int|
                0 <= i < r.args@.len() ==> (#[trigger] r.args@[i])@ == spec_submit_args(
                    pre,
                    idv,
                )[i]));
        }
        r
    }
}

/// Relies on `uuid::Uuid::new_v4` and its hyphenated display form: a
/// freshly drawn random group identifier, thirty-six characters long.
#[verifier::external_body]
fn fresh_group_id() -> (r: String)
    ensures
        r@.len() == 36,
{
    uuid::Uuid::new_v4().to_string()
}

/// An argument vector for the external submit binary: the program and
/// its arguments, in order.
pub struct PySparkCommand {
    /// The program to spawn.
    pub prog: String,
    /// Its arguments, in order.
    pub args: Vec<String>,
}

impl PySparkCommand {
    /// A command for `prog` with no arguments yet.
    fn new(prog: &str) -> (r: Self)
        ensures
            r.prog@ == prog@,
            r.args@ == Seq::<String>::empty(),
    {
        Self { prog: prog.to_owned(), args: Vec::new() }
    }

    /// Appends a flag and its value.
    fn add_kv(self, key: &str, value: &str) -> (r: Self)
        ensures
            r.prog == self.prog,
            r.args@.len() == self.args@.len() + 2,
            forall|i: int| 0 <= i < self.args@.len() ==> (#[trigger] r.args@[i]) == self.args@[i],
            r.args@[self.args@.len() as int]@ == key@,
            r.args@[self.args@.len() as int + 1]@ == value@,
    {
        let mut args = self.args;
        args.push(key.to_owned());
        args.push(value.to_owned());
        Self { prog: self.prog, args }
    }

    /// Appends one `--conf` pair.
    fn add_conf(self, conf: String) -> (r: Self)
        ensures
            r.prog == self.prog,
            r.args@.len() == self.args@.len() + 2,
            forall|i: int| 0 <= i < self.args@.len() ==> (#[trigger] r.args@[i]) == self.args@[i],
            r.args@[self.args@.len() as int]@ == "--conf"@,
            r.args@[self.args@.len() as int + 1] == conf,
    {
        let mut args = self.args;
        args.push("--conf".to_owned());
        args.push(conf);
        Self { prog: self.prog, args }
    }

    /// Appends one plain argument.
    fn arg(self, a: String) -> (r: Self)
        ensures
            r.prog == self.prog,
            r.args@.len() == self.args@.len() + 1,
            forall|i: int| 0 <= i < self.args@.len() ==> (#[trigger] r.args@[i]) == self.args@[i],
            r.args@[self.args@.len() as int] == a,
    {
        let mut args = self.args;
        args.push(a);
        Self { prog: self.prog, args }
    }
}

/// The default parallelism of one submission: five tasks per core over
/// driver and executors together.
pub fn parallelism_func(driver_cpu: String, exec_cpu: String, nexec: String) -> (r: u32)
    requires
        crate::numeric::is_dec_digits(driver_cpu@),
        crate::numeric::is_dec_digits(exec_cpu@),
        crate::numeric::is_dec_digits(nexec@),
        crate::numeric::dec_val(driver_cpu@) <= u32::MAX,
        crate::numeric::dec_val(exec_cpu@) <= u32::MAX,
        crate::numeric::dec_val(nexec@) <= u32::MAX,
        5 * (crate::numeric::dec_val(driver_cpu@) + crate::numeric::dec_val(exec_cpu@)
            * crate::numeric::dec_val(nexec@)) <= u32::MAX,
    ensures
        r == 5 * (crate::numeric::dec_val(driver_cpu@) + crate::numeric::dec_val(exec_cpu@)
            * crate::numeric::dec_val(nexec@)),
{
    let d = match crate::numeric::parse_u64(driver_cpu.as_str()) {
        Some(v) => v,
        None => {
            proof {
                assert(false);
            }
            0
        },
    };
    let e = match crate::numeric::parse_u64(exec_cpu.as_str()) {
        Some(v) => v,
        None => {
            proof {
                assert(false);
            }
            0
        },
    };
    let n = match crate::numeric::parse_u64(nexec.as_str()) {
        Some(v) => v,
        None => {
            proof {
                assert(false);
            }
            0
        },
    };
    proof {
        assert(e * n <= u32::MAX && 5 * (d + e * n) <= u32::MAX) by (nonlinear_arith)
            requires
                5 * (d + e * n) <= u32::MAX && d >= 0 && e >= 0 && n >= 0,
        ;
    }
    let total: u64 = d + e * n;
    (5 * total) as u32
}

} // verus!
