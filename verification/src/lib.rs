//! Workload placement for a batch compute framework on a container cluster.
//!
//! The crate has two halves that share a data model:
//!
//! * a submitter side, which turns a cluster snapshot into per-workload
//!   resource plans and then into the argument vector of the external
//!   submit binary, and
//! * a scheduler side, which filters candidate nodes by remaining capacity,
//!   scores them with a network- and workload-aware policy, and records
//!   each placement.
//!
//! All decision logic lives here with contracts; the callers perform the
//! cluster I/O and hand plain values in.

pub mod cluster;
pub mod cmd;
pub mod numeric;
pub mod predicate;
pub mod priority;
pub mod profile;
pub mod quantity;
pub mod sched;
pub mod resource;
pub mod workload;

use vstd::prelude::*;

verus! {

/// Label key carrying the group identifier of a submission.
pub fn group_label_key() -> (r: String)
    ensures
        r@ == "spark-uuid"@,
{
    "spark-uuid".to_owned()
}

/// Label key carrying the workload type of a submission.
pub fn workload_type_label_key() -> (r: String)
    ensures
        r@ == "spark-workload-type"@,
{
    "spark-workload-type".to_owned()
}

/// Name under which this scheduler registers itself.
pub fn scheduler_name() -> (r: String)
    ensures
        r@ == "spark-sched"@,
{
    "spark-sched".to_owned()
}

/// Namespace whose pods the scheduler watches.
pub fn spark_namespace() -> (r: String)
    ensures
        r@ == "spark"@,
{
    "spark".to_owned()
}

/// Cores reserved for the driver pod of every workload.
pub const DEFAULT_DRIVER_CORE: u32 = 1;

} // verus!
