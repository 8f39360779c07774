//! Well-known label keys.
//!
//! Prefer these keys to avoid fragmentation across collectors.
use vstd::prelude::*;

verus! {

// Cluster / platform
pub const CLUSTER: &'static str = "cluster";
pub const PLATFORM: &'static str = "platform";

// K8s identity-ish dimensions (still useful as group-by dimensions)
pub const NODE: &'static str = "node";
pub const NAMESPACE: &'static str = "namespace";
pub const POD: &'static str = "pod";
pub const CONTAINER: &'static str = "container";

// Workload attribution
pub const WORKLOAD_KIND: &'static str = "workload_kind";
pub const WORKLOAD_NAME: &'static str = "workload_name";

// Topology / cost dimensions
pub const NODEPOOL: &'static str = "nodepool";
pub const INSTANCE_TYPE: &'static str = "instance_type";
pub const ZONE: &'static str = "zone";
pub const REGION: &'static str = "region";

// Chargeback / ownership
pub const TEAM: &'static str = "team";
pub const OWNER: &'static str = "owner";
pub const PROJECT: &'static str = "project";
pub const COST_CENTER: &'static str = "cost_center";

// Docker / Compose
pub const COMPOSE_PROJECT: &'static str = "compose_project";
pub const SERVICE: &'static str = "service";

} // verus!
