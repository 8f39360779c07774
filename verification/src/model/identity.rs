use vstd::prelude::*;

verus! {

/// Origin platform of the metric sample.
///
/// This is intentionally coarse-grained.
/// Platform-specific details should live in labels.
#[derive(Debug, Clone, Copy, PartialEq, Eq, Hash, Structural)]
pub enum Platform {
    Kubernetes,
    Docker,
    DockerCompose,
    Ecs,
    Nomad,
    Vm,
    Unknown,
}

impl Platform {
    /// Position of the platform in declaration order.
    pub open spec fn spec_rank(self) -> int {
        match self {
            Platform::Kubernetes => 0,
            Platform::Docker => 1,
            Platform::DockerCompose => 2,
            Platform::Ecs => 3,
            Platform::Nomad => 4,
            Platform::Vm => 5,
            Platform::Unknown => 6,
        }
    }

    /// Position of the platform in declaration order.
    pub fn rank(&self) -> (r: u8)
        ensures
            r == self.spec_rank(),
    {
        match self {
            Platform::Kubernetes => 0,
            Platform::Docker => 1,
            Platform::DockerCompose => 2,
            Platform::Ecs => 3,
            Platform::Nomad => 4,
            Platform::Vm => 5,
            Platform::Unknown => 6,
        }
    }

    /// Different platforms have different positions.
    pub proof fn lemma_rank_injective(a: Platform, b: Platform)
        ensures
            a.spec_rank() == b.spec_rank() ==> a == b,
    {
    }
}

/// Resource abstraction across platforms.
///
/// Kubernetes: Node -> Host, Pod -> Workload, Container -> Container.
/// Docker / VM: Host -> Host, Container -> Container.
#[derive(Debug, Clone, Copy, PartialEq, Eq, Hash, Structural)]
pub enum ResourceKind {
    Host,
    Workload,
    Container,
    Volume,
    Network,
    Unknown,
}

impl ResourceKind {
    /// Position of the kind in declaration order.
    pub open spec fn spec_rank(self) -> int {
        match self {
            ResourceKind::Host => 0,
            ResourceKind::Workload => 1,
            ResourceKind::Container => 2,
            ResourceKind::Volume => 3,
            ResourceKind::Network => 4,
            ResourceKind::Unknown => 5,
        }
    }

    /// Position of the kind in declaration order.
    pub fn rank(&self) -> (r: u8)
        ensures
            r == self.spec_rank(),
    {
        match self {
            ResourceKind::Host => 0,
            ResourceKind::Workload => 1,
            ResourceKind::Container => 2,
            ResourceKind::Volume => 3,
            ResourceKind::Network => 4,
            ResourceKind::Unknown => 5,
        }
    }

    /// Different kinds have different positions.
    pub proof fn lemma_rank_injective(a: ResourceKind, b: ResourceKind)
        ensures
            a.spec_rank() == b.spec_rank() ==> a == b,
    {
    }
}

/// Canonical identifier for metric attribution.
///
/// This is the primary partition key for storage and rollup.
#[derive(Debug, Clone, PartialEq, Eq, Hash)]
pub struct ResourceId {
    pub platform: Platform,
    pub kind: ResourceKind,
    /// Stable string key, such as "node/ip-10-0-0-1", "pod/nsA/pod-123" or "container/redis".
    pub key: String,
}

impl View for ResourceId {
    type V = (Platform, ResourceKind, Seq<char>);

    open spec fn view(&self) -> (Platform, ResourceKind, Seq<char>) {
        (self.platform, self.kind, self.key@)
    }
}

impl ResourceId {
    pub fn new(platform: Platform, kind: ResourceKind, key: &str) -> (r: Self)
        ensures
            r@ == (platform, kind, key@),
    {
        ResourceId { platform, kind, key: key.to_owned() }
    }

    /// Whether two identifiers name the same resource.
    pub fn same_as(&self, other: &ResourceId) -> (r: bool)
        ensures
            r == (self@ == other@),
    {
        self.platform == other.platform && self.kind == other.kind && self.key == other.key
    }
}

} // verus!
