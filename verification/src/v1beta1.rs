//! The core metrics API, `metrics.k8s.io/v1beta1`: resource usage snapshots
//! for nodes and pods.

use vstd::prelude::*;

use crate::duration::Duration;
use crate::identity::Metadata;
use crate::identity::Resource;
use crate::identity::Scope;
use crate::meta::ObjectMeta;
use crate::meta::ObjectMetaView;
use crate::meta::Time;
use crate::quantity::Quantity;
use crate::quantity::QuantityParseError;
use crate::quantity::cpu_parsable;
use crate::quantity::cpu_value;
use crate::quantity::mem_parsable;
use crate::quantity::mem_value;

verus! {

/// The mathematical shape of `Usage`.
#[verifier::ext_equal]
pub struct UsageView {
    pub cpu: Seq<char>,
    pub memory: Seq<char>,
}

/// A snapshot of resource consumption: CPU and memory quantities, kept in
/// their wire form and parsed on demand.
#[derive(Clone, Debug, PartialEq, Eq)]
pub struct Usage {
    pub cpu: Quantity,
    pub memory: Quantity,
}

impl View for Usage {
    type V = UsageView;

    open spec fn view(&self) -> UsageView {
        UsageView { cpu: self.cpu@, memory: self.memory@ }
    }
}

impl Usage {
    /// The CPU quantity in whole nanocores.
    pub fn cpu(&self) -> (r: Result<i64, QuantityParseError>)
        ensures
            r is Ok <==> cpu_parsable(self@.cpu),
            r matches Ok(v) ==> v as int == cpu_value(self@.cpu),
            r matches Err(e) ==> e@ == self@.cpu,
    {
        self.cpu.to_nanocores()
    }

    /// The memory quantity in bytes.
    pub fn memory(&self) -> (r: Result<i64, QuantityParseError>)
        ensures
            r is Ok <==> mem_parsable(self@.memory),
            r matches Ok(v) ==> v as int == mem_value(self@.memory),
            r matches Err(e) ==> e@ == self@.memory,
    {
        self.memory.to_memory()
    }
}

impl Default for Usage {
    /// Zero quantities: both fields hold the empty string.
    fn default() -> (u: Usage)
        ensures
            u@.cpu.len() == 0,
            u@.memory.len() == 0,
    {
        Usage { cpu: Quantity(String::new()), memory: Quantity(String::new()) }
    }
}

/// The mathematical shape of `Container`.
#[verifier::ext_equal]
pub struct ContainerView {
    pub name: Seq<char>,
    pub usage: UsageView,
}

/// One container's usage within a pod metrics snapshot.
#[derive(Clone, Debug, PartialEq, Eq)]
pub struct Container {
    pub name: String,
    pub usage: Usage,
}

impl View for Container {
    type V = ContainerView;

    open spec fn view(&self) -> ContainerView {
        ContainerView { name: self.name@, usage: self.usage@ }
    }
}

/// The mathematical shape of `NodeMetrics`.
#[verifier::ext_equal]
pub struct NodeMetricsView {
    pub metadata: ObjectMetaView,
    pub timestamp: Seq<char>,
    pub window_text: Seq<char>,
    pub window_nanos: int,
    pub usage: UsageView,
}

/// Resource usage of one node; cluster-scoped.
#[derive(Clone, Debug, PartialEq, Eq)]
pub struct NodeMetrics {
    pub metadata: ObjectMeta,
    pub timestamp: Time,
    pub window: Duration,
    pub usage: Usage,
}

impl View for NodeMetrics {
    type V = NodeMetricsView;

    open spec fn view(&self) -> NodeMetricsView {
        NodeMetricsView {
            metadata: self.metadata@,
            timestamp: self.timestamp@,
            window_text: self.window.spec_text(),
            window_nanos: self.window.spec_nanos(),
            usage: self.usage@,
        }
    }
}

impl Resource for NodeMetrics {
    open spec fn spec_api_version() -> Seq<char> {
        "metrics.k8s.io/v1beta1"@
    }

    open spec fn spec_group() -> Seq<char> {
        "metrics.k8s.io"@
    }

    open spec fn spec_kind() -> Seq<char> {
        "NodeMetrics"@
    }

    open spec fn spec_version() -> Seq<char> {
        "v1beta1"@
    }

    open spec fn spec_url_path_segment() -> Seq<char> {
        "nodes"@
    }

    open spec fn spec_scope() -> Scope {
        Scope::Cluster
    }

    fn api_version() -> (r: &'static str) {
        "metrics.k8s.io/v1beta1"
    }

    fn group() -> (r: &'static str) {
        "metrics.k8s.io"
    }

    fn kind() -> (r: &'static str) {
        "NodeMetrics"
    }

    fn version() -> (r: &'static str) {
        "v1beta1"
    }

    fn url_path_segment() -> (r: &'static str) {
        "nodes"
    }

    fn scope() -> (r: Scope) {
        Scope::Cluster
    }
}

impl Metadata for NodeMetrics {
    open spec fn spec_metadata(&self) -> ObjectMeta {
        self.metadata
    }

    fn metadata(&self) -> (r: &ObjectMeta) {
        &self.metadata
    }

    fn set_metadata(&mut self, m: ObjectMeta) {
        self.metadata = m;
    }
}

impl Default for NodeMetrics {
    /// A zero-valued record: empty metadata, epoch timestamp, zero window,
    /// zero usage.
    fn default() -> (n: NodeMetrics)
        ensures
            n@.metadata == ObjectMetaView::empty(),
            n@.timestamp == "1970-01-01T00:00:00Z"@,
            n@.window_nanos == 0,
            n@.usage.cpu.len() == 0,
            n@.usage.memory.len() == 0,
    {
        let window = Duration::zero();
        NodeMetrics {
            metadata: ObjectMeta::default(),
            timestamp: Time::epoch(),
            window,
            usage: Usage::default(),
        }
    }
}

/// The mathematical shape of `PodMetrics`.
#[verifier::ext_equal]
pub struct PodMetricsView {
    pub metadata: ObjectMetaView,
    pub containers: Seq<ContainerView>,
    pub timestamp: Seq<char>,
    pub window_text: Seq<char>,
    pub window_nanos: int,
}

/// Resource usage of one pod, container by container; namespace-scoped.
#[derive(Clone, Debug, PartialEq, Eq)]
pub struct PodMetrics {
    pub metadata: ObjectMeta,
    pub containers: Vec<Container>,
    pub timestamp: Time,
    pub window: Duration,
}

impl View for PodMetrics {
    type V = PodMetricsView;

    open spec fn view(&self) -> PodMetricsView {
        PodMetricsView {
            metadata: self.metadata@,
            containers: Seq::new(self.containers@.len(), |i: int| self.containers@[i]@),
            timestamp: self.timestamp@,
            window_text: self.window.spec_text(),
            window_nanos: self.window.spec_nanos(),
        }
    }
}

impl Resource for PodMetrics {
    open spec fn spec_api_version() -> Seq<char> {
        "metrics.k8s.io/v1beta1"@
    }

    open spec fn spec_group() -> Seq<char> {
        "metrics.k8s.io"@
    }

    open spec fn spec_kind() -> Seq<char> {
        "PodMetrics"@
    }

    open spec fn spec_version() -> Seq<char> {
        "v1beta1"@
    }

    open spec fn spec_url_path_segment() -> Seq<char> {
        "pods"@
    }

    open spec fn spec_scope() -> Scope {
        Scope::Namespaced
    }

    fn api_version() -> (r: &'static str) {
        "metrics.k8s.io/v1beta1"
    }

    fn group() -> (r: &'static str) {
        "metrics.k8s.io"
    }

    fn kind() -> (r: &'static str) {
        "PodMetrics"
    }

    fn version() -> (r: &'static str) {
        "v1beta1"
    }

    fn url_path_segment() -> (r: &'static str) {
        "pods"
    }

    fn scope() -> (r: Scope) {
        Scope::Namespaced
    }
}

impl Metadata for PodMetrics {
    open spec fn spec_metadata(&self) -> ObjectMeta {
        self.metadata
    }

    fn metadata(&self) -> (r: &ObjectMeta) {
        &self.metadata
    }

    fn set_metadata(&mut self, m: ObjectMeta) {
        self.metadata = m;
    }
}

impl Default for PodMetrics {
    /// A zero-valued record: empty metadata, no containers, epoch
    /// timestamp, zero window.
    fn default() -> (p: PodMetrics)
        ensures
            p@.metadata == ObjectMetaView::empty(),
            p@.containers.len() == 0,
            p@.timestamp == "1970-01-01T00:00:00Z"@,
            p@.window_nanos == 0,
    {
        let window = Duration::zero();
        PodMetrics {
            metadata: ObjectMeta::default(),
            containers: Vec::new(),
            timestamp: Time::epoch(),
            window,
        }
    }
}

} // verus!
