//! The external metrics API, `external.metrics.k8s.io/v1beta1`: values of
//! metrics that live outside the cluster, identified by a metric name and a
//! set of labels. External metrics are global time series, so the record is
//! cluster-scoped whatever its marker says.

use core::marker::PhantomData;

use vstd::prelude::*;

use crate::identity::ExternalMetric;
use crate::identity::Resource;
use crate::identity::Scope;
use crate::meta::ObjectMeta;
use crate::meta::ObjectMetaView;
use crate::meta::Time;
use crate::quantity::Quantity;

verus! {

/// The mathematical shape of `ExternalMetricValue`.
#[verifier::ext_equal]
pub struct ExternalMetricValueView {
    pub metadata: ObjectMetaView,
    pub metric_name: Seq<char>,
    pub metric_labels: Seq<(Seq<char>, Seq<char>)>,
    pub timestamp: Seq<char>,
    pub window_seconds: int,
    pub value: Seq<char>,
}

/// One value of an external metric. Labels keep their wire order; a single
/// metric name can carry many values with different label sets.
#[verifier::reject_recursive_types(M)]
#[derive(Debug)]
pub struct ExternalMetricValue<M> {
    pub metadata: ObjectMeta,
    /// The name of the metric.
    pub metric_name: String,
    /// The labels that identify a single time series of the metric.
    pub metric_labels: Vec<(String, String)>,
    /// When the metric was produced.
    pub timestamp: Time,
    /// The averaging window in seconds, or zero for instantaneous metrics.
    pub window_seconds: i64,
    /// The metric's value.
    pub value: Quantity,
    pub phantom: PhantomData<M>,
}

impl<M> View for ExternalMetricValue<M> {
    type V = ExternalMetricValueView;

    open spec fn view(&self) -> ExternalMetricValueView {
        ExternalMetricValueView {
            metadata: self.metadata@,
            metric_name: self.metric_name@,
            metric_labels: self.metric_labels.deep_view(),
            timestamp: self.timestamp@,
            window_seconds: self.window_seconds as int,
            value: self.value@,
        }
    }
}

impl<M: ExternalMetric> Resource for ExternalMetricValue<M> {
    open spec fn spec_api_version() -> Seq<char> {
        "external.metrics.k8s.io/v1beta1"@
    }

    open spec fn spec_group() -> Seq<char> {
        "external.metrics.k8s.io"@
    }

    open spec fn spec_kind() -> Seq<char> {
        M::spec_kind()
    }

    open spec fn spec_version() -> Seq<char> {
        "v1beta1"@
    }

    open spec fn spec_url_path_segment() -> Seq<char> {
        M::spec_url_path_segment()
    }

    open spec fn spec_scope() -> Scope {
        Scope::Cluster
    }

    fn api_version() -> (r: &'static str) {
        "external.metrics.k8s.io/v1beta1"
    }

    fn group() -> (r: &'static str) {
        "external.metrics.k8s.io"
    }

    fn kind() -> (r: &'static str) {
        M::kind()
    }

    fn version() -> (r: &'static str) {
        "v1beta1"
    }

    fn url_path_segment() -> (r: &'static str) {
        M::url_path_segment()
    }

    fn scope() -> (r: Scope) {
        Scope::Cluster
    }
}

impl<M> ExternalMetricValue<M> {
    /// A zero-valued record for the metric called `name`: empty metadata,
    /// no labels, epoch timestamp, zero window, zero value.
    pub fn new(name: &str) -> (r: ExternalMetricValue<M>)
        ensures
            r@.metadata == ObjectMetaView::empty(),
            r@.metric_name == name@,
            r@.metric_labels.len() == 0,
            r@.timestamp == "1970-01-01T00:00:00Z"@,
            r@.window_seconds == 0,
            r@.value.len() == 0,
    {
        ExternalMetricValue {
            metadata: ObjectMeta::default(),
            metric_name: String::from_str(name),
            metric_labels: Vec::new(),
            timestamp: Time::epoch(),
            window_seconds: 0,
            value: Quantity(String::new()),
            phantom: PhantomData,
        }
    }
}

} // verus!
