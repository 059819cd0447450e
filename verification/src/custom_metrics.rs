//! The custom metrics API, `custom.metrics.k8s.io/v1beta2`: a single
//! generic metric value for any in-cluster object, whose API coordinates
//! come from a marker type at compile time.

use core::marker::PhantomData;

use vstd::prelude::*;

use crate::identity::Metadata;
use crate::identity::Resource;
use crate::identity::Scope;
use crate::meta::LabelSelector;
use crate::meta::LabelSelectorView;
use crate::meta::ObjectMeta;
use crate::meta::ObjectMetaView;
use crate::meta::ObjectReference;
use crate::meta::ObjectReferenceView;
use crate::meta::Time;
use crate::meta::clone_opt_string;
use crate::quantity::Quantity;

verus! {

/// The mathematical shape of `MetricIdentifier`.
#[verifier::ext_equal]
pub struct MetricIdentifierView {
    pub name: Seq<char>,
    pub selector: Option<LabelSelectorView>,
}

/// Identifies a metric by name and, optionally, by a label selector.
#[derive(Clone, Debug, PartialEq, Eq)]
pub struct MetricIdentifier {
    /// The name of the metric.
    pub name: String,
    /// The selector passed in to the query that fetched this metric; when
    /// absent, the name alone identifies it.
    pub selector: Option<LabelSelector>,
}

impl View for MetricIdentifier {
    type V = MetricIdentifierView;

    open spec fn view(&self) -> MetricIdentifierView {
        MetricIdentifierView {
            name: self.name@,
            selector: match self.selector {
                Some(s) => Some(s@),
                None => None,
            },
        }
    }
}

impl MetricIdentifier {
    /// An identifier with the given name and no selector.
    pub fn new(name: &str) -> (m: MetricIdentifier)
        ensures
            m@.name == name@,
            m@.selector is None,
    {
        MetricIdentifier { name: String::from_str(name), selector: None }
    }
}

/// The mathematical shape of `MetricValue`.
#[verifier::ext_equal]
pub struct MetricValueView {
    pub metadata: ObjectMetaView,
    pub described_object: ObjectReferenceView,
    pub metric: MetricIdentifierView,
    pub timestamp: Seq<char>,
    pub window_seconds: int,
    pub value: Seq<char>,
}

/// The value of one custom metric for one object. The marker `M` pins the
/// subject's kind, path segment and scope at compile time and never appears
/// in the wire form.
#[verifier::reject_recursive_types(M)]
#[derive(Debug)]
pub struct MetricValue<M> {
    pub metadata: ObjectMeta,
    /// The object this metric describes.
    pub described_object: ObjectReference,
    pub metric: MetricIdentifier,
    /// When the metric was produced.
    pub timestamp: Time,
    /// The averaging window in seconds, or zero for instantaneous metrics.
    pub window_seconds: i64,
    /// The metric's value.
    pub value: Quantity,
    pub phantom: PhantomData<M>,
}

impl<M> View for MetricValue<M> {
    type V = MetricValueView;

    open spec fn view(&self) -> MetricValueView {
        MetricValueView {
            metadata: self.metadata@,
            described_object: self.described_object@,
            metric: self.metric@,
            timestamp: self.timestamp@,
            window_seconds: self.window_seconds as int,
            value: self.value@,
        }
    }
}

impl<M: Resource> Resource for MetricValue<M> {
    open spec fn spec_api_version() -> Seq<char> {
        "custom.metrics.k8s.io/v1beta2"@
    }

    open spec fn spec_group() -> Seq<char> {
        "custom.metrics.k8s.io"@
    }

    open spec fn spec_kind() -> Seq<char> {
        M::spec_kind()
    }

    open spec fn spec_version() -> Seq<char> {
        "v1beta2"@
    }

    open spec fn spec_url_path_segment() -> Seq<char> {
        M::spec_url_path_segment()
    }

    open spec fn spec_scope() -> Scope {
        M::spec_scope()
    }

    fn api_version() -> (r: &'static str) {
        "custom.metrics.k8s.io/v1beta2"
    }

    fn group() -> (r: &'static str) {
        "custom.metrics.k8s.io"
    }

    fn kind() -> (r: &'static str) {
        M::kind()
    }

    fn version() -> (r: &'static str) {
        "v1beta2"
    }

    fn url_path_segment() -> (r: &'static str) {
        M::url_path_segment()
    }

    fn scope() -> (r: Scope) {
        M::scope()
    }
}

impl<M: Resource> Metadata for MetricValue<M> {
    open spec fn spec_metadata(&self) -> ObjectMeta {
        self.metadata
    }

    fn metadata(&self) -> (r: &ObjectMeta) {
        &self.metadata
    }

    fn set_metadata(&mut self, m: ObjectMeta) {
        self.metadata = m;
    }
}

/// The reference the constructors record for a described object: its own
/// name, namespace, uid and resource version, and its type's coordinates.
pub open spec fn spec_object_ref<K: Metadata>(m: ObjectMetaView) -> ObjectReferenceView {
    ObjectReferenceView {
        name: m.name,
        namespace: m.namespace,
        api_version: Some(K::spec_api_version()),
        kind: Some(K::spec_kind()),
        uid: m.uid,
        resource_version: m.resource_version,
    }
}

/// Builds the reference `spec_object_ref` describes.
fn object_ref<K: Metadata>(object: &K) -> (r: ObjectReference)
    ensures
        r@ == spec_object_ref::<K>(object.spec_metadata()@),
{
    let m = object.metadata();
    ObjectReference {
        name: clone_opt_string(&m.name),
        namespace: clone_opt_string(&m.namespace),
        api_version: Some(String::from_str(K::api_version())),
        kind: Some(String::from_str(K::kind())),
        uid: clone_opt_string(&m.uid),
        resource_version: clone_opt_string(&m.resource_version),
    }
}

impl<M: Metadata> MetricValue<M> {
    /// A metric value named `name` for the object called `object` in
    /// `namespace`: metadata and described object share the namespace, the
    /// metric identifier carries the name, and everything else is zero.
    pub fn new(name: &str, namespace: &str, object: &str) -> (r: MetricValue<M>)
        ensures
            r@.metadata == (ObjectMetaView {
                name: Some(name@),
                namespace: Some(namespace@),
                ..ObjectMetaView::empty()
            }),
            r@.described_object == (ObjectReferenceView {
                name: Some(object@),
                namespace: Some(namespace@),
                api_version: Some(M::spec_api_version()),
                kind: Some(M::spec_kind()),
                ..ObjectReferenceView::empty()
            }),
            r@.metric.name == name@,
            r@.metric.selector is None,
            r@.timestamp == "1970-01-01T00:00:00Z"@,
            r@.window_seconds == 0,
            r@.value.len() == 0,
    {
        let metadata = ObjectMeta {
            name: Some(String::from_str(name)),
            namespace: Some(String::from_str(namespace)),
            ..ObjectMeta::default()
        };
        let described_object = ObjectReference {
            name: Some(String::from_str(object)),
            namespace: Some(String::from_str(namespace)),
            api_version: Some(String::from_str(M::api_version())),
            kind: Some(String::from_str(M::kind())),
            ..ObjectReference::default()
        };
        MetricValue {
            metadata,
            described_object,
            metric: MetricIdentifier::new(name),
            timestamp: Time::epoch(),
            window_seconds: 0,
            value: Quantity(String::new()),
            phantom: PhantomData,
        }
    }

    /// A metric value named `name` describing the object `object_ref`
    /// points at; the record's namespace is the reference's.
    pub fn with_object_ref(name: &str, object_ref: &ObjectReference) -> (r: MetricValue<M>)
        ensures
            r@.metadata == (ObjectMetaView {
                name: Some(name@),
                namespace: object_ref@.namespace,
                ..ObjectMetaView::empty()
            }),
            r@.described_object == object_ref@,
            r@.metric.name == name@,
            r@.metric.selector is None,
            r@.timestamp == "1970-01-01T00:00:00Z"@,
            r@.window_seconds == 0,
            r@.value.len() == 0,
    {
        let metadata = ObjectMeta {
            name: Some(String::from_str(name)),
            namespace: clone_opt_string(&object_ref.namespace),
            ..ObjectMeta::default()
        };
        MetricValue {
            metadata,
            described_object: object_ref.copied(),
            metric: MetricIdentifier::new(name),
            timestamp: Time::epoch(),
            window_seconds: 0,
            value: Quantity(String::new()),
            phantom: PhantomData,
        }
    }

    /// A metric value named `name` describing `object` itself: the
    /// reference is taken from the object's metadata and type.
    pub fn with_object(name: &str, object: &M) -> (r: MetricValue<M>)
        ensures
            r@.metadata == (ObjectMetaView {
                name: Some(name@),
                namespace: object.spec_metadata()@.namespace,
                ..ObjectMetaView::empty()
            }),
            r@.described_object == spec_object_ref::<M>(object.spec_metadata()@),
            r@.metric.name == name@,
            r@.metric.selector is None,
            r@.timestamp == "1970-01-01T00:00:00Z"@,
            r@.window_seconds == 0,
            r@.value.len() == 0,
    {
        let oref = object_ref(object);
        Self::with_object_ref(name, &oref)
    }
}

} // verus!
