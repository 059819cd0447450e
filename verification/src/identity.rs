//! Resource identity: the compile-time capability that ties a metric record
//! to its API group, version, kind, URL path segment and access scope.
//! Marker types carry these as constants; nothing of them reaches the wire.

use vstd::prelude::*;

use crate::meta::ObjectMeta;

verus! {

/// Whether a resource lives cluster-wide or within a namespace.
#[derive(Clone, Copy, Debug, PartialEq, Eq, Structural)]
pub enum Scope {
    Cluster,
    Namespaced,
}

/// The identity of a resource kind: five constants and a scope, fixed per
/// type. Implementations return the same value on every call, which the
/// paired spec functions pin down.
pub trait Resource {
    /// The `apiVersion` wire value, `group/version`.
    spec fn spec_api_version() -> Seq<char>;

    /// The API group.
    spec fn spec_group() -> Seq<char>;

    /// The kind name as it appears on the wire.
    spec fn spec_kind() -> Seq<char>;

    /// The API version within the group.
    spec fn spec_version() -> Seq<char>;

    /// The URL path segment used to list this kind.
    spec fn spec_url_path_segment() -> Seq<char>;

    /// The access scope.
    spec fn spec_scope() -> Scope;

    fn api_version() -> (r: &'static str)
        ensures
            r@ == Self::spec_api_version(),
    ;

    fn group() -> (r: &'static str)
        ensures
            r@ == Self::spec_group(),
    ;

    fn kind() -> (r: &'static str)
        ensures
            r@ == Self::spec_kind(),
    ;

    fn version() -> (r: &'static str)
        ensures
            r@ == Self::spec_version(),
    ;

    fn url_path_segment() -> (r: &'static str)
        ensures
            r@ == Self::spec_url_path_segment(),
    ;

    fn scope() -> (r: Scope)
        ensures
            r == Self::spec_scope(),
    ;
}

/// Access to the standard object metadata every listed resource carries.
pub trait Metadata: Resource {
    /// The stored metadata, as a mathematical value.
    spec fn spec_metadata(&self) -> ObjectMeta;

    fn metadata(&self) -> (r: &ObjectMeta)
        ensures
            *r == self.spec_metadata(),
    ;

    fn set_metadata(&mut self, m: ObjectMeta)
        ensures
            final(self).spec_metadata() == m,
    ;
}

/// A user-supplied marker describing a custom metric's subject kind: its
/// kind name, URL path segment and scope.
pub trait CustomMetric {
    /// The subject's kind name.
    spec fn spec_kind() -> Seq<char>;

    /// The subject's URL path segment.
    spec fn spec_url_path_segment() -> Seq<char>;

    /// The subject's access scope.
    spec fn spec_scope() -> Scope;

    fn kind() -> (r: &'static str)
        ensures
            r@ == Self::spec_kind(),
    ;

    fn url_path_segment() -> (r: &'static str)
        ensures
            r@ == Self::spec_url_path_segment(),
    ;

    fn scope() -> (r: Scope)
        ensures
            r == Self::spec_scope(),
    ;
}

/// A user-supplied marker naming an external metric source; external
/// metrics are always cluster-scoped, so only kind and path segment vary.
pub trait ExternalMetric {
    /// The source's kind name.
    spec fn spec_kind() -> Seq<char>;

    /// The source's URL path segment.
    spec fn spec_url_path_segment() -> Seq<char>;

    fn kind() -> (r: &'static str)
        ensures
            r@ == Self::spec_kind(),
    ;

    fn url_path_segment() -> (r: &'static str)
        ensures
            r@ == Self::spec_url_path_segment(),
    ;
}

} // verus!
