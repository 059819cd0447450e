//! Object identity shared by every metric record: metadata, timestamps,
//! object references and label selectors, held as plain values so that the
//! wire codec and the constructors can be reasoned about field by field.

use vstd::prelude::*;

verus! {

/// An RFC 3339 timestamp, kept in its textual wire form.
#[derive(Clone, Debug, PartialEq, Eq)]
pub struct Time(pub String);

impl View for Time {
    type V = Seq<char>;

    open spec fn view(&self) -> Seq<char> {
        self.0@
    }
}

impl Time {
    /// Wraps a timestamp string verbatim.
    pub fn from_text(text: &str) -> (t: Time)
        ensures
            t@ == text@,
    {
        Time(String::from_str(text))
    }

    /// The Unix epoch, the zero value of a timestamp.
    pub fn epoch() -> (t: Time)
        ensures
            t@ == "1970-01-01T00:00:00Z"@,
    {
        Time(String::from_str("1970-01-01T00:00:00Z"))
    }
}

/// The mathematical shape of `ObjectMeta`.
#[verifier::ext_equal]
pub struct ObjectMetaView {
    pub name: Option<Seq<char>>,
    pub namespace: Option<Seq<char>>,
    pub labels: Option<Seq<(Seq<char>, Seq<char>)>>,
    pub creation_timestamp: Option<Seq<char>>,
    pub uid: Option<Seq<char>>,
    pub resource_version: Option<Seq<char>>,
}

/// Standard Kubernetes object metadata, reduced to the fields the metrics
/// APIs carry. Labels keep their wire order.
#[derive(Clone, Debug, PartialEq, Eq)]
pub struct ObjectMeta {
    pub name: Option<String>,
    pub namespace: Option<String>,
    pub labels: Option<Vec<(String, String)>>,
    pub creation_timestamp: Option<Time>,
    pub uid: Option<String>,
    pub resource_version: Option<String>,
}

impl View for ObjectMeta {
    type V = ObjectMetaView;

    open spec fn view(&self) -> ObjectMetaView {
        ObjectMetaView {
            name: self.name.deep_view(),
            namespace: self.namespace.deep_view(),
            labels: match self.labels {
                Some(ls) => Some(ls.deep_view()),
                None => None,
            },
            creation_timestamp: match self.creation_timestamp {
                Some(t) => Some(t@),
                None => None,
            },
            uid: self.uid.deep_view(),
            resource_version: self.resource_version.deep_view(),
        }
    }
}

impl ObjectMetaView {
    /// Metadata with every field absent.
    pub open spec fn empty() -> ObjectMetaView {
        ObjectMetaView {
            name: None,
            namespace: None,
            labels: None,
            creation_timestamp: None,
            uid: None,
            resource_version: None,
        }
    }
}

impl Default for ObjectMeta {
    /// Metadata with every field absent.
    fn default() -> (m: ObjectMeta)
        ensures
            m@ == ObjectMetaView::empty(),
    {
        ObjectMeta {
            name: None,
            namespace: None,
            labels: None,
            creation_timestamp: None,
            uid: None,
            resource_version: None,
        }
    }
}

/// The mathematical shape of `ObjectReference`.
#[verifier::ext_equal]
pub struct ObjectReferenceView {
    pub name: Option<Seq<char>>,
    pub namespace: Option<Seq<char>>,
    pub api_version: Option<Seq<char>>,
    pub kind: Option<Seq<char>>,
    pub uid: Option<Seq<char>>,
    pub resource_version: Option<Seq<char>>,
}

/// A reference to the Kubernetes object a metric value describes.
#[derive(Clone, Debug, PartialEq, Eq)]
pub struct ObjectReference {
    pub name: Option<String>,
    pub namespace: Option<String>,
    pub api_version: Option<String>,
    pub kind: Option<String>,
    pub uid: Option<String>,
    pub resource_version: Option<String>,
}

impl View for ObjectReference {
    type V = ObjectReferenceView;

    open spec fn view(&self) -> ObjectReferenceView {
        ObjectReferenceView {
            name: self.name.deep_view(),
            namespace: self.namespace.deep_view(),
            api_version: self.api_version.deep_view(),
            kind: self.kind.deep_view(),
            uid: self.uid.deep_view(),
            resource_version: self.resource_version.deep_view(),
        }
    }
}

impl ObjectReferenceView {
    /// A reference with every field absent.
    pub open spec fn empty() -> ObjectReferenceView {
        ObjectReferenceView {
            name: None,
            namespace: None,
            api_version: None,
            kind: None,
            uid: None,
            resource_version: None,
        }
    }
}

impl Default for ObjectReference {
    /// A reference with every field absent.
    fn default() -> (r: ObjectReference)
        ensures
            r@ == ObjectReferenceView::empty(),
    {
        ObjectReference {
            name: None,
            namespace: None,
            api_version: None,
            kind: None,
            uid: None,
            resource_version: None,
        }
    }
}

/// Copies an optional string; the derived `Clone` says nothing to the
/// verifier, this does.
pub fn clone_opt_string(o: &Option<String>) -> (r: Option<String>)
    ensures
        r == *o,
{
    match o {
        Some(s) => Some(s.clone()),
        None => None,
    }
}

impl ObjectReference {
    /// A field-for-field copy.
    pub fn copied(&self) -> (r: ObjectReference)
        ensures
            r == *self,
    {
        ObjectReference {
            name: clone_opt_string(&self.name),
            namespace: clone_opt_string(&self.namespace),
            api_version: clone_opt_string(&self.api_version),
            kind: clone_opt_string(&self.kind),
            uid: clone_opt_string(&self.uid),
            resource_version: clone_opt_string(&self.resource_version),
        }
    }
}

/// The mathematical shape of `LabelSelector`.
#[verifier::ext_equal]
pub struct LabelSelectorView {
    pub match_labels: Option<Seq<(Seq<char>, Seq<char>)>>,
}

/// A label selector scoping a metric query; only equality matches
/// (`matchLabels`) are modelled.
#[derive(Clone, Debug, PartialEq, Eq)]
pub struct LabelSelector {
    pub match_labels: Option<Vec<(String, String)>>,
}

impl View for LabelSelector {
    type V = LabelSelectorView;

    open spec fn view(&self) -> LabelSelectorView {
        LabelSelectorView {
            match_labels: match self.match_labels {
                Some(ls) => Some(ls.deep_view()),
                None => None,
            },
        }
    }
}

impl Default for LabelSelector {
    /// A selector that matches everything: no match labels.
    fn default() -> (s: LabelSelector)
        ensures
            s@ == (LabelSelectorView { match_labels: None }),
    {
        LabelSelector { match_labels: None }
    }
}

} // verus!
