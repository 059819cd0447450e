//! The wire codec: between the metric value models and their JSON form.
//!
//! Encoding writes every field, `null` for an absent optional one, members
//! in a fixed order. Decoding accepts any member order, ignores unknown
//! members, treats `null` like an absent member, and fails on a missing
//! required member, a member of the wrong shape, or a `kind`/`apiVersion`
//! that contradicts the record's identity.

use vstd::prelude::*;

use crate::duration::Duration;
use crate::duration::dur_parsable;
use crate::duration::dur_value;
use crate::json::Json;
use crate::json::JsonV;
use crate::json::jv;
use crate::json::jv_members;
use crate::json::lemma_jv_members;
use crate::meta::LabelSelector;
use crate::meta::LabelSelectorView;
use crate::meta::ObjectMeta;
use crate::meta::ObjectMetaView;
use crate::meta::ObjectReference;
use crate::meta::ObjectReferenceView;
use crate::meta::Time;
use crate::quantity::Quantity;
use crate::v1beta1::Usage;
use crate::v1beta1::UsageView;
use crate::v1beta1::Container;
use crate::v1beta1::ContainerView;
use crate::v1beta1::NodeMetrics;
use crate::v1beta1::NodeMetricsView;
use crate::v1beta1::PodMetrics;
use crate::v1beta1::PodMetricsView;
use crate::custom_metrics::MetricIdentifier;
use crate::custom_metrics::MetricIdentifierView;
use crate::custom_metrics::MetricValue;
use crate::custom_metrics::MetricValueView;
use crate::external_metrics::ExternalMetricValue;
use crate::external_metrics::ExternalMetricValueView;
use crate::identity::ExternalMetric;
use crate::identity::Resource;

verus! {

/// A document that does not fit the expected shape; carries a short
/// description of what was wrong.
#[derive(Clone, Debug)]
pub struct DecodeError {
    message: String,
}

impl View for DecodeError {
    type V = Seq<char>;

    closed spec fn view(&self) -> Seq<char> {
        self.message@
    }
}

impl DecodeError {
    /// Records what was wrong.
    pub fn new(message: &str) -> (e: DecodeError)
        ensures
            e@ == message@,
    {
        DecodeError { message: String::from_str(message) }
    }

    /// The description.
    pub fn message(&self) -> (m: &str)
        ensures
            m@ == self@,
    {
        self.message.as_str()
    }
}

/// Compares two strings character by character.
pub fn str_eq(a: &str, b: &str) -> (r: bool)
    ensures
        r == (a@ == b@),
{
    let na = a.unicode_len();
    let nb = b.unicode_len();
    if na != nb {
        return false;
    }
    let mut i: usize = 0;
    while i < na
        invariant
            i <= na == a@.len(),
            na == nb == b@.len(),
            forall|k: int| 0 <= k < i ==> a@[k] == b@[k],
        decreases na - i,
    {
        if a.get_char(i) != b.get_char(i) {
            return false;
        }
        i = i + 1;
    }
    proof {
        assert(a@ =~= b@);
    }
    true
}

/// The first member of `ms` named `key`, if any.
pub open spec fn obj_get(ms: Seq<(Seq<char>, JsonV)>, key: Seq<char>) -> Option<JsonV>
    decreases ms.len(),
{
    if ms.len() == 0 {
        None
    } else if ms[0].0 == key {
        Some(ms[0].1)
    } else {
        obj_get(ms.drop_first(), key)
    }
}

/// Looks a member up by name.
fn get_field<'a>(ms: &'a Vec<(String, Json)>, key: &str) -> (r: Option<&'a Json>)
    ensures
        ({
            match r {
                Some(j) => obj_get(jv_members(ms@), key@) == Some(j@),
                None => obj_get(jv_members(ms@), key@) is None,
            }
        }),
{
    let n = ms.len();
    let mut i: usize = 0;
    proof {
        lemma_jv_members(ms@);
        lemma_obj_get_from(jv_members(ms@), key@, 0);
        assert(jv_members(ms@).skip(0) =~= jv_members(ms@));
    }
    while i < n
        invariant
            i <= n == ms@.len(),
            jv_members(ms@).len() == n,
            forall|k: int|
                0 <= k < ms@.len() ==> jv_members(ms@)[k] == (ms@[k].0@, jv(ms@[k].1)),
            obj_get(jv_members(ms@), key@) == obj_get_from(jv_members(ms@), key@, i as int),
        decreases n - i,
    {
        if str_eq(ms[i].0.as_str(), key) {
            proof {
                assert(obj_get_from(jv_members(ms@), key@, i as int) == Some(
                    jv_members(ms@)[i as int].1,
                ));
            }
            return Some(&ms[i].1);
        }
        proof {
            assert(obj_get_from(jv_members(ms@), key@, i as int) == obj_get_from(
                jv_members(ms@),
                key@,
                i as int + 1,
            ));
        }
        i = i + 1;
    }
    None
}

/// The first member named `key` at or after position `i`.
pub open spec fn obj_get_from(ms: Seq<(Seq<char>, JsonV)>, key: Seq<char>, i: int) -> Option<
    JsonV,
>
    decreases ms.len() - i when 0 <= i <= ms.len()
{
    if i >= ms.len() {
        None
    } else if ms[i].0 == key {
        Some(ms[i].1)
    } else {
        obj_get_from(ms, key, i + 1)
    }
}

/// Searching from the front is searching from position zero.
pub proof fn lemma_obj_get_from(ms: Seq<(Seq<char>, JsonV)>, key: Seq<char>, i: int)
    requires
        0 <= i <= ms.len(),
    ensures
        obj_get_from(ms, key, i) == obj_get(ms.skip(i), key),
    decreases ms.len() - i,
{
    if i < ms.len() {
        lemma_obj_get_from(ms, key, i + 1);
        assert(ms.skip(i)[0] == ms[i]);
        assert(ms.skip(i).drop_first() =~= ms.skip(i + 1));
    } else {
        assert(ms.skip(i) =~= Seq::<(Seq<char>, JsonV)>::empty());
    }
}

/// An optional text member: absent or `null` is `None`, a string is its
/// text, anything else does not fit.
pub open spec fn opt_text(ms: Seq<(Seq<char>, JsonV)>, key: Seq<char>) -> Option<
    Option<Seq<char>>,
> {
    match obj_get(ms, key) {
        None => Some(None),
        Some(JsonV::Null) => Some(None),
        Some(JsonV::Str(t)) => Some(Some(t)),
        Some(_) => None,
    }
}

/// A required text member.
pub open spec fn req_text(ms: Seq<(Seq<char>, JsonV)>, key: Seq<char>) -> Option<Seq<char>> {
    match obj_get(ms, key) {
        Some(JsonV::Str(t)) => Some(t),
        _ => None,
    }
}

/// Reads an optional text member into an optional `String`.
fn read_opt_text(ms: &Vec<(String, Json)>, key: &str) -> (r: Result<Option<String>, ()>)
    ensures
        ({
            match r {
                Ok(o) => opt_text(jv_members(ms@), key@) == Some(
                    match o {
                        Some(t) => Some(t@),
                        None => None::<Seq<char>>,
                    },
                ),
                Err(_) => opt_text(jv_members(ms@), key@) is None,
            }
        }),
{
    match get_field(ms, key) {
        None => Ok(None),
        Some(j) => match j {
            Json::Null => Ok(None),
            Json::Str(t) => Ok(Some(t.clone())),
            _ => Err(()),
        },
    }
}

/// Appending a member appends its value.
pub proof fn lemma_jv_members_push(ms: Seq<(String, Json)>, p: (String, Json))
    ensures
        jv_members(ms.push(p)) == jv_members(ms).push((p.0@, jv(p.1))),
{
    lemma_jv_members(ms.push(p));
    lemma_jv_members(ms);
    assert forall|k: int|
        0 <= k < ms.len() + 1 implies jv_members(ms.push(p))[k] == jv_members(ms).push(
        (p.0@, jv(p.1)),
    )[k] by {
        if k < ms.len() {
            assert(ms.push(p)[k] == ms[k]);
        } else {
            assert(ms.push(p)[k] == p);
        }
    }
    assert(jv_members(ms.push(p)) =~= jv_members(ms).push((p.0@, jv(p.1))));
}

/// Reads a required text member into a `String`.
fn read_req_text(ms: &Vec<(String, Json)>, key: &str) -> (r: Result<String, ()>)
    ensures
        ({
            match r {
                Ok(t) => req_text(jv_members(ms@), key@) == Some(t@),
                Err(_) => req_text(jv_members(ms@), key@) is None,
            }
        }),
{
    match get_field(ms, key) {
        Some(j) => match j {
            Json::Str(t) => Ok(t.clone()),
            _ => Err(()),
        },
        None => Err(()),
    }
}

/// The JSON form of an optional text: the text, or `null`.
pub open spec fn opt_text_json(o: Option<Seq<char>>) -> JsonV {
    match o {
        Some(t) => JsonV::Str(t),
        None => JsonV::Null,
    }
}

/// Builds the JSON form of an optional string.
fn opt_text_to_json(o: &Option<String>) -> (j: Json)
    ensures
        j@ == opt_text_json(o.deep_view()),
{
    match o {
        Some(t) => Json::Str(t.clone()),
        None => Json::Null,
    }
}

/// The JSON form of a usage snapshot: its two quantity strings.
pub open spec fn usage_to_json(u: UsageView) -> JsonV {
    JsonV::Obj(seq![("cpu"@, JsonV::Str(u.cpu)), ("memory"@, JsonV::Str(u.memory))])
}

/// The usage snapshot a document denotes: an object whose `cpu` and
/// `memory` members are strings.
pub open spec fn usage_of_json(j: JsonV) -> Option<UsageView> {
    match j {
        JsonV::Obj(ms) => if req_text(ms, "cpu"@) is Some && req_text(ms, "memory"@)
            is Some {
            Some(
                UsageView {
                    cpu: req_text(ms, "cpu"@)->0,
                    memory: req_text(ms, "memory"@)->0,
                },
            )
        } else {
            None
        },
        _ => None,
    }
}

/// Decoding an encoded usage snapshot gives it back.
pub proof fn lemma_usage_round_trip(u: UsageView)
    ensures
        usage_of_json(usage_to_json(u)) == Some(u),
{
    reveal_strlit("cpu");
    reveal_strlit("memory");
    let ms = seq![("cpu"@, JsonV::Str(u.cpu)), ("memory"@, JsonV::Str(u.memory))];
    let ms1 = ms.drop_first();
    assert(ms1 =~= seq![("memory"@, JsonV::Str(u.memory))]);
    assert(obj_get(ms, "cpu"@) == Some(JsonV::Str(u.cpu)));
    assert("memory"@.len() != "cpu"@.len());
    assert(obj_get(ms1, "memory"@) == Some(JsonV::Str(u.memory)));
    assert(obj_get(ms, "memory"@) == Some(JsonV::Str(u.memory)));
}

impl Usage {
    /// The JSON form of this snapshot.
    pub fn to_json(&self) -> (j: Json)
        ensures
            j@ == usage_to_json(self@),
    {
        let mut ms: Vec<(String, Json)> = Vec::new();
        ms.push((String::from_str("cpu"), Json::Str(self.cpu.0.clone())));
        ms.push((String::from_str("memory"), Json::Str(self.memory.0.clone())));
        proof {
            lemma_jv_members(ms@);
            assert(jv_members(ms@) =~= seq![
                ("cpu"@, JsonV::Str(self@.cpu)),
                ("memory"@, JsonV::Str(self@.memory)),
            ]);
        }
        Json::Obj(ms)
    }

    /// Reads a snapshot out of its JSON form.
    pub fn from_json(j: &Json) -> (r: Result<Usage, DecodeError>)
        ensures
            r is Ok <==> usage_of_json(j@) is Some,
            r matches Ok(u) ==> usage_of_json(j@) == Some(u@),
    {
        let ms = match j {
            Json::Obj(ms) => ms,
            _ => {
                return Err(DecodeError::new("usage: not an object"));
            },
        };
        let cpu = match read_req_text(ms, "cpu") {
            Ok(t) => t,
            Err(_) => {
                return Err(DecodeError::new("usage: cpu must be a string"));
            },
        };
        let memory = match read_req_text(ms, "memory") {
            Ok(t) => t,
            Err(_) => {
                return Err(DecodeError::new("usage: memory must be a string"));
            },
        };
        Ok(Usage { cpu: Quantity(cpu), memory: Quantity(memory) })
    }
}

/// The members of a label object, in stored order.
pub open spec fn labels_members(ls: Seq<(Seq<char>, Seq<char>)>) -> Seq<(Seq<char>, JsonV)> {
    Seq::new(ls.len(), |i: int| (ls[i].0, JsonV::Str(ls[i].1)))
}

/// The label list a member list denotes: every value must be a string.
pub open spec fn labels_entries(ms: Seq<(Seq<char>, JsonV)>) -> Option<
    Seq<(Seq<char>, Seq<char>)>,
>
    decreases ms.len(),
{
    if ms.len() == 0 {
        Some(Seq::empty())
    } else {
        match ms[0].1 {
            JsonV::Str(t) => match labels_entries(ms.drop_first()) {
                Some(rest) => Some(seq![(ms[0].0, t)] + rest),
                None => None,
            },
            _ => None,
        }
    }
}

/// The label list a document denotes.
pub open spec fn labels_of_json(j: JsonV) -> Option<Seq<(Seq<char>, Seq<char>)>> {
    match j {
        JsonV::Obj(ms) => labels_entries(ms),
        _ => None,
    }
}

/// Decoding an encoded label list gives it back.
pub proof fn lemma_labels_round_trip(ls: Seq<(Seq<char>, Seq<char>)>)
    ensures
        labels_entries(labels_members(ls)) == Some(ls),
    decreases ls.len(),
{
    if ls.len() > 0 {
        lemma_labels_round_trip(ls.drop_first());
        assert(labels_members(ls).drop_first() =~= labels_members(ls.drop_first()));
        assert(seq![(ls[0].0, ls[0].1)] + ls.drop_first() =~= ls);
    } else {
        assert(labels_members(ls) =~= Seq::<(Seq<char>, JsonV)>::empty());
        assert(labels_entries(labels_members(ls)) == Some(Seq::<(Seq<char>, Seq<char>)>::empty()));
        assert(Seq::<(Seq<char>, Seq<char>)>::empty() =~= ls);
    }
}

/// Builds the JSON form of a label list.
fn labels_to_json(ls: &Vec<(String, String)>) -> (j: Json)
    ensures
        j@ == JsonV::Obj(labels_members(ls.deep_view())),
{
    let n = ls.len();
    let mut ms: Vec<(String, Json)> = Vec::new();
    let mut i: usize = 0;
    while i < n
        invariant
            i <= n == ls@.len(),
            ms@.len() == i,
            jv_members(ms@) =~= labels_members(ls.deep_view()).take(i as int),
        decreases n - i,
    {
        let ghost before = ms@;
        ms.push((ls[i].0.clone(), Json::Str(ls[i].1.clone())));
        proof {
            lemma_jv_members_push(before, (ls@[i as int].0, Json::Str(ls@[i as int].1)));
            assert(ls.deep_view()[i as int] == (ls@[i as int].0@, ls@[i as int].1@));
            assert(labels_members(ls.deep_view()).take(i as int + 1) =~= labels_members(
                ls.deep_view(),
            ).take(i as int).push((ls@[i as int].0@, JsonV::Str(ls@[i as int].1@))));
        }
        i = i + 1;
    }
    proof {
        assert(labels_members(ls.deep_view()).take(n as int) =~= labels_members(
            ls.deep_view(),
        ));
    }
    Json::Obj(ms)
}

/// Reads a label list out of its JSON form.
fn labels_from_json(j: &Json) -> (r: Result<Vec<(String, String)>, ()>)
    ensures
        ({
            match r {
                Ok(ls) => labels_of_json(j@) == Some(ls.deep_view()),
                Err(_) => labels_of_json(j@) is None,
            }
        }),
{
    let ms = match j {
        Json::Obj(ms) => ms,
        _ => {
            return Err(());
        },
    };
    let ghost mvs = jv_members(ms@);
    proof {
        lemma_jv_members(ms@);
    }
    let n = ms.len();
    let mut out: Vec<(String, String)> = Vec::new();
    let mut i: usize = 0;
    proof {
        assert(mvs.skip(0) =~= mvs);
        assert(out.deep_view() =~= Seq::<(Seq<char>, Seq<char>)>::empty());
    }
    while i < n
        invariant
            i <= n == ms@.len(),
            jv(*j) == JsonV::Obj(mvs),
            mvs == jv_members(ms@),
            mvs.len() == n,
            forall|k: int|
                0 <= k < ms@.len() ==> jv_members(ms@)[k] == (ms@[k].0@, jv(ms@[k].1)),
            ({
                match labels_entries(mvs.skip(i as int)) {
                    Some(rest) => labels_entries(mvs) == Some(out.deep_view() + rest),
                    None => labels_entries(mvs) is None,
                }
            }),
        decreases n - i,
    {
        let v = match &ms[i].1 {
            Json::Str(t) => t.clone(),
            _ => {
                proof {
                    assert(mvs.skip(i as int)[0] == mvs[i as int]);
                    assert(labels_entries(mvs.skip(i as int)) is None);
                }
                return Err(());
            },
        };
        let ghost out0 = out.deep_view();
        out.push((ms[i].0.clone(), v));
        proof {
            assert(mvs.skip(i as int)[0] == mvs[i as int]);
            assert(mvs.skip(i as int).drop_first() =~= mvs.skip(i as int + 1));
            assert(out.deep_view() =~= out0.push((ms@[i as int].0@, jv(ms@[i as int].1)->Str_0)));
            if labels_entries(mvs.skip(i as int + 1)) is Some {
                let rest2 = labels_entries(mvs.skip(i as int + 1))->0;
                assert(labels_entries(mvs.skip(i as int)) == Some(
                    seq![(mvs[i as int].0, mvs[i as int].1->Str_0)] + rest2,
                ));
                assert(out0 + (seq![(mvs[i as int].0, mvs[i as int].1->Str_0)] + rest2)
                    =~= out.deep_view() + rest2);
            }
        }
        i = i + 1;
    }
    proof {
        assert(mvs.skip(n as int) =~= Seq::<(Seq<char>, JsonV)>::empty());
        assert(out.deep_view() + Seq::<(Seq<char>, Seq<char>)>::empty() =~= out.deep_view());
    }
    Ok(out)
}

/// The JSON form of object metadata: all six fields, absent ones `null`.
pub open spec fn meta_to_json(m: ObjectMetaView) -> JsonV {
    JsonV::Obj(
        seq![
            ("name"@, opt_text_json(m.name)),
            ("namespace"@, opt_text_json(m.namespace)),
            (
                "labels"@,
                match m.labels {
                    Some(ls) => JsonV::Obj(labels_members(ls)),
                    None => JsonV::Null,
                },
            ),
            ("creationTimestamp"@, opt_text_json(m.creation_timestamp)),
            ("uid"@, opt_text_json(m.uid)),
            ("resourceVersion"@, opt_text_json(m.resource_version)),
        ],
    )
}

/// An optional label-object member.
pub open spec fn opt_labels(ms: Seq<(Seq<char>, JsonV)>, key: Seq<char>) -> Option<
    Option<Seq<(Seq<char>, Seq<char>)>>,
> {
    match obj_get(ms, key) {
        None => Some(None),
        Some(JsonV::Null) => Some(None),
        Some(l) => match labels_of_json(l) {
            Some(e) => Some(Some(e)),
            None => None,
        },
    }
}

/// The metadata a document denotes: every field optional, text fields
/// strings, labels an object of strings.
pub open spec fn meta_of_json(j: JsonV) -> Option<ObjectMetaView> {
    match j {
        JsonV::Obj(ms) => {
            if opt_text(ms, "name"@) is Some && opt_text(ms, "namespace"@) is Some
                && opt_labels(ms, "labels"@) is Some && opt_text(ms, "creationTimestamp"@)
                is Some && opt_text(ms, "uid"@) is Some && opt_text(
                ms,
                "resourceVersion"@,
            ) is Some {
                Some(
                    ObjectMetaView {
                        name: opt_text(ms, "name"@)->0,
                        namespace: opt_text(ms, "namespace"@)->0,
                        labels: opt_labels(ms, "labels"@)->0,
                        creation_timestamp: opt_text(ms, "creationTimestamp"@)->0,
                        uid: opt_text(ms, "uid"@)->0,
                        resource_version: opt_text(ms, "resourceVersion"@)->0,
                    },
                )
            } else {
                None
            }
        },
        _ => None,
    }
}

/// Decoding encoded metadata gives it back.
pub proof fn lemma_meta_round_trip(m: ObjectMetaView)
    ensures
        meta_of_json(meta_to_json(m)) == Some(m),
{
    reveal_strlit("name");
    reveal_strlit("namespace");
    reveal_strlit("labels");
    reveal_strlit("creationTimestamp");
    reveal_strlit("uid");
    reveal_strlit("resourceVersion");
    let lj = match m.labels {
        Some(ls) => JsonV::Obj(labels_members(ls)),
        None => JsonV::Null,
    };
    let e0 = ("name"@, opt_text_json(m.name));
    let e1 = ("namespace"@, opt_text_json(m.namespace));
    let e2 = ("labels"@, lj);
    let e3 = ("creationTimestamp"@, opt_text_json(m.creation_timestamp));
    let e4 = ("uid"@, opt_text_json(m.uid));
    let e5 = ("resourceVersion"@, opt_text_json(m.resource_version));
    let ms = seq![e0, e1, e2, e3, e4, e5];
    let t1 = ms.drop_first();
    let t2 = t1.drop_first();
    let t3 = t2.drop_first();
    let t4 = t3.drop_first();
    let t5 = t4.drop_first();
    assert(t1 =~= seq![e1, e2, e3, e4, e5]);
    assert(t2 =~= seq![e2, e3, e4, e5]);
    assert(t3 =~= seq![e3, e4, e5]);
    assert(t4 =~= seq![e4, e5]);
    assert(t5 =~= seq![e5]);
    assert("name"@.len() == 4);
    assert("namespace"@.len() == 9);
    assert("labels"@.len() == 6);
    assert("creationTimestamp"@.len() == 17);
    assert("uid"@.len() == 3);
    assert("resourceVersion"@.len() == 15);
    assert(obj_get(ms, "name"@) == Some(opt_text_json(m.name)));
    assert(obj_get(ms, "namespace"@) == obj_get(t1, "namespace"@));
    assert(obj_get(t1, "namespace"@) == Some(opt_text_json(m.namespace)));
    assert(obj_get(ms, "labels"@) == obj_get(t1, "labels"@));
    assert(obj_get(t1, "labels"@) == obj_get(t2, "labels"@));
    assert(obj_get(t2, "labels"@) == Some(lj));
    assert(obj_get(ms, "creationTimestamp"@) == obj_get(t1, "creationTimestamp"@));
    assert(obj_get(t1, "creationTimestamp"@) == obj_get(t2, "creationTimestamp"@));
    assert(obj_get(t2, "creationTimestamp"@) == obj_get(t3, "creationTimestamp"@));
    assert(obj_get(t3, "creationTimestamp"@) == Some(opt_text_json(m.creation_timestamp)));
    assert(obj_get(ms, "uid"@) == obj_get(t1, "uid"@));
    assert(obj_get(t1, "uid"@) == obj_get(t2, "uid"@));
    assert(obj_get(t2, "uid"@) == obj_get(t3, "uid"@));
    assert(obj_get(t3, "uid"@) == obj_get(t4, "uid"@));
    assert(obj_get(t4, "uid"@) == Some(opt_text_json(m.uid)));
    assert(obj_get(ms, "resourceVersion"@) == obj_get(t1, "resourceVersion"@));
    assert(obj_get(t1, "resourceVersion"@) == obj_get(t2, "resourceVersion"@));
    assert(obj_get(t2, "resourceVersion"@) == obj_get(t3, "resourceVersion"@));
    assert(obj_get(t3, "resourceVersion"@) == obj_get(t4, "resourceVersion"@));
    assert(obj_get(t4, "resourceVersion"@) == obj_get(t5, "resourceVersion"@));
    assert(obj_get(t5, "resourceVersion"@) == Some(opt_text_json(m.resource_version)));
    match m.labels {
        Some(ls) => {
            lemma_labels_round_trip(ls);
        },
        None => {},
    }
    assert(opt_text(ms, "name"@) == Some(m.name));
    assert(opt_text(ms, "namespace"@) == Some(m.namespace));
    assert(opt_labels(ms, "labels"@) == Some(m.labels));
    assert(opt_text(ms, "creationTimestamp"@) == Some(m.creation_timestamp));
    assert(opt_text(ms, "uid"@) == Some(m.uid));
    assert(opt_text(ms, "resourceVersion"@) == Some(m.resource_version));
    assert(meta_to_json(m)->Obj_0 =~= ms);
    assert(meta_of_json(meta_to_json(m))->0 =~= m);
}

impl ObjectMeta {
    /// The JSON form of this metadata.
    pub fn to_json(&self) -> (j: Json)
        ensures
            j@ == meta_to_json(self@),
    {
        let mut ms: Vec<(String, Json)> = Vec::new();
        ms.push((String::from_str("name"), opt_text_to_json(&self.name)));
        ms.push((String::from_str("namespace"), opt_text_to_json(&self.namespace)));
        let lj = match &self.labels {
            Some(ls) => labels_to_json(ls),
            None => Json::Null,
        };
        ms.push((String::from_str("labels"), lj));
        let ct = match &self.creation_timestamp {
            Some(t) => Json::Str(t.0.clone()),
            None => Json::Null,
        };
        ms.push((String::from_str("creationTimestamp"), ct));
        ms.push((String::from_str("uid"), opt_text_to_json(&self.uid)));
        ms.push((String::from_str("resourceVersion"), opt_text_to_json(&self.resource_version)));
        proof {
            lemma_jv_members(ms@);
            assert(jv_members(ms@) =~= meta_to_json(self@)->Obj_0);
        }
        Json::Obj(ms)
    }

    /// Reads metadata out of its JSON form.
    pub fn from_json(j: &Json) -> (r: Result<ObjectMeta, DecodeError>)
        ensures
            r is Ok <==> meta_of_json(j@) is Some,
            r matches Ok(m) ==> meta_of_json(j@) == Some(m@),
    {
        let ms = match j {
            Json::Obj(ms) => ms,
            _ => {
                return Err(DecodeError::new("metadata: not an object"));
            },
        };
        let name = match read_opt_text(ms, "name") {
            Ok(o) => o,
            Err(_) => {
                return Err(DecodeError::new("metadata: name must be a string"));
            },
        };
        let namespace = match read_opt_text(ms, "namespace") {
            Ok(o) => o,
            Err(_) => {
                return Err(DecodeError::new("metadata: namespace must be a string"));
            },
        };
        let labels = match get_field(ms, "labels") {
            None => None,
            Some(l) => match l {
                Json::Null => None,
                _ => match labels_from_json(l) {
                    Ok(ls) => Some(ls),
                    Err(_) => {
                        return Err(
                            DecodeError::new("metadata: labels must be an object of strings"),
                        );
                    },
                },
            },
        };
        let creation_timestamp = match read_opt_text(ms, "creationTimestamp") {
            Ok(o) => match o {
                Some(t) => Some(Time(t)),
                None => None,
            },
            Err(_) => {
                return Err(DecodeError::new("metadata: creationTimestamp must be a string"));
            },
        };
        let uid = match read_opt_text(ms, "uid") {
            Ok(o) => o,
            Err(_) => {
                return Err(DecodeError::new("metadata: uid must be a string"));
            },
        };
        let resource_version = match read_opt_text(ms, "resourceVersion") {
            Ok(o) => o,
            Err(_) => {
                return Err(DecodeError::new("metadata: resourceVersion must be a string"));
            },
        };
        Ok(ObjectMeta { name, namespace, labels, creation_timestamp, uid, resource_version })
    }
}

/// The JSON form of an object reference: all six fields, absent ones
/// `null`.
pub open spec fn ref_to_json(m: ObjectReferenceView) -> JsonV {
    JsonV::Obj(
        seq![
            ("name"@, opt_text_json(m.name)),
            ("namespace"@, opt_text_json(m.namespace)),
            ("apiVersion"@, opt_text_json(m.api_version)),
            ("kind"@, opt_text_json(m.kind)),
            ("uid"@, opt_text_json(m.uid)),
            ("resourceVersion"@, opt_text_json(m.resource_version)),
        ],
    )
}

/// The object reference a document denotes: every field an optional
/// string.
pub open spec fn ref_of_json(j: JsonV) -> Option<ObjectReferenceView> {
    match j {
        JsonV::Obj(ms) => {
            if opt_text(ms, "name"@) is Some && opt_text(ms, "namespace"@) is Some
                && opt_text(ms, "apiVersion"@) is Some && opt_text(ms, "kind"@) is Some
                && opt_text(ms, "uid"@) is Some && opt_text(ms, "resourceVersion"@)
                is Some {
                Some(
                    ObjectReferenceView {
                        name: opt_text(ms, "name"@)->0,
                        namespace: opt_text(ms, "namespace"@)->0,
                        api_version: opt_text(ms, "apiVersion"@)->0,
                        kind: opt_text(ms, "kind"@)->0,
                        uid: opt_text(ms, "uid"@)->0,
                        resource_version: opt_text(ms, "resourceVersion"@)->0,
                    },
                )
            } else {
                None
            }
        },
        _ => None,
    }
}

/// Decoding an encoded reference gives it back.
pub proof fn lemma_ref_round_trip(m: ObjectReferenceView)
    ensures
        ref_of_json(ref_to_json(m)) == Some(m),
{
    reveal_strlit("name");
    reveal_strlit("namespace");
    reveal_strlit("apiVersion");
    reveal_strlit("kind");
    reveal_strlit("uid");
    reveal_strlit("resourceVersion");
    let e0 = ("name"@, opt_text_json(m.name));
    let e1 = ("namespace"@, opt_text_json(m.namespace));
    let e2 = ("apiVersion"@, opt_text_json(m.api_version));
    let e3 = ("kind"@, opt_text_json(m.kind));
    let e4 = ("uid"@, opt_text_json(m.uid));
    let e5 = ("resourceVersion"@, opt_text_json(m.resource_version));
    let ms = seq![e0, e1, e2, e3, e4, e5];
    let t1 = ms.drop_first();
    let t2 = t1.drop_first();
    let t3 = t2.drop_first();
    let t4 = t3.drop_first();
    let t5 = t4.drop_first();
    assert(t1 =~= seq![e1, e2, e3, e4, e5]);
    assert(t2 =~= seq![e2, e3, e4, e5]);
    assert(t3 =~= seq![e3, e4, e5]);
    assert(t4 =~= seq![e4, e5]);
    assert(t5 =~= seq![e5]);
    assert("name"@.len() == 4);
    assert("namespace"@.len() == 9);
    assert("apiVersion"@.len() == 10);
    assert("kind"@.len() == 4);
    assert("uid"@.len() == 3);
    assert("resourceVersion"@.len() == 15);
    assert("name"@ != "kind"@) by {
        assert("name"@[0] != "kind"@[0]);
    }
    assert(obj_get(ms, "name"@) == Some(opt_text_json(m.name)));
    assert(obj_get(ms, "namespace"@) == obj_get(t1, "namespace"@));
    assert(obj_get(t1, "namespace"@) == Some(opt_text_json(m.namespace)));
    assert(obj_get(ms, "apiVersion"@) == obj_get(t1, "apiVersion"@));
    assert(obj_get(t1, "apiVersion"@) == obj_get(t2, "apiVersion"@));
    assert(obj_get(t2, "apiVersion"@) == Some(opt_text_json(m.api_version)));
    assert(obj_get(ms, "kind"@) == obj_get(t1, "kind"@));
    assert(obj_get(t1, "kind"@) == obj_get(t2, "kind"@));
    assert(obj_get(t2, "kind"@) == obj_get(t3, "kind"@));
    assert(obj_get(t3, "kind"@) == Some(opt_text_json(m.kind)));
    assert(obj_get(ms, "uid"@) == obj_get(t1, "uid"@));
    assert(obj_get(t1, "uid"@) == obj_get(t2, "uid"@));
    assert(obj_get(t2, "uid"@) == obj_get(t3, "uid"@));
    assert(obj_get(t3, "uid"@) == obj_get(t4, "uid"@));
    assert(obj_get(t4, "uid"@) == Some(opt_text_json(m.uid)));
    assert(obj_get(ms, "resourceVersion"@) == obj_get(t1, "resourceVersion"@));
    assert(obj_get(t1, "resourceVersion"@) == obj_get(t2, "resourceVersion"@));
    assert(obj_get(t2, "resourceVersion"@) == obj_get(t3, "resourceVersion"@));
    assert(obj_get(t3, "resourceVersion"@) == obj_get(t4, "resourceVersion"@));
    assert(obj_get(t4, "resourceVersion"@) == obj_get(t5, "resourceVersion"@));
    assert(obj_get(t5, "resourceVersion"@) == Some(opt_text_json(m.resource_version)));
    assert(ref_of_json(ref_to_json(m))->0 =~= m);
}

impl ObjectReference {
    /// The JSON form of this reference.
    pub fn to_json(&self) -> (j: Json)
        ensures
            j@ == ref_to_json(self@),
    {
        let mut ms: Vec<(String, Json)> = Vec::new();
        ms.push((String::from_str("name"), opt_text_to_json(&self.name)));
        ms.push((String::from_str("namespace"), opt_text_to_json(&self.namespace)));
        ms.push((String::from_str("apiVersion"), opt_text_to_json(&self.api_version)));
        ms.push((String::from_str("kind"), opt_text_to_json(&self.kind)));
        ms.push((String::from_str("uid"), opt_text_to_json(&self.uid)));
        ms.push((String::from_str("resourceVersion"), opt_text_to_json(&self.resource_version)));
        proof {
            lemma_jv_members(ms@);
            assert(jv_members(ms@) =~= ref_to_json(self@)->Obj_0);
        }
        Json::Obj(ms)
    }

    /// Reads a reference out of its JSON form.
    pub fn from_json(j: &Json) -> (r: Result<ObjectReference, DecodeError>)
        ensures
            r is Ok <==> ref_of_json(j@) is Some,
            r matches Ok(m) ==> ref_of_json(j@) == Some(m@),
    {
        let ms = match j {
            Json::Obj(ms) => ms,
            _ => {
                return Err(DecodeError::new("object reference: not an object"));
            },
        };
        let name = match read_opt_text(ms, "name") {
            Ok(o) => o,
            Err(_) => {
                return Err(DecodeError::new("object reference: name must be a string"));
            },
        };
        let namespace = match read_opt_text(ms, "namespace") {
            Ok(o) => o,
            Err(_) => {
                return Err(DecodeError::new("object reference: namespace must be a string"));
            },
        };
        let api_version = match read_opt_text(ms, "apiVersion") {
            Ok(o) => o,
            Err(_) => {
                return Err(DecodeError::new("object reference: apiVersion must be a string"));
            },
        };
        let kind = match read_opt_text(ms, "kind") {
            Ok(o) => o,
            Err(_) => {
                return Err(DecodeError::new("object reference: kind must be a string"));
            },
        };
        let uid = match read_opt_text(ms, "uid") {
            Ok(o) => o,
            Err(_) => {
                return Err(DecodeError::new("object reference: uid must be a string"));
            },
        };
        let resource_version = match read_opt_text(ms, "resourceVersion") {
            Ok(o) => o,
            Err(_) => {
                return Err(
                    DecodeError::new("object reference: resourceVersion must be a string"),
                );
            },
        };
        Ok(ObjectReference { name, namespace, api_version, kind, uid, resource_version })
    }
}

/// The JSON form of a label selector: its match labels, or `null`.
pub open spec fn selector_to_json(s: LabelSelectorView) -> JsonV {
    JsonV::Obj(
        seq![
            (
                "matchLabels"@,
                match s.match_labels {
                    Some(ls) => JsonV::Obj(labels_members(ls)),
                    None => JsonV::Null,
                },
            ),
        ],
    )
}

/// The selector a document denotes.
pub open spec fn selector_of_json(j: JsonV) -> Option<LabelSelectorView> {
    match j {
        JsonV::Obj(ms) => match opt_labels(ms, "matchLabels"@) {
            Some(o) => Some(LabelSelectorView { match_labels: o }),
            None => None,
        },
        _ => None,
    }
}

/// Decoding an encoded selector gives it back.
pub proof fn lemma_selector_round_trip(s: LabelSelectorView)
    ensures
        selector_of_json(selector_to_json(s)) == Some(s),
{
    match s.match_labels {
        Some(ls) => {
            lemma_labels_round_trip(ls);
        },
        None => {},
    }
    assert(selector_of_json(selector_to_json(s))->0 =~= s);
}

impl LabelSelector {
    /// The JSON form of this selector.
    pub fn to_json(&self) -> (j: Json)
        ensures
            j@ == selector_to_json(self@),
    {
        let mut ms: Vec<(String, Json)> = Vec::new();
        let lj = match &self.match_labels {
            Some(ls) => labels_to_json(ls),
            None => Json::Null,
        };
        ms.push((String::from_str("matchLabels"), lj));
        proof {
            lemma_jv_members(ms@);
            assert(jv_members(ms@) =~= selector_to_json(self@)->Obj_0);
        }
        Json::Obj(ms)
    }

    /// Reads a selector out of its JSON form.
    pub fn from_json(j: &Json) -> (r: Result<LabelSelector, DecodeError>)
        ensures
            r is Ok <==> selector_of_json(j@) is Some,
            r matches Ok(s) ==> selector_of_json(j@) == Some(s@),
    {
        let ms = match j {
            Json::Obj(ms) => ms,
            _ => {
                return Err(DecodeError::new("selector: not an object"));
            },
        };
        let match_labels = match get_field(ms, "matchLabels") {
            None => None,
            Some(l) => match l {
                Json::Null => None,
                _ => match labels_from_json(l) {
                    Ok(ls) => Some(ls),
                    Err(_) => {
                        return Err(
                            DecodeError::new("selector: matchLabels must be an object of strings"),
                        );
                    },
                },
            },
        };
        Ok(LabelSelector { match_labels })
    }
}

/// An identity member fits when it is absent, `null`, or exactly the
/// expected text.
pub open spec fn kind_ok(ms: Seq<(Seq<char>, JsonV)>, key: Seq<char>, expected: Seq<char>) -> bool {
    match obj_get(ms, key) {
        None => true,
        Some(JsonV::Null) => true,
        Some(JsonV::Str(t)) => t == expected,
        Some(_) => false,
    }
}

/// Checks an identity member against its expected text.
fn check_kind(ms: &Vec<(String, Json)>, key: &str, expected: &str) -> (r: bool)
    ensures
        r == kind_ok(jv_members(ms@), key@, expected@),
{
    match get_field(ms, key) {
        None => true,
        Some(j) => match j {
            Json::Null => true,
            Json::Str(t) => str_eq(t.as_str(), expected),
            _ => false,
        },
    }
}

/// The JSON form of one container entry.
pub open spec fn container_to_json(c: ContainerView) -> JsonV {
    JsonV::Obj(seq![("name"@, JsonV::Str(c.name)), ("usage"@, usage_to_json(c.usage))])
}

/// The container a document denotes: a name string and a usage object.
pub open spec fn container_of_json(j: JsonV) -> Option<ContainerView> {
    match j {
        JsonV::Obj(ms) => {
            if req_text(ms, "name"@) is Some && obj_get(ms, "usage"@) is Some
                && usage_of_json(obj_get(ms, "usage"@)->0) is Some {
                Some(
                    ContainerView {
                        name: req_text(ms, "name"@)->0,
                        usage: usage_of_json(obj_get(ms, "usage"@)->0)->0,
                    },
                )
            } else {
                None
            }
        },
        _ => None,
    }
}

/// Decoding an encoded container gives it back.
pub proof fn lemma_container_round_trip(c: ContainerView)
    ensures
        container_of_json(container_to_json(c)) == Some(c),
{
    reveal_strlit("name");
    reveal_strlit("usage");
    let e0 = ("name"@, JsonV::Str(c.name));
    let e1 = ("usage"@, usage_to_json(c.usage));
    let ms = seq![e0, e1];
    let t1 = ms.drop_first();
    assert(t1 =~= seq![e1]);
    assert("name"@.len() == 4);
    assert("usage"@.len() == 5);
    assert(obj_get(ms, "name"@) == Some(JsonV::Str(c.name)));
    assert(obj_get(ms, "usage"@) == obj_get(t1, "usage"@));
    assert(obj_get(t1, "usage"@) == Some(usage_to_json(c.usage)));
    lemma_usage_round_trip(c.usage);
    assert(container_of_json(container_to_json(c))->0 =~= c);
}

impl Container {
    /// The JSON form of this container entry.
    pub fn to_json(&self) -> (j: Json)
        ensures
            j@ == container_to_json(self@),
    {
        let mut ms: Vec<(String, Json)> = Vec::new();
        ms.push((String::from_str("name"), Json::Str(self.name.clone())));
        ms.push((String::from_str("usage"), self.usage.to_json()));
        proof {
            lemma_jv_members(ms@);
            assert(jv_members(ms@) =~= container_to_json(self@)->Obj_0);
        }
        Json::Obj(ms)
    }

    /// Reads a container entry out of its JSON form.
    pub fn from_json(j: &Json) -> (r: Result<Container, DecodeError>)
        ensures
            r is Ok <==> container_of_json(j@) is Some,
            r matches Ok(c) ==> container_of_json(j@) == Some(c@),
    {
        let ms = match j {
            Json::Obj(ms) => ms,
            _ => {
                return Err(DecodeError::new("container: not an object"));
            },
        };
        let name = match read_req_text(ms, "name") {
            Ok(t) => t,
            Err(_) => {
                return Err(DecodeError::new("container: name must be a string"));
            },
        };
        let uj = match get_field(ms, "usage") {
            Some(u) => u,
            None => {
                return Err(DecodeError::new("container: usage is required"));
            },
        };
        let usage = match Usage::from_json(uj) {
            Ok(u) => u,
            Err(e) => {
                return Err(e);
            },
        };
        Ok(Container { name, usage })
    }
}

/// The JSON forms of a container list, in order.
pub open spec fn containers_to_json(cs: Seq<ContainerView>) -> Seq<JsonV> {
    Seq::new(cs.len(), |i: int| container_to_json(cs[i]))
}

/// The container list a document list denotes.
pub open spec fn containers_of_json(es: Seq<JsonV>) -> Option<Seq<ContainerView>>
    decreases es.len(),
{
    if es.len() == 0 {
        Some(Seq::empty())
    } else {
        match container_of_json(es[0]) {
            Some(c) => match containers_of_json(es.drop_first()) {
                Some(rest) => Some(seq![c] + rest),
                None => None,
            },
            None => None,
        }
    }
}

/// Decoding an encoded container list gives it back.
pub proof fn lemma_containers_round_trip(cs: Seq<ContainerView>)
    ensures
        containers_of_json(containers_to_json(cs)) == Some(cs),
    decreases cs.len(),
{
    if cs.len() > 0 {
        lemma_containers_round_trip(cs.drop_first());
        lemma_container_round_trip(cs[0]);
        assert(containers_to_json(cs).drop_first() =~= containers_to_json(cs.drop_first()));
        assert(seq![cs[0]] + cs.drop_first() =~= cs);
    } else {
        assert(containers_to_json(cs) =~= Seq::<JsonV>::empty());
        assert(Seq::<ContainerView>::empty() =~= cs);
    }
}

/// Appending a document appends its value.
pub proof fn lemma_jv_seq_push(es: Seq<Json>, j: Json)
    ensures
        crate::json::jv_seq(es.push(j)) == crate::json::jv_seq(es).push(jv(j)),
{
    crate::json::lemma_jv_seq(es.push(j));
    crate::json::lemma_jv_seq(es);
    assert forall|k: int|
        0 <= k < es.len() + 1 implies crate::json::jv_seq(es.push(j))[k] == crate::json::jv_seq(
        es,
    ).push(jv(j))[k] by {
        if k < es.len() {
            assert(es.push(j)[k] == es[k]);
        } else {
            assert(es.push(j)[k] == j);
        }
    }
    assert(crate::json::jv_seq(es.push(j)) =~= crate::json::jv_seq(es).push(jv(j)));
}

/// Builds the JSON list of a container list.
fn containers_to_json_exec(cs: &Vec<Container>) -> (r: Vec<Json>)
    ensures
        crate::json::jv_seq(r@) == containers_to_json(
            Seq::new(cs@.len(), |i: int| cs@[i]@),
        ),
{
    let ghost target = containers_to_json(Seq::new(cs@.len(), |i: int| cs@[i]@));
    let n = cs.len();
    let mut out: Vec<Json> = Vec::new();
    let mut i: usize = 0;
    proof {
        assert(crate::json::jv_seq(out@) =~= target.take(0));
    }
    while i < n
        invariant
            i <= n == cs@.len(),
            out@.len() == i,
            target == containers_to_json(Seq::new(cs@.len(), |q: int| cs@[q]@)),
            target.len() == n,
            crate::json::jv_seq(out@) =~= target.take(i as int),
        decreases n - i,
    {
        let ghost before = out@;
        let cj = cs[i].to_json();
        out.push(cj);
        proof {
            lemma_jv_seq_push(before, cj);
            assert(target[i as int] == container_to_json(cs@[i as int]@));
            assert(target.take(i as int + 1) =~= target.take(i as int).push(
                target[i as int],
            ));
        }
        i = i + 1;
    }
    proof {
        assert(target.take(n as int) =~= target);
    }
    out
}

/// Reads a container list out of a JSON list.
fn containers_from_json(es: &Vec<Json>) -> (r: Result<Vec<Container>, DecodeError>)
    ensures
        ({
            let evs = crate::json::jv_seq(es@);
            match r {
                Ok(cs) => containers_of_json(evs) == Some(
                    Seq::new(cs@.len(), |i: int| cs@[i]@),
                ),
                Err(_) => containers_of_json(evs) is None,
            }
        }),
{
    let ghost evs = crate::json::jv_seq(es@);
    proof {
        crate::json::lemma_jv_seq(es@);
    }
    let n = es.len();
    let mut out: Vec<Container> = Vec::new();
    let mut i: usize = 0;
    proof {
        assert(evs.skip(0) =~= evs);
        assert(Seq::new(out@.len(), |q: int| out@[q]@) =~= Seq::<
            crate::v1beta1::ContainerView,
        >::empty());
    }
    while i < n
        invariant
            i <= n == es@.len(),
            evs == crate::json::jv_seq(es@),
            evs.len() == n,
            forall|k: int| 0 <= k < es@.len() ==> evs[k] == jv(es@[k]),
            out@.len() == i,
            ({
                match containers_of_json(evs.skip(i as int)) {
                    Some(rest) => containers_of_json(evs) == Some(
                        Seq::new(out@.len(), |q: int| out@[q]@) + rest,
                    ),
                    None => containers_of_json(evs) is None,
                }
            }),
        decreases n - i,
    {
        let c = match Container::from_json(&es[i]) {
            Ok(c) => c,
            Err(e) => {
                proof {
                    assert(evs.skip(i as int)[0] == evs[i as int]);
                    assert(containers_of_json(evs.skip(i as int)) is None);
                }
                return Err(e);
            },
        };
        let ghost out0 = Seq::new(out@.len(), |q: int| out@[q]@);
        out.push(c);
        proof {
            assert(evs.skip(i as int)[0] == evs[i as int]);
            assert(evs.skip(i as int).drop_first() =~= evs.skip(i as int + 1));
            assert(Seq::new(out@.len(), |q: int| out@[q]@) =~= out0.push(c@));
            if containers_of_json(evs.skip(i as int + 1)) is Some {
                let rest2 = containers_of_json(evs.skip(i as int + 1))->0;
                assert(containers_of_json(evs.skip(i as int)) == Some(seq![c@] + rest2));
                assert(out0 + (seq![c@] + rest2) =~= out0.push(c@) + rest2);
            }
        }
        i = i + 1;
    }
    proof {
        assert(evs.skip(n as int) =~= Seq::<JsonV>::empty());
        assert(Seq::new(out@.len(), |q: int| out@[q]@) + Seq::<
            crate::v1beta1::ContainerView,
        >::empty() =~= Seq::new(out@.len(), |q: int| out@[q]@));
    }
    Ok(out)
}

/// The JSON form of a node metrics record: its identity, metadata,
/// timestamp, window and usage.
pub open spec fn node_to_json(v: NodeMetricsView) -> JsonV {
    JsonV::Obj(
        seq![
            ("kind"@, JsonV::Str("NodeMetrics"@)),
            ("apiVersion"@, JsonV::Str("metrics.k8s.io/v1beta1"@)),
            ("metadata"@, meta_to_json(v.metadata)),
            ("timestamp"@, JsonV::Str(v.timestamp)),
            ("window"@, JsonV::Str(v.window_text)),
            ("usage"@, usage_to_json(v.usage)),
        ],
    )
}

/// The node metrics record a document denotes: identity members, when
/// present, must match; metadata, timestamp, a parseable window and usage
/// are required.
pub open spec fn node_of_json(j: JsonV) -> Option<NodeMetricsView> {
    match j {
        JsonV::Obj(ms) => {
            if kind_ok(ms, "kind"@, "NodeMetrics"@) && kind_ok(
                ms,
                "apiVersion"@,
                "metrics.k8s.io/v1beta1"@,
            ) && obj_get(ms, "metadata"@) is Some && meta_of_json(obj_get(ms, "metadata"@)->0)
                is Some && req_text(ms, "timestamp"@) is Some && req_text(ms, "window"@)
                is Some && dur_parsable(req_text(ms, "window"@)->0) && obj_get(ms, "usage"@)
                is Some && usage_of_json(obj_get(ms, "usage"@)->0) is Some {
                Some(
                    NodeMetricsView {
                        metadata: meta_of_json(obj_get(ms, "metadata"@)->0)->0,
                        timestamp: req_text(ms, "timestamp"@)->0,
                        window_text: req_text(ms, "window"@)->0,
                        window_nanos: dur_value(req_text(ms, "window"@)->0),
                        usage: usage_of_json(obj_get(ms, "usage"@)->0)->0,
                    },
                )
            } else {
                None
            }
        },
        _ => None,
    }
}

/// Decoding an encoded node metrics record gives it back; the record's
/// window must denote its nanoseconds, as every `Duration` does.
pub proof fn lemma_node_round_trip(v: NodeMetricsView)
    requires
        dur_parsable(v.window_text),
        v.window_nanos == dur_value(v.window_text),
    ensures
        node_of_json(node_to_json(v)) == Some(v),
{
    reveal_strlit("kind");
    reveal_strlit("apiVersion");
    reveal_strlit("metadata");
    reveal_strlit("timestamp");
    reveal_strlit("window");
    reveal_strlit("usage");
    let e0 = ("kind"@, JsonV::Str("NodeMetrics"@));
    let e1 = ("apiVersion"@, JsonV::Str("metrics.k8s.io/v1beta1"@));
    let e2 = ("metadata"@, meta_to_json(v.metadata));
    let e3 = ("timestamp"@, JsonV::Str(v.timestamp));
    let e4 = ("window"@, JsonV::Str(v.window_text));
    let e5 = ("usage"@, usage_to_json(v.usage));
    let ms = seq![e0, e1, e2, e3, e4, e5];
    let t1 = ms.drop_first();
    let t2 = t1.drop_first();
    let t3 = t2.drop_first();
    let t4 = t3.drop_first();
    let t5 = t4.drop_first();
    assert(t1 =~= seq![e1, e2, e3, e4, e5]);
    assert(t2 =~= seq![e2, e3, e4, e5]);
    assert(t3 =~= seq![e3, e4, e5]);
    assert(t4 =~= seq![e4, e5]);
    assert(t5 =~= seq![e5]);
    assert("kind"@.len() == 4);
    assert("apiVersion"@.len() == 10);
    assert("metadata"@.len() == 8);
    assert("timestamp"@.len() == 9);
    assert("window"@.len() == 6);
    assert("usage"@.len() == 5);
    assert(obj_get(ms, "kind"@) == Some(JsonV::Str("NodeMetrics"@)));
    assert(obj_get(ms, "apiVersion"@) == obj_get(t1, "apiVersion"@));
    assert(obj_get(t1, "apiVersion"@) == Some(JsonV::Str("metrics.k8s.io/v1beta1"@)));
    assert(obj_get(ms, "metadata"@) == obj_get(t1, "metadata"@));
    assert(obj_get(t1, "metadata"@) == obj_get(t2, "metadata"@));
    assert(obj_get(t2, "metadata"@) == Some(meta_to_json(v.metadata)));
    assert(obj_get(ms, "timestamp"@) == obj_get(t1, "timestamp"@));
    assert(obj_get(t1, "timestamp"@) == obj_get(t2, "timestamp"@));
    assert(obj_get(t2, "timestamp"@) == obj_get(t3, "timestamp"@));
    assert(obj_get(t3, "timestamp"@) == Some(JsonV::Str(v.timestamp)));
    assert(obj_get(ms, "window"@) == obj_get(t1, "window"@));
    assert(obj_get(t1, "window"@) == obj_get(t2, "window"@));
    assert(obj_get(t2, "window"@) == obj_get(t3, "window"@));
    assert(obj_get(t3, "window"@) == obj_get(t4, "window"@));
    assert(obj_get(t4, "window"@) == Some(JsonV::Str(v.window_text)));
    assert(obj_get(ms, "usage"@) == obj_get(t1, "usage"@));
    assert(obj_get(t1, "usage"@) == obj_get(t2, "usage"@));
    assert(obj_get(t2, "usage"@) == obj_get(t3, "usage"@));
    assert(obj_get(t3, "usage"@) == obj_get(t4, "usage"@));
    assert(obj_get(t4, "usage"@) == obj_get(t5, "usage"@));
    assert(obj_get(t5, "usage"@) == Some(usage_to_json(v.usage)));
    lemma_meta_round_trip(v.metadata);
    lemma_usage_round_trip(v.usage);
    assert(node_to_json(v)->Obj_0 =~= ms);
    assert(node_of_json(node_to_json(v))->0 =~= v);
}

impl NodeMetrics {
    /// The JSON form of this record.
    pub fn to_json(&self) -> (j: Json)
        ensures
            j@ == node_to_json(self@),
    {
        let mut ms: Vec<(String, Json)> = Vec::new();
        ms.push((String::from_str("kind"), Json::Str(String::from_str("NodeMetrics"))));
        ms.push(
            (
                String::from_str("apiVersion"),
                Json::Str(String::from_str("metrics.k8s.io/v1beta1")),
            ),
        );
        ms.push((String::from_str("metadata"), self.metadata.to_json()));
        ms.push((String::from_str("timestamp"), Json::Str(self.timestamp.0.clone())));
        ms.push((String::from_str("window"), Json::Str(String::from_str(self.window.text()))));
        ms.push((String::from_str("usage"), self.usage.to_json()));
        proof {
            lemma_jv_members(ms@);
            assert(jv_members(ms@) =~= node_to_json(self@)->Obj_0);
        }
        Json::Obj(ms)
    }

    /// Reads a record out of its JSON form.
    pub fn from_json(j: &Json) -> (r: Result<NodeMetrics, DecodeError>)
        ensures
            r is Ok <==> node_of_json(j@) is Some,
            r matches Ok(v) ==> node_of_json(j@) == Some(v@),
    {
        let ms = match j {
            Json::Obj(ms) => ms,
            _ => {
                return Err(DecodeError::new("node metrics: not an object"));
            },
        };
        if !check_kind(ms, "kind", "NodeMetrics") {
            return Err(DecodeError::new("node metrics: kind mismatch"));
        }
        if !check_kind(ms, "apiVersion", "metrics.k8s.io/v1beta1") {
            return Err(DecodeError::new("node metrics: apiVersion mismatch"));
        }
        let mj = match get_field(ms, "metadata") {
            Some(m) => m,
            None => {
                return Err(DecodeError::new("node metrics: metadata is required"));
            },
        };
        let metadata = match ObjectMeta::from_json(mj) {
            Ok(m) => m,
            Err(e) => {
                return Err(e);
            },
        };
        let timestamp = match read_req_text(ms, "timestamp") {
            Ok(t) => Time(t),
            Err(_) => {
                return Err(DecodeError::new("node metrics: timestamp must be a string"));
            },
        };
        let wtext = match read_req_text(ms, "window") {
            Ok(t) => t,
            Err(_) => {
                return Err(DecodeError::new("node metrics: window must be a string"));
            },
        };
        let window = match Duration::parse(wtext.as_str()) {
            Ok(d) => d,
            Err(_) => {
                return Err(DecodeError::new("node metrics: window is not a duration"));
            },
        };
        let uj = match get_field(ms, "usage") {
            Some(u) => u,
            None => {
                return Err(DecodeError::new("node metrics: usage is required"));
            },
        };
        let usage = match Usage::from_json(uj) {
            Ok(u) => u,
            Err(e) => {
                return Err(e);
            },
        };
        Ok(NodeMetrics { metadata, timestamp, window, usage })
    }

    /// Reads a record out of JSON text.
    pub fn from_json_text(s: &str) -> (r: Result<NodeMetrics, DecodeError>)
        ensures
            r is Ok <==> node_of_text(s@) is Some,
            r matches Ok(v) ==> node_of_text(s@) == Some(v@),
    {
        let j = match Json::parse(s) {
            Some(j) => j,
            None => {
                return Err(DecodeError::new("node metrics: not valid JSON"));
            },
        };
        Self::from_json(&j)
    }

    /// Renders this record as JSON text.
    pub fn to_json_text(&self) -> (r: String)
        ensures
            r@ == crate::json::spec_render(node_to_json(self@)),
    {
        self.to_json().render()
    }
}

/// The node metrics record that JSON text denotes.
pub open spec fn node_of_text(s: Seq<char>) -> Option<NodeMetricsView> {
    match crate::json::spec_parse_json(s) {
        Some(j) => node_of_json(j),
        None => None,
    }
}

/// The JSON form of a pod metrics record: its identity, metadata,
/// containers, timestamp and window.
pub open spec fn pod_to_json(v: PodMetricsView) -> JsonV {
    JsonV::Obj(
        seq![
            ("kind"@, JsonV::Str("PodMetrics"@)),
            ("apiVersion"@, JsonV::Str("metrics.k8s.io/v1beta1"@)),
            ("metadata"@, meta_to_json(v.metadata)),
            ("containers"@, JsonV::Arr(containers_to_json(v.containers))),
            ("timestamp"@, JsonV::Str(v.timestamp)),
            ("window"@, JsonV::Str(v.window_text)),
        ],
    )
}

/// The pod metrics record a document denotes.
pub open spec fn pod_of_json(j: JsonV) -> Option<PodMetricsView> {
    match j {
        JsonV::Obj(ms) => {
            if kind_ok(ms, "kind"@, "PodMetrics"@) && kind_ok(
                ms,
                "apiVersion"@,
                "metrics.k8s.io/v1beta1"@,
            ) && obj_get(ms, "metadata"@) is Some && meta_of_json(obj_get(ms, "metadata"@)->0)
                is Some && obj_get(ms, "containers"@) is Some && obj_get(ms, "containers"@)->0
                is Arr && containers_of_json(obj_get(ms, "containers"@)->0->Arr_0) is Some
                && req_text(ms, "timestamp"@) is Some && req_text(ms, "window"@) is Some
                && dur_parsable(req_text(ms, "window"@)->0) {
                Some(
                    PodMetricsView {
                        metadata: meta_of_json(obj_get(ms, "metadata"@)->0)->0,
                        containers: containers_of_json(obj_get(ms, "containers"@)->0->Arr_0)->0,
                        timestamp: req_text(ms, "timestamp"@)->0,
                        window_text: req_text(ms, "window"@)->0,
                        window_nanos: dur_value(req_text(ms, "window"@)->0),
                    },
                )
            } else {
                None
            }
        },
        _ => None,
    }
}

/// Decoding an encoded pod metrics record gives it back; the record's
/// window must denote its nanoseconds, as every `Duration` does.
pub proof fn lemma_pod_round_trip(v: PodMetricsView)
    requires
        dur_parsable(v.window_text),
        v.window_nanos == dur_value(v.window_text),
    ensures
        pod_of_json(pod_to_json(v)) == Some(v),
{
    reveal_strlit("kind");
    reveal_strlit("apiVersion");
    reveal_strlit("metadata");
    reveal_strlit("containers");
    reveal_strlit("timestamp");
    reveal_strlit("window");
    let e0 = ("kind"@, JsonV::Str("PodMetrics"@));
    let e1 = ("apiVersion"@, JsonV::Str("metrics.k8s.io/v1beta1"@));
    let e2 = ("metadata"@, meta_to_json(v.metadata));
    let e3 = ("containers"@, JsonV::Arr(containers_to_json(v.containers)));
    let e4 = ("timestamp"@, JsonV::Str(v.timestamp));
    let e5 = ("window"@, JsonV::Str(v.window_text));
    let ms = seq![e0, e1, e2, e3, e4, e5];
    let t1 = ms.drop_first();
    let t2 = t1.drop_first();
    let t3 = t2.drop_first();
    let t4 = t3.drop_first();
    let t5 = t4.drop_first();
    assert(t1 =~= seq![e1, e2, e3, e4, e5]);
    assert(t2 =~= seq![e2, e3, e4, e5]);
    assert(t3 =~= seq![e3, e4, e5]);
    assert(t4 =~= seq![e4, e5]);
    assert(t5 =~= seq![e5]);
    assert("kind"@.len() == 4);
    assert("apiVersion"@.len() == 10);
    assert("metadata"@.len() == 8);
    assert("containers"@.len() == 10);
    assert("timestamp"@.len() == 9);
    assert("window"@.len() == 6);
    assert("apiVersion"@ != "containers"@) by {
        assert("apiVersion"@[0] != "containers"@[0]);
    }
    assert(obj_get(ms, "kind"@) == Some(JsonV::Str("PodMetrics"@)));
    assert(obj_get(ms, "apiVersion"@) == obj_get(t1, "apiVersion"@));
    assert(obj_get(t1, "apiVersion"@) == Some(JsonV::Str("metrics.k8s.io/v1beta1"@)));
    assert(obj_get(ms, "metadata"@) == obj_get(t1, "metadata"@));
    assert(obj_get(t1, "metadata"@) == obj_get(t2, "metadata"@));
    assert(obj_get(t2, "metadata"@) == Some(meta_to_json(v.metadata)));
    assert(obj_get(ms, "containers"@) == obj_get(t1, "containers"@));
    assert(obj_get(t1, "containers"@) == obj_get(t2, "containers"@));
    assert(obj_get(t2, "containers"@) == obj_get(t3, "containers"@));
    assert(obj_get(t3, "containers"@) == Some(JsonV::Arr(containers_to_json(v.containers))));
    assert(obj_get(ms, "timestamp"@) == obj_get(t1, "timestamp"@));
    assert(obj_get(t1, "timestamp"@) == obj_get(t2, "timestamp"@));
    assert(obj_get(t2, "timestamp"@) == obj_get(t3, "timestamp"@));
    assert(obj_get(t3, "timestamp"@) == obj_get(t4, "timestamp"@));
    assert(obj_get(t4, "timestamp"@) == Some(JsonV::Str(v.timestamp)));
    assert(obj_get(ms, "window"@) == obj_get(t1, "window"@));
    assert(obj_get(t1, "window"@) == obj_get(t2, "window"@));
    assert(obj_get(t2, "window"@) == obj_get(t3, "window"@));
    assert(obj_get(t3, "window"@) == obj_get(t4, "window"@));
    assert(obj_get(t4, "window"@) == obj_get(t5, "window"@));
    assert(obj_get(t5, "window"@) == Some(JsonV::Str(v.window_text)));
    lemma_meta_round_trip(v.metadata);
    lemma_containers_round_trip(v.containers);
    assert(pod_to_json(v)->Obj_0 =~= ms);
    assert(pod_of_json(pod_to_json(v))->0 =~= v);
}

impl PodMetrics {
    /// The JSON form of this record.
    pub fn to_json(&self) -> (j: Json)
        ensures
            j@ == pod_to_json(self@),
    {
        let mut ms: Vec<(String, Json)> = Vec::new();
        ms.push((String::from_str("kind"), Json::Str(String::from_str("PodMetrics"))));
        ms.push(
            (
                String::from_str("apiVersion"),
                Json::Str(String::from_str("metrics.k8s.io/v1beta1")),
            ),
        );
        ms.push((String::from_str("metadata"), self.metadata.to_json()));
        let cj = containers_to_json_exec(&self.containers);
        ms.push((String::from_str("containers"), Json::Arr(cj)));
        ms.push((String::from_str("timestamp"), Json::Str(self.timestamp.0.clone())));
        ms.push((String::from_str("window"), Json::Str(String::from_str(self.window.text()))));
        proof {
            lemma_jv_members(ms@);
            assert(jv_members(ms@) =~= pod_to_json(self@)->Obj_0);
        }
        Json::Obj(ms)
    }

    /// Reads a record out of its JSON form.
    pub fn from_json(j: &Json) -> (r: Result<PodMetrics, DecodeError>)
        ensures
            r is Ok <==> pod_of_json(j@) is Some,
            r matches Ok(v) ==> pod_of_json(j@) == Some(v@),
    {
        let ms = match j {
            Json::Obj(ms) => ms,
            _ => {
                return Err(DecodeError::new("pod metrics: not an object"));
            },
        };
        if !check_kind(ms, "kind", "PodMetrics") {
            return Err(DecodeError::new("pod metrics: kind mismatch"));
        }
        if !check_kind(ms, "apiVersion", "metrics.k8s.io/v1beta1") {
            return Err(DecodeError::new("pod metrics: apiVersion mismatch"));
        }
        let mj = match get_field(ms, "metadata") {
            Some(m) => m,
            None => {
                return Err(DecodeError::new("pod metrics: metadata is required"));
            },
        };
        let metadata = match ObjectMeta::from_json(mj) {
            Ok(m) => m,
            Err(e) => {
                return Err(e);
            },
        };
        let cj = match get_field(ms, "containers") {
            Some(c) => c,
            None => {
                return Err(DecodeError::new("pod metrics: containers is required"));
            },
        };
        let ces = match cj {
            Json::Arr(es) => es,
            _ => {
                return Err(DecodeError::new("pod metrics: containers must be an array"));
            },
        };
        let containers = match containers_from_json(ces) {
            Ok(cs) => cs,
            Err(e) => {
                return Err(e);
            },
        };
        let timestamp = match read_req_text(ms, "timestamp") {
            Ok(t) => Time(t),
            Err(_) => {
                return Err(DecodeError::new("pod metrics: timestamp must be a string"));
            },
        };
        let wtext = match read_req_text(ms, "window") {
            Ok(t) => t,
            Err(_) => {
                return Err(DecodeError::new("pod metrics: window must be a string"));
            },
        };
        let window = match Duration::parse(wtext.as_str()) {
            Ok(d) => d,
            Err(_) => {
                return Err(DecodeError::new("pod metrics: window is not a duration"));
            },
        };
        let p = PodMetrics { metadata, timestamp, window, containers };
        proof {
            assert(p@.containers =~= containers_of_json(
                obj_get(jv_members(ms@), "containers"@)->0->Arr_0,
            )->0);
            assert(pod_of_json(jv(*j))->0 =~= p@);
        }
        Ok(p)
    }

    /// Reads a record out of JSON text.
    pub fn from_json_text(s: &str) -> (r: Result<PodMetrics, DecodeError>)
        ensures
            r is Ok <==> pod_of_text(s@) is Some,
            r matches Ok(v) ==> pod_of_text(s@) == Some(v@),
    {
        let j = match Json::parse(s) {
            Some(j) => j,
            None => {
                return Err(DecodeError::new("pod metrics: not valid JSON"));
            },
        };
        Self::from_json(&j)
    }

    /// Renders this record as JSON text.
    pub fn to_json_text(&self) -> (r: String)
        ensures
            r@ == crate::json::spec_render(pod_to_json(self@)),
    {
        self.to_json().render()
    }
}

/// The pod metrics record that JSON text denotes.
pub open spec fn pod_of_text(s: Seq<char>) -> Option<PodMetricsView> {
    match crate::json::spec_parse_json(s) {
        Some(j) => pod_of_json(j),
        None => None,
    }
}

/// An optional whole-number member: absent or `null` is zero.
pub open spec fn opt_int(ms: Seq<(Seq<char>, JsonV)>, key: Seq<char>) -> Option<int> {
    match obj_get(ms, key) {
        None => Some(0),
        Some(JsonV::Null) => Some(0),
        Some(JsonV::Int(n)) => Some(n),
        Some(_) => None,
    }
}

/// Reads an optional whole-number member.
fn read_opt_int(ms: &Vec<(String, Json)>, key: &str) -> (r: Result<i64, ()>)
    ensures
        ({
            match r {
                Ok(n) => opt_int(jv_members(ms@), key@) == Some(n as int),
                Err(_) => opt_int(jv_members(ms@), key@) is None,
            }
        }),
{
    match get_field(ms, key) {
        None => Ok(0),
        Some(j) => match j {
            Json::Null => Ok(0),
            Json::Int(n) => Ok(*n),
            _ => Err(()),
        },
    }
}

/// The JSON form of a metric identifier: its name, and its selector or
/// `null`.
pub open spec fn ident_to_json(m: MetricIdentifierView) -> JsonV {
    JsonV::Obj(
        seq![
            ("name"@, JsonV::Str(m.name)),
            (
                "selector"@,
                match m.selector {
                    Some(s) => selector_to_json(s),
                    None => JsonV::Null,
                },
            ),
        ],
    )
}

/// The metric identifier a document denotes: a required name, an optional
/// selector.
pub open spec fn ident_of_json(j: JsonV) -> Option<MetricIdentifierView> {
    match j {
        JsonV::Obj(ms) => {
            if req_text(ms, "name"@) is Some {
                match obj_get(ms, "selector"@) {
                    None => Some(
                        MetricIdentifierView { name: req_text(ms, "name"@)->0, selector: None },
                    ),
                    Some(JsonV::Null) => Some(
                        MetricIdentifierView { name: req_text(ms, "name"@)->0, selector: None },
                    ),
                    Some(sj) => match selector_of_json(sj) {
                        Some(s) => Some(
                            MetricIdentifierView {
                                name: req_text(ms, "name"@)->0,
                                selector: Some(s),
                            },
                        ),
                        None => None,
                    },
                }
            } else {
                None
            }
        },
        _ => None,
    }
}

/// Decoding an encoded metric identifier gives it back.
pub proof fn lemma_ident_round_trip(m: MetricIdentifierView)
    ensures
        ident_of_json(ident_to_json(m)) == Some(m),
{
    reveal_strlit("name");
    reveal_strlit("selector");
    let sj = match m.selector {
        Some(s) => selector_to_json(s),
        None => JsonV::Null,
    };
    let e0 = ("name"@, JsonV::Str(m.name));
    let e1 = ("selector"@, sj);
    let ms = seq![e0, e1];
    let t1 = ms.drop_first();
    assert(t1 =~= seq![e1]);
    assert("name"@.len() == 4);
    assert("selector"@.len() == 8);
    assert(obj_get(ms, "name"@) == Some(JsonV::Str(m.name)));
    assert(obj_get(ms, "selector"@) == obj_get(t1, "selector"@));
    assert(obj_get(t1, "selector"@) == Some(sj));
    match m.selector {
        Some(s) => {
            lemma_selector_round_trip(s);
        },
        None => {},
    }
    assert(ident_to_json(m)->Obj_0 =~= ms);
    assert(ident_of_json(ident_to_json(m))->0 =~= m);
}

impl MetricIdentifier {
    /// The JSON form of this identifier.
    pub fn to_json(&self) -> (j: Json)
        ensures
            j@ == ident_to_json(self@),
    {
        let mut ms: Vec<(String, Json)> = Vec::new();
        ms.push((String::from_str("name"), Json::Str(self.name.clone())));
        let sj = match &self.selector {
            Some(s) => s.to_json(),
            None => Json::Null,
        };
        ms.push((String::from_str("selector"), sj));
        proof {
            lemma_jv_members(ms@);
            assert(jv_members(ms@) =~= ident_to_json(self@)->Obj_0);
        }
        Json::Obj(ms)
    }

    /// Reads an identifier out of its JSON form.
    pub fn from_json(j: &Json) -> (r: Result<MetricIdentifier, DecodeError>)
        ensures
            r is Ok <==> ident_of_json(j@) is Some,
            r matches Ok(m) ==> ident_of_json(j@) == Some(m@),
    {
        let ms = match j {
            Json::Obj(ms) => ms,
            _ => {
                return Err(DecodeError::new("metric identifier: not an object"));
            },
        };
        let name = match read_req_text(ms, "name") {
            Ok(t) => t,
            Err(_) => {
                return Err(DecodeError::new("metric identifier: name must be a string"));
            },
        };
        let selector = match get_field(ms, "selector") {
            None => None,
            Some(sj) => match sj {
                Json::Null => None,
                _ => match LabelSelector::from_json(sj) {
                    Ok(s) => Some(s),
                    Err(e) => {
                        return Err(e);
                    },
                },
            },
        };
        Ok(MetricIdentifier { name, selector })
    }
}

/// The JSON form of a custom metric value for a subject of kind `kind`.
pub open spec fn metric_value_to_json(v: MetricValueView, kind: Seq<char>) -> JsonV {
    JsonV::Obj(
        seq![
            ("kind"@, JsonV::Str(kind)),
            ("apiVersion"@, JsonV::Str("custom.metrics.k8s.io/v1beta2"@)),
            ("metadata"@, meta_to_json(v.metadata)),
            ("describedObject"@, ref_to_json(v.described_object)),
            ("metric"@, ident_to_json(v.metric)),
            ("timestamp"@, JsonV::Str(v.timestamp)),
            ("windowSeconds"@, JsonV::Int(v.window_seconds)),
            ("value"@, JsonV::Str(v.value)),
        ],
    )
}

/// The custom metric value a document denotes, for a subject of kind
/// `kind`.
pub open spec fn metric_value_of_json(j: JsonV, kind: Seq<char>) -> Option<MetricValueView> {
    match j {
        JsonV::Obj(ms) => {
            if kind_ok(ms, "kind"@, kind) && kind_ok(
                ms,
                "apiVersion"@,
                "custom.metrics.k8s.io/v1beta2"@,
            ) && obj_get(ms, "metadata"@) is Some && meta_of_json(obj_get(ms, "metadata"@)->0)
                is Some && obj_get(ms, "describedObject"@) is Some && ref_of_json(
                obj_get(ms, "describedObject"@)->0,
            ) is Some && obj_get(ms, "metric"@) is Some && ident_of_json(
                obj_get(ms, "metric"@)->0,
            ) is Some && req_text(ms, "timestamp"@) is Some && opt_int(ms, "windowSeconds"@)
                is Some && i64::MIN <= opt_int(ms, "windowSeconds"@)->0 <= i64::MAX
                && req_text(ms, "value"@) is Some {
                Some(
                    MetricValueView {
                        metadata: meta_of_json(obj_get(ms, "metadata"@)->0)->0,
                        described_object: ref_of_json(obj_get(ms, "describedObject"@)->0)->0,
                        metric: ident_of_json(obj_get(ms, "metric"@)->0)->0,
                        timestamp: req_text(ms, "timestamp"@)->0,
                        window_seconds: opt_int(ms, "windowSeconds"@)->0,
                        value: req_text(ms, "value"@)->0,
                    },
                )
            } else {
                None
            }
        },
        _ => None,
    }
}

impl<M: Resource> MetricValue<M> {
    /// The JSON form of this metric value.
    pub fn to_json(&self) -> (j: Json)
        ensures
            j@ == metric_value_to_json(self@, M::spec_kind()),
    {
        let mut ms: Vec<(String, Json)> = Vec::new();
        ms.push((String::from_str("kind"), Json::Str(String::from_str(M::kind()))));
        ms.push(
            (
                String::from_str("apiVersion"),
                Json::Str(String::from_str("custom.metrics.k8s.io/v1beta2")),
            ),
        );
        ms.push((String::from_str("metadata"), self.metadata.to_json()));
        ms.push((String::from_str("describedObject"), self.described_object.to_json()));
        ms.push((String::from_str("metric"), self.metric.to_json()));
        ms.push((String::from_str("timestamp"), Json::Str(self.timestamp.0.clone())));
        ms.push((String::from_str("windowSeconds"), Json::Int(self.window_seconds)));
        ms.push((String::from_str("value"), Json::Str(self.value.0.clone())));
        proof {
            lemma_jv_members(ms@);
            assert(jv_members(ms@) =~= metric_value_to_json(self@, M::spec_kind())->Obj_0);
        }
        Json::Obj(ms)
    }

    /// Reads a metric value out of its JSON form; the wire `kind`, when
    /// present, must be the subject kind `M` declares.
    pub fn from_json(j: &Json) -> (r: Result<MetricValue<M>, DecodeError>)
        ensures
            r is Ok <==> metric_value_of_json(j@, M::spec_kind()) is Some,
            r matches Ok(v) ==> metric_value_of_json(j@, M::spec_kind()) == Some(v@),
    {
        let ms = match j {
            Json::Obj(ms) => ms,
            _ => {
                return Err(DecodeError::new("metric value: not an object"));
            },
        };
        if !check_kind(ms, "kind", M::kind()) {
            return Err(DecodeError::new("metric value: kind mismatch"));
        }
        if !check_kind(ms, "apiVersion", "custom.metrics.k8s.io/v1beta2") {
            return Err(DecodeError::new("metric value: apiVersion mismatch"));
        }
        let mj = match get_field(ms, "metadata") {
            Some(m) => m,
            None => {
                return Err(DecodeError::new("metric value: metadata is required"));
            },
        };
        let metadata = match ObjectMeta::from_json(mj) {
            Ok(m) => m,
            Err(e) => {
                return Err(e);
            },
        };
        let oj = match get_field(ms, "describedObject") {
            Some(o) => o,
            None => {
                return Err(DecodeError::new("metric value: describedObject is required"));
            },
        };
        let described_object = match ObjectReference::from_json(oj) {
            Ok(o) => o,
            Err(e) => {
                return Err(e);
            },
        };
        let ij = match get_field(ms, "metric") {
            Some(i) => i,
            None => {
                return Err(DecodeError::new("metric value: metric is required"));
            },
        };
        let metric = match MetricIdentifier::from_json(ij) {
            Ok(i) => i,
            Err(e) => {
                return Err(e);
            },
        };
        let timestamp = match read_req_text(ms, "timestamp") {
            Ok(t) => Time(t),
            Err(_) => {
                return Err(DecodeError::new("metric value: timestamp must be a string"));
            },
        };
        let window_seconds = match read_opt_int(ms, "windowSeconds") {
            Ok(n) => n,
            Err(_) => {
                return Err(DecodeError::new("metric value: windowSeconds must be a number"));
            },
        };
        let value = match read_req_text(ms, "value") {
            Ok(t) => Quantity(t),
            Err(_) => {
                return Err(DecodeError::new("metric value: value must be a string"));
            },
        };
        Ok(
            MetricValue {
                metadata,
                described_object,
                metric,
                timestamp,
                window_seconds,
                value,
                phantom: core::marker::PhantomData,
            },
        )
    }
}

/// The JSON form of an external metric value for a source of kind `kind`.
pub open spec fn external_to_json(v: ExternalMetricValueView, kind: Seq<char>) -> JsonV {
    JsonV::Obj(
        seq![
            ("kind"@, JsonV::Str(kind)),
            ("apiVersion"@, JsonV::Str("external.metrics.k8s.io/v1beta1"@)),
            ("metadata"@, meta_to_json(v.metadata)),
            ("metricName"@, JsonV::Str(v.metric_name)),
            ("metricLabels"@, JsonV::Obj(labels_members(v.metric_labels))),
            ("timestamp"@, JsonV::Str(v.timestamp)),
            ("window"@, JsonV::Int(v.window_seconds)),
            ("value"@, JsonV::Str(v.value)),
        ],
    )
}

/// The external metric value a document denotes, for a source of kind
/// `kind`.
pub open spec fn external_of_json(j: JsonV, kind: Seq<char>) -> Option<
    ExternalMetricValueView,
> {
    match j {
        JsonV::Obj(ms) => {
            if kind_ok(ms, "kind"@, kind) && kind_ok(
                ms,
                "apiVersion"@,
                "external.metrics.k8s.io/v1beta1"@,
            ) && obj_get(ms, "metadata"@) is Some && meta_of_json(obj_get(ms, "metadata"@)->0)
                is Some && req_text(ms, "metricName"@) is Some && obj_get(
                ms,
                "metricLabels"@,
            ) is Some && labels_of_json(obj_get(ms, "metricLabels"@)->0) is Some && req_text(
                ms,
                "timestamp"@,
            ) is Some && opt_int(ms, "window"@) is Some && i64::MIN <= opt_int(ms, "window"@)->0
                <= i64::MAX && req_text(ms, "value"@) is Some {
                Some(
                    ExternalMetricValueView {
                        metadata: meta_of_json(obj_get(ms, "metadata"@)->0)->0,
                        metric_name: req_text(ms, "metricName"@)->0,
                        metric_labels: labels_of_json(obj_get(ms, "metricLabels"@)->0)->0,
                        timestamp: req_text(ms, "timestamp"@)->0,
                        window_seconds: opt_int(ms, "window"@)->0,
                        value: req_text(ms, "value"@)->0,
                    },
                )
            } else {
                None
            }
        },
        _ => None,
    }
}

impl<M: ExternalMetric> ExternalMetricValue<M> {
    /// The JSON form of this metric value.
    pub fn to_json(&self) -> (j: Json)
        ensures
            j@ == external_to_json(self@, M::spec_kind()),
    {
        let mut ms: Vec<(String, Json)> = Vec::new();
        ms.push((String::from_str("kind"), Json::Str(String::from_str(M::kind()))));
        ms.push(
            (
                String::from_str("apiVersion"),
                Json::Str(String::from_str("external.metrics.k8s.io/v1beta1")),
            ),
        );
        ms.push((String::from_str("metadata"), self.metadata.to_json()));
        ms.push((String::from_str("metricName"), Json::Str(self.metric_name.clone())));
        ms.push((String::from_str("metricLabels"), labels_to_json(&self.metric_labels)));
        ms.push((String::from_str("timestamp"), Json::Str(self.timestamp.0.clone())));
        ms.push((String::from_str("window"), Json::Int(self.window_seconds)));
        ms.push((String::from_str("value"), Json::Str(self.value.0.clone())));
        proof {
            lemma_jv_members(ms@);
            assert(jv_members(ms@) =~= external_to_json(self@, M::spec_kind())->Obj_0);
        }
        Json::Obj(ms)
    }

    /// Reads a metric value out of its JSON form; the wire `kind`, when
    /// present, must be the source kind `M` declares.
    pub fn from_json(j: &Json) -> (r: Result<ExternalMetricValue<M>, DecodeError>)
        ensures
            r is Ok <==> external_of_json(j@, M::spec_kind()) is Some,
            r matches Ok(v) ==> external_of_json(j@, M::spec_kind()) == Some(v@),
    {
        let ms = match j {
            Json::Obj(ms) => ms,
            _ => {
                return Err(DecodeError::new("external metric value: not an object"));
            },
        };
        if !check_kind(ms, "kind", M::kind()) {
            return Err(DecodeError::new("external metric value: kind mismatch"));
        }
        if !check_kind(ms, "apiVersion", "external.metrics.k8s.io/v1beta1") {
            return Err(DecodeError::new("external metric value: apiVersion mismatch"));
        }
        let mj = match get_field(ms, "metadata") {
            Some(m) => m,
            None => {
                return Err(DecodeError::new("external metric value: metadata is required"));
            },
        };
        let metadata = match ObjectMeta::from_json(mj) {
            Ok(m) => m,
            Err(e) => {
                return Err(e);
            },
        };
        let metric_name = match read_req_text(ms, "metricName") {
            Ok(t) => t,
            Err(_) => {
                return Err(
                    DecodeError::new("external metric value: metricName must be a string"),
                );
            },
        };
        let lj = match get_field(ms, "metricLabels") {
            Some(l) => l,
            None => {
                return Err(
                    DecodeError::new("external metric value: metricLabels is required"),
                );
            },
        };
        let metric_labels = match labels_from_json(lj) {
            Ok(ls) => ls,
            Err(_) => {
                return Err(
                    DecodeError::new(
                        "external metric value: metricLabels must be an object of strings",
                    ),
                );
            },
        };
        let timestamp = match read_req_text(ms, "timestamp") {
            Ok(t) => Time(t),
            Err(_) => {
                return Err(
                    DecodeError::new("external metric value: timestamp must be a string"),
                );
            },
        };
        let window_seconds = match read_opt_int(ms, "window") {
            Ok(n) => n,
            Err(_) => {
                return Err(
                    DecodeError::new("external metric value: window must be a number"),
                );
            },
        };
        let value = match read_req_text(ms, "value") {
            Ok(t) => Quantity(t),
            Err(_) => {
                return Err(DecodeError::new("external metric value: value must be a string"));
            },
        };
        Ok(
            ExternalMetricValue {
                metadata,
                metric_name,
                metric_labels,
                timestamp,
                window_seconds,
                value,
                phantom: core::marker::PhantomData,
            },
        )
    }
}

} // verus!
