use k8s_metrics::custom_metrics::MetricValue;
use k8s_metrics::external_metrics::ExternalMetricValue;
use k8s_metrics::identity::Resource;
use k8s_metrics::identity::Scope;
use k8s_metrics::json::Json;
use k8s_metrics::v1beta1::NodeMetrics;
use k8s_metrics::v1beta1::PodMetrics;
use k8s_metrics::v1beta1::Usage;

const NODE: &str = r#"{
  "kind": "NodeMetrics",
  "apiVersion": "metrics.k8s.io/v1beta1",
  "metadata": {
    "name": "docker-desktop",
    "creationTimestamp": "2022-10-09T11:41:56Z",
    "labels": {
      "beta.kubernetes.io/arch": "arm64",
      "beta.kubernetes.io/os": "linux",
      "kubernetes.io/arch": "arm64",
      "kubernetes.io/hostname": "docker-desktop",
      "kubernetes.io/os": "linux",
      "node-role.kubernetes.io/control-plane": "",
      "node.kubernetes.io/exclude-from-external-load-balancers": ""
    }
  },
  "timestamp": "2022-10-09T11:41:45Z",
  "window": "23.5s",
  "usage": {
    "cpu": "196382978n",
    "memory": "1848836Ki"
  }
}"#;

const POD: &str = r#"{
  "kind": "PodMetrics",
  "apiVersion": "metrics.k8s.io/v1beta1",
  "metadata": {
    "name": "metrics-server-6db985556d-nqbdz",
    "namespace": "kube-system",
    "creationTimestamp": "2022-10-09T11:51:23Z",
    "labels": {
      "k8s-app": "metrics-server",
      "pod-template-hash": "6db985556d"
    }
  },
  "timestamp": "2022-10-09T11:51:20Z",
  "window": "14.982s",
  "containers": [
    {
      "name": "metrics-server",
      "usage": {
        "cpu": "6082165n",
        "memory": "22272Ki"
      }
    }
  ]
}"#;

fn usage_from_text(doc: &str) -> Result<Usage, k8s_metrics::codec::DecodeError> {
    let j = Json::parse(doc).expect("the test document is valid JSON");
    Usage::from_json(&j)
}

#[test]
fn nano() {
    let usage = usage_from_text(r#"{"cpu":"1234567n","memory":"123Mi"}"#).unwrap();
    assert_eq!(usage.cpu().unwrap() as f64 / 1e9, 0.001234567_f64);
    assert_eq!(usage.memory().unwrap(), 123 * 1024 * 1024);
}

#[test]
fn milli() {
    let usage = usage_from_text(r#"{"cpu":"1234567m","memory":"8748Ki"}"#).unwrap();
    assert_eq!(usage.cpu().unwrap() as f64 / 1e9, 1234.567_f64);
    assert_eq!(usage.memory().unwrap(), 8748 * 1024);
}

#[test]
fn zero() {
    let usage = usage_from_text(r#"{"cpu":"0","memory":"51428Ki"}"#).unwrap();
    assert_eq!(usage.cpu().unwrap() as f64 / 1e9, 0_f64);
    assert_eq!(usage.memory().unwrap(), 51428 * 1024);
}

#[test]
fn invalid_cpu() {
    let usage = usage_from_text(r#"{"cpu":"123t","memory":"125864Ki"}"#).unwrap();
    let err = usage.cpu().unwrap_err();
    println!("{}", err.message());
    assert!(err.message().contains("123t"));
}

#[test]
fn invalid_memory() {
    let usage = usage_from_text(r#"{"cpu":"123m","memory":"125864Ai"}"#).unwrap();
    let err = usage.memory().unwrap_err();
    println!("{}", err.message());
    assert!(err.message().contains("125864Ai"));
}

#[test]
fn node_resource() {
    let node = NodeMetrics::from_json_text(NODE).unwrap();
    assert_eq!(node.metadata.name.as_deref(), Some("docker-desktop"));
    assert_eq!(node.window.as_nanos() as f64 / 1e9, 23.5);
    assert_eq!(node.usage.cpu().unwrap() as f64 / 1e9, 0.196382978);
    assert_eq!(node.usage.memory().unwrap(), 1893208064);
}

#[test]
fn pod_resource() {
    let pod = PodMetrics::from_json_text(POD).unwrap();
    assert_eq!(
        pod.metadata.name.as_deref(),
        Some("metrics-server-6db985556d-nqbdz")
    );
    assert_eq!(pod.containers.len(), 1);
    let container = &pod.containers[0];
    assert_eq!(container.name, "metrics-server");
    assert_eq!(container.usage.cpu().unwrap() as f64 / 1e9, 0.006082165);
    assert_eq!(container.usage.memory().unwrap(), 22806528);
}

#[test]
fn pod_round_trip() {
    let pod = PodMetrics::from_json_text(POD).unwrap();
    let text = pod.to_json_text();
    let again = PodMetrics::from_json_text(&text).unwrap();
    assert_eq!(again, pod);
}

#[test]
fn node_round_trip() {
    let node = NodeMetrics::from_json_text(NODE).unwrap();
    let text = node.to_json_text();
    let again = NodeMetrics::from_json_text(&text).unwrap();
    assert_eq!(again, node);
}

#[test]
fn pod_metrics_document() {
    let doc = r#"{"kind":"PodMetrics","apiVersion":"metrics.k8s.io/v1beta1","metadata":{"name":"metrics-server-x","namespace":"kube-system"},"timestamp":"2022-10-09T11:51:20Z","window":"14.982s","containers":[{"name":"metrics-server","usage":{"cpu":"6082165n","memory":"22272Ki"}}]}"#;
    let pod = PodMetrics::from_json_text(doc).unwrap();
    assert_eq!(pod.metadata.name.as_deref(), Some("metrics-server-x"));
    assert_eq!(pod.containers.len(), 1);
    assert_eq!(pod.containers[0].name, "metrics-server");
    let cores = pod.containers[0].usage.cpu().unwrap() as f64 / 1e9;
    assert!((cores - 0.006082165).abs() < 1e-12);
    assert_eq!(pod.containers[0].usage.memory().unwrap(), 22806528);
}

#[test]
fn usage_fragment() {
    let j = Json::parse(r#"{"usage":{"cpu":"0","memory":"51428Ki"}}"#).unwrap();
    let uj = match &j {
        Json::Obj(ms) => &ms[0].1,
        _ => panic!("document should be an object"),
    };
    let usage = Usage::from_json(uj).unwrap();
    assert_eq!(usage.cpu().unwrap() as f64 / 1e9, 0.0);
    assert_eq!(usage.memory().unwrap(), 51428 * 1024);
}

#[test]
fn kind_mismatch_is_an_error() {
    let doc = POD.replace("PodMetrics", "NodeMetrics");
    assert!(PodMetrics::from_json_text(&doc).is_err());
}

#[test]
fn missing_required_member_is_an_error() {
    let doc = r#"{"kind":"PodMetrics","metadata":{},"timestamp":"t","window":"1s"}"#;
    assert!(PodMetrics::from_json_text(doc).is_err());
    let doc = r#"{"metadata":{},"timestamp":"t","containers":[]}"#;
    assert!(PodMetrics::from_json_text(doc).is_err());
}

#[test]
fn bad_window_is_an_error() {
    let doc = POD.replace("14.982s", "12.05a");
    assert!(PodMetrics::from_json_text(&doc).is_err());
}

#[test]
fn identity_constants() {
    assert_eq!(PodMetrics::api_version(), "metrics.k8s.io/v1beta1");
    assert_eq!(PodMetrics::group(), "metrics.k8s.io");
    assert_eq!(PodMetrics::kind(), "PodMetrics");
    assert_eq!(PodMetrics::version(), "v1beta1");
    assert_eq!(PodMetrics::url_path_segment(), "pods");
    assert_eq!(PodMetrics::scope(), Scope::Namespaced);
    assert_eq!(NodeMetrics::kind(), "NodeMetrics");
    assert_eq!(NodeMetrics::url_path_segment(), "nodes");
    assert_eq!(NodeMetrics::scope(), Scope::Cluster);
    assert_eq!(
        MetricValue::<PodMetrics>::api_version(),
        "custom.metrics.k8s.io/v1beta2"
    );
    assert_eq!(MetricValue::<PodMetrics>::kind(), "PodMetrics");
    assert_eq!(MetricValue::<PodMetrics>::scope(), Scope::Namespaced);
}

#[test]
fn zero_valued_records() {
    let node = NodeMetrics::default();
    assert_eq!(node.metadata.name, None);
    assert_eq!(node.timestamp.0, "1970-01-01T00:00:00Z");
    assert_eq!(node.window.as_nanos(), 0);
    let pod = PodMetrics::default();
    assert_eq!(pod.containers.len(), 0);
    let n: i64 = k8s_metrics::default();
    assert_eq!(n, 0);
}

#[test]
fn metric_value_new() {
    let v: MetricValue<PodMetrics> = MetricValue::new("requests", "shop", "checkout-1");
    assert_eq!(v.metadata.name.as_deref(), Some("requests"));
    assert_eq!(v.metadata.namespace.as_deref(), Some("shop"));
    assert_eq!(v.described_object.name.as_deref(), Some("checkout-1"));
    assert_eq!(v.described_object.namespace.as_deref(), Some("shop"));
    assert_eq!(
        v.described_object.api_version.as_deref(),
        Some("metrics.k8s.io/v1beta1")
    );
    assert_eq!(v.described_object.kind.as_deref(), Some("PodMetrics"));
    assert_eq!(v.metric.name, "requests");
    assert!(v.metric.selector.is_none());
    assert_eq!(v.timestamp.0, "1970-01-01T00:00:00Z");
    assert_eq!(v.window_seconds, 0);
    assert_eq!(v.value.0, "");
}

#[test]
fn metric_value_with_object() {
    let mut pod = PodMetrics::default();
    pod.metadata.name = Some(String::from("checkout-1"));
    pod.metadata.namespace = Some(String::from("shop"));
    pod.metadata.uid = Some(String::from("u-1"));
    let v: MetricValue<PodMetrics> = MetricValue::with_object("requests", &pod);
    assert_eq!(v.metadata.name.as_deref(), Some("requests"));
    assert_eq!(v.metadata.namespace.as_deref(), Some("shop"));
    assert_eq!(v.described_object.name.as_deref(), Some("checkout-1"));
    assert_eq!(v.described_object.uid.as_deref(), Some("u-1"));
    assert_eq!(v.described_object.kind.as_deref(), Some("PodMetrics"));
}

#[test]
fn metric_value_round_trip() {
    let v: MetricValue<PodMetrics> = MetricValue::new("requests", "shop", "checkout-1");
    let j = v.to_json();
    let again: MetricValue<PodMetrics> = MetricValue::from_json(&j).unwrap();
    assert_eq!(again.metadata, v.metadata);
    assert_eq!(again.described_object, v.described_object);
    assert_eq!(again.metric, v.metric);
    assert_eq!(again.timestamp, v.timestamp);
    assert_eq!(again.window_seconds, v.window_seconds);
    assert_eq!(again.value, v.value);
}

#[test]
fn metric_value_decode_document() {
    let doc = r#"{"apiVersion":"custom.metrics.k8s.io/v1beta2","kind":"PodMetrics","metadata":{"name":"requests"},"describedObject":{"name":"checkout-1","namespace":"shop"},"metric":{"name":"requests"},"timestamp":"2022-10-09T11:51:20Z","windowSeconds":60,"value":"100m"}"#;
    let j = Json::parse(doc).unwrap();
    let v: MetricValue<PodMetrics> = MetricValue::from_json(&j).unwrap();
    assert_eq!(v.window_seconds, 60);
    assert_eq!(v.value.to_nanocores().unwrap(), 100_000_000);
    assert_eq!(v.described_object.namespace.as_deref(), Some("shop"));
}

#[test]
fn external_metric_value_new() {
    let v: ExternalMetricValue<PodMetrics> = ExternalMetricValue::new("queue-depth");
    assert_eq!(v.metric_name, "queue-depth");
    assert!(v.metric_labels.is_empty());
    assert_eq!(v.window_seconds, 0);
    assert_eq!(v.value.0, "");
}

#[test]
fn json_renders_canonically() {
    let j = Json::Obj(vec![
        (String::from("a"), Json::Int(1)),
        (String::from("b"), Json::Str(String::from("x\"y"))),
        (String::from("c"), Json::Arr(vec![Json::Null, Json::Bool(true), Json::Int(-2)])),
    ]);
    assert_eq!(j.render(), r#"{"a":1,"b":"x\"y","c":[null,true,-2]}"#);
}

#[test]
fn json_parses_with_whitespace_and_escapes() {
    let j = Json::parse(" { \"a\" : [ 1 , \"x\\n\" ] } \n").unwrap();
    match &j {
        Json::Obj(ms) => {
            assert_eq!(ms.len(), 1);
            assert_eq!(ms[0].0, "a");
            match &ms[0].1 {
                Json::Arr(es) => {
                    assert_eq!(es.len(), 2);
                    assert_eq!(es[0], Json::Int(1));
                    assert_eq!(es[1], Json::Str(String::from("x\n")));
                }
                _ => panic!("a should be an array"),
            }
        }
        _ => panic!("document should be an object"),
    }
    assert!(Json::parse("{").is_none());
    assert!(Json::parse("1 2").is_none());
}
