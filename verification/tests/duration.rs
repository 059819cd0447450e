use k8s_metrics::duration::parse_duration;
use k8s_metrics::duration::Duration;
use k8s_metrics::json::Json;

#[test]
fn valid_duration() {
    let doc = r#"{"window":"12.05s"}"#;
    let j = Json::parse(doc).unwrap();
    let window = match &j {
        Json::Obj(ms) => match &ms[0].1 {
            Json::Str(t) => t.clone(),
            _ => panic!("window should be a string"),
        },
        _ => panic!("document should be an object"),
    };
    let d = Duration::parse(&window).unwrap();
    assert_eq!(d.as_nanos() as f64 / 1e9, 12.05);
}

#[test]
fn invalid_duration() {
    Duration::parse("12.05a").unwrap_err();
}

#[test]
fn half_minutes_exact() {
    let d = Duration::parse("23.5s").unwrap();
    assert_eq!(d.as_nanos(), 23_500_000_000);
    assert_eq!(d.as_nanos() as f64 / 1e9, 23.5);
}

#[test]
fn millisecond_precision() {
    let d = Duration::parse("14.982s").unwrap();
    assert_eq!(d.as_nanos(), 14_982_000_000);
}

#[test]
fn summed_pairs() {
    assert_eq!(parse_duration("1h2m").unwrap(), 3_720_000_000_000);
    assert_eq!(parse_duration("1h2m3s4ms5us6ns").unwrap(), 3_723_004_005_006);
}

#[test]
fn bare_integer_is_nanoseconds() {
    assert_eq!(parse_duration("0").unwrap(), 0);
    assert_eq!(parse_duration("123").unwrap(), 123);
}

#[test]
fn signed_durations() {
    assert_eq!(parse_duration("-1.5h").unwrap(), -5_400_000_000_000);
    assert_eq!(parse_duration("+250ms").unwrap(), 250_000_000);
}

#[test]
fn unit_spellings() {
    assert_eq!(parse_duration("1us").unwrap(), 1_000);
    assert_eq!(parse_duration("1µs").unwrap(), 1_000);
    assert_eq!(parse_duration("1ns").unwrap(), 1);
}

#[test]
fn malformed_durations_fail() {
    assert!(parse_duration("").is_err());
    assert!(parse_duration("s").is_err());
    assert!(parse_duration("1").is_ok());
    assert!(parse_duration("1x").is_err());
    assert!(parse_duration("1h-2m").is_err());
    let err = parse_duration("12.05a").unwrap_err();
    assert!(err.message().contains("12.05a"));
}

#[test]
fn format_round_trips() {
    let d = Duration::parse("23.5s").unwrap();
    let again = Duration::parse(&d.format()).unwrap();
    assert_eq!(again.as_nanos(), d.as_nanos());
}
