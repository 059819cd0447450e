use k8s_metrics::quantity::parse_as_bytes;
use k8s_metrics::quantity::parse_as_fractional;
use k8s_metrics::quantity::Quantity;

#[test]
#[allow(non_snake_case)]
fn memory_Ki() {
    let q = Quantity::from_text("2Ki").to_memory().unwrap();
    assert_eq!(q, 2048);
}

#[test]
#[allow(non_snake_case)]
fn memory_Mi() {
    let q = Quantity::from_text("5Mi").to_memory().unwrap();
    assert_eq!(q, 5242880);
}

#[test]
#[allow(non_snake_case)]
fn memory_Gi() {
    let q = Quantity::from_text("3Gi").to_memory().unwrap();
    assert_eq!(q, 3221225472);
}

#[test]
fn leading_zeros() {
    let q = Quantity::from_text("0004Ki").to_memory().unwrap();
    assert_eq!(q, 4096);
}

#[test]
fn cpu_nano() {
    let q = Quantity::from_text("257n").to_nanocores().unwrap();
    assert_eq!(q as f64 / 1e9, 0.000000257);
}

#[test]
fn cpu_micro() {
    let q = Quantity::from_text("303u").to_nanocores().unwrap();
    assert_eq!(q as f64 / 1e9, 0.000303);
}

#[test]
fn cpu_milli() {
    let q = Quantity::from_text("3491m").to_nanocores().unwrap();
    assert_eq!(q as f64 / 1e9, 3.491);
}

#[test]
fn cpu_bare_cores() {
    assert_eq!(parse_as_fractional("2").unwrap(), 2_000_000_000);
    assert_eq!(parse_as_fractional("0").unwrap(), 0);
}

#[test]
fn cpu_fractional_prefix() {
    assert_eq!(parse_as_fractional("0.5").unwrap(), 500_000_000);
    assert_eq!(parse_as_fractional("1.5m").unwrap(), 1_500_000);
}

#[test]
fn cpu_bad_suffix_keeps_literal() {
    let err = parse_as_fractional("123t").unwrap_err();
    assert_eq!(err.text(), "123t");
    assert!(err.message().contains("123t"));
}

#[test]
fn memory_bad_suffix_keeps_literal() {
    let err = parse_as_bytes("125864Ai").unwrap_err();
    assert_eq!(err.text(), "125864Ai");
    assert!(err.message().contains("125864Ai"));
}

#[test]
fn memory_negative() {
    assert_eq!(parse_as_bytes("-4Ki").unwrap(), -4096);
}

#[test]
fn memory_overflow_is_an_error() {
    assert!(parse_as_bytes("99999999999999999999").is_err());
    assert!(parse_as_bytes("9999999999999999999Ki").is_err());
}

#[test]
fn memory_rejects_empty_and_junk() {
    assert!(parse_as_bytes("").is_err());
    assert!(parse_as_bytes("Ki").is_err());
    assert!(parse_as_bytes("1.5Ki").is_err());
    assert!(parse_as_fractional("").is_err());
    assert!(parse_as_fractional("n").is_err());
}
