use dynbem_rs::rotor_yaml::{error_line, req, resolve_against, resolve_polar_csv, YamlLoadError};

#[test]
fn req_present_and_missing() {
    assert_eq!(req(Some(3usize), "rotor.n_blades").unwrap(), 3);
    match req::<f64>(None, "rotor.chord_m") {
        Err(YamlLoadError::MissingField(p)) => assert_eq!(p, "rotor.chord_m"),
        other => panic!("expected MissingField, got {:?}", other),
    }
}

#[test]
fn missing_field_message() {
    let e = req::<u8>(None, "airfoil.CD0").unwrap_err();
    assert_eq!(e.message(), "missing required field: airfoil.CD0");
    let e = YamlLoadError::InvalidValue {
        field: "inertia.mass_kg".to_string(),
        reason: "not a number".to_string(),
    };
    assert_eq!(e.message(), "invalid value for inertia.mass_kg: not a number");
}

#[test]
fn parse_error_message_prefix() {
    let err = serde_yaml::from_str::<u32>("[1, 2").unwrap_err();
    let e = YamlLoadError::Parse(err);
    assert!(e.message().starts_with("YAML parse error: "));
    let e = YamlLoadError::Io(std::io::Error::new(std::io::ErrorKind::NotFound, "gone"));
    assert_eq!(e.message(), "I/O error: gone");
}

#[test]
fn polar_csv_kept_without_base() {
    assert_eq!(
        resolve_polar_csv(Some("naca0015_ncrit5_re200k.csv".to_string()), None).as_deref(),
        Some("naca0015_ncrit5_re200k.csv")
    );
    assert_eq!(resolve_polar_csv(None, Some("/tmp/rotors/foo")), None);
}

#[test]
fn polar_csv_resolves_against_base() {
    let csv = resolve_polar_csv(
        Some("naca0015_ncrit5_re200k.csv".to_string()),
        Some("/tmp/rotors/foo"),
    )
    .unwrap();
    assert!(csv.contains("naca0015_ncrit5_re200k.csv"));
    assert!(csv.contains("foo"));
    assert!(csv.starts_with("/tmp/rotors/foo"));
    assert!(csv.ends_with("naca0015_ncrit5_re200k.csv"));
    assert_ne!(csv, "naca0015_ncrit5_re200k.csv");
}

#[test]
fn absolute_polar_csv_is_kept() {
    assert_eq!(
        resolve_polar_csv(Some("/data/polar.csv".to_string()), Some("/tmp/rotors")).as_deref(),
        Some("/data/polar.csv")
    );
}

#[test]
fn error_line_joins_prefix_and_detail() {
    assert_eq!(error_line("I/O error: ", "gone"), "I/O error: gone");
    assert_eq!(error_line("", "x"), "x");
    assert_eq!(error_line("p: ", ""), "p: ");
}

#[test]
fn resolve_against_keeps_absolute_and_joins_relative() {
    assert_eq!(resolve_against("/data/polar.csv".to_string(), "/tmp/rotors", true), "/data/polar.csv");
    assert_eq!(resolve_against("polar.csv".to_string(), "/tmp/rotors", true), "polar.csv");
    let w = resolve_against("polar.csv".to_string(), "/tmp/rotors", false);
    assert!(w.starts_with("/tmp/rotors"));
    assert!(w.ends_with("polar.csv"));
    assert!(w.len() > "/tmp/rotors".len() + "polar.csv".len());
    assert_eq!(resolve_against("polar.csv".to_string(), "", false), "polar.csv");
    assert_eq!(resolve_against("a:b.csv".to_string(), "", false), "a:b.csv");
    let w = resolve_against("polar.csv".to_string(), "/tmp/rotors/foo", false);
    assert!(w == "/tmp/rotors/foo/polar.csv" || w == "/tmp/rotors/foo\\polar.csv");
    let w = resolve_against("polar.csv".to_string(), "/tmp/rotors/", false);
    assert_eq!(w, "/tmp/rotors/polar.csv");
}

#[test]
fn polar_csv_name_with_colon_ends_the_joined_path() {
    let w = resolve_polar_csv(Some("polars/x:y.csv".to_string()), Some("/tmp/rotors")).unwrap();
    assert!(w.starts_with("/tmp/rotors"));
    assert!(w.ends_with("polars/x:y.csv"));
    let w = resolve_polar_csv(Some("a:b.csv".to_string()), Some("/tmp/rotors")).unwrap();
    assert!(w.ends_with("a:b.csv"));
}
