use dynbem_rs::aero_model::{parse_integration_method, IntegrationMethod};

#[test]
fn integration_method_defaults_to_semi_implicit() {
    assert_eq!(
        parse_integration_method(None).unwrap(),
        IntegrationMethod::SemiImplicitEuler
    );
}

#[test]
fn integration_method_aliases() {
    for w in ["semi_implicit", "semi-implicit", "semiimplicit", "implicit", "IMPLICIT"] {
        assert_eq!(
            parse_integration_method(Some(w)).unwrap(),
            IntegrationMethod::SemiImplicitEuler
        );
    }
    for w in ["explicit", "explicit_euler", "Explicit-Euler"] {
        assert_eq!(
            parse_integration_method(Some(w)).unwrap(),
            IntegrationMethod::ExplicitEuler
        );
    }
    for w in ["exponential", "exponential_relaxation", "exponential-relaxation", "EXP"] {
        assert_eq!(
            parse_integration_method(Some(w)).unwrap(),
            IntegrationMethod::ExponentialRelaxation
        );
    }
}

#[test]
fn integration_method_unknown_is_refused() {
    let e = parse_integration_method(Some("Runge-Kutta")).unwrap_err();
    assert_eq!(e.name, "runge-kutta");
    assert_eq!(
        e.message(),
        "Unknown integration_method 'runge-kutta'. Use 'semi_implicit', 'explicit', or 'exponential'."
    );
    assert!(parse_integration_method(Some(" explicit")).is_err());
    let e = parse_integration_method(Some("ÉXPLICIT Z@[")).unwrap_err();
    assert_eq!(e.name, "Éxplicit z@[");
}

#[test]
fn integration_method_ignores_ascii_case() {
    let words = ["ExPlIcIt", "exp", "Nope", "SEMI_IMPLICIT"];
    for w in words {
        let a = parse_integration_method(Some(w));
        let b = parse_integration_method(Some(&w.to_ascii_lowercase()));
        match (a, b) {
            (Ok(x), Ok(y)) => assert_eq!(x, y),
            (Err(x), Err(y)) => assert_eq!(x.name, y.name),
            _ => panic!("case changed the outcome for {w}"),
        }
    }
}
