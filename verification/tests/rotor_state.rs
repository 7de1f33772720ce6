use dynbem_rs::quasi_static_bem::QuasiStaticRotorState;
use dynbem_rs::rotor_definition::has_radial_stations;

#[test]
fn quasi_static_state_has_no_inflow() {
    let s = QuasiStaticRotorState::default();
    assert_eq!(s.inflow_dof(), 0);
    assert_eq!(s.clone(), QuasiStaticRotorState);
}

#[test]
fn radial_stations_need_two_matching_tables() {
    assert!(has_radial_stations(3, 3, 3));
    assert!(!has_radial_stations(0, 0, 0));
    assert!(!has_radial_stations(1, 1, 1));
    assert!(!has_radial_stations(3, 2, 3));
    assert!(!has_radial_stations(3, 3, 4));
}
