/// Hover mass-flow: Glauert lambda_0 = sqrt(CT/2), Peters Eq-8 gives sqrt(CT/4).
/// The ratio must be exactly sqrt(2).
#[test]
fn glauert_vs_peters_hover_inflow_ratio_is_sqrt2() {
    const C_T: f64 = 0.00488;
    let lambda_glauert = (C_T / 2.0).sqrt();
    let lambda_peters = (C_T / 4.0).sqrt();
    let ratio = lambda_glauert / lambda_peters;
    assert!(
        (ratio - 2.0_f64.sqrt()).abs() < 1e-10,
        "Expected sqrt(2) ratio between Glauert and Peters hover inflow, got {ratio}"
    );
    // Verify mass-flow parameter ratio is also sqrt(2).
    let v_mf_glauert = lambda_glauert;
    let v_peters = 2.0 * lambda_peters;
    let mf_ratio = v_peters / v_mf_glauert;
    assert!(
        (mf_ratio - 2.0_f64.sqrt()).abs() < 1e-10,
        "Expected sqrt(2) mass-flow ratio, got {mf_ratio}"
    );
}
