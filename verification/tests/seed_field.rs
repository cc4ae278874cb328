use farm_os::seed_prefill::SeedFieldState;

fn proposal(rate: f64, trays: i64) -> String {
    format!("{:.1}", rate * trays as f64)
}

fn confirmed(field: &SeedFieldState) -> Option<f64> {
    field.confirm_text().map(|t| t.parse::<f64>().unwrap())
}

#[test]
fn t3a_shelf_wins_correction_survives_resubmit() {
    let mut field = SeedFieldState::with_proposal(proposal(8.0, 3));
    assert_eq!(field.value, "24.0");
    assert!(!field.dirty);
    field.on_operator_edit("22.5".into());
    assert_eq!(field.value, "22.5");
    assert!(field.dirty);
    field.on_proposal_changed(proposal(8.0, 3));
    assert_eq!(field.value, "22.5");
    assert_eq!(confirmed(&field), Some(22.5));
}

#[test]
fn t3b_shelf_wins_under_tray_count_recompute() {
    let mut field = SeedFieldState::with_proposal(proposal(8.0, 3));
    field.on_operator_edit("22.5".into());
    field.on_proposal_changed(proposal(8.0, 5));
    assert_eq!(field.value, "22.5");
    assert_eq!(confirmed(&field), Some(22.5));
}

#[test]
fn blank_edit_lets_the_proposal_return() {
    let mut field = SeedFieldState::with_proposal(proposal(8.0, 3));
    field.on_operator_edit("   ".into());
    assert_eq!(field.value, "");
    assert!(!field.dirty);
    assert_eq!(field.confirm_text(), None);
    field.on_proposal_changed(proposal(8.0, 5));
    assert_eq!(field.value, "40.0");
    assert!(!field.dirty);
}

#[test]
fn confirm_text_is_trimmed() {
    let mut field = SeedFieldState::with_proposal(String::new());
    field.on_operator_edit("  12.5 ".into());
    assert_eq!(field.confirm_text().as_deref(), Some("12.5"));
}
