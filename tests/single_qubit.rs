use stabilizer_sim::{Gate, StabilizerSimulator};

#[test]
fn lib_test_i_measured_in_z_basis() {
    let mut stabilizer = StabilizerSimulator::seeded();
    assert!(!stabilizer.measure());
}

#[test]
fn test_x_measured_in_z_basis() {
    let mut stabilizer = StabilizerSimulator::seeded();
    stabilizer.apply_gate(&Gate::X);
    assert!(stabilizer.measure());
}

#[test]
fn test_z_measured_in_z_basis() {
    let mut stabilizer = StabilizerSimulator::seeded();
    stabilizer.apply_gate(&Gate::Z);
    assert!(!stabilizer.measure());
}

#[test]
fn test_h_z_h_equals_x() {
    let mut stabilizer = StabilizerSimulator::seeded();
    stabilizer.apply_gate(&Gate::Z);
    stabilizer.apply_gate(&Gate::H);
    stabilizer.apply_gate(&Gate::Z);
    assert!(stabilizer.measure());
}

#[test]
fn test_h_y_h_equals_y() {
    let mut stabilizer = StabilizerSimulator::seeded();
    stabilizer.apply_gate(&Gate::Y);
    stabilizer.apply_gate(&Gate::H);
    stabilizer.apply_gate(&Gate::Y);
    assert!(stabilizer.measure());
}

#[test]
fn test_h_x_h_equals_z() {
    let mut stabilizer = StabilizerSimulator::seeded();
    stabilizer.apply_gate(&Gate::H);
    stabilizer.apply_gate(&Gate::X);
    stabilizer.apply_gate(&Gate::H);
    assert!(!stabilizer.measure());
}

#[test]
fn lib_test_h_s_s_h_equals_x() {
    let mut stabilizer = StabilizerSimulator::seeded();
    stabilizer.apply_gate(&Gate::H);
    stabilizer.apply_gate(&Gate::S);
    stabilizer.apply_gate(&Gate::S);
    stabilizer.apply_gate(&Gate::H);
    assert!(stabilizer.measure());
}

#[test]
fn single_h_z_h_measures_one() {
    let mut stabilizer = StabilizerSimulator::new(7);
    stabilizer.apply_gate(&Gate::H);
    stabilizer.apply_gate(&Gate::Z);
    stabilizer.apply_gate(&Gate::H);
    assert!(stabilizer.measure());
}

#[test]
fn single_z_basis_measurement_is_repeatable() {
    let mut stabilizer = StabilizerSimulator::new(3);
    stabilizer.apply_gate(&Gate::X);
    for _ in 0..5 {
        assert!(stabilizer.measure());
    }
}
