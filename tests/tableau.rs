use std::collections::HashSet;

use stabilizer_sim::gates::Gate;
use stabilizer_sim::stabilizer_simulator::{SimulatorError, StabilizerSimulator, TableauGeneratorRow};

fn prepare_one(stabilizer: &mut StabilizerSimulator<2>, qubit: u32) {
    stabilizer.apply_gate(&Gate::H(qubit));
    stabilizer.apply_gate(&Gate::S(qubit));
    stabilizer.apply_gate(&Gate::S(qubit));
    stabilizer.apply_gate(&Gate::H(qubit));
}

fn row(negated: bool, x: &[bool], z: &[bool]) -> TableauGeneratorRow {
    TableauGeneratorRow { phase_is_negated: negated, x_bits: x.to_vec(), z_bits: z.to_vec() }
}

#[test]
fn stabilizer_simulator_test_i_measured_in_z_basis() {
    let mut stabilizer: StabilizerSimulator<1> = StabilizerSimulator::seeded();
    assert!(!stabilizer.measure(0).unwrap());
}

#[test]
fn stabilizer_simulator_test_h_s_s_h_equals_x() {
    let mut stabilizer: StabilizerSimulator<1> = StabilizerSimulator::seeded();
    stabilizer.apply_gate(&Gate::H(0));
    stabilizer.apply_gate(&Gate::S(0));
    stabilizer.apply_gate(&Gate::S(0));
    stabilizer.apply_gate(&Gate::H(0));
    assert!(stabilizer.measure(0).unwrap());
}

#[test]
fn test_cnot_when_control_is_zero() {
    let mut stabilizer: StabilizerSimulator<2> = StabilizerSimulator::seeded();
    stabilizer.apply_gate(&Gate::Cx(0, 1));
    assert!(!stabilizer.measure(0).unwrap());
    assert!(!stabilizer.measure(1).unwrap());
}

#[test]
fn test_cnot_when_control_is_one() {
    let mut stabilizer: StabilizerSimulator<2> = StabilizerSimulator::seeded();
    stabilizer.apply_gate(&Gate::H(0));
    stabilizer.apply_gate(&Gate::S(0));
    stabilizer.apply_gate(&Gate::S(0));
    stabilizer.apply_gate(&Gate::H(0));
    stabilizer.apply_gate(&Gate::Cx(0, 1));
    assert!(stabilizer.measure(0).unwrap());
    assert!(stabilizer.measure(1).unwrap());
}

#[test]
fn test_nondeterministic_measurement() {
    let mut stabilizer: StabilizerSimulator<2> = StabilizerSimulator::seeded();
    let mut results = HashSet::new();
    for s_reps in 0..4 {
        for _ in 0..10 {
            stabilizer.apply_gate(&Gate::H(0));
            for _ in 0..s_reps {
                stabilizer.apply_gate(&Gate::S(0));
            }
            let result = stabilizer.measure(0).unwrap();
            results.insert(result);
        }
        assert!(results.len() == 2);
        assert!(results.contains(&true));
        assert!(results.contains(&false));
        results.clear();
    }
}

#[test]
fn fresh_register_measures_zero_for_any_seed() {
    for seed in [0u64, 1, 42, u64::MAX] {
        let mut stabilizer: StabilizerSimulator<3> = StabilizerSimulator::new(seed);
        assert_eq!(stabilizer.measure(0), Ok(false));
        assert_eq!(stabilizer.measure(1), Ok(false));
        assert_eq!(stabilizer.measure(2), Ok(false));
    }
}

#[test]
fn h_x_h_measures_zero_and_h_z_h_measures_one() {
    // X is H;S;S;H and Z is S;S.
    let mut a: StabilizerSimulator<2> = StabilizerSimulator::new(5);
    a.apply_gate(&Gate::H(0));
    prepare_one(&mut a, 0);
    a.apply_gate(&Gate::H(0));
    assert_eq!(a.measure(0), Ok(false));

    let mut b: StabilizerSimulator<2> = StabilizerSimulator::new(5);
    b.apply_gate(&Gate::H(0));
    b.apply_gate(&Gate::S(0));
    b.apply_gate(&Gate::S(0));
    b.apply_gate(&Gate::H(0));
    assert_eq!(b.measure(0), Ok(true));
}

#[test]
fn cnot_copies_one_into_target_on_second_qubit() {
    let mut stabilizer: StabilizerSimulator<2> = StabilizerSimulator::new(11);
    prepare_one(&mut stabilizer, 1);
    stabilizer.apply_gate(&Gate::Cx(1, 0));
    assert_eq!(stabilizer.measure(0), Ok(true));
    assert_eq!(stabilizer.measure(1), Ok(true));
}

#[test]
fn remeasurement_repeats_random_outcome() {
    for seed in 0..20u64 {
        let mut stabilizer: StabilizerSimulator<2> = StabilizerSimulator::new(seed);
        stabilizer.apply_gate(&Gate::H(0));
        let first = stabilizer.measure(0).unwrap();
        for _ in 0..3 {
            assert_eq!(stabilizer.measure(0), Ok(first));
        }
    }
}

#[test]
fn bell_pair_outcomes_agree() {
    let mut seen = HashSet::new();
    for seed in 0..20u64 {
        let mut stabilizer: StabilizerSimulator<2> = StabilizerSimulator::new(seed);
        stabilizer.apply_gate(&Gate::H(0));
        stabilizer.apply_gate(&Gate::Cx(0, 1));
        let a = stabilizer.measure(0).unwrap();
        let b = stabilizer.measure(1).unwrap();
        assert_eq!(a, b);
        seen.insert(a);
    }
    assert_eq!(seen.len(), 2);
}

#[test]
fn rowsum_of_z_and_x_is_rejected() {
    // X * Z = -iY: an odd power of i.
    let mut h = row(false, &[false], &[true]);
    let i = row(false, &[true], &[false]);
    let r = StabilizerSimulator::<1>::rowsum(&mut h, &i);
    assert_eq!(r, Err(SimulatorError::InvariantViolation));
    assert!(!h.phase_is_negated);
    assert_eq!(h.x_bits, vec![false]);
    assert_eq!(h.z_bits, vec![true]);
}

#[test]
fn rowsum_of_xx_into_zz_gives_minus_yy() {
    // (X X)(Z Z) = (-iY)(-iY) = -(Y Y).
    let mut h = row(false, &[false, false], &[true, true]);
    let i = row(false, &[true, true], &[false, false]);
    assert_eq!(StabilizerSimulator::<2>::rowsum(&mut h, &i), Ok(()));
    assert!(h.phase_is_negated);
    assert_eq!(h.x_bits, vec![true, true]);
    assert_eq!(h.z_bits, vec![true, true]);
}

#[test]
fn rowsum_of_zz_into_xx_gives_minus_yy() {
    // (Z Z)(X X) = (iY)(iY) = -(Y Y).
    let mut h = row(false, &[true, true], &[false, false]);
    let i = row(false, &[false, false], &[true, true]);
    assert_eq!(StabilizerSimulator::<2>::rowsum(&mut h, &i), Ok(()));
    assert!(h.phase_is_negated);
    assert_eq!(h.x_bits, vec![true, true]);
    assert_eq!(h.z_bits, vec![true, true]);
}

#[test]
fn rowsum_tracks_signs() {
    // (-Y I)(Y Z) = -(I Z).
    let mut h = row(false, &[true, false], &[true, true]);
    let i = row(true, &[true, false], &[true, false]);
    assert_eq!(StabilizerSimulator::<2>::rowsum(&mut h, &i), Ok(()));
    assert!(h.phase_is_negated);
    assert_eq!(h.x_bits, vec![false, false]);
    assert_eq!(h.z_bits, vec![false, true]);
}

#[test]
fn rowsum_of_x_y_into_z_z() {
    // (X Y)(Z Z) = (XZ)(YZ) = (-iY)(iX) = (Y X).
    let mut h = row(false, &[false, false], &[true, true]);
    let i = row(false, &[true, true], &[false, true]);
    assert_eq!(StabilizerSimulator::<2>::rowsum(&mut h, &i), Ok(()));
    assert!(!h.phase_is_negated);
    assert_eq!(h.x_bits, vec![true, true]);
    assert_eq!(h.z_bits, vec![true, false]);
}

#[test]
fn bell_pair_measured_from_second_qubit() {
    let mut seen = HashSet::new();
    for seed in 0..20u64 {
        let mut stabilizer: StabilizerSimulator<2> = StabilizerSimulator::new(seed);
        stabilizer.apply_gate(&Gate::H(0));
        stabilizer.apply_gate(&Gate::Cx(0, 1));
        let b = stabilizer.measure(1).unwrap();
        let a = stabilizer.measure(0).unwrap();
        assert_eq!(a, b);
        assert_eq!(stabilizer.measure(1), Ok(b));
        seen.insert(b);
    }
    assert_eq!(seen.len(), 2);
}

#[test]
fn anticorrelated_pair_remeasures_consistently() {
    for seed in 0..20u64 {
        let mut stabilizer: StabilizerSimulator<2> = StabilizerSimulator::new(seed);
        stabilizer.apply_gate(&Gate::H(0));
        stabilizer.apply_gate(&Gate::Cx(0, 1));
        prepare_one(&mut stabilizer, 1);
        let b = stabilizer.measure(1).unwrap();
        assert_eq!(stabilizer.measure(1), Ok(b));
        assert_eq!(stabilizer.measure(0), Ok(!b));
    }
}

#[test]
fn y_eigenstate_measures_both_ways_across_seeds() {
    let mut seen = HashSet::new();
    for seed in 0..16u64 {
        let mut stabilizer: StabilizerSimulator<1> = StabilizerSimulator::new(seed);
        stabilizer.apply_gate(&Gate::H(0));
        stabilizer.apply_gate(&Gate::S(0));
        seen.insert(stabilizer.measure(0).unwrap());
    }
    assert_eq!(seen.len(), 2);
}
