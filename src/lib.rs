use crate::random::{random_bool, rng_from_seed};
use vstd::prelude::*;

pub mod commutation;
pub mod gates;
pub mod random;
pub mod stabilizer_simulator;
pub mod theorems;

verus! {

/// Single-qubit Clifford gates of the one-qubit simulator.
pub enum Gate {
    H,
    X,
    Z,
    Y,
    S,
    Si,
    Sx,
    Sxi,
    Sy,
    Syi,
}

impl Gate {
    /// The gates that the one-qubit simulator carries out.
    pub open spec fn is_supported(&self) -> bool {
        match *self {
            Gate::H | Gate::X | Gate::Z | Gate::Y | Gate::S => true,
            _ => false,
        }
    }
}

/// The single stabilizer generator of one qubit: its sign and whether it
/// holds an X part and a Z part.
pub struct QubitView {
    pub negated: bool,
    pub x: bool,
    pub z: bool,
}

/// The generator after a gate.
pub open spec fn qubit_after_gate(v: QubitView, g: Gate) -> QubitView {
    match g {
        Gate::H => QubitView { negated: v.negated != (v.x && v.z), x: v.z, z: v.x },
        Gate::X => QubitView { negated: v.negated != v.z, ..v },
        Gate::Z => QubitView { negated: v.negated != v.x, ..v },
        Gate::Y => QubitView { negated: v.x != v.z, ..v },
        Gate::S => QubitView { negated: v.negated != (v.x && v.z), x: v.x, z: v.z != v.x },
        _ => v,
    }
}

/// A stabilizer simulator of a single qubit, tracking its one generator.
pub struct StabilizerSimulator {
    generator_sign_is_negated: bool,
    stabilizer_has_x_component: bool,
    stabilizer_has_z_component: bool,
    rand: rand::rngs::StdRng,
}

impl View for StabilizerSimulator {
    type V = QubitView;

    closed spec fn view(&self) -> QubitView {
        QubitView {
            negated: self.generator_sign_is_negated,
            x: self.stabilizer_has_x_component,
            z: self.stabilizer_has_z_component,
        }
    }
}

impl StabilizerSimulator {
    /// The qubit in |0>, stabilized by +Z.
    pub fn new(seed: u64) -> (r: StabilizerSimulator)
        ensures
            r@ == (QubitView { negated: false, x: false, z: true }),
    {
        StabilizerSimulator {
            generator_sign_is_negated: false,
            stabilizer_has_x_component: false,
            stabilizer_has_z_component: true,
            rand: rng_from_seed(seed),
        }
    }

    /// The qubit in |0>, with the generator seeded by zero.
    pub fn seeded() -> (r: StabilizerSimulator)
        ensures
            r@ == (QubitView { negated: false, x: false, z: true }),
    {
        StabilizerSimulator::new(0)
    }

    /// Conjugates the generator by `gate`.
    pub fn apply_gate(&mut self, gate: &Gate)
        requires
            gate.is_supported(),
        ensures
            final(self)@ == qubit_after_gate(old(self)@, *gate),
    {
        match gate {
            Gate::H => {
                std::mem::swap(
                    &mut self.stabilizer_has_x_component,
                    &mut self.stabilizer_has_z_component,
                );
                if self.stabilizer_has_x_component && self.stabilizer_has_z_component {
                    self.generator_sign_is_negated = !self.generator_sign_is_negated;
                }
            },
            Gate::X => {
                if self.stabilizer_has_z_component {
                    self.generator_sign_is_negated = !self.generator_sign_is_negated;
                }
            },
            Gate::Z => {
                if self.stabilizer_has_x_component {
                    self.generator_sign_is_negated = !self.generator_sign_is_negated;
                }
            },
            Gate::Y => {
                self.generator_sign_is_negated = self.stabilizer_has_x_component
                    != self.stabilizer_has_z_component;
            },
            Gate::S => {
                self.generator_sign_is_negated = self.generator_sign_is_negated != (
                self.stabilizer_has_x_component && self.stabilizer_has_z_component);
                self.stabilizer_has_z_component = self.stabilizer_has_z_component
                    != self.stabilizer_has_x_component;
            },
            _ => {},
        }
    }

    /// Measures in the computational basis: the sign of the generator when it
    /// is a Z, and a random bit when it holds an X part.
    pub fn measure(&mut self) -> (r: bool)
        ensures
            final(self)@ == old(self)@,
            !old(self)@.x ==> r == old(self)@.negated,
    {
        if self.stabilizer_has_x_component {
            random_bool(&mut self.rand)
        } else {
            self.generator_sign_is_negated
        }
    }
}

} // verus!
