use vstd::prelude::*;

verus! {

/// A Clifford gate of the tableau simulator, naming the qubits it acts on.
///
/// Qubit indices are `u32`, giving the register a natural upper bound.
pub enum Gate {
    H(u32),
    S(u32),
    Cx(u32, u32),
}

impl Gate {
    /// Every qubit named here lies below `n`.
    pub open spec fn in_range(&self, n: int) -> bool {
        match *self {
            Gate::H(q) => q < n,
            Gate::S(q) => q < n,
            Gate::Cx(c, t) => c < n && t < n,
        }
    }
}

} // verus!
