use crate::commutation::{
    commutation_invariants, is_proper_gate, lemma_gate_keeps_invariants, lemma_initial_invariants,
};
use crate::gates::Gate;
use crate::random::{fair_coin, rng_from_seed};
use crate::theorems::{lemma_measurement_keeps_invariants, lemma_measurement_succeeds};
use vstd::arithmetic::div_mod::lemma_add_mod_noop_right;
use vstd::prelude::*;

verus! {

/// A Pauli string over the register: its sign, and per qubit whether it
/// holds an X part and a Z part ((x, z) = (1, 1) stands for Y).
pub struct RowView {
    pub negated: bool,
    pub x: Seq<bool>,
    pub z: Seq<bool>,
}

impl RowView {
    pub open spec fn has_width(self, n: int) -> bool {
        self.x.len() == n && self.z.len() == n
    }
}

/// One stabilizer or destabilizer generator of the tableau.
pub struct TableauGeneratorRow {
    pub phase_is_negated: bool,
    pub x_bits: Vec<bool>,
    pub z_bits: Vec<bool>,
}

impl View for TableauGeneratorRow {
    type V = RowView;

    open spec fn view(&self) -> RowView {
        RowView { negated: self.phase_is_negated, x: self.x_bits@, z: self.z_bits@ }
    }
}

/// Raised when two rows multiply to an operator with an imaginary
/// coefficient, which a well-formed tableau never produces.
#[derive(Debug, PartialEq, Eq)]
pub enum SimulatorError {
    InvariantViolation,
}

pub open spec fn bit(b: bool) -> int {
    if b {
        1
    } else {
        0
    }
}

/// The power of i picked up when the single-qubit Pauli (x1, z1) is
/// multiplied on the left of (x2, z2).
pub open spec fn phase_exponent(x1: bool, z1: bool, x2: bool, z2: bool) -> int {
    if !x1 && !z1 {
        0
    } else if x1 && z1 {
        bit(z2) - bit(x2)
    } else if x1 {
        bit(z2) * (2 * bit(x2) - 1)
    } else {
        (1 - 2 * bit(z2)) * bit(x2)
    }
}

/// Sum of the per-qubit exponents of `i * h` over the first `n` qubits.
pub open spec fn exponent_sum(i: RowView, h: RowView, n: int) -> int
    decreases n,
{
    if n <= 0 {
        0
    } else {
        exponent_sum(i, h, n - 1) + phase_exponent(i.x[n - 1], i.z[n - 1], h.x[n - 1], h.z[n - 1])
    }
}

/// The power of i (mod 4) in front of the product `i * h`, signs included.
pub open spec fn rowsum_residue(h: RowView, i: RowView) -> int {
    (2 * bit(h.negated) + 2 * bit(i.negated) + exponent_sum(i, h, h.x.len() as int)) % 4
}

pub open spec fn xor_seq(a: Seq<bool>, b: Seq<bool>) -> Seq<bool> {
    Seq::new(a.len(), |j: int| a[j] != b[j])
}

/// The row holding the product `i * h`, or `None` where its coefficient is
/// imaginary.
pub open spec fn rowsum_result(h: RowView, i: RowView) -> Option<RowView> {
    let r = rowsum_residue(h, i);
    if r == 0 || r == 2 {
        Some(RowView { negated: r == 2, x: xor_seq(h.x, i.x), z: xor_seq(h.z, i.z) })
    } else {
        None
    }
}

pub open spec fn identity_row(n: nat) -> RowView {
    RowView { negated: false, x: Seq::new(n, |j: int| false), z: Seq::new(n, |j: int| false) }
}

fn false_bits(n: usize) -> (r: Vec<bool>)
    ensures
        r@ == Seq::new(n as nat, |j: int| false),
{
    let mut v: Vec<bool> = Vec::new();
    let mut i: usize = 0;
    while i < n
        invariant
            i <= n,
            v@ == Seq::new(i as nat, |j: int| false),
        decreases n - i,
    {
        v.push(false);
        i = i + 1;
        assert(v@ =~= Seq::new(i as nat, |j: int| false));
    }
    v
}

fn copy_bits(b: &Vec<bool>) -> (r: Vec<bool>)
    ensures
        r@ == b@,
{
    let mut v: Vec<bool> = Vec::new();
    let mut i: usize = 0;
    while i < b.len()
        invariant
            i <= b@.len(),
            v@ == b@.subrange(0, i as int),
        decreases b@.len() - i,
    {
        v.push(b[i]);
        i = i + 1;
        assert(v@ =~= b@.subrange(0, i as int));
    }
    assert(v@ =~= b@);
    v
}

impl TableauGeneratorRow {
    /// The identity operator on `n` qubits, with positive sign.
    pub fn identity(n: usize) -> (r: Self)
        ensures
            r@ == identity_row(n as nat),
    {
        TableauGeneratorRow { phase_is_negated: false, x_bits: false_bits(n), z_bits: false_bits(n) }
    }

    /// A row equal to this one.
    pub fn duplicate(&self) -> (r: Self)
        ensures
            r@ == self@,
    {
        TableauGeneratorRow {
            phase_is_negated: self.phase_is_negated,
            x_bits: copy_bits(&self.x_bits),
            z_bits: copy_bits(&self.z_bits),
        }
    }
}

/// The tableau as mathematics: N stabilizer rows and N destabilizer rows.
pub struct TableauView {
    pub stabilizers: Seq<RowView>,
    pub destabilizers: Seq<RowView>,
}

impl TableauView {
    /// N rows of each kind, each over N qubits.
    pub open spec fn wf(self, n: int) -> bool {
        &&& self.stabilizers.len() == n
        &&& self.destabilizers.len() == n
        &&& forall|i: int| 0 <= i < n ==> (#[trigger] self.stabilizers[i]).has_width(n)
        &&& forall|i: int| 0 <= i < n ==> (#[trigger] self.destabilizers[i]).has_width(n)
    }
}

/// Conjugation of one row by H on qubit `q`.
pub open spec fn h_row(r: RowView, q: int) -> RowView {
    RowView {
        negated: r.negated != (r.x[q] && r.z[q]),
        x: r.x.update(q, r.z[q]),
        z: r.z.update(q, r.x[q]),
    }
}

/// Conjugation of one row by S on qubit `q`.
pub open spec fn s_row(r: RowView, q: int) -> RowView {
    RowView { negated: r.negated != (r.x[q] && r.z[q]), x: r.x, z: r.z.update(q, r.z[q] != r.x[q]) }
}

/// Conjugation of one row by CNOT from `c` to `t`; the sign flip reads the
/// bits as they were before the update.
pub open spec fn cx_row(r: RowView, c: int, t: int) -> RowView {
    RowView {
        negated: r.negated != (r.x[c] && r.z[t] && ((r.z[c] != r.x[t]) != true)),
        x: r.x.update(t, r.x[t] != r.x[c]),
        z: r.z.update(c, r.z[c] != r.z[t]),
    }
}

pub open spec fn gate_row(r: RowView, g: Gate) -> RowView {
    match g {
        Gate::H(q) => h_row(r, q as int),
        Gate::S(q) => s_row(r, q as int),
        Gate::Cx(c, t) => cx_row(r, c as int, t as int),
    }
}

/// The tableau after a gate: every row conjugated alike.
pub open spec fn gate_tableau(t: TableauView, g: Gate) -> TableauView {
    TableauView {
        stabilizers: t.stabilizers.map_values(|r: RowView| gate_row(r, g)),
        destabilizers: t.destabilizers.map_values(|r: RowView| gate_row(r, g)),
    }
}

/// The row `(-1)^negated Z_q` on `n` qubits.
pub open spec fn z_row(n: nat, q: int, negated: bool) -> RowView {
    RowView { negated, x: Seq::new(n, |j: int| false), z: Seq::new(n, |j: int| j == q) }
}

/// The row `X_q` on `n` qubits.
pub open spec fn x_row(n: nat, q: int) -> RowView {
    RowView { negated: false, x: Seq::new(n, |j: int| j == q), z: Seq::new(n, |j: int| false) }
}

/// The tableau of the all-zero state: stabilizer `i` is `Z_i`, destabilizer
/// `i` is `X_i`.
pub open spec fn initial_tableau(n: nat) -> TableauView {
    TableauView {
        stabilizers: Seq::new(n, |i: int| z_row(n, i, false)),
        destabilizers: Seq::new(n, |i: int| x_row(n, i)),
    }
}

/// The first of the first `n` rows with an X part on qubit `q`.
pub open spec fn first_x_row(rows: Seq<RowView>, q: int, n: int) -> Option<int>
    decreases n,
{
    if n <= 0 {
        None
    } else {
        match first_x_row(rows, q, n - 1) {
            Some(p) => Some(p),
            None => if rows[n - 1].x[q] {
                Some(n - 1)
            } else {
                None
            },
        }
    }
}

/// The stabilizer whose X part on `q` makes a measurement of `q` random.
pub open spec fn x_stabilizer_index(t: TableauView, q: int) -> Option<int> {
    first_x_row(t.stabilizers, q, t.stabilizers.len() as int)
}

/// Product of the stabilizers among the first `k` whose destabilizer has an
/// X part on `q`, accumulated from the identity; `None` once a product fails.
pub open spec fn deterministic_product(t: TableauView, q: int, k: int) -> Option<RowView>
    decreases k,
{
    if k <= 0 {
        Some(identity_row(t.stabilizers.len()))
    } else {
        match deterministic_product(t, q, k - 1) {
            None => None,
            Some(acc) => if t.destabilizers[k - 1].x[q] {
                rowsum_result(acc, t.stabilizers[k - 1])
            } else {
                Some(acc)
            },
        }
    }
}

/// One step of the preparation for a random outcome, at row index `i`:
/// stabilizer `i` and destabilizer `i` each take in the pivot where they hold
/// an X part on `q`.
pub open spec fn prepare_step(u: TableauView, pivot: RowView, q: int, p: int, i: int) -> Option<
    TableauView,
> {
    if i == p {
        Some(u)
    } else {
        let after_stab = if u.stabilizers[i].x[q] {
            match rowsum_result(u.stabilizers[i], pivot) {
                Some(r) => Some(TableauView { stabilizers: u.stabilizers.update(i, r), ..u }),
                None => None,
            }
        } else {
            Some(u)
        };
        match after_stab {
            None => None,
            Some(w) => if w.destabilizers[i].x[q] {
                match rowsum_result(w.destabilizers[i], pivot) {
                    Some(r) => Some(TableauView { destabilizers: w.destabilizers.update(i, r), ..w }),
                    None => None,
                }
            } else {
                Some(w)
            },
        }
    }
}

/// The tableau after the preparation steps at the first `k` row indices,
/// with stabilizer `p` as the pivot.
pub open spec fn prepared(t: TableauView, q: int, p: int, k: int) -> Option<TableauView>
    decreases k,
{
    if k <= 0 {
        Some(t)
    } else {
        match prepared(t, q, p, k - 1) {
            None => None,
            Some(u) => prepare_step(u, t.stabilizers[p], q, p, k - 1),
        }
    }
}

/// Stabilizer `p` moves to destabilizer `p`, and becomes `(-1)^outcome Z_q`.
pub open spec fn collapsed(u: TableauView, q: int, p: int, outcome: bool) -> TableauView {
    TableauView {
        stabilizers: u.stabilizers.update(p, z_row(u.stabilizers.len(), q, outcome)),
        destabilizers: u.destabilizers.update(p, u.stabilizers[p]),
    }
}

/// Whether measuring qubit `q` fails on an imaginary product.
pub open spec fn measurement_fails(t: TableauView, q: int) -> bool {
    match x_stabilizer_index(t, q) {
        None => deterministic_product(t, q, t.stabilizers.len() as int) is None,
        Some(p) => prepared(t, q, p, t.stabilizers.len() as int) is None,
    }
}

/// The outcome of measuring qubit `q` and the tableau after it, where the
/// coin comes out as `coin` (read only when the outcome is random).
pub open spec fn measurement(t: TableauView, q: int, coin: bool) -> Option<(bool, TableauView)> {
    let n = t.stabilizers.len() as int;
    match x_stabilizer_index(t, q) {
        None => match deterministic_product(t, q, n) {
            Some(r) => Some((r.negated, t)),
            None => None,
        },
        Some(p) => match prepared(t, q, p, n) {
            Some(u) => Some((coin, collapsed(u, q, p, coin))),
            None => None,
        },
    }
}

pub(crate) proof fn lemma_first_x_row_stable(rows: Seq<RowView>, q: int, k: int, n: int)
    requires
        0 <= k <= n,
    ensures
        first_x_row(rows, q, k) matches Some(p) ==> 0 <= p < k,
        first_x_row(rows, q, k) is Some ==> first_x_row(rows, q, n) == first_x_row(rows, q, k),
    decreases n,
{
    if n > k {
        lemma_first_x_row_stable(rows, q, k, n - 1);
    } else if k > 0 {
        lemma_first_x_row_stable(rows, q, k - 1, k - 1);
    }
}

proof fn lemma_product_failure_persists(t: TableauView, q: int, k: int, n: int)
    requires
        0 <= k <= n,
        deterministic_product(t, q, k) is None,
    ensures
        deterministic_product(t, q, n) is None,
    decreases n - k,
{
    if k < n {
        lemma_product_failure_persists(t, q, k, n - 1);
    }
}

proof fn lemma_preparation_failure_persists(t: TableauView, q: int, p: int, k: int, n: int)
    requires
        0 <= k <= n,
        prepared(t, q, p, k) is None,
    ensures
        prepared(t, q, p, n) is None,
    decreases n - k,
{
    if k < n {
        lemma_preparation_failure_persists(t, q, p, k, n - 1);
    }
}

/// A stabilizer tableau for `N` qubits (CHP algorithm), supporting H, S and
/// CNOT and measurement in the computational basis.
pub struct StabilizerSimulator<const N: usize> {
    stabilizers: Vec<TableauGeneratorRow>,
    destabilizers: Vec<TableauGeneratorRow>,
    rand: rand::rngs::StdRng,
}

impl<const N: usize> View for StabilizerSimulator<N> {
    type V = TableauView;

    closed spec fn view(&self) -> TableauView {
        TableauView {
            stabilizers: self.stabilizers@.map_values(|r: TableauGeneratorRow| r@),
            destabilizers: self.destabilizers@.map_values(|r: TableauGeneratorRow| r@),
        }
    }
}

impl<const N: usize> StabilizerSimulator<N> {
    pub open spec fn wf(&self) -> bool {
        self@.wf(N as int)
    }

    fn pauli_imaginary_phase_exponent(x1: bool, z1: bool, x2: bool, z2: bool) -> (r: i32)
        ensures
            r == phase_exponent(x1, z1, x2, z2),
            -1 <= r <= 1,
    {
        let x2i: i32 = if x2 { 1 } else { 0 };
        let z2i: i32 = if z2 { 1 } else { 0 };
        match (x1, z1) {
            (false, false) => 0,
            (true, true) => z2i - x2i,
            (true, false) => z2i * (2 * x2i - 1),
            (false, true) => (1 - 2 * z2i) * x2i,
        }
    }

    /// Multiplies `row_i` into `row_h` (`row_h` becomes `row_i * row_h`),
    /// tracking the sign; fails, leaving `row_h` as it was, where the product
    /// has an imaginary coefficient.
    pub fn rowsum(row_h: &mut TableauGeneratorRow, row_i: &TableauGeneratorRow) -> (r: Result<
        (),
        SimulatorError,
    >)
        requires
            old(row_h)@.has_width(N as int),
            row_i@.has_width(N as int),
        ensures
            match rowsum_result(old(row_h)@, row_i@) {
                Some(v) => r is Ok && final(row_h)@ == v,
                None => r == Err::<(), SimulatorError>(SimulatorError::InvariantViolation)
                    && final(row_h)@ == old(row_h)@,
            },
    {
        let ghost h0 = row_h@;
        let mut acc: i32 = if row_h.phase_is_negated != row_i.phase_is_negated {
            2
        } else {
            0
        };
        let ghost base = 2 * bit(h0.negated) + 2 * bit(row_i@.negated);
        assert(exponent_sum(row_i@, h0, 0) == 0);
        let mut j: usize = 0;
        while j < N
            invariant
                j <= N,
                row_h@ == h0,
                h0.has_width(N as int),
                row_i@.has_width(N as int),
                0 <= acc < 4,
                acc as int == (base + exponent_sum(row_i@, h0, j as int)) % 4,
            decreases N - j,
        {
            let e = Self::pauli_imaginary_phase_exponent(
                row_i.x_bits[j],
                row_i.z_bits[j],
                row_h.x_bits[j],
                row_h.z_bits[j],
            );
            proof {
                let prev = base + exponent_sum(row_i@, h0, j as int);
                lemma_add_mod_noop_right(e + 4, prev, 4);
                assert((e + 4 + prev) % 4 == (prev + e) % 4) by {
                    vstd::arithmetic::div_mod::lemma_mod_add_multiples_vanish(prev + e, 4);
                }
            }
            acc = (acc + e + 4) % 4;
            j = j + 1;
        }
        if acc == 0 {
            row_h.phase_is_negated = false;
        } else if acc == 2 {
            row_h.phase_is_negated = true;
        } else {
            return Err(SimulatorError::InvariantViolation);
        }
        let mut j: usize = 0;
        while j < N
            invariant
                j <= N,
                h0.has_width(N as int),
                row_i@.has_width(N as int),
                row_h.phase_is_negated == (acc == 2),
                row_h.x_bits@.len() == N,
                row_h.z_bits@.len() == N,
                forall|k: int| 0 <= k < j ==> row_h.x_bits@[k] == (h0.x[k] != row_i@.x[k]),
                forall|k: int| 0 <= k < j ==> row_h.z_bits@[k] == (h0.z[k] != row_i@.z[k]),
                forall|k: int| j <= k < N ==> row_h.x_bits@[k] == h0.x[k],
                forall|k: int| j <= k < N ==> row_h.z_bits@[k] == h0.z[k],
            decreases N - j,
        {
            let xb = row_h.x_bits[j] != row_i.x_bits[j];
            let zb = row_h.z_bits[j] != row_i.z_bits[j];
            row_h.x_bits.set(j, xb);
            row_h.z_bits.set(j, zb);
            j = j + 1;
        }
        assert(row_h.x_bits@ =~= xor_seq(h0.x, row_i@.x));
        assert(row_h.z_bits@ =~= xor_seq(h0.z, row_i@.z));
        Ok(())
    }

    /// The all-zero state on `N` qubits, with a generator seeded by `seed`.
    pub fn new(seed: u64) -> (r: StabilizerSimulator<N>)
        ensures
            r.wf(),
            r@ == initial_tableau(N as nat),
            commutation_invariants(r@),
    {
        let mut stabilizers: Vec<TableauGeneratorRow> = Vec::new();
        let mut destabilizers: Vec<TableauGeneratorRow> = Vec::new();
        let mut i: usize = 0;
        while i < N
            invariant
                i <= N,
                stabilizers@.len() == i,
                destabilizers@.len() == i,
                forall|k: int| 0 <= k < i ==> (#[trigger] stabilizers@[k])@ == z_row(N as nat, k, false),
                forall|k: int| 0 <= k < i ==> (#[trigger] destabilizers@[k])@ == x_row(N as nat, k),
            decreases N - i,
        {
            let mut stabilizer = TableauGeneratorRow::identity(N);
            stabilizer.z_bits.set(i, true);
            let mut destabilizer = TableauGeneratorRow::identity(N);
            destabilizer.x_bits.set(i, true);
            assert(stabilizer@.z =~= z_row(N as nat, i as int, false).z);
            assert(destabilizer@.x =~= x_row(N as nat, i as int).x);
            stabilizers.push(stabilizer);
            destabilizers.push(destabilizer);
            i = i + 1;
        }
        let r = StabilizerSimulator { stabilizers, destabilizers, rand: rng_from_seed(seed) };
        assert(r@.stabilizers =~= initial_tableau(N as nat).stabilizers);
        assert(r@.destabilizers =~= initial_tableau(N as nat).destabilizers);
        proof {
            lemma_initial_invariants(N as nat);
        }
        r
    }

    /// The all-zero state with the generator seeded by zero.
    pub fn seeded() -> (r: StabilizerSimulator<N>)
        ensures
            r.wf(),
            r@ == initial_tableau(N as nat),
            commutation_invariants(r@),
    {
        StabilizerSimulator::new(0)
    }

    fn apply_gate_to_row(row: &mut TableauGeneratorRow, gate: &Gate)
        requires
            old(row)@.has_width(N as int),
            gate.in_range(N as int),
        ensures
            final(row)@ == gate_row(old(row)@, *gate),
    {
        match gate {
            Gate::H(qubit) => {
                let q = *qubit as usize;
                let x = row.x_bits[q];
                let z = row.z_bits[q];
                row.phase_is_negated = row.phase_is_negated != (x && z);
                row.x_bits.set(q, z);
                row.z_bits.set(q, x);
            },
            Gate::S(qubit) => {
                let q = *qubit as usize;
                let x = row.x_bits[q];
                let z = row.z_bits[q];
                row.phase_is_negated = row.phase_is_negated != (x && z);
                row.z_bits.set(q, z != x);
            },
            Gate::Cx(control, target) => {
                let c = *control as usize;
                let t = *target as usize;
                let xc = row.x_bits[c];
                let xt = row.x_bits[t];
                let zc = row.z_bits[c];
                let zt = row.z_bits[t];
                row.x_bits.set(t, xt != xc);
                row.z_bits.set(c, zc != zt);
                row.phase_is_negated = row.phase_is_negated != (xc && zt && ((zc != xt) != true));
            },
        }
    }

    /// Conjugates every stabilizer and destabilizer row by `gate`.
    pub fn apply_gate(&mut self, gate: &Gate)
        requires
            old(self).wf(),
            gate.in_range(N as int),
        ensures
            final(self).wf(),
            final(self)@ == gate_tableau(old(self)@, *gate),
            commutation_invariants(old(self)@) && is_proper_gate(*gate) ==> commutation_invariants(
                final(self)@,
            ),
    {
        let ghost t0 = self@;
        let mut i: usize = 0;
        while i < N
            invariant
                i <= N,
                t0.wf(N as int),
                gate.in_range(N as int),
                self.stabilizers@.len() == N,
                self.destabilizers@.len() == N,
                forall|k: int| 0 <= k < i ==> (#[trigger] self.stabilizers@[k])@ == gate_row(t0.stabilizers[k], *gate),
                forall|k: int| 0 <= k < i ==> (#[trigger] self.destabilizers@[k])@ == gate_row(t0.destabilizers[k], *gate),
                forall|k: int| i <= k < N ==> (#[trigger] self.stabilizers@[k])@ == t0.stabilizers[k],
                forall|k: int| i <= k < N ==> (#[trigger] self.destabilizers@[k])@ == t0.destabilizers[k],
            decreases N - i,
        {
            assert(t0.stabilizers[i as int].has_width(N as int));
            assert(t0.destabilizers[i as int].has_width(N as int));
            Self::apply_gate_to_row(&mut self.stabilizers[i], gate);
            Self::apply_gate_to_row(&mut self.destabilizers[i], gate);
            i = i + 1;
        }
        assert(self@.stabilizers =~= gate_tableau(t0, *gate).stabilizers);
        assert(self@.destabilizers =~= gate_tableau(t0, *gate).destabilizers);
        proof {
            if commutation_invariants(t0) && is_proper_gate(*gate) {
                lemma_gate_keeps_invariants(t0, *gate);
            }
        }
    }

    fn find_x_stabilizer_index(&self, qubit: u32) -> (r: Option<usize>)
        requires
            self.wf(),
            qubit < N,
        ensures
            match x_stabilizer_index(self@, qubit as int) {
                Some(p) => r == Some(p as usize) && 0 <= p < N,
                None => r is None,
            },
    {
        let ghost rows = self@.stabilizers;
        let q = qubit as usize;
        let mut i: usize = 0;
        while i < N
            invariant
                i <= N,
                self.wf(),
                q == qubit,
                qubit < N,
                rows == self@.stabilizers,
                first_x_row(rows, q as int, i as int) is None,
            decreases N - i,
        {
            assert(self.stabilizers@[i as int]@ == rows[i as int]);
            if self.stabilizers[i].x_bits[q] {
                assert(first_x_row(rows, q as int, i + 1) == Some(i as int));
                proof {
                    lemma_first_x_row_stable(rows, q as int, i + 1, N as int);
                }
                return Some(i);
            }
            i = i + 1;
        }
        proof {
            lemma_first_x_row_stable(rows, q as int, N as int, N as int);
        }
        None
    }

    fn is_deterministic(&self, qubit: u32) -> (r: bool)
        requires
            self.wf(),
            qubit < N,
        ensures
            r == (x_stabilizer_index(self@, qubit as int) is None),
    {
        self.find_x_stabilizer_index(qubit).is_none()
    }

    fn determine_deterministic_measurement(&self, qubit: u32) -> (r: Result<bool, SimulatorError>)
        requires
            self.wf(),
            qubit < N,
        ensures
            match deterministic_product(self@, qubit as int, N as int) {
                Some(row) => r == Ok::<bool, SimulatorError>(row.negated),
                None => r == Err::<bool, SimulatorError>(SimulatorError::InvariantViolation),
            },
    {
        let q = qubit as usize;
        let mut scratch_row = TableauGeneratorRow::identity(N);
        let mut i: usize = 0;
        while i < N
            invariant
                i <= N,
                self.wf(),
                q == qubit,
                qubit < N,
                deterministic_product(self@, q as int, i as int) == Some(scratch_row@),
                scratch_row@.has_width(N as int),
            decreases N - i,
        {
            assert(self.stabilizers@[i as int]@ == self@.stabilizers[i as int]);
            assert(self.destabilizers@[i as int]@ == self@.destabilizers[i as int]);
            assert(self@.stabilizers[i as int].has_width(N as int));
            assert(self@.destabilizers[i as int].has_width(N as int));
            if self.destabilizers[i].x_bits[q] {
                let step = Self::rowsum(&mut scratch_row, &self.stabilizers[i]);
                if step.is_err() {
                    proof {
                        lemma_product_failure_persists(self@, q as int, i + 1, N as int);
                    }
                    return Err(SimulatorError::InvariantViolation);
                }
            }
            i = i + 1;
        }
        Ok(scratch_row.phase_is_negated)
    }

    fn extract_stabilizer_p_after_flipping_preparing_other_stabilizers_to_expect_collapsed_state(
        &mut self,
        qubit: u32,
        p: usize,
    ) -> (r: Result<(), SimulatorError>)
        requires
            old(self).wf(),
            qubit < N,
            p < N,
        ensures
            final(self).wf(),
            match prepared(old(self)@, qubit as int, p as int, N as int) {
                Some(u) => r is Ok && final(self)@ == u,
                None => r == Err::<(), SimulatorError>(SimulatorError::InvariantViolation),
            },
    {
        let ghost t0 = self@;
        let q = qubit as usize;
        let p_stabilizer = self.stabilizers[p].duplicate();
        let mut i: usize = 0;
        while i < N
            invariant
                i <= N,
                p < N,
                q == qubit,
                qubit < N,
                self.wf(),
                t0.wf(N as int),
                t0 == old(self)@,
                p_stabilizer@ == t0.stabilizers[p as int],
                prepared(t0, q as int, p as int, i as int) == Some(self@),
            decreases N - i,
        {
            if i != p {
                let ghost u = self@;
                assert(self.stabilizers@[i as int]@ == u.stabilizers[i as int]);
                assert(u.stabilizers[i as int].has_width(N as int));
                assert(u.destabilizers[i as int].has_width(N as int));
                assert(u.destabilizers[p as int].has_width(N as int));
                if self.stabilizers[i].x_bits[q] {
                    let step = Self::rowsum(&mut self.stabilizers[i], &p_stabilizer);
                    if step.is_err() {
                        assert(self@.stabilizers =~= u.stabilizers);
                        proof {
                            lemma_preparation_failure_persists(t0, q as int, p as int, i + 1, N as int);
                        }
                        return Err(SimulatorError::InvariantViolation);
                    }
                    assert(self@.stabilizers =~= u.stabilizers.update(i as int, self.stabilizers@[i as int]@));
                    assert(self@.destabilizers =~= u.destabilizers);
                }
                let ghost w = self@;
                assert(self.destabilizers@[i as int]@ == w.destabilizers[i as int]);
                if self.destabilizers[i].x_bits[q] {
                    // Destabilizer `i` takes the pivot in too, so that it keeps
                    // commuting with the stabilizer that `p` collapses to;
                    // destabilizer `p` itself is replaced by the pivot afterwards.
                    let step = Self::rowsum(&mut self.destabilizers[i], &p_stabilizer);
                    if step.is_err() {
                        assert(self@.destabilizers =~= w.destabilizers);
                        proof {
                            lemma_preparation_failure_persists(t0, q as int, p as int, i + 1, N as int);
                        }
                        return Err(SimulatorError::InvariantViolation);
                    }
                    assert(self@.destabilizers =~= w.destabilizers.update(i as int, self.destabilizers@[i as int]@));
                    assert(self@.stabilizers =~= w.stabilizers);
                }
            }
            i = i + 1;
        }
        Ok(())
    }

    /// Stabilizer `p` becomes `(-1)^outcome Z_qubit` and its old value moves
    /// to destabilizer `p`.
    fn collapse_p_stabilizer_to_outcome(&mut self, p: usize, qubit: u32, outcome: bool)
        requires
            old(self).wf(),
            qubit < N,
            p < N,
        ensures
            final(self).wf(),
            final(self)@ == collapsed(old(self)@, qubit as int, p as int, outcome),
    {
        let ghost t0 = self@;
        let mut new_row = TableauGeneratorRow::identity(N);
        new_row.phase_is_negated = outcome;
        new_row.z_bits.set(qubit as usize, true);
        assert(new_row@ == z_row(N as nat, qubit as int, outcome)) by {
            assert(new_row@.z =~= z_row(N as nat, qubit as int, outcome).z);
        }
        std::mem::swap(&mut self.stabilizers[p], &mut new_row);
        self.destabilizers.set(p, new_row);
        assert(self@.stabilizers =~= collapsed(t0, qubit as int, p as int, outcome).stabilizers);
        assert(self@.destabilizers =~= collapsed(t0, qubit as int, p as int, outcome).destabilizers);
    }

    /// Draws the outcome with a fair coin and collapses stabilizer `p` to it.
    fn collapse_p_stabilizer_and_return_measurement_outcome(&mut self, p: usize, qubit: u32) -> (r:
        Result<bool, SimulatorError>)
        requires
            old(self).wf(),
            qubit < N,
            p < N,
        ensures
            final(self).wf(),
            r matches Ok(b) && final(self)@ == collapsed(old(self)@, qubit as int, p as int, b),
    {
        let outcome = fair_coin(&mut self.rand);
        self.collapse_p_stabilizer_to_outcome(p, qubit, outcome);
        Ok(outcome)
    }

    fn nondeterministic_measurement(&mut self, qubit: u32) -> (r: Result<bool, SimulatorError>)
        requires
            old(self).wf(),
            qubit < N,
        ensures
            final(self).wf(),
            match x_stabilizer_index(old(self)@, qubit as int) {
                None => r == Err::<bool, SimulatorError>(SimulatorError::InvariantViolation),
                Some(p) => match prepared(old(self)@, qubit as int, p, N as int) {
                    None => r == Err::<bool, SimulatorError>(SimulatorError::InvariantViolation),
                    Some(u) => r matches Ok(b) && final(self)@ == collapsed(u, qubit as int, p, b),
                },
            },
    {
        let p = match self.find_x_stabilizer_index(qubit) {
            Some(p) => p,
            None => {
                return Err(SimulatorError::InvariantViolation);
            },
        };
        match self.extract_stabilizer_p_after_flipping_preparing_other_stabilizers_to_expect_collapsed_state(
            qubit,
            p,
        ) {
            Ok(()) => {},
            Err(e) => {
                return Err(e);
            },
        }
        self.collapse_p_stabilizer_and_return_measurement_outcome(p, qubit)
    }

    /// Measures `qubit` in the computational basis: `Ok(true)` for |1>.
    ///
    /// Where no stabilizer has an X part on the qubit the outcome is forced
    /// and the tableau is left as it was; otherwise it is a fair coin and the
    /// tableau collapses onto it. Fails only on an imaginary product, which
    /// never arises while the commutation structure holds; that structure is
    /// kept by measurement and by every gate but a CNOT onto its own control.
    pub fn measure(&mut self, qubit: u32) -> (r: Result<bool, SimulatorError>)
        requires
            old(self).wf(),
            qubit < N,
        ensures
            final(self).wf(),
            r is Err <==> measurement_fails(old(self)@, qubit as int),
            r is Err ==> r == Err::<bool, SimulatorError>(SimulatorError::InvariantViolation),
            r matches Ok(b) ==> measurement(old(self)@, qubit as int, b) == Some((b, final(self)@)),
            commutation_invariants(old(self)@) ==> r is Ok && commutation_invariants(final(self)@),
    {
        let ghost t0 = self@;
        let r = if self.is_deterministic(qubit) {
            self.determine_deterministic_measurement(qubit)
        } else {
            self.nondeterministic_measurement(qubit)
        };
        proof {
            if commutation_invariants(t0) {
                lemma_measurement_succeeds(t0, qubit as int);
                lemma_measurement_keeps_invariants(t0, qubit as int, r->Ok_0);
            }
        }
        r
    }
}

} // verus!
