use crate::stabilizer_simulator::{
    collapsed, deterministic_product, gate_row, gate_tableau, h_row, lemma_first_x_row_stable, s_row, exponent_sum, first_x_row, identity_row, initial_tableau,
    measurement, phase_exponent, measurement_fails, prepare_step, prepared, rowsum_result, x_row, x_stabilizer_index,
    xor_seq, z_row, RowView, TableauView,
};
use crate::gates::Gate;
use crate::commutation::{
    anticommuting_positions, commutation_invariants, lemma_commute_symmetric,
    lemma_commute_with_product, lemma_commute_with_self_and_identity, lemma_commute_with_z_row,
    rows_commute,
};
use vstd::prelude::*;

verus! {

/// A single-qubit Pauli operator.
pub enum Pauli {
    I,
    X,
    Y,
    Z,
}

/// The operator that the bit pair (x, z) of a row encodes.
pub open spec fn pauli_of(x: bool, z: bool) -> Pauli {
    if x && z {
        Pauli::Y
    } else if x {
        Pauli::X
    } else if z {
        Pauli::Z
    } else {
        Pauli::I
    }
}

/// The power `k` of i with `a * b = i^k c` for a Pauli `c`: XY = iZ, YZ = iX,
/// ZX = iY, the reversed products carry -i, and all others none.
pub open spec fn product_exponent(a: Pauli, b: Pauli) -> int {
    match (a, b) {
        (Pauli::X, Pauli::Y) | (Pauli::Y, Pauli::Z) | (Pauli::Z, Pauli::X) => 1,
        (Pauli::Y, Pauli::X) | (Pauli::Z, Pauli::Y) | (Pauli::X, Pauli::Z) => -1,
        _ => 0,
    }
}

/// The per-qubit exponent used by `rowsum` is the textbook phase of the
/// product of the two single-qubit Pauli operators.
pub proof fn lemma_phase_exponent_is_pauli_product(x1: bool, z1: bool, x2: bool, z2: bool)
    ensures
        phase_exponent(x1, z1, x2, z2) == product_exponent(pauli_of(x1, z1), pauli_of(x2, z2)),
{
    if x2 {
        if z2 {
            assert(phase_exponent(x1, z1, true, true) == product_exponent(pauli_of(x1, z1), Pauli::Y));
        } else {
            assert(phase_exponent(x1, z1, true, false) == product_exponent(pauli_of(x1, z1), Pauli::X));
        }
    } else {
        if z2 {
            assert(phase_exponent(x1, z1, false, true) == product_exponent(pauli_of(x1, z1), Pauli::Z));
        } else {
            assert(phase_exponent(x1, z1, false, false) == product_exponent(pauli_of(x1, z1), Pauli::I));
        }
    }
}

proof fn lemma_exponent_parity(i: RowView, h: RowView, n: int)
    requires
        0 <= n,
    ensures
        (exponent_sum(i, h, n) + anticommuting_positions(i, h, n)) % 2 == 0,
    decreases n,
{
    if n > 0 {
        lemma_exponent_parity(i, h, n - 1);
        let j = n - 1;
        lemma_phase_exponent_is_pauli_product(i.x[j], i.z[j], h.x[j], h.z[j]);
    }
}

/// Multiplying two rows that commute never meets an imaginary coefficient:
/// `rowsum` fails only on rows that anticommute.
pub proof fn lemma_commuting_rows_multiply(h: RowView, i: RowView)
    requires
        h.has_width(i.x.len() as int),
        i.has_width(i.x.len() as int),
        rows_commute(i, h),
    ensures
        rowsum_result(h, i) is Some,
{
    lemma_exponent_parity(i, h, h.x.len() as int);
}

proof fn lemma_exponent_sum_with_identity(r: RowView, n: nat, k: int)
    requires
        0 <= k <= n,
        r.has_width(n as int),
    ensures
        exponent_sum(r, identity_row(n), k) == 0,
    decreases k,
{
    if k > 0 {
        lemma_exponent_sum_with_identity(r, n, k - 1);
    }
}

proof fn lemma_rowsum_into_identity(r: RowView, n: nat)
    requires
        r.has_width(n as int),
    ensures
        rowsum_result(identity_row(n), r) == Some(r),
{
    lemma_exponent_sum_with_identity(r, n, n as int);
    assert(xor_seq(identity_row(n).x, r.x) =~= r.x);
    assert(xor_seq(identity_row(n).z, r.z) =~= r.z);
}

proof fn lemma_no_x_row(rows: Seq<RowView>, q: int, k: int)
    requires
        forall|j: int| 0 <= j < k ==> !(#[trigger] rows[j]).x[q],
    ensures
        first_x_row(rows, q, k) is None,
    decreases k,
{
    if k > 0 {
        lemma_no_x_row(rows, q, k - 1);
    }
}

proof fn lemma_first_x_row_found(rows: Seq<RowView>, q: int, k: int)
    ensures
        first_x_row(rows, q, k) matches Some(p) ==> 0 <= p < k && rows[p].x[q],
    decreases k,
{
    if k > 0 {
        lemma_first_x_row_found(rows, q, k - 1);
    }
}

/// Where destabilizer `p` alone has an X part on `q`, the forced outcome is
/// read from stabilizer `p`.
proof fn lemma_product_of_single_row(t: TableauView, q: int, p: int, k: int)
    requires
        t.wf(t.stabilizers.len() as int),
        0 <= p < t.stabilizers.len(),
        0 <= k <= t.stabilizers.len(),
        t.destabilizers[p].x[q],
        forall|j: int|
            0 <= j < t.stabilizers.len() && j != p ==> !(#[trigger] t.destabilizers[j]).x[q],
    ensures
        deterministic_product(t, q, k) == if k <= p {
            Some(identity_row(t.stabilizers.len()))
        } else {
            Some(t.stabilizers[p])
        },
    decreases k,
{
    if k > 0 {
        lemma_product_of_single_row(t, q, p, k - 1);
        if k - 1 == p {
            lemma_rowsum_into_identity(t.stabilizers[p], t.stabilizers.len());
        }
    }
}

/// A freshly built register measures 0 on every qubit, whatever the coin,
/// and the measurement leaves it as it was.
pub proof fn lemma_fresh_register_measures_zero(n: nat, q: int, coin: bool)
    requires
        0 <= q < n,
    ensures
        measurement(initial_tableau(n), q, coin) == Some((false, initial_tableau(n))),
{
    let t = initial_tableau(n);
    assert forall|j: int| 0 <= j < n implies !(#[trigger] t.stabilizers[j]).x[q] by {}
    lemma_no_x_row(t.stabilizers, q, n as int);
    assert(t.wf(n as int));
    lemma_product_of_single_row(t, q, q, n as int);
}

/// A row after taking in the pivot where it holds an X part on `q`.
pub open spec fn absorbed(r: RowView, pivot: RowView, q: int) -> RowView {
    if r.x[q] {
        rowsum_result(r, pivot)->Some_0
    } else {
        r
    }
}

/// What the preparation for a random outcome leaves after `k` steps: each
/// row it has passed, other than the pivot's pair, has taken in the pivot
/// where it held an X part on `q` and holds none there now.
proof fn lemma_prepared_shape(t: TableauView, q: int, p: int, k: int)
    requires
        t.wf(t.stabilizers.len() as int),
        0 <= q < t.stabilizers.len(),
        0 <= p < t.stabilizers.len(),
        0 <= k <= t.stabilizers.len(),
        t.stabilizers[p].x[q],
    ensures
        prepared(t, q, p, k) matches Some(u) ==> {
            let n = t.stabilizers.len() as int;
            let pivot = t.stabilizers[p];
            &&& u.wf(n)
            &&& u.stabilizers[p] == pivot
            &&& u.destabilizers[p] == t.destabilizers[p]
            &&& forall|i: int|
                0 <= i < k && i != p ==> #[trigger] u.stabilizers[i] == absorbed(
                    t.stabilizers[i],
                    pivot,
                    q,
                ) && !u.stabilizers[i].x[q]
            &&& forall|i: int|
                0 <= i < k && i != p ==> #[trigger] u.destabilizers[i] == absorbed(
                    t.destabilizers[i],
                    pivot,
                    q,
                ) && !u.destabilizers[i].x[q]
            &&& forall|i: int| k <= i < n ==> #[trigger] u.stabilizers[i] == t.stabilizers[i]
            &&& forall|i: int| k <= i < n ==> #[trigger] u.destabilizers[i] == t.destabilizers[i]
        },
    decreases k,
{
    if k > 0 {
        lemma_prepared_shape(t, q, p, k - 1);
        let n = t.stabilizers.len() as int;
        let i = k - 1;
        let pivot = t.stabilizers[p];
        if let Some(u0) = prepared(t, q, p, k - 1) {
            if i != p {
                assert(u0.stabilizers[i].has_width(n));
                assert(u0.destabilizers[i].has_width(n));
            }
            if let Some(u) = prepare_step(u0, pivot, q, p, i) {
                assert(u.wf(n));
                if i != p {
                    if t.stabilizers[i].x[q] {
                        assert(u.stabilizers[i].x == xor_seq(t.stabilizers[i].x, pivot.x));
                    }
                    if t.destabilizers[i].x[q] {
                        assert(u.destabilizers[i].x == xor_seq(t.destabilizers[i].x, pivot.x));
                    }
                }
            }
        }
    }
}

/// Measuring a qubit a second time, with no gate in between, gives the
/// outcome of the first measurement again and changes nothing.
pub proof fn lemma_remeasurement_repeats_outcome(t: TableauView, q: int, coin: bool, coin2: bool)
    requires
        t.wf(t.stabilizers.len() as int),
        0 <= q < t.stabilizers.len(),
        measurement(t, q, coin) is Some,
    ensures
        measurement(measurement(t, q, coin)->Some_0.1, q, coin2) == measurement(t, q, coin),
{
    let n = t.stabilizers.len() as int;
    lemma_first_x_row_found(t.stabilizers, q, n);
    if let Some(p) = x_stabilizer_index(t, q) {
        lemma_prepared_shape(t, q, p, n);
        let u = prepared(t, q, p, n)->Some_0;
        let t2 = collapsed(u, q, p, coin);
        assert(t2.wf(n));
        assert forall|j: int| 0 <= j < n implies !(#[trigger] t2.stabilizers[j]).x[q] by {}
        lemma_no_x_row(t2.stabilizers, q, n);
        assert forall|j: int| 0 <= j < n && j != p implies !(#[trigger] t2.destabilizers[j]).x[q] by {}
        lemma_product_of_single_row(t2, q, p, n);
    }
}

proof fn lemma_product_commutes_with_stabilizers(t: TableauView, q: int, k: int)
    requires
        t.wf(t.stabilizers.len() as int),
        commutation_invariants(t),
        0 <= q < t.stabilizers.len(),
        0 <= k <= t.stabilizers.len(),
    ensures
        deterministic_product(t, q, k) matches Some(acc) && acc.has_width(t.stabilizers.len() as int)
            && forall|j: int|
            0 <= j < t.stabilizers.len() ==> rows_commute(#[trigger] t.stabilizers[j], acc),
    decreases k,
{
    let n = t.stabilizers.len();
    if k == 0 {
        assert forall|j: int| 0 <= j < n implies rows_commute(
            #[trigger] t.stabilizers[j],
            identity_row(n),
        ) by {
            lemma_commute_with_self_and_identity(t.stabilizers[j], n);
        }
    } else {
        lemma_product_commutes_with_stabilizers(t, q, k - 1);
        let acc = deterministic_product(t, q, k - 1)->Some_0;
        let s = t.stabilizers[k - 1];
        if t.destabilizers[k - 1].x[q] {
            lemma_commuting_rows_multiply(acc, s);
            assert forall|j: int| 0 <= j < n implies rows_commute(
                #[trigger] t.stabilizers[j],
                rowsum_result(acc, s)->Some_0,
            ) by {
                lemma_commute_with_product(acc, s, t.stabilizers[j], n as int);
                assert(rows_commute(t.stabilizers[j], s));
            }
        }
    }
}

proof fn lemma_preparation_succeeds(t: TableauView, q: int, p: int, k: int)
    requires
        t.wf(t.stabilizers.len() as int),
        commutation_invariants(t),
        0 <= q < t.stabilizers.len(),
        0 <= p < t.stabilizers.len(),
        0 <= k <= t.stabilizers.len(),
        t.stabilizers[p].x[q],
    ensures
        prepared(t, q, p, k) is Some,
    decreases k,
{
    let n = t.stabilizers.len() as int;
    if k > 0 {
        lemma_preparation_succeeds(t, q, p, k - 1);
        lemma_prepared_shape(t, q, p, k - 1);
        let i = k - 1;
        let pivot = t.stabilizers[p];
        if i != p {
            assert(rows_commute(pivot, t.stabilizers[i]));
            lemma_commuting_rows_multiply(t.stabilizers[i], pivot);
            assert(rows_commute(t.destabilizers[i], pivot));
            lemma_commute_symmetric(t.destabilizers[i], pivot, n);
            lemma_commuting_rows_multiply(t.destabilizers[i], pivot);
        }
    }
}

/// On a tableau with its commutation structure, measuring any qubit
/// succeeds: `rowsum` never meets an imaginary product there.
pub proof fn lemma_measurement_succeeds(t: TableauView, q: int)
    requires
        t.wf(t.stabilizers.len() as int),
        commutation_invariants(t),
        0 <= q < t.stabilizers.len(),
    ensures
        !measurement_fails(t, q),
{
    let n = t.stabilizers.len() as int;
    lemma_first_x_row_found(t.stabilizers, q, n);
    match x_stabilizer_index(t, q) {
        None => lemma_product_commutes_with_stabilizers(t, q, n),
        Some(p) => lemma_preparation_succeeds(t, q, p, n),
    }
}

proof fn lemma_absorbed_commutation(r: RowView, pivot: RowView, q: int, c: RowView, n: int)
    requires
        r.has_width(n),
        pivot.has_width(n),
        c.has_width(n),
        0 <= q < n,
        rows_commute(pivot, r),
    ensures
        absorbed(r, pivot, q).has_width(n),
        rows_commute(absorbed(r, pivot, q), c) == if r.x[q] {
            rows_commute(r, c) == rows_commute(pivot, c)
        } else {
            rows_commute(r, c)
        },
        rows_commute(c, absorbed(r, pivot, q)) == if r.x[q] {
            rows_commute(c, r) == rows_commute(c, pivot)
        } else {
            rows_commute(c, r)
        },
{
    lemma_commuting_rows_multiply(r, pivot);
    lemma_commute_with_product(r, pivot, c, n);
}

/// Measuring a qubit keeps the tableau's commutation structure: the
/// stabilizers still commute pairwise, so do the destabilizers, and each
/// destabilizer anticommutes with its own stabilizer alone.
pub proof fn lemma_measurement_keeps_invariants(t: TableauView, q: int, coin: bool)
    requires
        t.wf(t.stabilizers.len() as int),
        commutation_invariants(t),
        0 <= q < t.stabilizers.len(),
    ensures
        measurement(t, q, coin) matches Some((b, t2)) && t2.wf(t.stabilizers.len() as int)
            && commutation_invariants(t2),
{
    let n = t.stabilizers.len() as int;
    lemma_measurement_succeeds(t, q);
    lemma_first_x_row_found(t.stabilizers, q, n);
    if let Some(p) = x_stabilizer_index(t, q) {
        lemma_prepared_shape(t, q, p, n);
        let pivot = t.stabilizers[p];
        let u = prepared(t, q, p, n)->Some_0;
        let t2 = collapsed(u, q, p, coin);
        let zq = z_row(n as nat, q, coin);
        assert(t2.wf(n));
        assert(t2.stabilizers[p] == zq);
        assert(t2.destabilizers[p] == pivot);
        lemma_commute_with_self_and_identity(pivot, n as nat);
        lemma_commute_with_self_and_identity(zq, n as nat);
        lemma_commute_with_z_row(n as nat, q, coin, pivot);
        assert forall|i: int| 0 <= i < n && i != p implies #[trigger] t2.stabilizers[i] == absorbed(
            t.stabilizers[i],
            pivot,
            q,
        ) && t2.destabilizers[i] == absorbed(t.destabilizers[i], pivot, q) && rows_commute(
            pivot,
            t.stabilizers[i],
        ) && rows_commute(pivot, t.destabilizers[i]) && rows_commute(t.destabilizers[i], pivot)
            && rows_commute(t.stabilizers[i], pivot) by {
            assert(u.stabilizers[i] == absorbed(t.stabilizers[i], pivot, q));
            assert(u.destabilizers[i] == absorbed(t.destabilizers[i], pivot, q));
            assert(rows_commute(pivot, t.stabilizers[i]));
            assert(rows_commute(t.stabilizers[i], pivot));
            assert(rows_commute(t.destabilizers[i], pivot));
            lemma_commute_symmetric(t.destabilizers[i], pivot, n);
        }
        assert forall|i: int, j: int| 0 <= i < n && 0 <= j < n implies rows_commute(
            #[trigger] t2.stabilizers[i],
            #[trigger] t2.stabilizers[j],
        ) by {
            if i == p && j == p {
            } else if i == p {
                lemma_commute_with_z_row(n as nat, q, coin, t2.stabilizers[j]);
                assert(!u.stabilizers[j].x[q]);
            } else if j == p {
                lemma_commute_with_z_row(n as nat, q, coin, t2.stabilizers[i]);
                assert(!u.stabilizers[i].x[q]);
            } else {
                let (a, b) = (t.stabilizers[i], t.stabilizers[j]);
                assert(t2.stabilizers[i] == absorbed(t.stabilizers[i], pivot, q));
                assert(t2.stabilizers[j] == absorbed(t.stabilizers[j], pivot, q));
                lemma_absorbed_commutation(b, pivot, q, a, n);
                lemma_absorbed_commutation(b, pivot, q, pivot, n);
                lemma_absorbed_commutation(a, pivot, q, absorbed(b, pivot, q), n);
                assert(rows_commute(a, b));
            }
        }
        assert forall|i: int, j: int| 0 <= i < n && 0 <= j < n implies rows_commute(
            #[trigger] t2.destabilizers[i],
            #[trigger] t2.destabilizers[j],
        ) by {
            if i == p && j == p {
            } else if i == p {
                assert(t2.stabilizers[j] == absorbed(t.stabilizers[j], pivot, q));
                lemma_absorbed_commutation(t.destabilizers[j], pivot, q, pivot, n);
            } else if j == p {
                assert(t2.stabilizers[i] == absorbed(t.stabilizers[i], pivot, q));
                lemma_absorbed_commutation(t.destabilizers[i], pivot, q, pivot, n);
            } else {
                let (a, b) = (t.destabilizers[i], t.destabilizers[j]);
                assert(t2.stabilizers[i] == absorbed(t.stabilizers[i], pivot, q));
                assert(t2.stabilizers[j] == absorbed(t.stabilizers[j], pivot, q));
                lemma_absorbed_commutation(b, pivot, q, a, n);
                lemma_absorbed_commutation(b, pivot, q, pivot, n);
                lemma_absorbed_commutation(a, pivot, q, absorbed(b, pivot, q), n);
                assert(rows_commute(a, b));
            }
        }
        assert forall|i: int, j: int| 0 <= i < n && 0 <= j < n implies (rows_commute(
            #[trigger] t2.destabilizers[i],
            #[trigger] t2.stabilizers[j],
        ) <==> i != j) by {
            if i == p && j == p {
            } else if i == p {
                assert(t2.stabilizers[j] == absorbed(t.stabilizers[j], pivot, q));
                lemma_absorbed_commutation(t.stabilizers[j], pivot, q, pivot, n);
            } else if j == p {
                lemma_commute_with_z_row(n as nat, q, coin, t2.destabilizers[i]);
                assert(!u.destabilizers[i].x[q]);
            } else {
                let (a, b) = (t.destabilizers[i], t.stabilizers[j]);
                assert(t2.stabilizers[i] == absorbed(t.stabilizers[i], pivot, q));
                assert(t2.stabilizers[j] == absorbed(t.stabilizers[j], pivot, q));
                lemma_absorbed_commutation(b, pivot, q, a, n);
                lemma_absorbed_commutation(b, pivot, q, pivot, n);
                lemma_absorbed_commutation(a, pivot, q, absorbed(b, pivot, q), n);
                assert(rows_commute(a, b) <==> i != j);
            }
        }
    }
}

/// The register after H and then `k` S gates on qubit `q`, starting from
/// all zeros: an eigenstate of X, Y, -X or -Y on that qubit.
pub open spec fn equator_state(n: nat, q: u32, k: nat) -> TableauView
    decreases k,
{
    if k == 0 {
        gate_tableau(initial_tableau(n), Gate::H(q))
    } else {
        gate_tableau(equator_state(n, q, (k - 1) as nat), Gate::S(q))
    }
}

proof fn lemma_gates_fix_rows_without_qubit(r: RowView, q: int, n: int)
    requires
        r.has_width(n),
        0 <= q < n,
        !r.x[q],
        !r.z[q],
    ensures
        h_row(r, q) == r,
        s_row(r, q) == r,
{
    assert(h_row(r, q).x =~= r.x);
    assert(h_row(r, q).z =~= r.z);
    assert(s_row(r, q).z =~= r.z);
}

proof fn lemma_equator_state_shape(n: nat, q: u32, k: nat)
    requires
        q < n,
    ensures
        ({
            let t = equator_state(n, q, k);
            &&& t.wf(n as int)
            &&& t.stabilizers[q as int].x[q as int]
            &&& forall|j: int|
                0 <= j < n && j != q ==> #[trigger] t.stabilizers[j] == z_row(n, j, false)
                    && t.destabilizers[j] == x_row(n, j)
        }),
    decreases k,
{
    let t0 = initial_tableau(n);
    let qi = q as int;
    if k == 0 {
        assert forall|j: int| 0 <= j < n && j != q implies #[trigger] equator_state(
            n,
            q,
            k,
        ).stabilizers[j] == z_row(n, j, false) && equator_state(n, q, k).destabilizers[j] == x_row(
            n,
            j,
        ) by {
            assert(gate_row(t0.stabilizers[j], Gate::H(q)) == h_row(t0.stabilizers[j], qi));
            assert(gate_row(t0.destabilizers[j], Gate::H(q)) == h_row(t0.destabilizers[j], qi));
            lemma_gates_fix_rows_without_qubit(z_row(n, j, false), qi, n as int);
            lemma_gates_fix_rows_without_qubit(x_row(n, j), qi, n as int);
        }
    } else {
        lemma_equator_state_shape(n, q, (k - 1) as nat);
        let u = equator_state(n, q, (k - 1) as nat);
        assert forall|j: int| 0 <= j < n && j != q implies #[trigger] equator_state(
            n,
            q,
            k,
        ).stabilizers[j] == z_row(n, j, false) && equator_state(n, q, k).destabilizers[j] == x_row(
            n,
            j,
        ) by {
            assert(u.stabilizers[j] == z_row(n, j, false));
            assert(gate_row(u.stabilizers[j], Gate::S(q)) == s_row(u.stabilizers[j], qi));
            assert(gate_row(u.destabilizers[j], Gate::S(q)) == s_row(u.destabilizers[j], qi));
            lemma_gates_fix_rows_without_qubit(z_row(n, j, false), qi, n as int);
            lemma_gates_fix_rows_without_qubit(x_row(n, j), qi, n as int);
        }
    }
}

proof fn lemma_equator_state_prepares_unchanged(n: nat, q: u32, k: nat, m: int)
    requires
        q < n,
        0 <= m <= n,
    ensures
        prepared(equator_state(n, q, k), q as int, q as int, m) == Some(equator_state(n, q, k)),
    decreases m,
{
    if m > 0 {
        lemma_equator_state_prepares_unchanged(n, q, k, m - 1);
        lemma_equator_state_shape(n, q, k);
        let t = equator_state(n, q, k);
        let i = m - 1;
        if i != q {
            assert(t.stabilizers[i] == z_row(n, i, false));
        }
    }
}

/// A qubit in an eigenstate of X, Y, -X or -Y gives whichever outcome the
/// coin shows: both outcomes occur, each on its own coin value.
pub proof fn lemma_equator_outcome_follows_coin(n: nat, q: u32, k: nat, coin: bool)
    requires
        q < n,
    ensures
        measurement(equator_state(n, q, k), q as int, coin) matches Some((b, _)) && b == coin,
{
    let t = equator_state(n, q, k);
    lemma_equator_state_shape(n, q, k);
    assert forall|j: int| 0 <= j < q implies !(#[trigger] t.stabilizers[j]).x[q as int] by {
        assert(t.stabilizers[j] == z_row(n, j, false));
    }
    lemma_no_x_row(t.stabilizers, q as int, q as int);
    lemma_first_x_row_stable(t.stabilizers, q as int, q + 1, n as int);
    lemma_equator_state_prepares_unchanged(n, q, k, n as int);
}

} // verus!
