use crate::gates::Gate;
use crate::stabilizer_simulator::{
    cx_row, gate_row, h_row, identity_row, initial_tableau, rowsum_result, s_row, x_row, xor_seq,
    z_row, RowView, TableauView,
};
use vstd::prelude::*;

verus! {

/// 1 where the two rows hold anticommuting single-qubit operators at qubit
/// `j`, else 0.
pub open spec fn anticommutes_at(a: RowView, b: RowView, j: int) -> int {
    if (a.x[j] && b.z[j]) != (a.z[j] && b.x[j]) {
        1
    } else {
        0
    }
}

/// Number of the first `n` qubits at which the two rows anticommute.
pub open spec fn anticommuting_positions(a: RowView, b: RowView, n: int) -> int
    decreases n,
{
    if n <= 0 {
        0
    } else {
        anticommuting_positions(a, b, n - 1) + anticommutes_at(a, b, n - 1)
    }
}

/// The two rows commute as Pauli operators.
pub open spec fn rows_commute(a: RowView, b: RowView) -> bool {
    anticommuting_positions(a, b, a.x.len() as int) % 2 == 0
}

/// The tableau's commutation structure: stabilizers commute pairwise,
/// destabilizers commute pairwise, and destabilizer `i` anticommutes with
/// stabilizer `j` exactly when `i == j`.
pub open spec fn commutation_invariants(t: TableauView) -> bool {
    let n = t.stabilizers.len() as int;
    &&& forall|i: int, j: int|
        0 <= i < n && 0 <= j < n ==> rows_commute(
            #[trigger] t.stabilizers[i],
            #[trigger] t.stabilizers[j],
        )
    &&& forall|i: int, j: int|
        0 <= i < n && 0 <= j < n ==> rows_commute(
            #[trigger] t.destabilizers[i],
            #[trigger] t.destabilizers[j],
        )
    &&& forall|i: int, j: int|
        0 <= i < n && 0 <= j < n ==> (rows_commute(
            #[trigger] t.destabilizers[i],
            #[trigger] t.stabilizers[j],
        ) <==> i != j)
}

/// A CNOT whose control is its own target is no Clifford conjugation.
pub open spec fn is_proper_gate(g: Gate) -> bool {
    !(g matches Gate::Cx(c, t) && c == t)
}

/// Rows that agree with `a`, `b` at every qubit below `k` but `j0` and `j1`
/// differ in their count of anticommuting positions only there.
proof fn lemma_positions_differ_only_at(
    a: RowView,
    b: RowView,
    a2: RowView,
    b2: RowView,
    j0: int,
    j1: int,
    k: int,
)
    requires
        0 <= k,
        0 <= j0,
        0 <= j1,
        j0 != j1,
        forall|j: int|
            0 <= j < k && j != j0 && j != j1 ==> anticommutes_at(a2, b2, j) == anticommutes_at(
                a,
                b,
                j,
            ),
    ensures
        anticommuting_positions(a2, b2, k) - anticommuting_positions(a, b, k) == (if j0 < k {
            anticommutes_at(a2, b2, j0) - anticommutes_at(a, b, j0)
        } else {
            0
        }) + (if j1 < k {
            anticommutes_at(a2, b2, j1) - anticommutes_at(a, b, j1)
        } else {
            0
        }),
    decreases k,
{
    if k > 0 {
        lemma_positions_differ_only_at(a, b, a2, b2, j0, j1, k - 1);
    }
}

/// Conjugating two rows by the same gate keeps whether they commute.
pub proof fn lemma_gate_keeps_commutation(a: RowView, b: RowView, g: Gate, n: int)
    requires
        a.has_width(n),
        b.has_width(n),
        g.in_range(n),
        is_proper_gate(g),
    ensures
        rows_commute(gate_row(a, g), gate_row(b, g)) == rows_commute(a, b),
{
    let a2 = gate_row(a, g);
    let b2 = gate_row(b, g);
    match g {
        Gate::H(q) => {
            let q = q as int;
            assert forall|j: int| 0 <= j < n && j != q && j != n implies anticommutes_at(a2, b2, j)
                == anticommutes_at(a, b, j) by {
                assert(a2 == h_row(a, q));
                assert(b2 == h_row(b, q));
            }
            lemma_positions_differ_only_at(a, b, a2, b2, q, n, n);
        },
        Gate::S(q) => {
            let q = q as int;
            assert forall|j: int| 0 <= j < n && j != q && j != n implies anticommutes_at(a2, b2, j)
                == anticommutes_at(a, b, j) by {
                assert(a2 == s_row(a, q));
                assert(b2 == s_row(b, q));
            }
            lemma_positions_differ_only_at(a, b, a2, b2, q, n, n);
        },
        Gate::Cx(c, t) => {
            let c = c as int;
            let t = t as int;
            assert forall|j: int| 0 <= j < n && j != c && j != t implies anticommutes_at(a2, b2, j)
                == anticommutes_at(a, b, j) by {
                assert(a2 == cx_row(a, c, t));
                assert(b2 == cx_row(b, c, t));
            }
            lemma_positions_differ_only_at(a, b, a2, b2, c, t, n);
        },
    }
}

proof fn lemma_basis_rows_anticommute(n: nat, i: int, j: int, k: int)
    requires
        0 <= k <= n,
    ensures
        anticommuting_positions(x_row(n, i), z_row(n, j, false), k) == if i == j && 0 <= i < k {
            1int
        } else {
            0int
        },
        anticommuting_positions(z_row(n, i, false), z_row(n, j, false), k) == 0,
        anticommuting_positions(x_row(n, i), x_row(n, j), k) == 0,
    decreases k,
{
    if k > 0 {
        lemma_basis_rows_anticommute(n, i, j, k - 1);
    }
}

/// The all-zero tableau has the commutation structure.
pub proof fn lemma_initial_invariants(n: nat)
    ensures
        commutation_invariants(initial_tableau(n)),
{
    let t = initial_tableau(n);
    assert forall|i: int, j: int| 0 <= i < n && 0 <= j < n implies rows_commute(
        #[trigger] t.stabilizers[i],
        #[trigger] t.stabilizers[j],
    ) by {
        lemma_basis_rows_anticommute(n, i, j, n as int);
    }
    assert forall|i: int, j: int| 0 <= i < n && 0 <= j < n implies rows_commute(
        #[trigger] t.destabilizers[i],
        #[trigger] t.destabilizers[j],
    ) by {
        lemma_basis_rows_anticommute(n, i, j, n as int);
    }
    assert forall|i: int, j: int| 0 <= i < n && 0 <= j < n implies (rows_commute(
        #[trigger] t.destabilizers[i],
        #[trigger] t.stabilizers[j],
    ) <==> i != j) by {
        lemma_basis_rows_anticommute(n, i, j, n as int);
    }
}

/// Every proper gate keeps the commutation structure of a tableau.
pub proof fn lemma_gate_keeps_invariants(t: TableauView, g: Gate)
    requires
        t.wf(t.stabilizers.len() as int),
        g.in_range(t.stabilizers.len() as int),
        is_proper_gate(g),
        commutation_invariants(t),
    ensures
        commutation_invariants(
            TableauView {
                stabilizers: t.stabilizers.map_values(|r: RowView| gate_row(r, g)),
                destabilizers: t.destabilizers.map_values(|r: RowView| gate_row(r, g)),
            },
        ),
{
    let n = t.stabilizers.len() as int;
    let u = TableauView {
        stabilizers: t.stabilizers.map_values(|r: RowView| gate_row(r, g)),
        destabilizers: t.destabilizers.map_values(|r: RowView| gate_row(r, g)),
    };
    assert forall|i: int, j: int| 0 <= i < n && 0 <= j < n implies rows_commute(
        #[trigger] u.stabilizers[i],
        #[trigger] u.stabilizers[j],
    ) by {
        lemma_gate_keeps_commutation(t.stabilizers[i], t.stabilizers[j], g, n);
        assert(rows_commute(t.stabilizers[i], t.stabilizers[j]));
    }
    assert forall|i: int, j: int| 0 <= i < n && 0 <= j < n implies rows_commute(
        #[trigger] u.destabilizers[i],
        #[trigger] u.destabilizers[j],
    ) by {
        lemma_gate_keeps_commutation(t.destabilizers[i], t.destabilizers[j], g, n);
        assert(rows_commute(t.destabilizers[i], t.destabilizers[j]));
    }
    assert forall|i: int, j: int| 0 <= i < n && 0 <= j < n implies (rows_commute(
        #[trigger] u.destabilizers[i],
        #[trigger] u.stabilizers[j],
    ) <==> i != j) by {
        lemma_gate_keeps_commutation(t.destabilizers[i], t.stabilizers[j], g, n);
        assert(rows_commute(t.destabilizers[i], t.stabilizers[j]) <==> i != j);
    }
}

proof fn lemma_positions_symmetric(a: RowView, b: RowView, k: int)
    ensures
        anticommuting_positions(a, b, k) == anticommuting_positions(b, a, k),
    decreases k,
{
    if k > 0 {
        lemma_positions_symmetric(a, b, k - 1);
    }
}

proof fn lemma_positions_with_self(a: RowView, k: int)
    ensures
        anticommuting_positions(a, a, k) == 0,
    decreases k,
{
    if k > 0 {
        lemma_positions_with_self(a, k - 1);
    }
}

proof fn lemma_positions_with_identity(a: RowView, n: nat, k: int)
    requires
        k <= n,
    ensures
        anticommuting_positions(a, identity_row(n), k) == 0,
    decreases k,
{
    if k > 0 {
        lemma_positions_with_identity(a, n, k - 1);
    }
}

proof fn lemma_positions_with_z_row(n: nat, q: int, negated: bool, r: RowView, k: int)
    requires
        k <= n,
    ensures
        anticommuting_positions(z_row(n, q, negated), r, k) == if 0 <= q < k && r.x[q] {
            1int
        } else {
            0int
        },
    decreases k,
{
    if k > 0 {
        lemma_positions_with_z_row(n, q, negated, r, k - 1);
    }
}

proof fn lemma_positions_of_product(a: RowView, b: RowView, v: RowView, c: RowView, k: int)
    requires
        forall|j: int| 0 <= j < k ==> v.x[j] == (a.x[j] != b.x[j]),
        forall|j: int| 0 <= j < k ==> v.z[j] == (a.z[j] != b.z[j]),
    ensures
        (anticommuting_positions(v, c, k) + anticommuting_positions(a, c, k)
            + anticommuting_positions(b, c, k)) % 2 == 0,
    decreases k,
{
    if k > 0 {
        lemma_positions_of_product(a, b, v, c, k - 1);
        let j = k - 1;
        assert(v.x[j] == (a.x[j] != b.x[j]));
        assert(v.z[j] == (a.z[j] != b.z[j]));
    }
}

/// Commuting is symmetric.
pub proof fn lemma_commute_symmetric(a: RowView, b: RowView, n: int)
    requires
        a.has_width(n),
        b.has_width(n),
    ensures
        rows_commute(a, b) == rows_commute(b, a),
{
    lemma_positions_symmetric(a, b, n);
}

/// Every row commutes with itself and with the identity.
pub proof fn lemma_commute_with_self_and_identity(a: RowView, n: nat)
    requires
        a.has_width(n as int),
    ensures
        rows_commute(a, a),
        rows_commute(a, identity_row(n)),
        rows_commute(identity_row(n), a),
{
    lemma_positions_with_self(a, n as int);
    lemma_positions_with_identity(a, n, n as int);
    lemma_positions_symmetric(a, identity_row(n), n as int);
}

/// `(-1)^s Z_q` commutes with a row exactly when the row holds no X part on
/// `q`.
pub proof fn lemma_commute_with_z_row(n: nat, q: int, negated: bool, r: RowView)
    requires
        0 <= q < n,
        r.has_width(n as int),
    ensures
        rows_commute(z_row(n, q, negated), r) == !r.x[q],
        rows_commute(r, z_row(n, q, negated)) == !r.x[q],
{
    lemma_positions_with_z_row(n, q, negated, r, n as int);
    lemma_positions_symmetric(r, z_row(n, q, negated), n as int);
}

/// A product commutes with `c` exactly when its two factors both commute
/// with `c` or both anticommute with it.
pub proof fn lemma_commute_with_product(h: RowView, i: RowView, c: RowView, n: int)
    requires
        h.has_width(n),
        i.has_width(n),
        c.has_width(n),
        rowsum_result(h, i) is Some,
    ensures
        rows_commute(rowsum_result(h, i)->Some_0, c) == (rows_commute(h, c) == rows_commute(i, c)),
        rows_commute(c, rowsum_result(h, i)->Some_0) == (rows_commute(c, h) == rows_commute(c, i)),
{
    let v = rowsum_result(h, i)->Some_0;
    assert(v.x == xor_seq(h.x, i.x));
    assert(v.z == xor_seq(h.z, i.z));
    lemma_positions_of_product(h, i, v, c, n);
    lemma_positions_symmetric(v, c, n);
    lemma_positions_symmetric(h, c, n);
    lemma_positions_symmetric(i, c, n);
}

} // verus!
