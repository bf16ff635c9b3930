//! Laws of the kernel: what holds of the families of every store.

use vstd::prelude::*;
use vstd::math::abs;
use crate::bond::{Bond, lemma_bond_exact};
use crate::family::lemma_family_members;
use crate::grid::{
    Lattice,
    lemma_column_row_of_index,
    lemma_index_of_column_row,
    lemma_positions_bounded,
};
use crate::store::Fields;

verus! {

/// A family without members among the first `n` points has no bonds and no
/// volume there.
proof fn lemma_family_upto_empty(f: Fields, i: int, horizon: nat, n: nat)
    requires
        forall|j: int| 0 <= j < n ==> !f.in_family(i, j, horizon),
    ensures
        f.family_upto(i, horizon, n) == Seq::<Bond>::empty(),
        f.family_volume_upto(i, horizon, n) == 0,
    decreases n,
{
    if n > 0 {
        lemma_family_upto_empty(f, i, horizon, (n - 1) as nat);
    }
}

/// Where every other one of the first `n` points belongs to the family of
/// `i`, the family has a bond to each of them.
proof fn lemma_family_upto_full(f: Fields, i: int, horizon: nat, n: nat)
    requires
        forall|j: int| 0 <= j < n && j != i ==> f.in_family(i, j, horizon),
    ensures
        f.family_upto(i, horizon, n).len() == if 0 <= i < n {
            n - 1
        } else {
            n as int
        },
    decreases n,
{
    if n > 0 {
        lemma_family_upto_full(f, i, horizon, (n - 1) as nat);
    }
}

/// Two stores that differ in nothing but their displacements, and in those
/// by the same shift at every point, have the same bonds among the first
/// `n` points.
proof fn lemma_family_upto_shifted(
    f: Fields,
    g: Fields,
    shift: int,
    i: int,
    horizon: nat,
    n: nat,
)
    requires
        g.positions == f.positions,
        g.volumes == f.volumes,
        g.resolution == f.resolution,
        forall|k: int|
            0 <= k < f.len() ==> #[trigger] g.displacements[k] == f.displacements[k] + shift,
        0 <= i < f.len(),
        n <= f.len(),
    ensures
        g.family_upto(i, horizon, n) == f.family_upto(i, horizon, n),
        g.family_volume_upto(i, horizon, n) == f.family_volume_upto(i, horizon, n),
    decreases n,
{
    if n > 0 {
        lemma_family_upto_shifted(f, g, shift, i, horizon, (n - 1) as nat);
        assert(g.displacements[n - 1] == f.displacements[n - 1] + shift);
        assert(g.displacements[i] == f.displacements[i] + shift);
        assert(g.bond(i, n - 1) == f.bond(i, n - 1));
    }
}

/// Invariance under a uniform shift. Shifting the displacement of every
/// point by the same amount changes no bond: the relative displacement of a
/// bond is a difference. The families are unchanged, and with them whatever
/// is computed from them.
pub proof fn lemma_shift_invariant(f: Fields, g: Fields, shift: int, i: int, horizon: nat)
    requires
        g.positions == f.positions,
        g.volumes == f.volumes,
        g.resolution == f.resolution,
        forall|k: int|
            0 <= k < f.len() ==> #[trigger] g.displacements[k] == f.displacements[k] + shift,
        0 <= i < f.len(),
    ensures
        g.family(i, horizon) == f.family(i, horizon),
        g.family_volume(i, horizon) == f.family_volume(i, horizon),
{
    lemma_family_upto_shifted(f, g, shift, i, horizon, f.len());
}

/// The family of a point is determined by the positions, the displacements,
/// the resolution and the horizon: two stores that agree in these have the
/// same families, whatever else differs. Computing a family again gives the
/// same bonds in the same order.
pub proof fn lemma_family_determined(f: Fields, g: Fields, i: int, horizon: nat)
    requires
        g.positions == f.positions,
        g.displacements == f.displacements,
        g.resolution == f.resolution,
    ensures
        g.family(i, horizon) == f.family(i, horizon),
{
    lemma_family_upto_determined(f, g, i, horizon, f.len());
}

proof fn lemma_family_upto_determined(f: Fields, g: Fields, i: int, horizon: nat, n: nat)
    requires
        g.positions == f.positions,
        g.displacements == f.displacements,
        g.resolution == f.resolution,
    ensures
        g.family_upto(i, horizon, n) == f.family_upto(i, horizon, n),
    decreases n,
{
    if n > 0 {
        lemma_family_upto_determined(f, g, i, horizon, (n - 1) as nat);
    }
}

/// Where no point is displaced, no bond is: every bond of every family has
/// the relative displacement zero, that is, the stretch one. Such a point
/// is not free of energy: each of its bonds adds the energy of a bond at
/// stretch one.
pub proof fn lemma_zero_field(f: Fields, i: int, horizon: nat)
    requires
        f.wf(),
        forall|k: int| 0 <= k < f.len() ==> #[trigger] f.displacements[k] == 0,
        0 <= i < f.len(),
    ensures
        forall|k: int|
            0 <= k < f.family(i, horizon).len() ==> (#[trigger] f.family(
                i,
                horizon,
            )[k]).displacement == 0,
{
    lemma_family_members(f, i, horizon);
    assert forall|k: int| 0 <= k < f.family(i, horizon).len() implies (#[trigger] f.family(
        i,
        horizon,
    )[k]).displacement == 0 by {
        let b = f.family(i, horizon)[k];
        lemma_bond_exact(f, i, b.neighbor as int);
    }
}

/// A horizon below every distance. Where no other point stands within the
/// horizon of `i`, the family of `i` is empty: the energy density of `i` is
/// an empty sum.
pub proof fn lemma_horizon_below_distances(f: Fields, i: int, horizon: nat)
    requires
        forall|j: int|
            0 <= j < f.len() && j != i ==> #[trigger] f.bond_length_sq(i, j) > f.reach(horizon)
                * f.reach(horizon),
    ensures
        f.family(i, horizon) == Seq::<Bond>::empty(),
        f.family_volume(i, horizon) == 0,
{
    lemma_family_upto_empty(f, i, horizon, f.len());
}

/// A horizon that reaches every distance. Where every other point stands
/// at a positive distance within the horizon of `i`, every pair with `i` is
/// a bond: the family of `i` has `N − 1` members.
pub proof fn lemma_horizon_over_distances(f: Fields, i: int, horizon: nat)
    requires
        0 <= i < f.len(),
        forall|j: int|
            0 <= j < f.len() && j != i ==> {
                let d = #[trigger] f.bond_length_sq(i, j);
                0 < d <= f.reach(horizon) * f.reach(horizon)
            },
    ensures
        forall|j: int| 0 <= j < f.len() && j != i ==> f.in_family(i, j, horizon),
        f.family(i, horizon).len() == f.len() - 1,
{
    lemma_family_upto_full(f, i, horizon, f.len());
}

/// The offset between two nodes of a grid is a whole number of column
/// steps and of row steps, and two distinct nodes differ in their column or
/// in their row.
pub proof fn lemma_node_offset(g: Lattice, k: int, l: int)
    requires
        g.wf(),
        0 <= k < g.node_count(),
        0 <= l < g.node_count(),
    ensures
        g.position(l).x - g.position(k).x == (g.column(l) - g.column(k)) * g.ny * (g.x_max
            - g.x_min),
        g.position(l).y - g.position(k).y == (g.row(l) - g.row(k)) * g.nx * (g.y_max - g.y_min),
        -g.nx < g.column(l) - g.column(k) < g.nx,
        -g.ny < g.row(l) - g.row(k) < g.ny,
        k != l ==> g.column(l) != g.column(k) || g.row(l) != g.row(k),
{
    lemma_positions_bounded(g);
    lemma_index_of_column_row(g, k);
    lemma_index_of_column_row(g, l);
    let a = g.column(l);
    let b = g.column(k);
    let c = g.row(l);
    let d = g.row(k);
    let ny = g.ny as int;
    let nx = g.nx as int;
    let sx = g.x_max - g.x_min;
    let sy = g.y_max - g.y_min;
    assert(a * ny * sx - b * ny * sx == (a - b) * ny * sx) by (nonlinear_arith);
    assert(c * nx * sy - d * nx * sy == (c - d) * nx * sy) by (nonlinear_arith);
}

/// The order of the nodes. On a grid whose domain has a positive width and
/// height, a node with a smaller index stands further left, or in the same
/// column and further down. No two nodes share a position, so the order of
/// the nodes by position `(x, y)` is their order by index.
pub proof fn lemma_positions_ordered(g: Lattice, k: int, l: int)
    requires
        g.wf(),
        g.x_min < g.x_max,
        g.y_min < g.y_max,
        0 <= k < l < g.node_count(),
    ensures
        g.position(k).x < g.position(l).x || (g.position(k).x == g.position(l).x && g.position(
            k,
        ).y < g.position(l).y),
{
    lemma_node_offset(g, k, l);
    lemma_index_of_column_row(g, k);
    lemma_index_of_column_row(g, l);
    let da = g.column(l) - g.column(k);
    let db = g.row(l) - g.row(k);
    let ny = g.ny as int;
    let nx = g.nx as int;
    let sx = g.x_max - g.x_min;
    let sy = g.y_max - g.y_min;
    assert(da >= 0) by (nonlinear_arith)
        requires
            g.column(k) * ny + g.row(k) < g.column(l) * ny + g.row(l),
            0 <= g.row(k) < ny,
            0 <= g.row(l) < ny,
            da == g.column(l) - g.column(k),
    ;
    if da > 0 {
        assert(da * ny * sx > 0) by (nonlinear_arith)
            requires
                da > 0,
                ny > 0,
                sx > 0,
        ;
    } else {
        assert(da * ny * sx == 0) by (nonlinear_arith)
            requires
                da == 0,
        ;
        assert(db > 0);
        assert(db * nx * sy > 0) by (nonlinear_arith)
            requires
                db > 0,
                nx > 0,
                sy > 0,
        ;
    }
}

/// The node of a grid with twice the columns and rows that stands where
/// the node `k` of the grid `g` stands.
pub open spec fn twin(g: Lattice, refined: Lattice, k: int) -> int {
    refined.index(2 * g.column(k), 2 * g.row(k))
}

/// Refinement. Doubling the columns and the rows of a grid, with the
/// domain and the horizon unchanged, keeps the points of the grid and the
/// bonds between them: the twin of a node stands where the node stands (in
/// coordinate units that are four times finer), and two twins are within
/// the horizon of each other if and only if the two nodes are.
pub proof fn lemma_refinement_keeps_bonds(
    g: Lattice,
    refined: Lattice,
    f: Fields,
    rf: Fields,
    horizon: nat,
    k: int,
    l: int,
)
    requires
        g.wf(),
        refined.wf(),
        refined.x_min == g.x_min,
        refined.x_max == g.x_max,
        refined.y_min == g.y_min,
        refined.y_max == g.y_max,
        refined.nx == 2 * g.nx,
        refined.ny == 2 * g.ny,
        f.positions == g.positions(),
        f.resolution == g.resolution(),
        rf.positions == refined.positions(),
        rf.resolution == refined.resolution(),
        0 <= k < g.node_count(),
        0 <= l < g.node_count(),
    ensures
        0 <= twin(g, refined, k) < refined.node_count(),
        refined.position(twin(g, refined, k)).x == 4 * g.position(k).x,
        refined.position(twin(g, refined, k)).y == 4 * g.position(k).y,
        rf.bond_length_sq(twin(g, refined, k), twin(g, refined, l)) == 16 * f.bond_length_sq(k, l),
        rf.in_family(twin(g, refined, k), twin(g, refined, l), horizon) == f.in_family(
            k,
            l,
            horizon,
        ),
{
    lemma_twin_position(g, refined, k);
    lemma_twin_position(g, refined, l);
    let kk = twin(g, refined, k);
    let ll = twin(g, refined, l);
    lemma_index_of_column_row(g, k);
    lemma_index_of_column_row(g, l);
    lemma_column_row_of_index(refined, 2 * g.column(k), 2 * g.row(k));
    lemma_column_row_of_index(refined, 2 * g.column(l), 2 * g.row(l));
    assert(kk == ll <==> k == l);
    let dx = g.position(l).x - g.position(k).x;
    let dy = g.position(l).y - g.position(k).y;
    assert((4 * dx) * (4 * dx) + (4 * dy) * (4 * dy) == 16 * (dx * dx + dy * dy))
        by (nonlinear_arith);
    let reach = f.reach(horizon);
    assert(rf.reach(horizon) == 4 * reach) by (nonlinear_arith)
        requires
            rf.reach(horizon) == horizon * ((2 * g.nx) * (2 * g.ny)),
            reach == horizon * (g.nx * g.ny),
    ;
    assert((4 * reach) * (4 * reach) == 16 * (reach * reach)) by (nonlinear_arith);
}

/// Refinement loses no neighbour. The twin of a node has at least as many
/// family members in the refined grid as the node has in the grid.
pub proof fn lemma_refinement_keeps_family_size(
    g: Lattice,
    refined: Lattice,
    f: Fields,
    rf: Fields,
    horizon: nat,
    k: int,
)
    requires
        g.wf(),
        refined.wf(),
        refined.x_min == g.x_min,
        refined.x_max == g.x_max,
        refined.y_min == g.y_min,
        refined.y_max == g.y_max,
        refined.nx == 2 * g.nx,
        refined.ny == 2 * g.ny,
        f.positions == g.positions(),
        f.resolution == g.resolution(),
        rf.positions == refined.positions(),
        rf.resolution == refined.resolution(),
        0 <= k < g.node_count(),
    ensures
        rf.family(twin(g, refined, k), horizon).len() >= f.family(k, horizon).len(),
{
    let n = g.node_count();
    lemma_refined_prefix(g, refined, f, rf, horizon, k, n);
    lemma_twin_position(g, refined, n - 1);
    lemma_family_upto_monotone(
        rf,
        twin(g, refined, k),
        horizon,
        twin_bound(g, refined, n),
        refined.node_count(),
    );
}

/// The number of points of the refined grid up to the twin of the last of
/// the first `n` nodes.
spec fn twin_bound(g: Lattice, refined: Lattice, n: nat) -> nat {
    if n == 0 {
        0
    } else {
        (twin(g, refined, n - 1) + 1) as nat
    }
}

proof fn lemma_family_upto_monotone(f: Fields, i: int, horizon: nat, m: nat, n: nat)
    requires
        m <= n,
    ensures
        f.family_upto(i, horizon, m).len() <= f.family_upto(i, horizon, n).len(),
    decreases n,
{
    if m < n {
        lemma_family_upto_monotone(f, i, horizon, m, (n - 1) as nat);
    }
}

proof fn lemma_twin_increases(g: Lattice, refined: Lattice, l: int)
    requires
        g.wf(),
        refined.ny == 2 * g.ny,
        0 <= l,
        l + 1 < g.node_count(),
    ensures
        twin(g, refined, l) < twin(g, refined, l + 1),
{
    lemma_index_of_column_row(g, l);
    lemma_index_of_column_row(g, l + 1);
    let a = g.column(l);
    let b = g.row(l);
    let c = g.column(l + 1);
    let d = g.row(l + 1);
    let ny = g.ny as int;
    assert((2 * a) * (2 * ny) + 2 * b < (2 * c) * (2 * ny) + 2 * d) by (nonlinear_arith)
        requires
            a * ny + b + 1 == c * ny + d,
            0 <= b < ny,
            0 <= d < ny,
    ;
}

proof fn lemma_refined_prefix(
    g: Lattice,
    refined: Lattice,
    f: Fields,
    rf: Fields,
    horizon: nat,
    k: int,
    n: nat,
)
    requires
        g.wf(),
        refined.wf(),
        refined.x_min == g.x_min,
        refined.x_max == g.x_max,
        refined.y_min == g.y_min,
        refined.y_max == g.y_max,
        refined.nx == 2 * g.nx,
        refined.ny == 2 * g.ny,
        f.positions == g.positions(),
        f.resolution == g.resolution(),
        rf.positions == refined.positions(),
        rf.resolution == refined.resolution(),
        0 <= k < g.node_count(),
        n <= g.node_count(),
    ensures
        f.family_upto(k, horizon, n).len() <= rf.family_upto(
            twin(g, refined, k),
            horizon,
            twin_bound(g, refined, n),
        ).len(),
    decreases n,
{
    if n > 0 {
        let m = (n - 1) as nat;
        let kk = twin(g, refined, k);
        let t = twin(g, refined, m as int);
        lemma_refined_prefix(g, refined, f, rf, horizon, k, m);
        lemma_twin_position(g, refined, m as int);
        if m > 0 {
            lemma_twin_increases(g, refined, m - 1);
        }
        lemma_family_upto_monotone(rf, kk, horizon, twin_bound(g, refined, m), t as nat);
        lemma_refinement_keeps_bonds(g, refined, f, rf, horizon, k, m as int);
        assert(twin_bound(g, refined, n) == t + 1);
        assert(rf.family_upto(kk, horizon, (t + 1) as nat).len() == rf.family_upto(
            kk,
            horizon,
            t as nat,
        ).len() + if rf.in_family(kk, t, horizon) {
            1int
        } else {
            0int
        });
    }
}

proof fn lemma_twin_position(g: Lattice, refined: Lattice, k: int)
    requires
        g.wf(),
        refined.wf(),
        refined.x_min == g.x_min,
        refined.x_max == g.x_max,
        refined.y_min == g.y_min,
        refined.y_max == g.y_max,
        refined.nx == 2 * g.nx,
        refined.ny == 2 * g.ny,
        0 <= k < g.node_count(),
    ensures
        0 <= twin(g, refined, k) < refined.node_count(),
        refined.position(twin(g, refined, k)).x == 4 * g.position(k).x,
        refined.position(twin(g, refined, k)).y == 4 * g.position(k).y,
{
    let a = g.column(k);
    let b = g.row(k);
    lemma_index_of_column_row(g, k);
    lemma_column_row_of_index(refined, 2 * a, 2 * b);
    lemma_positions_bounded(g);
    lemma_positions_bounded(refined);
    let nx = g.nx as int;
    let ny = g.ny as int;
    let sx = g.x_max - g.x_min;
    let sy = g.y_max - g.y_min;
    assert(g.x_min * ((2 * nx) * (2 * ny)) + (2 * a) * (2 * ny) * sx == 4 * (g.x_min * (nx * ny)
        + a * ny * sx)) by (nonlinear_arith);
    assert(g.y_min * ((2 * nx) * (2 * ny)) + (2 * b) * (2 * nx) * sy == 4 * (g.y_min * (nx * ny)
        + b * nx * sy)) by (nonlinear_arith);
}

proof fn lemma_step_exceeds_reach(d: int, n: int, m: int, span: int, h: int, r: int)
    requires
        d != 0,
        n >= 1,
        m >= 1,
        h >= 0,
        h * m < abs(span),
        r == h * (m * n),
    ensures
        (d * n * span) * (d * n * span) > r * r,
{
    let e = abs(d);
    let a = abs(span);
    let t = h * m;
    let w = n * a;
    assert(t >= 0) by (nonlinear_arith)
        requires
            t == h * m,
            h >= 0,
            m >= 1,
    ;
    assert(w >= n * t + n) by (nonlinear_arith)
        requires
            a >= t + 1,
            n >= 1,
            w == n * a,
    ;
    assert(n * t >= 0) by (nonlinear_arith)
        requires
            t >= 0,
            n >= 1,
    ;
    assert(e * w >= w) by (nonlinear_arith)
        requires
            e >= 1,
            w >= 0,
    ;
    assert(r == n * t) by (nonlinear_arith)
        requires
            r == h * (m * n),
            t == h * m,
    ;
    assert((e * w) * (e * w) > r * r) by (nonlinear_arith)
        requires
            e * w > r,
            r >= 0,
    ;
    assert((d * n * span) * (d * n * span) == (e * w) * (e * w)) by (nonlinear_arith)
        requires
            d == e || d == -e,
            span == a || span == -a,
            w == n * a,
    ;
}

proof fn lemma_step_within_span(d: int, n: int, m: int, span: int, r: int)
    requires
        -m < d < m,
        n >= 0,
        r == m * n,
    ensures
        (d * n * span) * (d * n * span) <= r * r * (span * span),
{
    let c = (n * span) * (n * span);
    assert(c >= 0) by (nonlinear_arith)
        requires
            c == (n * span) * (n * span),
    ;
    assert(d * d <= m * m) by (nonlinear_arith)
        requires
            -m < d < m,
    ;
    assert((d * d) * c <= (m * m) * c) by (nonlinear_arith)
        requires
            d * d <= m * m,
            c >= 0,
    ;
    assert((d * n * span) * (d * n * span) == (d * d) * c) by (nonlinear_arith)
        requires
            c == (n * span) * (n * span),
    ;
    assert(r * r * (span * span) == (m * m) * c) by (nonlinear_arith)
        requires
            c == (n * span) * (n * span),
            r == m * n,
    ;
}

/// A horizon below the spacing of a grid. Where the horizon is smaller
/// than the distance between two neighbouring columns and than that
/// between two neighbouring rows, no point of the grid has a neighbour:
/// every family is empty.
pub proof fn lemma_horizon_below_spacing(g: Lattice, f: Fields, horizon: nat, i: int)
    requires
        g.wf(),
        f.positions == g.positions(),
        f.resolution == g.resolution(),
        g.nx > 1 ==> horizon * g.nx < abs(g.x_max - g.x_min),
        g.ny > 1 ==> horizon * g.ny < abs(g.y_max - g.y_min),
        0 <= i < f.len(),
    ensures
        forall|j: int| 0 <= j < f.len() ==> !f.in_family(i, j, horizon),
        f.family(i, horizon) == Seq::<Bond>::empty(),
        f.family_volume(i, horizon) == 0,
{
    let r = f.reach(horizon);
    assert forall|j: int| 0 <= j < f.len() implies !f.in_family(i, j, horizon) by {
        if j != i {
            lemma_node_offset(g, i, j);
            let di = g.column(j) - g.column(i);
            let dj = g.row(j) - g.row(i);
            let a = di * g.ny * (g.x_max - g.x_min);
            let b = dj * g.nx * (g.y_max - g.y_min);
            assert(f.bond_length_sq(i, j) == a * a + b * b);
            assert(a * a >= 0 && b * b >= 0) by (nonlinear_arith);
            if di != 0 {
                assert(r == horizon * (g.nx * g.ny));
                lemma_step_exceeds_reach(
                    di,
                    g.ny as int,
                    g.nx as int,
                    g.x_max - g.x_min,
                    horizon as int,
                    r,
                );
            } else {
                assert(r == horizon * (g.ny * g.nx)) by (nonlinear_arith)
                    requires
                        r == horizon * (g.nx * g.ny),
                ;
                lemma_step_exceeds_reach(
                    dj,
                    g.nx as int,
                    g.ny as int,
                    g.y_max - g.y_min,
                    horizon as int,
                    r,
                );
            }
        }
    }
    lemma_family_upto_empty(f, i, horizon, f.len());
}

/// A horizon over the diagonal of a grid. Where the horizon is no smaller
/// than the diagonal of the domain, and no two nodes of the grid coincide,
/// every pair of distinct points is a bond: each family has `N − 1`
/// members.
pub proof fn lemma_horizon_over_diagonal(g: Lattice, f: Fields, horizon: nat, i: int)
    requires
        g.wf(),
        f.positions == g.positions(),
        f.resolution == g.resolution(),
        horizon * horizon >= (g.x_max - g.x_min) * (g.x_max - g.x_min) + (g.y_max - g.y_min) * (
        g.y_max - g.y_min),
        g.nx > 1 ==> g.x_max != g.x_min,
        g.ny > 1 ==> g.y_max != g.y_min,
        0 <= i < f.len(),
    ensures
        forall|j: int| 0 <= j < f.len() && j != i ==> f.in_family(i, j, horizon),
        f.family(i, horizon).len() == f.len() - 1,
{
    let r = f.reach(horizon);
    let sx = g.x_max - g.x_min;
    let sy = g.y_max - g.y_min;
    let n = (g.nx * g.ny) as int;
    assert forall|j: int| 0 <= j < f.len() && j != i implies f.in_family(i, j, horizon) by {
        lemma_node_offset(g, i, j);
        let di = g.column(j) - g.column(i);
        let dj = g.row(j) - g.row(i);
        let a = di * g.ny * sx;
        let b = dj * g.nx * sy;
        assert(f.bond_length_sq(i, j) == a * a + b * b);
        lemma_step_within_span(di, g.ny as int, g.nx as int, sx, n);
        assert(n == g.ny * g.nx) by (nonlinear_arith)
            requires
                n == g.nx * g.ny,
        ;
        lemma_step_within_span(dj, g.nx as int, g.ny as int, sy, n);
        assert(a * a + b * b <= r * r) by (nonlinear_arith)
            requires
                a * a <= n * n * (sx * sx),
                b * b <= n * n * (sy * sy),
                horizon * horizon >= sx * sx + sy * sy,
                r == horizon * n,
        ;
        assert(a * a + b * b > 0) by (nonlinear_arith)
            requires
                a == di * g.ny * sx,
                b == dj * g.nx * sy,
                g.ny >= 1,
                g.nx >= 1,
                di != 0 || dj != 0,
                di != 0 ==> sx != 0,
                dj != 0 ==> sy != 0,
        ;
    }
    lemma_family_upto_full(f, i, horizon, f.len());
}

} // verus!
