//! The bond kernel: for an ordered pair of points, the length of the bond
//! between them, its relative displacement, and whether the second point
//! belongs to the family of the first.
//!
//! A bond's length is held as its square, which is an integer; the
//! comparison with the horizon is made on squares and is exact.

use vstd::prelude::*;
use crate::point::{Point, LENGTH_LIMIT, lemma_square_bound};
use crate::grid::Horizon;
use crate::store::{Fields, FieldStore};

verus! {

/// What the energy of one bond is computed from: the neighbour that the
/// bond leads to, the square of the bond's length `ξ`, and the relative
/// displacement `η` of the neighbour, all lengths in coordinate units.
#[derive(Clone, Copy, Debug, PartialEq, Eq, Structural)]
pub struct Bond {
    pub neighbor: usize,
    pub length_sq: u128,
    pub displacement: i64,
}

/// The weight of a bond, as a truth value: a bond counts if and only if its
/// length is positive and no larger than the reach (the horizon is closed).
pub open spec fn spec_weight(length_sq: int, reach: int) -> bool {
    0 < length_sq <= reach * reach
}

impl Fields {
    /// The squared length `ξ²` of the bond from `i` to `j`; zero from a
    /// point to itself.
    pub open spec fn bond_length_sq(self, i: int, j: int) -> int {
        if i == j {
            0
        } else {
            self.positions[i].spec_dist_sq(self.positions[j])
        }
    }

    /// The relative displacement `η = u[j] − u[i]` of the bond from `i` to
    /// `j`.
    pub open spec fn bond_displacement(self, i: int, j: int) -> int {
        self.displacements[j] - self.displacements[i]
    }

    /// A horizon of `horizon` ticks, in coordinate units.
    pub open spec fn reach(self, horizon: nat) -> int {
        (horizon * self.resolution) as int
    }

    /// The point `j` belongs to the family of the point `i`: it is another
    /// point, at a positive distance that does not exceed the horizon.
    pub open spec fn in_family(self, i: int, j: int, horizon: nat) -> bool {
        i != j && spec_weight(self.bond_length_sq(i, j), self.reach(horizon))
    }

    /// The bond from `i` to `j`.
    pub open spec fn bond(self, i: int, j: int) -> Bond {
        Bond {
            neighbor: j as usize,
            length_sq: self.bond_length_sq(i, j) as u128,
            displacement: self.bond_displacement(i, j) as i64,
        }
    }
}

/// The squared length of a bond is symmetric in its two points and never
/// negative, and the bond from a point to itself has length zero.
pub proof fn lemma_bond_length_symmetric(f: Fields, i: int, j: int)
    ensures
        f.bond_length_sq(i, j) == f.bond_length_sq(j, i),
        f.bond_length_sq(i, j) >= 0,
        f.bond_length_sq(i, i) == 0,
{
    let p = f.positions[i];
    let q = f.positions[j];
    assert((q.x - p.x) * (q.x - p.x) == (p.x - q.x) * (p.x - q.x)) by (nonlinear_arith);
    assert((q.y - p.y) * (q.y - p.y) == (p.y - q.y) * (p.y - q.y)) by (nonlinear_arith);
    assert((q.x - p.x) * (q.x - p.x) >= 0) by (nonlinear_arith);
    assert((q.y - p.y) * (q.y - p.y) >= 0) by (nonlinear_arith);
}

/// Membership in a family is mutual: `j` belongs to the family of `i` if
/// and only if `i` belongs to the family of `j`.
pub proof fn lemma_family_mutual(f: Fields, i: int, j: int, horizon: nat)
    ensures
        f.in_family(i, j, horizon) == f.in_family(j, i, horizon),
{
    lemma_bond_length_symmetric(f, i, j);
}

/// In a well-formed store the fields of a bond are its exact values: none
/// is cut to fit its machine type.
pub proof fn lemma_bond_exact(f: Fields, i: int, j: int)
    requires
        f.wf(),
        0 <= i < f.len(),
        0 <= j < f.len(),
    ensures
        f.bond(i, j).neighbor == j,
        f.bond(i, j).length_sq == f.bond_length_sq(i, j),
        f.bond(i, j).displacement == f.bond_displacement(i, j),
        0 <= f.bond_length_sq(i, j) <= 0x2000_0000_0000_0000_0000_0000_0000_0000,
{
    let p = f.positions[i];
    let q = f.positions[j];
    assert(p.bounded() && q.bounded());
    lemma_square_bound(q.x - p.x, 0x4000_0000_0000_0000);
    lemma_square_bound(q.y - p.y, 0x4000_0000_0000_0000);
}

/// The weight of a bond of squared length `length_sq` under a reach of
/// `reach`, both in coordinate units.
pub fn weight(length_sq: u128, reach: u128) -> (w: bool)
    ensures
        w == spec_weight(length_sq as int, reach as int),
{
    if length_sq == 0 {
        false
    } else if reach >= 0x1_0000_0000_0000_0000 {
        assert(reach * reach >= 0x1_0000_0000_0000_0000_0000_0000_0000_0000) by (nonlinear_arith)
            requires
                reach >= 0x1_0000_0000_0000_0000,
        ;
        true
    } else {
        assert(reach * reach < 0x1_0000_0000_0000_0000_0000_0000_0000_0000) by (nonlinear_arith)
            requires
                0 <= reach < 0x1_0000_0000_0000_0000,
        ;
        length_sq <= reach * reach
    }
}

impl FieldStore {
    /// The horizon in coordinate units.
    pub fn reach(&self, horizon: Horizon) -> (r: u128)
        requires
            self.wf(),
        ensures
            r == self@.reach(horizon@),
    {
        let ticks: u128 = horizon.ticks() as u128;
        let resolution: u128 = self.resolution() as u128;
        assert(ticks * resolution <= 0xffff_ffff_ffff_ffff * 0x10_0000) by (nonlinear_arith)
            requires
                0 <= ticks <= 0xffff_ffff_ffff_ffff,
                0 <= resolution <= 0x10_0000,
        ;
        ticks * resolution
    }

    /// The squared length of the bond from `i` to `j`; zero if `i` is `j`.
    pub fn bond_length_sq(&self, i: usize, j: usize) -> (r: u128)
        requires
            self.wf(),
            i < self@.len(),
            j < self@.len(),
        ensures
            r == self@.bond_length_sq(i as int, j as int),
    {
        if i == j {
            0
        } else {
            self.position(i).dist_sq(self.position(j))
        }
    }

    /// The relative displacement of the bond from `i` to `j`.
    pub fn bond_displacement(&self, i: usize, j: usize) -> (r: i64)
        requires
            self.wf(),
            i < self@.len(),
            j < self@.len(),
        ensures
            r == self@.bond_displacement(i as int, j as int),
    {
        self.displacement(j) - self.displacement(i)
    }

    /// The squared length and the relative displacement of the bond from
    /// `i` to `j`: what its stretch is computed from.
    pub fn bond_stretch_input(&self, i: usize, j: usize) -> (r: (u128, i64))
        requires
            self.wf(),
            i < self@.len(),
            j < self@.len(),
        ensures
            r.0 == self@.bond_length_sq(i as int, j as int),
            r.1 == self@.bond_displacement(i as int, j as int),
    {
        (self.bond_length_sq(i, j), self.bond_displacement(i, j))
    }

    /// The squared lengths of the bonds from `i` to every point, by index.
    pub fn bond_lengths_sq(&self, i: usize) -> (v: Vec<u128>)
        requires
            self.wf(),
            i < self@.len(),
        ensures
            v@.len() == self@.len(),
            forall|j: int| 0 <= j < v@.len() ==> v@[j] == self@.bond_length_sq(i as int, j),
    {
        let n: usize = self.len();
        let origin: Point = self.position(i);
        let mut v: Vec<u128> = Vec::with_capacity(n);
        let mut j: usize = 0;
        while j < n
            invariant
                self.wf(),
                n == self@.len(),
                i < n,
                origin == self@.positions[i as int],
                j <= n,
                v@.len() == j,
                forall|l: int| 0 <= l < j ==> v@[l] == self@.bond_length_sq(i as int, l),
            decreases n - j,
        {
            if j != i {
                v.push(origin.dist_sq(self.position(j)));
            } else {
                v.push(0);
            }
            j = j + 1;
        }
        v
    }

    /// The relative displacements of the bonds from `i` to every point, by
    /// index.
    pub fn bond_displacements(&self, i: usize) -> (v: Vec<i64>)
        requires
            self.wf(),
            i < self@.len(),
        ensures
            v@.len() == self@.len(),
            forall|j: int| 0 <= j < v@.len() ==> v@[j] == self@.bond_displacement(i as int, j),
    {
        let n: usize = self.len();
        let own: i64 = self.displacement(i);
        let mut v: Vec<i64> = Vec::with_capacity(n);
        let mut j: usize = 0;
        while j < n
            invariant
                self.wf(),
                n == self@.len(),
                i < n,
                own == self@.displacements[i as int],
                -LENGTH_LIMIT <= own <= LENGTH_LIMIT,
                j <= n,
                v@.len() == j,
                forall|l: int| 0 <= l < j ==> v@[l] == self@.bond_displacement(i as int, l),
            decreases n - j,
        {
            if j != i {
                v.push(self.displacement(j) - own);
            } else {
                v.push(0);
            }
            j = j + 1;
        }
        v
    }

    /// For every point, whether it belongs to the family of `i`.
    pub fn weights(&self, i: usize, horizon: Horizon) -> (v: Vec<bool>)
        requires
            self.wf(),
            i < self@.len(),
        ensures
            v@.len() == self@.len(),
            forall|j: int| 0 <= j < v@.len() ==> v@[j] == self@.in_family(i as int, j, horizon@),
    {
        let n: usize = self.len();
        let reach: u128 = self.reach(horizon);
        let lengths: Vec<u128> = self.bond_lengths_sq(i);
        let mut v: Vec<bool> = Vec::with_capacity(n);
        let mut j: usize = 0;
        while j < n
            invariant
                n == self@.len(),
                reach == self@.reach(horizon@),
                lengths@.len() == n,
                forall|l: int| 0 <= l < n ==> lengths@[l] == self@.bond_length_sq(i as int, l),
                j <= n,
                v@.len() == j,
                forall|l: int| 0 <= l < j ==> v@[l] == self@.in_family(i as int, l, horizon@),
            decreases n - j,
        {
            let w: bool = j != i && weight(lengths[j], reach);
            v.push(w);
            j = j + 1;
        }
        v
    }
}

} // verus!
