//! The geometry and field store: for each material point its position, its
//! volume and its scalar displacement.
//!
//! All lengths of a store (coordinates and displacements) are in one unit,
//! the coordinate unit of the grid that the store was built on. The store
//! remembers how many of these units make a tick.

use vstd::prelude::*;
use crate::point::{Point, LENGTH_LIMIT, lemma_product_bound};
use crate::grid::{Grid, Lattice, MAX_EXTENT, MAX_NODES, lemma_positions_bounded};

verus! {

/// The volume of a point where none is given.
pub const DEFAULT_VOLUME: u64 = 1;

/// The mathematical content of a [`FieldStore`].
pub struct Fields {
    /// The position of each point, in coordinate units.
    pub positions: Seq<Point>,
    /// The volume of each point.
    pub volumes: Seq<u64>,
    /// The displacement of each point, in coordinate units.
    pub displacements: Seq<i64>,
    /// The number of coordinate units in one tick.
    pub resolution: nat,
}

impl Fields {
    /// The number of points, `N`.
    pub open spec fn len(self) -> nat {
        self.positions.len()
    }

    /// The three fields have one entry for each point, an index fits in a
    /// machine word, and every length is within `LENGTH_LIMIT`.
    pub open spec fn wf(self) -> bool {
        &&& self.positions.len() <= usize::MAX
        &&& self.volumes.len() == self.positions.len()
        &&& self.displacements.len() == self.positions.len()
        &&& 0 < self.resolution <= MAX_NODES
        &&& forall|i: int|
            0 <= i < self.positions.len() ==> (#[trigger] self.positions[i]).bounded()
        &&& forall|i: int|
            0 <= i < self.displacements.len() ==> -LENGTH_LIMIT <= #[trigger] self.displacements[i]
                <= LENGTH_LIMIT
    }
}

/// The displacement, in ticks, that a list of overrides assigns to the
/// point `k`: that of the last override that names `k`, and zero where
/// none does.
pub open spec fn assigned(overrides: Seq<(usize, i64)>, k: int) -> int
    decreases overrides.len(),
{
    if overrides.len() == 0 {
        0
    } else if overrides.last().0 == k {
        overrides.last().1 as int
    } else {
        assigned(overrides.drop_last(), k)
    }
}

/// Every override names a point of a cloud of `n` points, and displaces it
/// by no more than `MAX_EXTENT` ticks.
pub open spec fn overrides_fit(overrides: Seq<(usize, i64)>, n: nat) -> bool {
    forall|m: int|
        0 <= m < overrides.len() ==> {
            &&& (#[trigger] overrides[m]).0 < n
            &&& -MAX_EXTENT <= overrides[m].1 <= MAX_EXTENT
        }
}

/// An assigned displacement is one of the overrides' values, or zero.
proof fn lemma_assigned_bounded(overrides: Seq<(usize, i64)>, n: nat, k: int)
    requires
        overrides_fit(overrides, n),
    ensures
        -MAX_EXTENT <= assigned(overrides, k) <= MAX_EXTENT,
    decreases overrides.len(),
{
    if overrides.len() > 0 {
        if overrides.last().0 != k {
            lemma_assigned_bounded(overrides.drop_last(), n, k);
        }
    }
}

impl Lattice {
    /// The fields of the store built on this grid: one point at each node,
    /// each with the same volume, displaced as the overrides say.
    pub open spec fn fields(self, volume: u64, overrides: Seq<(usize, i64)>) -> Fields {
        Fields {
            positions: self.positions(),
            volumes: Seq::new(self.node_count(), |k: int| volume),
            displacements: Seq::new(
                self.node_count(),
                |k: int| (self.resolution() * assigned(overrides, k)) as i64,
            ),
            resolution: self.resolution(),
        }
    }
}

/// The point positions with the volume and displacement of each point.
/// Nothing changes it once it is built.
#[derive(Debug)]
pub struct FieldStore {
    positions: Vec<Point>,
    volumes: Vec<u64>,
    displacements: Vec<i64>,
    resolution: u64,
}

impl View for FieldStore {
    type V = Fields;

    closed spec fn view(&self) -> Fields {
        Fields {
            positions: self.positions@,
            volumes: self.volumes@,
            displacements: self.displacements@,
            resolution: self.resolution as nat,
        }
    }
}

impl FieldStore {
    pub open spec fn wf(&self) -> bool {
        self@.wf()
    }

    /// Builds the store of a grid: a point at every node, in index order,
    /// each with the volume `volume`. `overrides` lists pairs of a point
    /// index and a displacement in ticks; a point that no pair names is not
    /// displaced, and of two pairs that name one point the later counts.
    pub fn on_grid(grid: &Grid, volume: u64, overrides: &Vec<(usize, i64)>) -> (s: FieldStore)
        requires
            grid.wf(),
            overrides_fit(overrides@, grid@.node_count()),
        ensures
            s.wf(),
            s@ == grid@.fields(volume, overrides@),
    {
        let n: usize = grid.node_count();
        let resolution: u64 = grid.resolution();
        let positions: Vec<Point> = grid.points();
        let mut volumes: Vec<u64> = Vec::with_capacity(n);
        let mut displacements: Vec<i64> = Vec::with_capacity(n);
        let mut k: usize = 0;
        while k < n
            invariant
                k <= n,
                volumes@.len() == k,
                displacements@.len() == k,
                forall|l: int| 0 <= l < k ==> volumes@[l] == volume,
                forall|l: int| 0 <= l < k ==> displacements@[l] == 0,
            decreases n - k,
        {
            volumes.push(volume);
            displacements.push(0);
            k = k + 1;
        }
        let count: usize = overrides.len();
        let mut m: usize = 0;
        while m < count
            invariant
                m <= count,
                count == overrides@.len(),
                n == grid@.node_count(),
                0 < resolution <= MAX_NODES,
                overrides_fit(overrides@, n as nat),
                displacements@.len() == n,
                forall|l: int|
                    0 <= l < n ==> #[trigger] displacements@[l] == resolution * assigned(
                        overrides@.take(m as int),
                        l,
                    ),
            decreases count - m,
        {
            let index: usize = overrides[m].0;
            let ticks: i64 = overrides[m].1;
            proof {
                lemma_product_bound(
                    ticks as int,
                    resolution as int,
                    MAX_EXTENT as int,
                    MAX_NODES as int,
                );
                assert(ticks * resolution == resolution * ticks) by (nonlinear_arith);
                assert(overrides@.take(m + 1).drop_last() =~= overrides@.take(m as int));
                assert(overrides@.take(m + 1).last() == overrides@[m as int]);
            }
            displacements.set(index, ticks * (resolution as i64));
            m = m + 1;
        }
        proof {
            assert(overrides@.take(count as int) =~= overrides@);
            lemma_positions_bounded(grid@);
            assert forall|l: int| 0 <= l < n implies -LENGTH_LIMIT <= #[trigger] displacements@[l]
                <= LENGTH_LIMIT by {
                lemma_assigned_bounded(overrides@, n as nat, l);
                lemma_product_bound(
                    assigned(overrides@, l),
                    resolution as int,
                    MAX_EXTENT as int,
                    MAX_NODES as int,
                );
                assert(assigned(overrides@, l) * resolution == resolution * assigned(
                    overrides@,
                    l,
                )) by (nonlinear_arith);
            }
        }
        let s = FieldStore { positions, volumes, displacements, resolution };
        proof {
            assert(s@.volumes =~= grid@.fields(volume, overrides@).volumes);
            assert(s@.displacements =~= grid@.fields(volume, overrides@).displacements);
        }
        s
    }

    /// The number of points, `N`.
    pub fn len(&self) -> (n: usize)
        ensures
            n == self@.len(),
    {
        self.positions.len()
    }

    /// The number of coordinate units in one tick.
    pub fn resolution(&self) -> (r: u64)
        ensures
            r == self@.resolution,
    {
        self.resolution
    }

    /// The position of point `i`, in coordinate units.
    pub fn position(&self, i: usize) -> (p: Point)
        requires
            self.wf(),
            i < self@.len(),
        ensures
            p == self@.positions[i as int],
            p.bounded(),
    {
        self.positions[i]
    }

    /// The volume of point `i`.
    pub fn volume(&self, i: usize) -> (v: u64)
        requires
            self.wf(),
            i < self@.len(),
        ensures
            v == self@.volumes[i as int],
    {
        self.volumes[i]
    }

    /// The displacement of point `i`, in coordinate units.
    pub fn displacement(&self, i: usize) -> (u: i64)
        requires
            self.wf(),
            i < self@.len(),
        ensures
            u == self@.displacements[i as int],
            -LENGTH_LIMIT <= u <= LENGTH_LIMIT,
    {
        self.displacements[i]
    }
}

} // verus!
