//! Uniform grids over a rectangular domain, and the horizon.
//!
//! The domain extents are integers, in a unit of length that the caller
//! chooses (a *tick*). The nodes of a grid with `nx` columns and `ny` rows
//! stand at `(x_min + i·(x_max − x_min)/nx, y_min + j·(y_max − y_min)/ny)`,
//! which need not be whole ticks. The coordinates of a node are therefore
//! held in a finer unit, `1/(nx·ny)` of a tick, in which they are integers:
//! the *resolution* of the grid is the number `nx·ny` of such units in a
//! tick.
//!
//! The limits `MAX_EXTENT` and `MAX_NODES` keep every coordinate within
//! `LENGTH_LIMIT`, so that the square of a distance between two nodes fits
//! in 128 bits and is computed without rounding.

use vstd::prelude::*;
use vstd::arithmetic::div_mod::{
    lemma_fundamental_div_mod,
    lemma_fundamental_div_mod_converse,
    lemma_mod_bound,
};
use crate::point::{Point, LENGTH_LIMIT, lemma_product_bound};

verus! {

/// Largest magnitude of a domain extent, and of a displacement, in ticks:
/// `2^39`.
pub const MAX_EXTENT: i64 = 0x80_0000_0000;

/// Largest number of nodes of a grid: `2^20`.
pub const MAX_NODES: usize = 0x10_0000;

/// A grid without columns or without rows, or a horizon that is not
/// positive.
#[derive(Clone, Copy, Debug, PartialEq, Eq)]
pub struct InvalidGeometry;

/// The mathematical content of a [`Grid`].
pub struct Lattice {
    pub x_min: int,
    pub x_max: int,
    pub y_min: int,
    pub y_max: int,
    pub nx: nat,
    pub ny: nat,
}

impl Lattice {
    /// The grid has a node, and its extents and size are within the limits
    /// of the representation.
    pub open spec fn wf(self) -> bool {
        &&& self.nx > 0
        &&& self.ny > 0
        &&& self.nx * self.ny <= MAX_NODES
        &&& -MAX_EXTENT <= self.x_min <= MAX_EXTENT
        &&& -MAX_EXTENT <= self.x_max <= MAX_EXTENT
        &&& -MAX_EXTENT <= self.y_min <= MAX_EXTENT
        &&& -MAX_EXTENT <= self.y_max <= MAX_EXTENT
    }

    /// The number of nodes, `N = nx·ny`.
    pub open spec fn node_count(self) -> nat {
        self.nx * self.ny
    }

    /// The number of coordinate units in one tick.
    pub open spec fn resolution(self) -> nat {
        self.nx * self.ny
    }

    /// The index of the node in column `i` and row `j`: the rows of one
    /// column are consecutive.
    pub open spec fn index(self, i: int, j: int) -> int {
        i * self.ny + j
    }

    /// The column of the node with index `k`.
    pub open spec fn column(self, k: int) -> int {
        k / (self.ny as int)
    }

    /// The row of the node with index `k`.
    pub open spec fn row(self, k: int) -> int {
        k % (self.ny as int)
    }

    /// The `x` coordinate of column `i`: `resolution · (x_min + i·(x_max − x_min)/nx)`.
    pub open spec fn node_x(self, i: int) -> int {
        self.x_min * self.resolution() + i * self.ny * (self.x_max - self.x_min)
    }

    /// The `y` coordinate of row `j`: `resolution · (y_min + j·(y_max − y_min)/ny)`.
    pub open spec fn node_y(self, j: int) -> int {
        self.y_min * self.resolution() + j * self.nx * (self.y_max - self.y_min)
    }

    /// The position of the node with index `k`.
    pub open spec fn position(self, k: int) -> Point {
        Point { x: self.node_x(self.column(k)) as i64, y: self.node_y(self.row(k)) as i64 }
    }

    /// The positions of all nodes, by index.
    pub open spec fn positions(self) -> Seq<Point> {
        Seq::new(self.node_count(), |k: int| self.position(k))
    }
}

/// A node index splits into a column and a row of the grid, and these give
/// the index back.
pub proof fn lemma_index_of_column_row(g: Lattice, k: int)
    requires
        g.wf(),
        0 <= k < g.node_count(),
    ensures
        0 <= g.column(k) < g.nx,
        0 <= g.row(k) < g.ny,
        g.index(g.column(k), g.row(k)) == k,
{
    let d = g.ny as int;
    lemma_fundamental_div_mod(k, d);
    lemma_mod_bound(k, d);
    let q = k / d;
    assert(q * d == d * q) by (nonlinear_arith);
    assert(0 <= q < g.nx) by (nonlinear_arith)
        requires
            0 <= k < g.nx * d,
            d > 0,
            k == q * d + k % d,
            0 <= k % d < d,
    ;
}

/// The index of column `i` and row `j` is a node index, and its column and
/// row are `i` and `j`: distinct pairs have distinct indices.
pub proof fn lemma_column_row_of_index(g: Lattice, i: int, j: int)
    requires
        g.wf(),
        0 <= i < g.nx,
        0 <= j < g.ny,
    ensures
        0 <= g.index(i, j) < g.node_count(),
        g.column(g.index(i, j)) == i,
        g.row(g.index(i, j)) == j,
{
    let d = g.ny as int;
    lemma_fundamental_div_mod_converse(i * d + j, d, i, j);
    assert(0 <= i * d + j < g.nx * d) by (nonlinear_arith)
        requires
            0 <= i < g.nx,
            0 <= j < d,
    ;
}

/// The coordinates of every node of a well-formed grid are within
/// `LENGTH_LIMIT`.
proof fn lemma_node_bounded(g: Lattice, i: int, j: int)
    requires
        g.wf(),
        0 <= i < g.nx,
        0 <= j < g.ny,
    ensures
        -LENGTH_LIMIT <= g.node_x(i) <= LENGTH_LIMIT,
        -LENGTH_LIMIT <= g.node_y(j) <= LENGTH_LIMIT,
{
    let n = g.resolution() as int;
    assert(0 <= i * g.ny <= n) by (nonlinear_arith)
        requires
            0 <= i < g.nx,
            n == g.nx * g.ny,
    ;
    assert(0 <= j * g.nx <= n) by (nonlinear_arith)
        requires
            0 <= j < g.ny,
            n == g.nx * g.ny,
    ;
    lemma_product_bound(g.x_min, n, MAX_EXTENT as int, MAX_NODES as int);
    lemma_product_bound(g.y_min, n, MAX_EXTENT as int, MAX_NODES as int);
    lemma_product_bound(g.x_max - g.x_min, i * g.ny, 2 * MAX_EXTENT, MAX_NODES as int);
    lemma_product_bound(g.y_max - g.y_min, j * g.nx, 2 * MAX_EXTENT, MAX_NODES as int);
    assert((g.x_max - g.x_min) * (i * g.ny) == i * g.ny * (g.x_max - g.x_min))
        by (nonlinear_arith);
    assert((g.y_max - g.y_min) * (j * g.nx) == j * g.nx * (g.y_max - g.y_min))
        by (nonlinear_arith);
}

/// Every node position of a well-formed grid is bounded, and is the pair of
/// its exact coordinates.
pub proof fn lemma_positions_bounded(g: Lattice)
    requires
        g.wf(),
    ensures
        forall|k: int|
            0 <= k < g.node_count() ==> {
                &&& (#[trigger] g.position(k)).bounded()
                &&& g.position(k).x == g.node_x(g.column(k))
                &&& g.position(k).y == g.node_y(g.row(k))
            },
{
    assert forall|k: int| 0 <= k < g.node_count() implies {
        &&& (#[trigger] g.position(k)).bounded()
        &&& g.position(k).x == g.node_x(g.column(k))
        &&& g.position(k).y == g.node_y(g.row(k))
    } by {
        lemma_index_of_column_row(g, k);
        lemma_node_bounded(g, g.column(k), g.row(k));
    }
}

/// A uniform grid of `nx` columns and `ny` rows over the rectangle
/// `[x_min, x_max] × [y_min, y_max]`.
#[derive(Clone, Copy, Debug)]
pub struct Grid {
    x_min: i64,
    x_max: i64,
    y_min: i64,
    y_max: i64,
    nx: usize,
    ny: usize,
}

impl View for Grid {
    type V = Lattice;

    closed spec fn view(&self) -> Lattice {
        Lattice {
            x_min: self.x_min as int,
            x_max: self.x_max as int,
            y_min: self.y_min as int,
            y_max: self.y_max as int,
            nx: self.nx as nat,
            ny: self.ny as nat,
        }
    }
}

impl Grid {
    pub open spec fn wf(&self) -> bool {
        self@.wf()
    }

    /// Whether a grid of these extents and counts is within the limits of
    /// the representation: what `new` asks of its arguments.
    pub fn fits(x_min: i64, x_max: i64, y_min: i64, y_max: i64, nx: usize, ny: usize) -> (b: bool)
        ensures
            b <==> {
                &&& -MAX_EXTENT <= x_min <= MAX_EXTENT
                &&& -MAX_EXTENT <= x_max <= MAX_EXTENT
                &&& -MAX_EXTENT <= y_min <= MAX_EXTENT
                &&& -MAX_EXTENT <= y_max <= MAX_EXTENT
                &&& nx * ny <= MAX_NODES
            },
    {
        let extents: bool = -MAX_EXTENT <= x_min && x_min <= MAX_EXTENT && -MAX_EXTENT <= x_max
            && x_max <= MAX_EXTENT && -MAX_EXTENT <= y_min && y_min <= MAX_EXTENT && -MAX_EXTENT
            <= y_max && y_max <= MAX_EXTENT;
        if nx == 0 || ny == 0 {
            assert(nx * ny == 0) by (nonlinear_arith)
                requires
                    nx == 0 || ny == 0,
            ;
            extents
        } else if nx > MAX_NODES || ny > MAX_NODES {
            assert(nx * ny > MAX_NODES) by (nonlinear_arith)
                requires
                    nx >= 1,
                    ny >= 1,
                    nx > MAX_NODES || ny > MAX_NODES,
            ;
            false
        } else {
            assert(nx * ny <= 0x100_0000_0000) by (nonlinear_arith)
                requires
                    0 <= nx <= 0x10_0000,
                    0 <= ny <= 0x10_0000,
            ;
            extents && (nx as u64) * (ny as u64) <= MAX_NODES as u64
        }
    }

    /// Builds the grid. A grid without columns or rows is refused.
    pub fn new(
        x_min: i64,
        x_max: i64,
        y_min: i64,
        y_max: i64,
        nx: usize,
        ny: usize,
    ) -> (r: Result<Grid, InvalidGeometry>)
        requires
            -MAX_EXTENT <= x_min <= MAX_EXTENT,
            -MAX_EXTENT <= x_max <= MAX_EXTENT,
            -MAX_EXTENT <= y_min <= MAX_EXTENT,
            -MAX_EXTENT <= y_max <= MAX_EXTENT,
            nx * ny <= MAX_NODES,
        ensures
            r is Err <==> nx == 0 || ny == 0,
            r matches Ok(g) ==> g.wf() && g@ == (Lattice {
                x_min: x_min as int,
                x_max: x_max as int,
                y_min: y_min as int,
                y_max: y_max as int,
                nx: nx as nat,
                ny: ny as nat,
            }),
    {
        if nx == 0 || ny == 0 {
            Err(InvalidGeometry)
        } else {
            Ok(Grid { x_min, x_max, y_min, y_max, nx, ny })
        }
    }

    /// The number of columns.
    pub fn nx(&self) -> (n: usize)
        ensures
            n == self@.nx,
    {
        self.nx
    }

    /// The number of rows.
    pub fn ny(&self) -> (n: usize)
        ensures
            n == self@.ny,
    {
        self.ny
    }

    /// The number of nodes.
    pub fn node_count(&self) -> (n: usize)
        requires
            self.wf(),
        ensures
            n == self@.node_count(),
            0 < n <= MAX_NODES,
    {
        assert(0 < self.nx * self.ny) by (nonlinear_arith)
            requires
                self.nx > 0,
                self.ny > 0,
        ;
        self.nx * self.ny
    }

    /// The number of coordinate units in one tick.
    pub fn resolution(&self) -> (n: u64)
        requires
            self.wf(),
        ensures
            n == self@.resolution(),
            0 < n <= MAX_NODES,
    {
        self.node_count() as u64
    }

    /// The index of the node in column `i` and row `j`.
    pub fn index(&self, i: usize, j: usize) -> (k: usize)
        requires
            self.wf(),
            i < self@.nx,
            j < self@.ny,
        ensures
            k == self@.index(i as int, j as int),
            k < self@.node_count(),
    {
        proof {
            lemma_column_row_of_index(self@, i as int, j as int);
            assert(0 <= i * self.ny <= self@.index(i as int, j as int)) by (nonlinear_arith)
                requires
                    self@.index(i as int, j as int) == i * self.ny + j,
            ;
        }
        i * self.ny + j
    }

    /// The column of the node with index `k`.
    pub fn column(&self, k: usize) -> (i: usize)
        requires
            self.wf(),
            k < self@.node_count(),
        ensures
            i == self@.column(k as int),
            i < self@.nx,
    {
        proof {
            lemma_index_of_column_row(self@, k as int);
        }
        k / self.ny
    }

    /// The row of the node with index `k`.
    pub fn row(&self, k: usize) -> (j: usize)
        requires
            self.wf(),
            k < self@.node_count(),
        ensures
            j == self@.row(k as int),
            j < self@.ny,
    {
        proof {
            lemma_index_of_column_row(self@, k as int);
        }
        k % self.ny
    }

    /// The position of the node with index `k`, in coordinate units.
    pub fn position(&self, k: usize) -> (p: Point)
        requires
            self.wf(),
            k < self@.node_count(),
        ensures
            p == self@.position(k as int),
            p.bounded(),
    {
        let i: usize = self.column(k);
        let j: usize = self.row(k);
        let n: i128 = self.node_count() as i128;
        proof {
            lemma_node_bounded(self@, i as int, j as int);
            assert(0 <= i * self.ny <= n) by (nonlinear_arith)
                requires
                    0 <= i < self.nx,
                    n == self.nx * self.ny,
            ;
            assert(0 <= j * self.nx <= n) by (nonlinear_arith)
                requires
                    0 <= j < self.ny,
                    n == self.nx * self.ny,
            ;
            lemma_product_bound(self.x_min as int, n as int, MAX_EXTENT as int, MAX_NODES as int);
            lemma_product_bound(self.y_min as int, n as int, MAX_EXTENT as int, MAX_NODES as int);
            lemma_product_bound(
                self.x_max - self.x_min,
                i * self.ny,
                2 * MAX_EXTENT,
                MAX_NODES as int,
            );
            lemma_product_bound(
                self.y_max - self.y_min,
                j * self.nx,
                2 * MAX_EXTENT,
                MAX_NODES as int,
            );
            assert((self.x_max - self.x_min) * (i * self.ny) == i * self.ny * (self.x_max
                - self.x_min)) by (nonlinear_arith);
            assert((self.y_max - self.y_min) * (j * self.nx) == j * self.nx * (self.y_max
                - self.y_min)) by (nonlinear_arith);
        }
        let x_steps: i128 = (i * self.ny) as i128;
        let y_steps: i128 = (j * self.nx) as i128;
        let x_span: i128 = self.x_max as i128 - self.x_min as i128;
        let y_span: i128 = self.y_max as i128 - self.y_min as i128;
        let x: i128 = self.x_min as i128 * n + x_steps * x_span;
        let y: i128 = self.y_min as i128 * n + y_steps * y_span;
        Point { x: x as i64, y: y as i64 }
    }

    /// The positions of all nodes, by index.
    pub fn points(&self) -> (v: Vec<Point>)
        requires
            self.wf(),
        ensures
            v@ == self@.positions(),
    {
        let n: usize = self.node_count();
        let mut v: Vec<Point> = Vec::with_capacity(n);
        let mut k: usize = 0;
        while k < n
            invariant
                self.wf(),
                n == self@.node_count(),
                k <= n,
                v@.len() == k,
                forall|l: int| 0 <= l < k ==> v@[l] == self@.position(l),
            decreases n - k,
        {
            let p = self.position(k);
            v.push(p);
            k = k + 1;
        }
        assert(v@ =~= self@.positions());
        v
    }
}

/// The horizon: the radius within which two points interact, in ticks.
/// It is positive.
#[derive(Clone, Copy, Debug)]
pub struct Horizon {
    ticks: u64,
}

impl View for Horizon {
    type V = nat;

    closed spec fn view(&self) -> nat {
        self.ticks as nat
    }
}

impl Horizon {
    #[verifier::type_invariant]
    spec fn positive(self) -> bool {
        self.ticks > 0
    }

    /// A horizon of `delta` ticks. One that is not positive is refused.
    pub fn new(delta: i64) -> (r: Result<Horizon, InvalidGeometry>)
        ensures
            r is Err <==> delta <= 0,
            r matches Ok(h) ==> h@ == delta,
    {
        if delta <= 0 {
            Err(InvalidGeometry)
        } else {
            Ok(Horizon { ticks: delta as u64 })
        }
    }

    /// The horizon in ticks.
    pub fn ticks(&self) -> (t: u64)
        ensures
            t == self@,
            t > 0,
    {
        proof {
            use_type_invariant(self);
        }
        self.ticks
    }
}

/// Builds the grid and the horizon of a problem. The geometry is refused if
/// and only if the grid has no columns or no rows, or the horizon is not
/// positive.
pub fn geometry(
    x_min: i64,
    x_max: i64,
    y_min: i64,
    y_max: i64,
    nx: usize,
    ny: usize,
    delta: i64,
) -> (r: Result<(Grid, Horizon), InvalidGeometry>)
    requires
        -MAX_EXTENT <= x_min <= MAX_EXTENT,
        -MAX_EXTENT <= x_max <= MAX_EXTENT,
        -MAX_EXTENT <= y_min <= MAX_EXTENT,
        -MAX_EXTENT <= y_max <= MAX_EXTENT,
        nx * ny <= MAX_NODES,
    ensures
        r is Err <==> nx == 0 || ny == 0 || delta <= 0,
        r matches Ok((g, h)) ==> {
            &&& g.wf()
            &&& g@ == (Lattice {
                x_min: x_min as int,
                x_max: x_max as int,
                y_min: y_min as int,
                y_max: y_max as int,
                nx: nx as nat,
                ny: ny as nat,
            })
            &&& h@ == delta
        },
{
    match Grid::new(x_min, x_max, y_min, y_max, nx, ny) {
        Ok(grid) => match Horizon::new(delta) {
            Ok(horizon) => Ok((grid, horizon)),
            Err(e) => Err(e),
        },
        Err(e) => Err(e),
    }
}

} // verus!
