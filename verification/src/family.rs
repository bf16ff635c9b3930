//! The traversal of the energy aggregator: for a source point, the bonds to
//! the members of its family, in the order of their indices.
//!
//! The energy density of a source point is a sum with one term for each of
//! these bonds, taken in this order; the term of a bond is a function of
//! the bond's length and relative displacement alone.

use vstd::prelude::*;
use crate::bond::{Bond, weight, lemma_bond_exact};
use crate::grid::Horizon;
use crate::store::{Fields, FieldStore};

verus! {

impl Fields {
    /// The bonds from `i` to the members of its family among the first `n`
    /// points, by index.
    pub open spec fn family_upto(self, i: int, horizon: nat, n: nat) -> Seq<Bond>
        decreases n,
    {
        if n == 0 {
            Seq::empty()
        } else {
            let rest = self.family_upto(i, horizon, (n - 1) as nat);
            if self.in_family(i, n - 1, horizon) {
                rest.push(self.bond(i, n - 1))
            } else {
                rest
            }
        }
    }

    /// The bonds from `i` to the members of its family, by index.
    pub open spec fn family(self, i: int, horizon: nat) -> Seq<Bond> {
        self.family_upto(i, horizon, self.len())
    }

    /// The volume of the family of `i` among the first `n` points.
    pub open spec fn family_volume_upto(self, i: int, horizon: nat, n: nat) -> int
        decreases n,
    {
        if n == 0 {
            0
        } else {
            let rest = self.family_volume_upto(i, horizon, (n - 1) as nat);
            if self.in_family(i, n - 1, horizon) {
                rest + self.volumes[n - 1]
            } else {
                rest
            }
        }
    }

    /// The volume of the family of `i`: the sum of its members' volumes.
    pub open spec fn family_volume(self, i: int, horizon: nat) -> int {
        self.family_volume_upto(i, horizon, self.len())
    }
}

/// What the bonds to the family among the first `n` points are: each leads
/// to a member of the family and is the bond to it, the neighbours
/// increase, every member among the first `n` points is reached, and the
/// source point itself is not.
proof fn lemma_family_upto(f: Fields, i: int, horizon: nat, n: nat)
    requires
        f.wf(),
        0 <= i < f.len(),
        n <= f.len(),
    ensures
        f.family_upto(i, horizon, n).len() <= n,
        i < n ==> f.family_upto(i, horizon, n).len() < n,
        forall|k: int|
            0 <= k < f.family_upto(i, horizon, n).len() ==> {
                let b = #[trigger] f.family_upto(i, horizon, n)[k];
                &&& b.neighbor < n
                &&& f.in_family(i, b.neighbor as int, horizon)
                &&& b == f.bond(i, b.neighbor as int)
            },
        forall|k: int, l: int|
            0 <= k < l < f.family_upto(i, horizon, n).len() ==> (#[trigger] f.family_upto(
                i,
                horizon,
                n,
            )[k]).neighbor < (#[trigger] f.family_upto(i, horizon, n)[l]).neighbor,
        forall|j: int|
            0 <= j < n && f.in_family(i, j, horizon) ==> f.family_upto(i, horizon, n).contains(
                #[trigger] f.bond(i, j),
            ),
    decreases n,
{
    if n > 0 {
        let m = (n - 1) as nat;
        let rest = f.family_upto(i, horizon, m);
        let s = f.family_upto(i, horizon, n);
        lemma_family_upto(f, i, horizon, m);
        lemma_bond_exact(f, i, m as int);
        if f.in_family(i, m as int, horizon) {
            assert(s == rest.push(f.bond(i, m as int)));
            assert(s[rest.len() as int] == f.bond(i, m as int));
            assert forall|k: int| 0 <= k < rest.len() implies s[k] == rest[k] by {}
            assert forall|j: int| 0 <= j < n && f.in_family(i, j, horizon) implies s.contains(
                #[trigger] f.bond(i, j),
            ) by {
                if j < m {
                    assert(rest.contains(f.bond(i, j)));
                    let k = choose|k: int| 0 <= k < rest.len() && rest[k] == f.bond(i, j);
                    assert(s[k] == f.bond(i, j));
                } else {
                    assert(s[rest.len() as int] == f.bond(i, j));
                }
            }
        } else {
            assert(s == rest);
        }
    }
}

/// What the family of a point is. The bonds are those to the points within
/// the horizon, each once and in the order of the indices; every bond has
/// a positive length; the source point is no member of its own family.
pub proof fn lemma_family_members(f: Fields, i: int, horizon: nat)
    requires
        f.wf(),
        0 <= i < f.len(),
    ensures
        f.family(i, horizon).len() < f.len(),
        forall|k: int|
            0 <= k < f.family(i, horizon).len() ==> {
                let b = #[trigger] f.family(i, horizon)[k];
                &&& b.neighbor < f.len()
                &&& b.neighbor != i
                &&& b.length_sq > 0
                &&& f.in_family(i, b.neighbor as int, horizon)
                &&& b == f.bond(i, b.neighbor as int)
            },
        forall|k: int, l: int|
            0 <= k < l < f.family(i, horizon).len() ==> (#[trigger] f.family(
                i,
                horizon,
            )[k]).neighbor < (#[trigger] f.family(i, horizon)[l]).neighbor,
        forall|j: int|
            0 <= j < f.len() ==> (f.in_family(i, j, horizon) <==> f.family(i, horizon).contains(
                #[trigger] f.bond(i, j),
            )),
{
    let s = f.family(i, horizon);
    lemma_family_upto(f, i, horizon, f.len());
    assert forall|k: int| 0 <= k < s.len() implies {
        let b = #[trigger] s[k];
        &&& b.neighbor != i
        &&& b.length_sq > 0
    } by {
        lemma_bond_exact(f, i, s[k].neighbor as int);
    }
    assert forall|j: int| 0 <= j < f.len() && s.contains(#[trigger] f.bond(i, j)) implies f.in_family(
        i,
        j,
        horizon,
    ) by {
        let k = choose|k: int| 0 <= k < s.len() && s[k] == f.bond(i, j);
        lemma_bond_exact(f, i, j);
        assert(s[k].neighbor == j);
    }
}

impl FieldStore {
    /// The bonds from `i` to the members of its family, by index. Every
    /// bond leads to another point of the store and has a positive length.
    pub fn family(&self, i: usize, horizon: Horizon) -> (bonds: Vec<Bond>)
        requires
            self.wf(),
            i < self@.len(),
        ensures
            bonds@ == self@.family(i as int, horizon@),
            bonds@.len() < self@.len(),
            forall|k: int|
                0 <= k < bonds@.len() ==> {
                    let b = #[trigger] bonds@[k];
                    &&& b.neighbor < self@.len()
                    &&& b.neighbor != i
                    &&& b.length_sq > 0
                },
    {
        let n: usize = self.len();
        let reach: u128 = self.reach(horizon);
        let lengths: Vec<u128> = self.bond_lengths_sq(i);
        let displacements: Vec<i64> = self.bond_displacements(i);
        let mut bonds: Vec<Bond> = Vec::new();
        let mut j: usize = 0;
        while j < n
            invariant
                self.wf(),
                n == self@.len(),
                i < n,
                reach == self@.reach(horizon@),
                lengths@.len() == n,
                displacements@.len() == n,
                forall|l: int| 0 <= l < n ==> lengths@[l] == self@.bond_length_sq(i as int, l),
                forall|l: int|
                    0 <= l < n ==> displacements@[l] == self@.bond_displacement(i as int, l),
                j <= n,
                bonds@ == self@.family_upto(i as int, horizon@, j as nat),
            decreases n - j,
        {
            proof {
                lemma_bond_exact(self@, i as int, j as int);
            }
            if j != i {
                if weight(lengths[j], reach) {
                    bonds.push(
                        Bond { neighbor: j, length_sq: lengths[j], displacement: displacements[j] },
                    );
                }
            }
            j = j + 1;
        }
        proof {
            lemma_family_members(self@, i as int, horizon@);
        }
        bonds
    }

    /// The volume of the family of `i`.
    pub fn family_volume(&self, i: usize, horizon: Horizon) -> (total: u128)
        requires
            self.wf(),
            i < self@.len(),
        ensures
            total == self@.family_volume(i as int, horizon@),
    {
        let n: usize = self.len();
        let omega: Vec<bool> = self.weights(i, horizon);
        let mut total: u128 = 0;
        let mut j: usize = 0;
        while j < n
            invariant
                self.wf(),
                n == self@.len(),
                i < n,
                omega@.len() == n,
                forall|l: int| 0 <= l < n ==> omega@[l] == self@.in_family(i as int, l, horizon@),
                j <= n,
                total == self@.family_volume_upto(i as int, horizon@, j as nat),
                total <= j * 0xffff_ffff_ffff_ffff,
            decreases n - j,
        {
            if j != i {
                if omega[j] {
                    total = total + self.volume(j) as u128;
                }
            }
            j = j + 1;
        }
        total
    }

    /// The family of every point: entry `i` holds the bonds from `i` to the
    /// members of its family.
    pub fn families(&self, horizon: Horizon) -> (all: Vec<Vec<Bond>>)
        requires
            self.wf(),
        ensures
            all@.len() == self@.len(),
            forall|i: int| 0 <= i < all@.len() ==> (#[trigger] all@[i])@ == self@.family(i, horizon@),
    {
        let n: usize = self.len();
        let mut all: Vec<Vec<Bond>> = Vec::with_capacity(n);
        let mut i: usize = 0;
        while i < n
            invariant
                self.wf(),
                n == self@.len(),
                i <= n,
                all@.len() == i,
                forall|l: int| 0 <= l < i ==> (#[trigger] all@[l])@ == self@.family(l, horizon@),
            decreases n - i,
        {
            let bonds: Vec<Bond> = self.family(i, horizon);
            all.push(bonds);
            i = i + 1;
        }
        all
    }
}

} // verus!
