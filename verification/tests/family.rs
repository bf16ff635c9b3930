use freemesh::bond::Bond;
use freemesh::grid::{Grid, Horizon};
use freemesh::store::FieldStore;
use rayon::iter::{IntoParallelIterator, ParallelIterator};

/// Ticks in one unit of length.
const TICKS: i64 = 1000;

/// The micromodulus `c = 6K/(π δ³)` with `K = E/(3 − 6ν)`.
fn micromodulus(young: f64, poisson: f64, delta: f64) -> f64 {
    let bulk = young / (3.0 - 6.0 * poisson);
    6.0 * bulk / (std::f64::consts::PI * delta.powf(3.0))
}

/// The energy density of a point from the bonds of its family: the terms
/// `V · ½ · c · s²` with `s = |ξ + η| / |ξ|`, summed in the order of the
/// bonds.
fn energy_density(bonds: &Vec<Bond>, volume: f64, c: f64) -> f64 {
    let mut w = 0.0;
    for b in bonds {
        let xi = (b.length_sq as f64).sqrt();
        let eta = b.displacement as f64;
        let s = (xi + eta).abs() / xi.abs();
        w += volume * 0.5 * c * s.powf(2.0);
    }
    w
}

fn reference_grid() -> Grid {
    Grid::new(0, 10 * TICKS, 0, 10 * TICKS, 80, 80).unwrap()
}

fn neighbors(bonds: &Vec<Bond>) -> Vec<usize> {
    bonds.iter().map(|b| b.neighbor).collect()
}

#[test]
fn trivial_grid_zero_displacement() {
    let g = Grid::new(0, 10 * TICKS, 0, 10 * TICKS, 2, 2).unwrap();
    let s = FieldStore::on_grid(&g, 1, &vec![]);
    let h = Horizon::new(5 * TICKS).unwrap();
    let c = micromodulus(210.0, 0.3, 5.0);
    assert!((c - 6.0 * 175.0 / (std::f64::consts::PI * 125.0)).abs() < 1e-12);
    let all = s.families(h);
    assert_eq!(all.len(), 4);
    assert_eq!(neighbors(&all[0]), vec![1, 2]);
    assert_eq!(neighbors(&all[1]), vec![0, 3]);
    assert_eq!(neighbors(&all[2]), vec![0, 3]);
    assert_eq!(neighbors(&all[3]), vec![1, 2]);
    for i in 0..4usize {
        for b in &all[i] {
            assert_eq!(b.length_sq, 400_000_000);
            assert_eq!(b.displacement, 0);
        }
        assert_eq!(energy_density(&all[i], 1.0, c), c);
    }
}

#[test]
fn single_perturbed_point() {
    let g = reference_grid();
    let zero = FieldStore::on_grid(&g, 1, &vec![]);
    let s = FieldStore::on_grid(&g, 1, &vec![(300, TICKS / 2)]);
    let h = Horizon::new(3 * TICKS).unwrap();
    let c = micromodulus(210.0, 0.3, 3.0);
    let around = s.family(300, h);
    assert!(!around.is_empty());
    // every point within the horizon of point 300 gains energy
    for b in around.iter().step_by(97) {
        let i = b.neighbor;
        let w = energy_density(&s.family(i, h), 1.0, c);
        let w0 = energy_density(&zero.family(i, h), 1.0, c);
        assert!(w0 > 0.0);
        assert!(w > w0);
    }
    for i in [301usize, 299, 380, 220, 1100] {
        assert!(around.iter().any(|b| b.neighbor == i));
        let w = energy_density(&s.family(i, h), 1.0, c);
        let w0 = energy_density(&zero.family(i, h), 1.0, c);
        assert!(w > w0);
    }
    // a point out of its reach keeps the energy of the unstretched bonds
    for i in [6399usize, 6320, 3279, 0] {
        assert!(!around.iter().any(|b| b.neighbor == i));
        let bonds = s.family(i, h);
        assert!(!bonds.is_empty());
        let w = energy_density(&bonds, 1.0, c);
        assert!(w > 0.0);
        assert_eq!(w.to_bits(), energy_density(&zero.family(i, h), 1.0, c).to_bits());
    }
    assert!(energy_density(&around, 1.0, c) > 0.0);
}

#[test]
fn bonds_of_the_perturbed_point_carry_its_displacement() {
    let g = reference_grid();
    let s = FieldStore::on_grid(&g, 1, &vec![(300, TICKS / 2)]);
    let h = Horizon::new(3 * TICKS).unwrap();
    for b in s.family(300, h) {
        assert_eq!(b.displacement, -500 * 6400);
    }
    let to_300: Vec<Bond> = s.family(301, h).into_iter().filter(|b| b.neighbor == 300).collect();
    assert_eq!(to_300, vec![Bond { neighbor: 300, length_sq: 800_000 * 800_000, displacement: 500 * 6400 }]);
    for b in s.family(301, h) {
        if b.neighbor != 300 {
            assert_eq!(b.displacement, 0);
        }
    }
}

#[test]
fn horizon_below_spacing() {
    let g = reference_grid();
    let s = FieldStore::on_grid(&g, 1, &vec![(300, TICKS / 2)]);
    // 0.05 is below the spacing 0.125
    let h = Horizon::new(50).unwrap();
    let c = micromodulus(210.0, 0.3, 0.05);
    let all = s.families(h);
    assert_eq!(all.len(), 6400);
    for bonds in &all {
        assert!(bonds.is_empty());
        assert_eq!(energy_density(bonds, 1.0, c), 0.0);
    }
    assert_eq!(s.family_volume(300, h), 0);
}

#[test]
fn horizon_just_below_and_at_the_spacing() {
    let g = reference_grid();
    let s = FieldStore::on_grid(&g, 1, &vec![]);
    assert!(s.family(300, Horizon::new(124).unwrap()).is_empty());
    assert_eq!(neighbors(&s.family(300, Horizon::new(125).unwrap())), vec![220, 299, 301, 380]);
}

#[test]
fn coincident_points_excluded() {
    // a domain without width: the two columns coincide
    let g = Grid::new(0, 0, 0, 10 * TICKS, 2, 1).unwrap();
    let s = FieldStore::on_grid(&g, 1, &vec![(1, TICKS / 2)]);
    assert_eq!(s.position(0), s.position(1));
    assert_eq!(s.bond_length_sq(0, 1), 0);
    assert_eq!(s.bond_displacement(0, 1), 1000);
    let h = Horizon::new(5 * TICKS).unwrap();
    let c = micromodulus(210.0, 0.3, 5.0);
    assert_eq!(s.weights(0, h), vec![false, false]);
    assert!(s.family(0, h).is_empty());
    assert!(s.family(1, h).is_empty());
    assert_eq!(energy_density(&s.family(0, h), 1.0, c), 0.0);
    assert_eq!(energy_density(&s.family(1, h), 1.0, c), 0.0);
}

#[test]
fn coincident_points_beside_a_neighbor() {
    // two columns that coincide, two rows that do not
    let g = Grid::new(0, 0, 0, 10 * TICKS, 2, 2).unwrap();
    let s = FieldStore::on_grid(&g, 1, &vec![(2, TICKS)]);
    let h = Horizon::new(5 * TICKS).unwrap();
    assert_eq!(neighbors(&s.family(0, h)), vec![1, 3]);
    assert_eq!(neighbors(&s.family(2, h)), vec![1, 3]);
    assert_eq!(s.family_volume(0, h), 2);
}

#[test]
fn output_line_count() {
    let g = reference_grid();
    let s = FieldStore::on_grid(&g, 1, &vec![(300, TICKS / 2)]);
    let h = Horizon::new(125).unwrap();
    let c = micromodulus(210.0, 0.3, 0.125);
    let all = s.families(h);
    assert_eq!(all.len(), 6400);
    let mut lines = 0;
    for (i, bonds) in all.iter().enumerate() {
        let p = s.position(i);
        let x = p.x as f64 / (s.resolution() as f64 * TICKS as f64);
        let y = p.y as f64 / (s.resolution() as f64 * TICKS as f64);
        let line = format!("{}, {}, {}\n", x, y, energy_density(bonds, 1.0, c));
        let fields: Vec<&str> = line.trim_end().split(", ").collect();
        assert_eq!(fields.len(), 3);
        for field in fields {
            assert!(field.parse::<f64>().is_ok());
        }
        lines += 1;
    }
    assert_eq!(lines, 6400);
}

#[test]
fn determinism_of_per_index_result() {
    let g = reference_grid();
    let h = Horizon::new(3 * TICKS).unwrap();
    let c = micromodulus(210.0, 0.3, 3.0);
    let first = FieldStore::on_grid(&g, 1, &vec![(300, TICKS / 2)]);
    let second = FieldStore::on_grid(&g, 1, &vec![(300, TICKS / 2)]);
    let a = first.family(300, h);
    let b = second.family(300, h);
    assert_eq!(a, b);
    assert_eq!(a, first.family(300, h));
    let w = energy_density(&a, 1.0, c);
    assert!(w.is_finite());
    assert_eq!(w.to_bits(), energy_density(&b, 1.0, c).to_bits());
}

#[test]
fn families_have_one_entry_per_point_and_energies_are_not_negative() {
    let g = Grid::new(-2 * TICKS, 3 * TICKS, TICKS, 4 * TICKS, 7, 5).unwrap();
    let s = FieldStore::on_grid(&g, 3, &vec![(4, 200), (17, -900), (30, 2500)]);
    let h = Horizon::new(1500).unwrap();
    let c = micromodulus(210.0, 0.3, 1.5);
    let all = s.families(h);
    assert_eq!(all.len(), s.len());
    assert_eq!(all.len(), 35);
    for (i, bonds) in all.iter().enumerate() {
        assert_eq!(bonds, &s.family(i, h));
        let w = energy_density(bonds, 3.0, c);
        assert!(w.is_finite());
        assert!(w >= 0.0);
        for b in bonds {
            assert!(b.length_sq > 0);
            assert!(b.neighbor < s.len());
            assert!(b.neighbor != i);
        }
    }
}

#[test]
fn family_lists_the_points_within_the_horizon_in_index_order() {
    let g = Grid::new(0, 8 * TICKS, 0, 8 * TICKS, 8, 8).unwrap();
    let s = FieldStore::on_grid(&g, 1, &vec![(10, 300), (27, -40)]);
    let h = Horizon::new(2 * TICKS).unwrap();
    let reach_sq = s.reach(h) * s.reach(h);
    for i in 0..s.len() {
        let mut expected = Vec::new();
        for j in 0..s.len() {
            let d = s.bond_length_sq(i, j);
            if j != i && 0 < d && d <= reach_sq {
                expected.push(Bond {
                    neighbor: j,
                    length_sq: d,
                    displacement: s.displacement(j) - s.displacement(i),
                });
            }
        }
        assert_eq!(s.family(i, h), expected);
    }
    // a point in the middle: the twelve points within two spacings
    assert_eq!(neighbors(&s.family(27, h)), vec![11, 18, 19, 20, 25, 26, 28, 29, 34, 35, 36, 43]);
}

#[test]
fn zero_field_leaves_every_bond_unstretched() {
    let g = Grid::new(0, 10 * TICKS, 0, 10 * TICKS, 9, 6).unwrap();
    let s = FieldStore::on_grid(&g, 1, &vec![]);
    let h = Horizon::new(2500).unwrap();
    let c = micromodulus(210.0, 0.3, 2.5);
    for (i, bonds) in s.families(h).iter().enumerate() {
        let mut expected = 0.0;
        for b in bonds {
            assert_eq!(b.displacement, 0);
            expected += 0.5 * c;
        }
        // no point is at rest under the formula: the stretch of a bond at rest is one
        assert!(!bonds.is_empty());
        assert_eq!(energy_density(bonds, 1.0, c), expected);
        assert!(energy_density(bonds, 1.0, c) > 0.0);
        assert_eq!(s.family_volume(i, h), bonds.len() as u128);
    }
}

#[test]
fn uniform_shift_of_the_field_changes_no_family() {
    let g = Grid::new(0, 10 * TICKS, 0, 10 * TICKS, 6, 5).unwrap();
    let field: Vec<i64> = (0..30).map(|k| (k * k) % 17 - 8).collect();
    let mut plain = Vec::new();
    let mut shifted = Vec::new();
    for (k, u) in field.iter().enumerate() {
        plain.push((k, *u));
        shifted.push((k, *u + 123_456));
    }
    let a = FieldStore::on_grid(&g, 1, &plain);
    let b = FieldStore::on_grid(&g, 1, &shifted);
    let h = Horizon::new(4 * TICKS).unwrap();
    let c = micromodulus(210.0, 0.3, 4.0);
    for i in 0..30usize {
        assert_ne!(a.displacement(i), b.displacement(i));
        assert_eq!(a.family(i, h), b.family(i, h));
        assert_eq!(a.family_volume(i, h), b.family_volume(i, h));
        let w = energy_density(&a.family(i, h), 1.0, c);
        assert_eq!(w.to_bits(), energy_density(&b.family(i, h), 1.0, c).to_bits());
    }
}

#[test]
fn refinement_keeps_the_bonds_of_the_coarse_grid() {
    let coarse = Grid::new(0, 8 * TICKS, 0, 8 * TICKS, 4, 4).unwrap();
    let fine = Grid::new(0, 8 * TICKS, 0, 8 * TICKS, 8, 8).unwrap();
    let a = FieldStore::on_grid(&coarse, 1, &vec![]);
    let b = FieldStore::on_grid(&fine, 1, &vec![]);
    let h = Horizon::new(3 * TICKS).unwrap();
    let c = micromodulus(210.0, 0.3, 3.0);
    for i in 0..4usize {
        for j in 0..4usize {
            let k = coarse.index(i, j);
            let l = fine.index(2 * i, 2 * j);
            let before = a.family(k, h);
            let after = b.family(l, h);
            assert!(after.len() > before.len());
            for bond in &before {
                let twin = fine.index(2 * coarse.column(bond.neighbor), 2 * coarse.row(bond.neighbor));
                assert!(after.iter().any(|t| t.neighbor == twin));
            }
            assert!(energy_density(&after, 1.0, c).is_finite());
            assert!(energy_density(&after, 1.0, c) > energy_density(&before, 1.0, c));
        }
    }
    // an inner point sees 8 of the coarse grid, and 28 of the fine one
    assert_eq!(a.family(coarse.index(2, 2), h).len(), 8);
    assert_eq!(b.family(fine.index(4, 4), h).len(), 28);
}

#[test]
fn corner_point_has_fewer_neighbors_than_an_inner_point() {
    let g = Grid::new(0, 8 * TICKS, 0, 8 * TICKS, 8, 8).unwrap();
    let s = FieldStore::on_grid(&g, 1, &vec![]);
    let h = Horizon::new(2 * TICKS).unwrap();
    let corner = s.family(g.index(0, 0), h);
    let edge = s.family(g.index(0, 4), h);
    let inner = s.family(g.index(4, 4), h);
    assert_eq!(corner.len(), 5);
    assert_eq!(edge.len(), 8);
    assert_eq!(inner.len(), 12);
    for bonds in [&corner, &edge, &inner] {
        for b in bonds.iter() {
            assert!(b.neighbor < s.len());
        }
    }
}

#[test]
fn horizon_over_the_diagonal_reaches_every_point() {
    let g = Grid::new(0, 3 * TICKS, 0, 4 * TICKS, 5, 7).unwrap();
    let s = FieldStore::on_grid(&g, 2, &vec![(3, 10)]);
    // the diagonal of the domain is 5
    for delta in [5 * TICKS, 5 * TICKS + 1, i64::MAX] {
        let h = Horizon::new(delta).unwrap();
        for i in 0..s.len() {
            let bonds = s.family(i, h);
            assert_eq!(bonds.len(), s.len() - 1);
            let mut expected: Vec<usize> = (0..s.len()).collect();
            expected.remove(i);
            assert_eq!(neighbors(&bonds), expected);
            assert_eq!(s.family_volume(i, h), 2 * (s.len() as u128 - 1));
        }
    }
}

#[test]
fn family_volume_adds_the_volumes_of_the_members() {
    let g = Grid::new(0, 10 * TICKS, 0, 10 * TICKS, 2, 2).unwrap();
    let s = FieldStore::on_grid(&g, 7, &vec![]);
    assert_eq!(s.family_volume(0, Horizon::new(5 * TICKS).unwrap()), 14);
    assert_eq!(s.family_volume(0, Horizon::new(8 * TICKS).unwrap()), 21);
    assert_eq!(s.family_volume(0, Horizon::new(4 * TICKS).unwrap()), 0);
    let s = FieldStore::on_grid(&g, u64::MAX, &vec![]);
    assert_eq!(s.family_volume(3, Horizon::new(8 * TICKS).unwrap()), 3 * (u64::MAX as u128));
}

#[test]
fn single_point_has_no_family() {
    let g = Grid::new(0, 10, 0, 10, 1, 1).unwrap();
    let s = FieldStore::on_grid(&g, 1, &vec![(0, 5)]);
    let h = Horizon::new(i64::MAX).unwrap();
    assert!(s.family(0, h).is_empty());
    assert_eq!(s.families(h), vec![Vec::<Bond>::new()]);
    assert_eq!(s.family_volume(0, h), 0);
}

#[test]
fn family_does_not_depend_on_the_volumes() {
    let g = Grid::new(0, 10 * TICKS, 0, 10 * TICKS, 5, 5).unwrap();
    let a = FieldStore::on_grid(&g, 1, &vec![(7, 40)]);
    let b = FieldStore::on_grid(&g, 9, &vec![(7, 40)]);
    let h = Horizon::new(3 * TICKS).unwrap();
    for i in 0..25usize {
        assert_eq!(a.family(i, h), b.family(i, h));
        assert_eq!(9 * a.family_volume(i, h), b.family_volume(i, h));
    }
}

#[test]
fn families_computed_by_worker_threads_are_those_computed_in_turn() {
    let g = Grid::new(0, 10 * TICKS, 0, 10 * TICKS, 20, 20).unwrap();
    let s = FieldStore::on_grid(&g, 1, &vec![(37, TICKS / 2), (210, -TICKS)]);
    let h = Horizon::new(3 * TICKS).unwrap();
    let c = micromodulus(210.0, 0.3, 3.0);
    let in_turn = s.families(h);
    let by_threads: Vec<Vec<Bond>> = (0..s.len()).into_par_iter().map(|i| s.family(i, h)).collect();
    assert_eq!(by_threads, in_turn);
    let energies: Vec<u64> = (0..s.len())
        .into_par_iter()
        .map(|i| energy_density(&s.family(i, h), 1.0, c).to_bits())
        .collect();
    for i in 0..s.len() {
        assert_eq!(energies[i], energy_density(&in_turn[i], 1.0, c).to_bits());
    }
}
