use std::collections::HashMap;

use planar_convex_hull::{ConvexHull, Entry, PointValue, hull_ids, hull_ids_parallel, reinterpret,
    reinterpret_ref};

/// Builds a point value from floating coordinates, scaled by 4 so that every
/// quarter-integer coordinate is exact; non-finite coordinates give the
/// non-real placeholder.
fn p(x: f64, y: f64) -> PointValue {
    if x.is_finite() && y.is_finite() {
        PointValue::real_point((x * 4.0) as i64, (y * 4.0) as i64)
    } else {
        PointValue::non_real()
    }
}

fn pts(coords: &[[f64; 2]]) -> Vec<PointValue> {
    coords.iter().map(|c| p(c[0], c[1])).collect()
}

fn hull_of(coords: &[[f64; 2]]) -> Vec<usize> {
    reinterpret(pts(coords).convex_hull())
}

#[test]
fn test_zero_points() {
    let slice: &[[f64; 2]] = &[];
    let hull = hull_of(slice);
    assert_eq!(hull, vec![]);
}

#[test]
fn test_one_point() {
    let hull = hull_of(&[[-3.0, -1.0]]);
    assert_eq!(hull, vec![0]);
}

#[test]
fn test_two_points() {
    {
        let hull = hull_of(&[[-3.0, -1.0], [-2.0, 2.0]]);
        assert_eq!(hull, vec![1, 0]);
    }
    {
        let hull = hull_of(&[[-3.0, -1.0], [-3.0, 2.0]]);
        assert_eq!(hull, vec![1, 0]);
    }
}

#[test]
fn test_three_points() {
    {
        let hull = hull_of(&[[-3.0, -1.0], [-2.0, 2.0], [5.0, -1.0]]);
        assert_eq!(hull, vec![2, 1, 0]);
    }
    {
        let hull = hull_of(&[[-3.0, -1.0], [-2.0, 2.0], [5.0, -2.0]]);
        assert_eq!(hull, vec![2, 1, 0]);
    }
    {
        let hull = hull_of(&[[-3.0, -1.0], [-2.0, 2.0], [-2.5, 0.0]]);
        assert_eq!(hull, vec![1, 0, 2]);
    }
    {
        let hull = hull_of(&[[0.0, 1.0], [0.0, 2.0], [0.0, -1.0]]);
        assert_eq!(hull, vec![1, 0, 2, 0]);
    }
    {
        let hull = hull_of(&[[0.0, 1.0], [0.0, 2.0], [0.5, -1.0]]);
        assert_eq!(hull, vec![2, 1, 0]);
    }
}

#[test]
fn test_four_points() {
    {
        let hull = hull_of(&[[1.0, 1.0], [0.0, 2.0], [-1.0, 3.0], [0.0, 0.0]]);
        assert_eq!(hull, vec![0, 1, 2, 3]);
    }
    {
        let hull = hull_of(&[[0.0, 1.0], [0.0, 2.0], [0.0, 0.0], [1.0, 1.0]]);
        assert_eq!(hull, vec![3, 1, 0, 2]);
    }
    {
        let hull = hull_of(&[[-3.0, -1.0], [0.0, 2.0], [0.0, 0.0], [5.0, -1.0]]);
        assert_eq!(hull, vec![3, 1, 0]);
    }
    {
        let hull = hull_of(&[[1.0, 0.0], [0.0, 1.0], [4.0, 3.0], [3.0, 4.0]]);
        assert_eq!(hull, vec![2, 3, 1, 0]);
    }
    {
        let hull = hull_of(&[[0.0, 0.0], [1.0, 1.0], [0.0, 2.0], [-1.0, 1.0]]);
        assert_eq!(hull, vec![1, 2, 3, 0]);
    }
    {
        let hull = hull_of(&[[0.0, -4.0], [1.0, -3.0], [0.0, -3.0], [-1.0, -3.0]]);
        assert_eq!(hull, vec![1, 2, 3, 0]);
    }
    {
        let hull = hull_of(&[[0.0, 0.0], [1.0, 1.0], [0.0, 1.0], [-1.0, 1.0]]);
        assert_eq!(hull, vec![1, 2, 3, 0]);
    }
    {
        let hull = hull_of(&[[0.0, 0.0], [-1.0, 3.0], [-4.0, 2.0], [-5.0, 4.0]]);
        assert_eq!(hull, vec![0, 1, 3, 2]);
    }
    {
        let hull = hull_of(&[[0.0, 0.0], [0.0, 1.0], [0.0, -1.0], [0.0, -2.0]]);
        assert_eq!(hull, vec![1, 0, 2, 3, 2, 0]);
    }
    {
        let hull = hull_of(&[[0.0, 0.0], [1.0, 0.0], [0.0, 1.0], [1.0, 1.0]]);
        assert_eq!(hull, vec![3, 2, 0, 1]);
    }
}

#[test]
fn test_five_points() {
    {
        let hull = hull_of(&[[1.0, 0.0], [0.0, 1.0], [4.0, 3.0], [3.0, 4.0], [-1.0, 5.0]]);
        assert_eq!(hull, vec![2, 3, 4, 1, 0]);
    }
    {
        let hull = hull_of(&[[1.0, 0.0], [0.0, 1.0], [4.0, 3.0], [3.0, 4.0], [2.0, 2.0]]);
        assert_eq!(hull, vec![2, 3, 1, 0]);
    }
    {
        let hull = hull_of(&[[1.0, 0.0], [0.0, 1.0], [4.0, 3.0], [3.0, 4.0], [-1.0, 1.0]]);
        assert_eq!(hull, vec![2, 3, 4, 0]);
    }
}

#[test]
fn test_eight_points() {
    {
        let hull = hull_of(&[
            [-3.0, -1.0],
            [-2.0, 2.0],
            [0.0, 0.0],
            [1.0, 3.0],
            [5.0, -1.0],
            [6.0, 2.0],
            [7.0, -4.0],
            [8.0, -1.0],
        ]);
        assert_eq!(hull, vec![7, 5, 3, 1, 0, 6]);
    }
    {
        let hull = hull_of(&[
            [6.0, 2.0],
            [7.0, -4.0],
            [8.0, -1.0],
            [-3.0, -1.0],
            [-2.0, 2.0],
            [0.0, 0.0],
            [1.0, 3.0],
            [5.0, -1.0],
        ]);
        assert_eq!(hull, vec![2, 0, 6, 4, 3, 1]);
    }
}

#[test]
fn test_twelve_points() {
    let hull = hull_of(&[
        [0.5, 0.5],
        [0.5, -0.5],
        [-0.5, -0.5],
        [-0.5, 0.5],
        [-1.5, 0.5],
        [-1.5, -0.5],
        [0.5, 1.5],
        [-0.5, 1.5],
        [1.5, 0.5],
        [1.5, -0.5],
        [0.5, -1.5],
        [-0.5, -1.5],
    ]);
    assert_eq!(hull, vec![8, 6, 7, 4, 5, 11, 10, 9]);
}

#[derive(Clone)]
struct PointWrapper([f64; 2]);

impl From<PointWrapper> for PointValue {
    fn from(value: PointWrapper) -> Self {
        p(value.0[0], value.0[1])
    }
}

#[test]
fn test_newtype() {
    let vec = vec![
        PointWrapper([0.0, 0.0]),
        PointWrapper([1.0, 0.0]),
        PointWrapper([0.0, 1.0]),
        PointWrapper([1.0, 1.0]),
    ];
    let points: Vec<PointValue> = vec.into_iter().map(PointValue::from).collect();
    let hull = reinterpret(points.convex_hull());
    assert_eq!(hull, vec![3, 2, 0, 1]);
}

#[test]
fn test_vec() {
    let vec: Vec<PointValue> = vec![
        p(0.0, 0.0),
        p(1.0, 0.0),
        p(0.0, 1.0),
        p(1.0, 1.0),
    ];
    let hull = reinterpret(vec.convex_hull());
    assert_eq!(hull, vec![3, 2, 0, 1]);
}

#[test]
fn test_slab() {
    let mut slab: slab::Slab<[f64; 2]> = slab::Slab::new();
    slab.insert([0.0, 0.0]);
    slab.insert([1.0, 0.0]);
    slab.insert([0.0, 1.0]);
    slab.insert([1.0, 1.0]);
    let entries: Vec<Entry> = slab.iter().map(|(k, v)| (k, p(v[0], v[1]))).collect();
    let hull = hull_ids(&entries);
    assert_eq!(hull, vec![3, 2, 0, 1]);
}

#[test]
fn test_hashmap() {
    {
        let mut hashmap = HashMap::new();
        hashmap.insert(10, [0.0, 0.0]);
        let entries: Vec<Entry> = hashmap.iter().map(|(k, v)| (*k, p(v[0], v[1]))).collect();
        assert_eq!(hull_ids(&entries), vec![10]);
    }
    {
        let mut hashmap = HashMap::new();
        hashmap.insert(10, [0.0, 0.0]);
        hashmap.insert(5, [0.0, 1.0]);
        let entries: Vec<Entry> = hashmap.iter().map(|(k, v)| (*k, p(v[0], v[1]))).collect();
        assert_eq!(hull_ids(&entries), vec![5, 10]);
    }
    {
        let mut hashmap = HashMap::new();
        hashmap.insert(0, [0.0, 0.0]);
        hashmap.insert(1, [1.0, 0.0]);
        hashmap.insert(2, [0.0, 1.0]);
        hashmap.insert(3, [1.0, 1.0]);
        let entries: Vec<Entry> = hashmap.iter().map(|(k, v)| (*k, p(v[0], v[1]))).collect();
        assert_eq!(hull_ids(&entries), vec![3, 2, 0, 1]);
    }
    {
        let mut hashmap = ahash::AHashMap::new();
        hashmap.insert(0, [0.0, 0.0]);
        hashmap.insert(1, [1.0, 0.0]);
        hashmap.insert(2, [0.0, 1.0]);
        hashmap.insert(3, [1.0, 1.0]);
        let entries: Vec<Entry> = hashmap.iter().map(|(k, v)| (*k, p(v[0], v[1]))).collect();
        assert_eq!(hull_ids(&entries), vec![3, 2, 0, 1]);
    }
    {
        let mut hashmap = HashMap::new();
        hashmap.insert(1, [0.0, 0.0]);
        hashmap.insert(2, [1.0, 0.0]);
        hashmap.insert(3, [0.0, 1.0]);
        hashmap.insert(4, [1.0, 1.0]);
        let entries: Vec<Entry> = hashmap.iter().map(|(k, v)| (*k, p(v[0], v[1]))).collect();
        assert_eq!(hull_ids(&entries), vec![4, 3, 1, 2]);
    }
    {
        let mut hashmap = HashMap::new();
        hashmap.insert(10, [0.0, 0.0]);
        hashmap.insert(20, [1.0, 0.0]);
        hashmap.insert(30, [0.0, 1.0]);
        hashmap.insert(40, [1.0, 1.0]);
        let entries: Vec<Entry> = hashmap.iter().map(|(k, v)| (*k, p(v[0], v[1]))).collect();
        assert_eq!(hull_ids(&entries), vec![40, 30, 10, 20]);
    }
}

#[test]
fn test_nonreal_points() {
    let last_points = [
        [f64::INFINITY, -1.0],
        [0.0, f64::INFINITY],
        [f64::NAN, -1.0],
        [0.0, f64::NAN],
        [f64::INFINITY, f64::NAN],
        [f64::NAN, f64::INFINITY],
        [f64::INFINITY, f64::NEG_INFINITY],
        [f64::NAN, f64::NEG_INFINITY],
    ];

    for last_point in last_points {
        let hull = hull_of(&[[-3.0, -1.0], [-2.0, 2.0], [5.0, -1.0], last_point]);
        assert_eq!(hull, vec![2, 1, 0]);
    }
}

#[test]
fn test_rhombus() {
    // Rhombus with two points in its middle.
    let points = pts(&[
        [10.0, 4.0],
        [-10.0, 4.0],
        [0.0, 6.0],
        [0.0, 2.0],
        [4.0, 4.0],
        [-4.0, 4.0],
    ]);
    let hull_i = points.convex_hull();
    let got: Vec<PointValue> = hull_i.iter().map(|i| points.convex_hull_get(*i)).collect();
    let want = pts(&[[10.0, 4.0], [0.0, 6.0], [-10.0, 4.0], [0.0, 2.0]]);
    assert_eq!(got, want);
    assert_eq!(reinterpret_ref(hull_i.as_slice()), vec![0, 2, 1, 3]);
}

#[test]
fn test_collinear_run() {
    // All points on one horizontal line: the boundary goes there and back.
    let hull = hull_of(&[[10.0, -2.0], [-10.0, -2.0], [0.0, -2.0], [3.0, -2.0]]);
    assert_eq!(hull, vec![0, 3, 2, 1, 2, 3]);
}

#[test]
fn test_point_on_edge_kept() {
    let hull = hull_of(&[[1.0, 0.0], [0.0, 1.0], [0.0, 0.0], [0.5, 0.5]]);
    assert_eq!(hull, vec![0, 3, 1, 2]);
}

#[test]
fn test_interior_point_discarded() {
    let hull = hull_of(&[[1.0, 0.0], [0.0, 1.0], [0.0, 0.0], [0.25, 0.25]]);
    assert_eq!(hull, vec![0, 1, 2]);
}

#[test]
fn test_eviction_walk() {
    // Point 2 first joins the first quadrant's chain, then point 3 dominates
    // it and evicts it again.
    let hull = hull_of(&[[10.0, 0.0], [0.0, 10.0], [6.0, 8.0], [9.0, 9.0]]);
    assert_eq!(hull, vec![0, 3, 1]);
}

#[test]
fn test_singleton_among_nonreal() {
    // Exactly one real point among non-real ones: its identifier alone.
    let entries: Vec<Entry> = vec![
        (7, PointValue::non_real()),
        (4, PointValue::real_point(-3, -1)),
        (9, PointValue::non_real()),
    ];
    assert_eq!(hull_ids(&entries), vec![4]);
}

#[test]
fn test_parallel_matches_sequential() {
    let coords: &[[f64; 2]] = &[
        [-3.0, -1.0],
        [-2.0, 2.0],
        [0.0, 0.0],
        [1.0, 3.0],
        [5.0, -1.0],
        [6.0, 2.0],
        [7.0, -4.0],
        [8.0, -1.0],
    ];
    let entries: Vec<Entry> = pts(coords).into_iter().enumerate().collect();
    assert_eq!(hull_ids_parallel(&entries), hull_ids(&entries));
    assert_eq!(hull_ids_parallel(&entries), vec![7, 5, 3, 1, 0, 6]);
}

fn cross_i64(a: (i64, i64), b: (i64, i64), c: (i64, i64)) -> i64 {
    (b.0 - a.0) * (c.1 - a.1) - (b.1 - a.1) * (c.0 - a.0)
}

fn coords_of(v: &PointValue) -> (i64, i64) {
    match v {
        PointValue::Real(pt) => (pt.x, pt.y),
        PointValue::NonReal => panic!("hull returned a non-real point"),
    }
}

#[test]
fn test_output_counter_clockwise() {
    // Every consecutive triple of the boundary, wrap-around included, turns
    // counter-clockwise or runs straight.
    let points = pts(&[
        [0.5, 0.5],
        [0.5, -0.5],
        [-0.5, -0.5],
        [-0.5, 0.5],
        [-1.5, 0.5],
        [-1.5, -0.5],
        [0.5, 1.5],
        [-0.5, 1.5],
        [1.5, 0.5],
        [1.5, -0.5],
        [0.5, -1.5],
        [-0.5, -1.5],
    ]);
    let hull = points.convex_hull();
    let vs: Vec<(i64, i64)> = hull.iter().map(|i| coords_of(&points.convex_hull_get(*i))).collect();
    let n = vs.len();
    assert!(n >= 3);
    for i in 0..n {
        let a = vs[i];
        let b = vs[(i + 1) % n];
        let c = vs[(i + 2) % n];
        assert!(cross_i64(a, b, c) >= 0);
    }
}

#[test]
fn test_all_points_inside_hull() {
    // Every input point lies inside or on the polygon formed by the output:
    // for a counter-clockwise convex boundary, on or left of every edge.
    let coords: &[[f64; 2]] = &[
        [1.0, 0.0],
        [0.0, 1.0],
        [4.0, 3.0],
        [3.0, 4.0],
        [2.0, 2.0],
        [-1.0, 5.0],
        [1.0, 1.0],
    ];
    let points = pts(coords);
    let hull = points.convex_hull();
    let vs: Vec<(i64, i64)> = hull.iter().map(|i| coords_of(&points.convex_hull_get(*i))).collect();
    let n = vs.len();
    assert!(n >= 3);
    for q in points.iter() {
        let qc = coords_of(q);
        for i in 0..n {
            assert!(cross_i64(vs[i], vs[(i + 1) % n], qc) >= 0);
        }
    }
}

#[test]
fn test_recompute_on_hull_is_same_set() {
    // Restricting the source to exactly the output identifiers and
    // recomputing yields the same set of identifiers.
    let coords: &[[f64; 2]] = &[
        [-3.0, -1.0],
        [-2.0, 2.0],
        [0.0, 0.0],
        [1.0, 3.0],
        [5.0, -1.0],
        [6.0, 2.0],
        [7.0, -4.0],
        [8.0, -1.0],
    ];
    let entries: Vec<Entry> = pts(coords).into_iter().enumerate().collect();
    let hull = hull_ids(&entries);
    let restricted: Vec<Entry> =
        entries.iter().filter(|e| hull.contains(&e.0)).cloned().collect();
    let hull2 = hull_ids(&restricted);
    let mut set1: Vec<usize> = hull.clone();
    set1.sort();
    set1.dedup();
    let mut set2: Vec<usize> = hull2.clone();
    set2.sort();
    set2.dedup();
    assert_eq!(set1, set2);
}

#[test]
fn test_extreme_coordinates() {
    // A diamond whose vertices sit at the largest accepted coordinate
    // magnitude, with one off-center interior point whose orientation tests
    // reach the extreme cross-product values.
    let b = planar_convex_hull::COORD_BOUND;
    let points = vec![
        PointValue::real_point(b, 0),
        PointValue::real_point(0, b),
        PointValue::real_point(-b, 0),
        PointValue::real_point(0, -b),
        PointValue::real_point(1, 1),
    ];
    let hull = reinterpret(points.convex_hull());
    assert_eq!(hull, vec![0, 1, 2, 3]);
}

#[test]
fn test_parallel_degenerate_inputs() {
    let none: Vec<Entry> = vec![];
    assert_eq!(hull_ids_parallel(&none), vec![]);
    let one: Vec<Entry> = vec![(3, PointValue::real_point(-12, -4))];
    assert_eq!(hull_ids_parallel(&one), vec![3]);
}

#[test]
fn test_usize_from_index() {
    let points = pts(&[[0.0, 0.0]]);
    let hull = points.convex_hull();
    assert_eq!(hull.len(), 1);
    assert_eq!(usize::from(hull[0]), 0);
}
