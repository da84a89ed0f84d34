use ecosim::quadtree::QuadTree;
use ecosim::SimError;

const WORLD: i64 = 1_024_000;

fn fresh_tree() -> QuadTree {
    QuadTree::new(WORLD, 16, 6)
}

// A small deterministic generator, so the randomized configurations are
// reproducible.
struct Lcg(u64);

impl Lcg {
    fn next(&mut self) -> u64 {
        self.0 = self.0.wrapping_mul(6364136223846793005).wrapping_add(1442695040888963407);
        self.0 >> 16
    }

    fn coord(&mut self) -> i64 {
        (self.next() % (WORLD as u64)) as i64
    }
}

fn populated_tree(n: u64, seed: u64) -> (QuadTree, Vec<(u64, (i64, i64))>) {
    let mut t = fresh_tree();
    let mut pts = Vec::new();
    let mut rng = Lcg(seed);
    for id in 0..n {
        let p = (rng.coord(), rng.coord());
        assert_eq!(t.insert(id, p), Ok(()));
        pts.push((id, p));
    }
    (t, pts)
}

fn d2(a: (i64, i64), b: (i64, i64)) -> i64 {
    (a.0 - b.0) * (a.0 - b.0) + (a.1 - b.1) * (a.1 - b.1)
}

#[test]
fn full_world_query_returns_every_insertion() {
    let (t, _) = populated_tree(100, 7);
    let found = t.get_children_in_radius((0, 0), 2_000_000_000, Vec::new());
    assert_eq!(found.len(), 100);
    for i in 0..found.len() {
        for j in (i + 1)..found.len() {
            assert_ne!(found[i].0, found[j].0);
        }
    }
}

#[test]
fn no_leaf_overflows_below_max_depth() {
    let (t, _) = populated_tree(300, 99);
    for info in t.get_all() {
        if info.is_leaf && info.level != 6 {
            assert!(info.entry_count <= 16);
        }
    }
}

#[test]
fn radius_query_matches_brute_force() {
    for seed in [1u64, 2, 3, 4, 5] {
        let (t, pts) = populated_tree(200, seed);
        let mut rng = Lcg(seed.wrapping_add(1000));
        for _ in 0..4 {
            let c = (rng.coord(), rng.coord());
            let r = (rng.next() % 400_000) as i64;
            let mut found = t.get_children_in_radius(c, r, Vec::new());
            let mut expected: Vec<u64> = pts
                .iter()
                .filter(|e| d2(e.1, c) <= r * r)
                .map(|e| e.0)
                .collect();
            let mut got: Vec<u64> = found.drain(..).map(|e| e.0).collect();
            expected.sort();
            got.sort();
            assert_eq!(got, expected);
        }
    }
}

#[test]
fn out_of_bounds_insertion_is_surfaced() {
    let mut t = fresh_tree();
    assert_eq!(t.insert(1, (-1, 5)), Err(SimError::SpatialIndexViolation));
    assert_eq!(t.insert(2, (WORLD, 5)), Err(SimError::SpatialIndexViolation));
    assert_eq!(t.insert(3, (5, 5)), Ok(()));
}

#[test]
fn containment_is_half_open() {
    let t = fresh_tree();
    assert!(t.contains((0, 0)));
    assert!(t.contains((WORLD - 1, WORLD - 1)));
    assert!(!t.contains((WORLD, 0)));
    assert!(!t.contains((0, -1)));
}

#[test]
fn subdivision_creates_four_quarters() {
    let mut t = fresh_tree();
    t.subdivide();
    let nodes = t.get_all();
    assert_eq!(nodes.len(), 5);
    assert!(!nodes[0].is_leaf);
    for i in 1..5 {
        assert!(nodes[i].is_leaf);
        assert_eq!(nodes[i].level, 1);
        assert_eq!(nodes[i].size, WORLD / 2);
        assert_eq!(nodes[i].index, i - 1);
    }
    assert_eq!(nodes[1].position, (0, 0));
    assert_eq!(nodes[2].position, (WORLD / 2, 0));
    assert_eq!(nodes[3].position, (WORLD / 2, WORLD / 2));
    assert_eq!(nodes[4].position, (0, WORLD / 2));
}

#[test]
fn leaf_lookup_descends_to_the_containing_quarter() {
    let mut t = fresh_tree();
    t.subdivide();
    let q = t.find_quad_containing_point((10, 10)).unwrap();
    assert!(q.is_leaf);
    assert_eq!(q.level, 1);
    assert_eq!(q.position, (0, 0));
    let q2 = t
        .find_quad_containing_point((WORLD / 2 + 5, WORLD / 2 + 5))
        .unwrap();
    assert_eq!(q2.position, (WORLD / 2, WORLD / 2));
    assert!(t.find_quad_containing_point((-3, 0)).is_none());
}

#[test]
fn address_lookup_and_malformed_addresses() {
    let mut t = fresh_tree();
    t.subdivide();
    let root = t.get_child_at(&vec![]).unwrap();
    assert_eq!(root.level, 0);
    let child = t.get_child_at(&vec![2]).unwrap();
    assert_eq!(child.level, 1);
    assert_eq!(child.index, 2);
    assert_eq!(child.address, vec![2]);
    assert_eq!(
        t.get_child_at(&vec![9]).err(),
        Some(SimError::SpatialIndexViolation)
    );
    assert_eq!(
        t.get_child_at(&vec![0, 0]).err(),
        Some(SimError::SpatialIndexViolation)
    );
}

#[test]
fn equal_positions_overflow_only_the_deepest_leaves() {
    let mut t = fresh_tree();
    for id in 0..25u64 {
        assert_eq!(t.insert(id, (123_456, 654_321)), Ok(()));
    }
    let found = t.get_children_in_radius((123_456, 654_321), 0, Vec::new());
    assert_eq!(found.len(), 25);
    for info in t.get_all() {
        if info.is_leaf && info.level != 6 {
            assert!(info.entry_count <= 16);
        }
    }
}

#[test]
fn gather_children_matches_get_all() {
    let (t, _) = populated_tree(50, 11);
    let a = t.get_all();
    let b = QuadTree::gather_children(&t, Vec::new());
    assert_eq!(a, b);
}
