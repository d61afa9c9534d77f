use light::bvh::{build_bvh, BoundingBox, Point3, Primitive, BVH};

fn prim(object: usize, lo: (i32, i32, i32), hi: (i32, i32, i32)) -> Primitive {
    Primitive {
        object,
        bbox: BoundingBox {
            min: Point3 { x: lo.0, y: lo.1, z: lo.2 },
            max: Point3 { x: hi.0, y: hi.1, z: hi.2 },
        },
    }
}

fn leaves(t: &BVH, out: &mut Vec<Primitive>) {
    match t {
        BVH::Leaf(p) => out.push(*p),
        BVH::Node { left, right, .. } => {
            leaves(left, out);
            leaves(right, out);
        }
    }
}

fn check_bounds(t: &BVH) {
    if let BVH::Node { bbox, left, right } = t {
        let mut under = Vec::new();
        leaves(t, &mut under);
        for p in under {
            assert!(bbox.min.x <= p.bbox.min.x && bbox.min.y <= p.bbox.min.y && bbox.min.z <= p.bbox.min.z);
            assert!(p.bbox.max.x <= bbox.max.x && p.bbox.max.y <= bbox.max.y && p.bbox.max.z <= bbox.max.z);
        }
        check_bounds(left);
        check_bounds(right);
    }
}

fn sample_objects() -> Vec<Primitive> {
    vec![
        prim(0, (0, 0, 0), (2, 2, 2)),
        prim(1, (5, -3, 1), (6, -1, 4)),
        prim(2, (-4, 7, -2), (-1, 9, 0)),
        prim(3, (10, 10, 10), (11, 12, 13)),
        prim(4, (-8, -8, -8), (-7, -7, -7)),
    ]
}

#[test]
fn single_object_is_a_leaf() {
    let t = BVH::build_recursive(vec![prim(7, (1, 2, 3), (4, 5, 6))]);
    assert!(matches!(t, BVH::Leaf(p) if p.object == 7));
}

#[test]
fn build_recursive_keeps_every_object_once() {
    let t = BVH::build_recursive(sample_objects());
    let mut got = Vec::new();
    leaves(&t, &mut got);
    let mut ids: Vec<usize> = got.iter().map(|p| p.object).collect();
    ids.sort();
    assert_eq!(ids, vec![0, 1, 2, 3, 4]);
}

#[test]
fn build_recursive_root_bounds_are_the_union() {
    let t = BVH::build_recursive(sample_objects());
    assert_eq!(t.get_min_bounds(), Point3 { x: -8, y: -8, z: -8 });
    assert_eq!(t.get_max_bounds(), Point3 { x: 11, y: 12, z: 13 });
    check_bounds(&t);
}

#[test]
fn build_recursive_splits_at_the_median() {
    let t = BVH::build_recursive(sample_objects());
    match &t {
        BVH::Node { left, right, .. } => {
            let (mut l, mut r) = (Vec::new(), Vec::new());
            leaves(left, &mut l);
            leaves(right, &mut r);
            assert_eq!(l.len(), 2);
            assert_eq!(r.len(), 3);
        }
        BVH::Leaf(_) => panic!("five objects make an inner node"),
    }
}

#[test]
fn build_bvh_pairs_neighbours_in_order() {
    let items: Vec<BVH> = sample_objects().into_iter().map(BVH::Leaf).collect();
    let t = build_bvh(items);
    let mut got = Vec::new();
    leaves(&t, &mut got);
    let ids: Vec<usize> = got.iter().map(|p| p.object).collect();
    assert_eq!(ids, vec![0, 1, 2, 3, 4]);
    check_bounds(&t);
    match &t {
        BVH::Node { left, right, .. } => {
            let (mut l, mut r) = (Vec::new(), Vec::new());
            leaves(left, &mut l);
            leaves(right, &mut r);
            assert_eq!(l.len(), 4);
            assert_eq!(r.len(), 1);
        }
        BVH::Leaf(_) => panic!("five objects make an inner node"),
    }
}

#[test]
fn build_bvh_of_one_tree_returns_it() {
    let t = build_bvh(vec![BVH::Leaf(prim(3, (0, 0, 0), (1, 1, 1)))]);
    assert!(matches!(t, BVH::Leaf(p) if p.object == 3));
}

#[test]
fn union_takes_componentwise_extremes() {
    let a = BoundingBox { min: Point3 { x: 0, y: 5, z: -1 }, max: Point3 { x: 3, y: 6, z: 0 } };
    let b = BoundingBox { min: Point3 { x: -2, y: 7, z: -3 }, max: Point3 { x: 1, y: 9, z: 4 } };
    let u = a.union(&b);
    assert_eq!(u.min, Point3 { x: -2, y: 5, z: -3 });
    assert_eq!(u.max, Point3 { x: 3, y: 9, z: 4 });
}

fn inside(b: &BoundingBox, p: &Point3) -> bool {
    b.min.x <= p.x && b.min.y <= p.y && b.min.z <= p.z && p.x <= b.max.x && p.y <= b.max.y && p.z <= b.max.z
}

#[test]
fn point_outside_root_is_outside_every_object() {
    let t = BVH::build_recursive(sample_objects());
    let root = BoundingBox { min: t.get_min_bounds(), max: t.get_max_bounds() };
    let mut objects = Vec::new();
    leaves(&t, &mut objects);
    for p in [Point3 { x: 20, y: 0, z: 0 }, Point3 { x: 0, y: -9, z: 0 }, Point3 { x: 0, y: 0, z: 14 }] {
        assert!(!inside(&root, &p));
        assert!(objects.iter().all(|o| !inside(&o.bbox, &p)));
    }
    assert!(inside(&root, &Point3 { x: 1, y: 1, z: 1 }));
}

#[test]
fn many_objects_build_quickly_and_stay_balanced() {
    let objects: Vec<Primitive> = (0..20000)
        .map(|i| {
            let c = ((i * 7919) % 20011) as i32;
            prim(i, (c, -c, c / 2), (c + 1, -c + 1, c / 2 + 1))
        })
        .collect();
    let t = BVH::build_recursive(objects);
    let mut got = Vec::new();
    leaves(&t, &mut got);
    assert_eq!(got.len(), 20000);
    check_bounds(&t);
}

fn height(t: &BVH) -> usize {
    match t {
        BVH::Leaf(_) => 0,
        BVH::Node { left, right, .. } => 1 + height(left).max(height(right)),
    }
}

#[test]
fn build_bvh_returns_a_single_tree_unchanged() {
    let inner = BVH::join(BVH::Leaf(prim(1, (0, 0, 0), (1, 1, 1))), BVH::Leaf(prim(2, (2, 2, 2), (3, 3, 3))));
    let t = build_bvh(vec![inner]);
    match &t {
        BVH::Node { left, right, .. } => {
            assert!(matches!(**left, BVH::Leaf(p) if p.object == 1));
            assert!(matches!(**right, BVH::Leaf(p) if p.object == 2));
        }
        BVH::Leaf(_) => panic!("the single tree is an inner node"),
    }
}

#[test]
fn build_bvh_height_is_ceil_log2() {
    for (n, expected) in [(1usize, 0usize), (2, 1), (3, 2), (4, 2), (5, 3), (8, 3), (9, 4), (1000, 10)] {
        let items: Vec<BVH> = (0..n).map(|i| BVH::Leaf(prim(i, (0, 0, 0), (1, 1, 1)))).collect();
        assert_eq!(height(&build_bvh(items)), expected, "n = {}", n);
    }
}
