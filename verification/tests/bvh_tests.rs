use ray_tracer::aabb::{Point, AABB, COORD_LIMIT};
use ray_tracer::bvh::{BVHNode, BVH};

fn cube(x: i64, y: i64, z: i64, side: i64) -> AABB {
    AABB::new(Point::new(x, y, z), Point::new(x + side, y + side, z + side))
}

fn leaves(node: &BVHNode, out: &mut Vec<(usize, AABB)>) {
    match node.object {
        Some(id) => out.push((id, node.aabb)),
        None => {
            leaves(node.left.as_ref().unwrap(), out);
            leaves(node.right.as_ref().unwrap(), out);
        }
    }
}

fn height(node: &BVHNode) -> usize {
    match node.object {
        Some(_) => 1,
        None => {
            let l = height(node.left.as_ref().unwrap());
            let r = height(node.right.as_ref().unwrap());
            1 + l.max(r)
        }
    }
}

fn encloses(outer: &AABB, inner: &AABB) -> bool {
    outer.min.x <= inner.min.x
        && inner.max.x <= outer.max.x
        && outer.min.y <= inner.min.y
        && inner.max.y <= outer.max.y
        && outer.min.z <= inner.min.z
        && inner.max.z <= outer.max.z
}

fn key(b: &AABB, axis: usize) -> i64 {
    b.center_times_two().element(axis)
}

fn check_node(node: &BVHNode) {
    match node.object {
        Some(_) => {
            assert!(node.left.is_none());
            assert!(node.right.is_none());
        }
        None => {
            let l = node.left.as_ref().unwrap();
            let r = node.right.as_ref().unwrap();
            assert!(encloses(&node.aabb, &l.aabb));
            assert!(encloses(&node.aabb, &r.aabb));
            let mut ll = Vec::new();
            let mut rl = Vec::new();
            leaves(l, &mut ll);
            leaves(r, &mut rl);
            assert!(ll.len() <= rl.len() && rl.len() <= ll.len() + 1);
            let split = (0..3).any(|axis| {
                ll.iter().all(|(_, a)| rl.iter().all(|(_, b)| key(a, axis) <= key(b, axis)))
            });
            assert!(split);
            check_node(l);
            check_node(r);
        }
    }
}

fn scattered_boxes(n: usize) -> Vec<AABB> {
    let mut v = Vec::new();
    let mut s: i64 = 7;
    for _ in 0..n {
        s = (s * 1103515245 + 12345) % 2147483648;
        let x = s % 1000 - 500;
        s = (s * 1103515245 + 12345) % 2147483648;
        let y = s % 300 - 150;
        s = (s * 1103515245 + 12345) % 2147483648;
        let z = s % 50;
        v.push(cube(x, y, z, 1 + (s % 7)));
    }
    v
}

#[test]
fn test_no_objects_give_no_hierarchy() {
    assert!(BVHNode::from_objects(Vec::new()).is_none());
    assert!(BVH::from_objects(Vec::new()).is_none());
}

#[test]
fn test_single_object_is_a_leaf() {
    let b = cube(1, 2, 3, 4);
    let node = BVHNode::from_objects(vec![b]).unwrap();
    assert_eq!(node.object, Some(0));
    assert_eq!(node.aabb, b);
    assert!(node.left.is_none() && node.right.is_none());
    let bvh = BVH::from_objects(vec![b]).unwrap();
    assert_eq!(bvh.aabb(), b);
}

#[test]
fn test_median_split_along_x() {
    // ids 0, 1, 2 sit at x = 20, 0, 10
    let objects = vec![cube(20, 0, 0, 1), cube(0, 0, 0, 1), cube(10, 0, 0, 1)];
    let root = BVHNode::from_objects(objects).unwrap();
    assert_eq!(root.object, None);
    assert_eq!(root.aabb, AABB::new(Point::new(0, 0, 0), Point::new(21, 1, 1)));
    let left = root.left.as_ref().unwrap();
    assert_eq!(left.object, Some(1));
    let right = root.right.as_ref().unwrap();
    assert_eq!(right.object, None);
    assert_eq!(right.aabb, AABB::new(Point::new(10, 0, 0), Point::new(21, 1, 1)));
    assert_eq!(right.left.as_ref().unwrap().object, Some(2));
    assert_eq!(right.right.as_ref().unwrap().object, Some(0));
}

#[test]
fn test_split_along_longest_axis_y() {
    let objects = vec![cube(0, 30, 0, 1), cube(5, 0, 0, 1), cube(2, 60, 0, 1), cube(1, 10, 0, 1)];
    let root = BVHNode::from_objects(objects).unwrap();
    let mut ll = Vec::new();
    let mut rl = Vec::new();
    leaves(root.left.as_ref().unwrap(), &mut ll);
    leaves(root.right.as_ref().unwrap(), &mut rl);
    let left_ids: Vec<usize> = ll.iter().map(|p| p.0).collect();
    let right_ids: Vec<usize> = rl.iter().map(|p| p.0).collect();
    assert_eq!(left_ids, vec![1, 3]);
    assert_eq!(right_ids, vec![0, 2]);
}

#[test]
fn test_equal_centres_keep_their_order() {
    let b = cube(3, 3, 3, 2);
    let root = BVHNode::from_objects(vec![b, b, b, b]).unwrap();
    let mut all = Vec::new();
    leaves(&root, &mut all);
    let ids: Vec<usize> = all.iter().map(|p| p.0).collect();
    assert_eq!(ids, vec![0, 1, 2, 3]);
    assert_eq!(root.aabb, b);
}

#[test]
fn test_every_object_in_exactly_one_leaf() {
    let objects = scattered_boxes(37);
    let root = BVHNode::from_objects(objects.clone()).unwrap();
    let mut all = Vec::new();
    leaves(&root, &mut all);
    assert_eq!(all.len(), objects.len());
    let mut ids: Vec<usize> = all.iter().map(|p| p.0).collect();
    ids.sort();
    assert_eq!(ids, (0..objects.len()).collect::<Vec<usize>>());
    for (id, b) in &all {
        assert_eq!(*b, objects[*id]);
        assert!(encloses(&root.aabb, b));
    }
}

#[test]
fn test_hierarchy_is_well_formed_and_split_by_centres() {
    let objects = scattered_boxes(50);
    let root = BVHNode::from_objects(objects).unwrap();
    check_node(&root);
}

#[test]
fn test_height_is_logarithmic() {
    for n in 1..70usize {
        let root = BVHNode::from_objects(scattered_boxes(n)).unwrap();
        let mut k = 0;
        while (1usize << k) < n {
            k += 1;
        }
        assert!(height(&root) <= k + 1);
    }
}

#[test]
fn test_extreme_coordinates() {
    let far = AABB::new(Point::new(-COORD_LIMIT, -COORD_LIMIT, -COORD_LIMIT), Point::new(COORD_LIMIT, COORD_LIMIT, COORD_LIMIT));
    let small = cube(0, 0, 0, 1);
    let root = BVHNode::from_objects(vec![far, small, small]).unwrap();
    assert_eq!(root.aabb, far);
    let mut all = Vec::new();
    leaves(&root, &mut all);
    assert_eq!(all.len(), 3);
}
