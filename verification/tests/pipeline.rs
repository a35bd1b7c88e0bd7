use octree_builder::LEAF_THRESHOLD;
use octree_builder::bbox::BoundingBox;
use octree_builder::bbox::get_child_index;
use octree_builder::point::code_of_word;
use octree_builder::point::Point;
use octree_builder::point::Position;
use octree_builder::split::partition_by_threshold;
use octree_builder::split::split;
use octree_builder::subsample::decimate;
use octree_builder::subsample::subsample_children;
use octree_builder::subsample::subsample_plan;

fn pt(x: f32, y: f32, z: f32) -> Point {
    Point {
        position: Position {
            x: code_of_word(x.to_bits()),
            y: code_of_word(y.to_bits()),
            z: code_of_word(z.to_bits()),
        },
        r: 10,
        g: 20,
        b: 30,
    }
}

fn scan(points: &[Point]) -> BoundingBox {
    let mut b = BoundingBox::new();
    for p in points {
        b.update(&p.position);
    }
    b.make_cubic();
    b
}

#[test]
fn single_point() {
    let points = vec![pt(1.0, 2.0, 3.0)];
    let b = scan(&points);
    // A one-point cloud has a degenerate cubic box: min == max == the point.
    assert_eq!(b.min.x, points[0].position.x as i64);
    assert_eq!(b.min, b.max);
    let (descriptors, buckets) = split("r", &b, &points, None);
    assert_eq!(descriptors.len(), 1);
    assert_eq!(descriptors[0].name, "r0");
    assert_eq!(descriptors[0].num_points, 1);
    // Subsampling the single leaf moves the point up into the root and
    // leaves the child empty, so only the root file survives.
    let rounds = subsample_plan(vec!["r0".to_string()]);
    assert_eq!(rounds.len(), 1);
    assert_eq!(rounds[0], vec!["r".to_string()]);
    let mut children: Vec<Option<Vec<Point>>> = vec![None; 8];
    children[0] = Some(buckets[0].clone());
    let (parent, new_children) = subsample_children(children);
    assert_eq!(parent, points);
    assert_eq!(new_children[0].as_ref().unwrap().len(), 0);
}

#[test]
fn two_octants_below_threshold() {
    let mut points = Vec::new();
    for _ in 0..500 {
        points.push(pt(1.0, 1.0, 1.0));
        points.push(pt(9.0, 9.0, 9.0));
    }
    let b = scan(&points);
    let (descriptors, buckets) = split("r", &b, &points, None);
    assert_eq!(descriptors.len(), 2);
    assert_eq!(descriptors[0].name, "r0");
    assert_eq!(descriptors[0].num_points, 500);
    assert_eq!(descriptors[1].name, "r7");
    assert_eq!(descriptors[1].num_points, 500);
    let (leaves, to_split) = partition_by_threshold(descriptors);
    assert_eq!(leaves.len(), 2);
    assert!(to_split.is_empty());
    let rounds = subsample_plan(vec!["r0".to_string(), "r7".to_string()]);
    assert_eq!(rounds, vec![vec!["r".to_string()]]);
    let mut children: Vec<Option<Vec<Point>>> = vec![None; 8];
    children[0] = Some(buckets[0].clone());
    children[7] = Some(buckets[7].clone());
    let (parent, new_children) = subsample_children(children);
    // ceil(500 / 8) from each of the two children.
    assert_eq!(parent.len(), 63 + 63);
    assert_eq!(new_children[0].as_ref().unwrap().len(), 500 - 63);
    assert_eq!(new_children[7].as_ref().unwrap().len(), 500 - 63);
}

fn cpt(x: u32, y: u32, z: u32) -> Point {
    Point { position: Position { x, y, z }, r: 1, g: 2, b: 3 }
}

#[test]
fn forced_recursion() {
    // 250,000 points spread uniformly over octant 3 of the root cube
    // [0, 255]^3: x at most 127, y and z above 127.
    let mut points = Vec::new();
    for i in 0..250000u32 {
        let x = i % 128;
        let y = 128 + (i / 128) % 128;
        let z = 128 + 8 * ((i / 16384) % 16);
        points.push(cpt(x, y, z));
    }
    // Corners pin the root cube.
    points.push(cpt(0, 0, 0));
    points.push(cpt(255, 255, 255));
    let b = scan(&points);
    let (descriptors, _buckets) = split("r", &b, &points, None);
    let (_leaves, to_split) = partition_by_threshold(descriptors);
    assert_eq!(to_split.len(), 1);
    assert_eq!(to_split[0].name, "r3");
    assert!(to_split[0].num_points >= LEAF_THRESHOLD);
    // Recurse into the oversized child.
    let child = &to_split[0];
    let inner: Vec<Point> = points
        .iter()
        .cloned()
        .filter(|p| get_child_index(&b, &p.position) == 3)
        .collect();
    let (grand, _gbuckets) = split(&child.name, &child.bounding_box, &inner, None);
    assert!(grand.len() >= 2);
    let mut leaf_names = Vec::new();
    for g in &grand {
        assert!(g.num_points < LEAF_THRESHOLD);
        assert!(g.num_points >= 1);
        assert!(g.name.starts_with("r3"));
        assert_eq!(g.name.len(), 3);
        leaf_names.push(g.name.clone());
    }
    // The climb builds r3 first, then the root.
    let rounds = subsample_plan(leaf_names);
    assert_eq!(rounds.len(), 2);
    assert_eq!(rounds[0], vec!["r3".to_string()]);
    assert_eq!(rounds[1], vec!["r".to_string()]);
}

#[test]
fn decimation_is_deterministic() {
    let points: Vec<Point> = (0..100).map(|i| pt(i as f32, 0.0, 0.0)).collect();
    let (s1, r1) = decimate(&points);
    let (s2, r2) = decimate(&points);
    assert_eq!(s1, s2);
    assert_eq!(r1, r2);
    assert_eq!(s1.len(), 13);
    for (j, p) in s1.iter().enumerate() {
        assert_eq!(*p, points[8 * j]);
    }
    assert_eq!(s1.len() + r1.len(), points.len());
}

#[test]
fn empty_octant_elimination() {
    let points: Vec<Point> = (0..1000).map(|i| pt(9.0 + (i % 10) as f32 / 100.0, 9.0, 9.0)).collect();
    let mut scanned = points.clone();
    scanned.push(pt(0.0, 0.0, 0.0));
    let b = scan(&scanned);
    let (descriptors, buckets) = split("r", &b, &points, None);
    assert_eq!(descriptors.len(), 1);
    assert_eq!(descriptors[0].num_points, 1000);
    let mut nonempty = 0;
    for bucket in &buckets {
        if !bucket.is_empty() {
            nonempty += 1;
        }
    }
    assert_eq!(nonempty, 1);
}

#[test]
fn split_partitions_correctly() {
    let points: Vec<Point> = (0..64)
        .map(|i| pt((i % 4) as f32, ((i / 4) % 4) as f32, ((i / 16) % 4) as f32))
        .collect();
    let b = scan(&points);
    let (descriptors, buckets) = split("r", &b, &points, None);
    let mut total = 0;
    for (i, bucket) in buckets.iter().enumerate() {
        total += bucket.len();
        for p in bucket {
            assert_eq!(get_child_index(&b, &p.position) as usize, i);
        }
    }
    assert_eq!(total, points.len());
    let sum: i64 = descriptors.iter().map(|d| d.num_points).sum();
    assert_eq!(sum, points.len() as i64);
}

#[test]
fn subsampling_conserves_points() {
    let child: Vec<Point> = (0..999).map(|i| pt(i as f32, 1.0, 1.0)).collect();
    let (sample, rest) = decimate(&child);
    assert_eq!(sample.len() + rest.len(), child.len());
    assert_eq!(sample.len(), (child.len() + 7) / 8);
    assert!(!sample.is_empty());
}

#[test]
fn mixed_depth_climb() {
    let leaves = vec!["r000".to_string(), "r1".to_string()];
    let rounds = subsample_plan(leaves);
    assert_eq!(
        rounds,
        vec![
            vec!["r00".to_string()],
            vec!["r0".to_string()],
            vec!["r".to_string()],
        ]
    );
}
