use octree_builder::bbox::BoundingBox;
use octree_builder::bbox::child_bounding_box;
use octree_builder::bbox::get_child_index;
use octree_builder::names::child_node_name;
use octree_builder::names::node_path;
use octree_builder::names::parent_node_name;
use octree_builder::point::code_of_word;
use octree_builder::point::word_of_code;
use octree_builder::point::Point;
use octree_builder::point::Position;
use octree_builder::record::decode_blob;
use octree_builder::record::decode_point;
use octree_builder::record::encode_blob;
use octree_builder::record::encode_point;

fn pt(x: f32, y: f32, z: f32, r: u8, g: u8, b: u8) -> Point {
    Point {
        position: Position {
            x: code_of_word(x.to_bits()),
            y: code_of_word(y.to_bits()),
            z: code_of_word(z.to_bits()),
        },
        r,
        g,
        b,
    }
}

#[test]
fn parent_name_sentinel() {
    assert_eq!(parent_node_name("r"), "");
    assert_eq!(parent_node_name("r37"), "r3");
    assert_eq!(parent_node_name("r3"), "r");
}

#[test]
fn addressing_round_trip() {
    for i in 0u8..8 {
        let child = child_node_name("r5", i);
        assert_eq!(parent_node_name(&child), "r5");
        let root_child = child_node_name("r", i);
        assert_eq!(parent_node_name(&root_child), "r");
    }
    assert_eq!(child_node_name("r", 3), "r3");
    assert_eq!(child_node_name("r3", 7), "r37");
}

#[test]
fn node_paths() {
    assert_eq!(node_path("/tmp/out", "r37"), "/tmp/out/r37");
    assert_eq!(node_path("out", "r"), "out/r");
}

#[test]
fn coordinate_codes_are_ordered_and_invertible() {
    let values = [-100.5f32, -1.0, -0.25, 0.0, 0.25, 1.0, 2.0, 100.5];
    let mut prev: Option<u32> = None;
    for v in values {
        let code = code_of_word(v.to_bits());
        assert_eq!(word_of_code(code), v.to_bits());
        if let Some(p) = prev {
            assert!(p < code);
        }
        prev = Some(code);
    }
}

#[test]
fn point_record_round_trip() {
    let p = pt(1.0, 2.0, 3.0, 10, 20, 30);
    let mut bytes: Vec<u8> = Vec::new();
    encode_point(&p, &mut bytes);
    assert_eq!(bytes.len(), 15);
    let mut expected = Vec::new();
    expected.extend_from_slice(&1.0f32.to_le_bytes());
    expected.extend_from_slice(&2.0f32.to_le_bytes());
    expected.extend_from_slice(&3.0f32.to_le_bytes());
    expected.extend_from_slice(&[10, 20, 30]);
    assert_eq!(bytes, expected);
    let q = decode_point(&bytes, 0);
    assert_eq!(q, p);
}

#[test]
fn blob_round_trip() {
    let points = vec![
        pt(1.0, 2.0, 3.0, 1, 2, 3),
        pt(-4.5, 0.0, 9.25, 4, 5, 6),
        pt(7.0, -8.0, 0.5, 7, 8, 9),
    ];
    let blob = encode_blob(&points);
    assert_eq!(blob.len(), 45);
    let back = decode_blob(&blob).unwrap();
    assert_eq!(back, points);
    assert!(decode_blob(&vec![0u8; 14]).is_none());
}

#[test]
fn child_boxes_tile_the_cube() {
    let mut b = BoundingBox::new();
    b.update(&pt(0.0, 0.0, 0.0, 0, 0, 0).position);
    b.update(&pt(10.0, 10.0, 10.0, 0, 0, 0).position);
    b.make_cubic();
    let e = b.max.x - b.min.x;
    assert_eq!(e, b.max.y - b.min.y);
    assert_eq!(e, b.max.z - b.min.z);
    // The extent is one less than a power of two.
    assert_eq!((e + 1) & e, 0);
    // A sample of positions: each falls in exactly the child box of its
    // octant index.
    let samples = [
        pt(0.0, 0.0, 0.0, 0, 0, 0),
        pt(10.0, 10.0, 10.0, 0, 0, 0),
        pt(0.5, 9.5, 0.5, 0, 0, 0),
        pt(9.5, 0.5, 9.5, 0, 0, 0),
        pt(5.0, 5.0, 5.0, 0, 0, 0),
    ];
    for s in samples {
        let idx = get_child_index(&b, &s.position);
        for i in 0u8..8 {
            let cb = child_bounding_box(&b, i);
            let inside = cb.min.x <= s.position.x as i64 && (s.position.x as i64) <= cb.max.x
                && cb.min.y <= s.position.y as i64 && (s.position.y as i64) <= cb.max.y
                && cb.min.z <= s.position.z as i64 && (s.position.z as i64) <= cb.max.z;
            assert_eq!(inside, i == idx);
        }
    }
}

#[test]
fn cubic_hull_contains_raw_box() {
    let mut b = BoundingBox::new();
    b.update(&pt(-3.5, 1.0, 2.0, 0, 0, 0).position);
    b.update(&pt(4.0, 1.5, 100.0, 0, 0, 0).position);
    let raw = b;
    b.make_cubic();
    assert!(b.min.x <= raw.min.x && raw.max.x <= b.max.x);
    assert!(b.min.y <= raw.min.y && raw.max.y <= b.max.y);
    assert!(b.min.z <= raw.min.z && raw.max.z <= b.max.z);
    assert_eq!(b.max.x - b.min.x, b.max.y - b.min.y);
    assert_eq!(b.max.x - b.min.x, b.max.z - b.min.z);
}
