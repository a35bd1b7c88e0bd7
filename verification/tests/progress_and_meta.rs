use std::sync::mpsc;

use octree_builder::meta::meta_json;
use octree_builder::progress::percent_string;
use octree_builder::progress::u64_to_decimal;
use octree_builder::progress::SendingProgressReporter;
use octree_builder::progress::ProgressMap;
use octree_builder::progress::Status;

#[test]
fn decimal_rendering() {
    assert_eq!(u64_to_decimal(0), "0");
    assert_eq!(u64_to_decimal(7), "7");
    assert_eq!(u64_to_decimal(10), "10");
    assert_eq!(u64_to_decimal(120034), "120034");
}

#[test]
fn percent_rendering() {
    assert_eq!(percent_string(1234, 10000), "12.34%");
    assert_eq!(percent_string(0, 100), "0.00%");
    assert_eq!(percent_string(100, 100), "100.00%");
    assert_eq!(percent_string(1, 3), "33.33%");
    assert_eq!(percent_string(1, 16), "6.25%");
    assert_eq!(percent_string(0, 0), "0.00%");
}

#[test]
fn reporter_sends_statuses() {
    let (tx, rx) = mpsc::channel();
    let mut reporter = SendingProgressReporter::new("r3".to_string(), tx, 100);
    reporter.add(60);
    reporter.add(60);
    reporter.finish();
    let statuses: Vec<_> = rx.into_iter().collect();
    assert_eq!(statuses.len(), 4);
    assert_eq!(statuses[0].name, "r3");
    assert_eq!(statuses[0].current_points, 0);
    assert_eq!(statuses[0].num_points, 100);
    assert_eq!(statuses[1].current_points, 60);
    // The count saturates at the total.
    assert_eq!(statuses[2].current_points, 100);
    assert_eq!(statuses[3].current_points, 100);
}

#[test]
fn meta_version_is_one() {
    let text = meta_json("1", "2", "3", "4", "5", "6");
    assert!(text.contains("\"version\": 1"));
}

#[test]
fn meta_layout() {
    let text = meta_json("-1.5", "0", "0.25", "2.5", "4", "4.25");
    let expected = "{\n    \"version\": 1,\n    \"bounding_box\": {\n        \"min_x\": -1.5,\n        \"min_y\": 0,\n        \"min_z\": 0.25,\n        \"max_x\": 2.5,\n        \"max_y\": 4,\n        \"max_z\": 4.25\n    }\n}";
    assert_eq!(text, expected);
}

#[test]
fn progress_map_tracks_and_renders() {
    let mut pm = ProgressMap::new();
    pm.apply(&Status { name: "r0".to_string(), current_points: 50, num_points: 200 });
    pm.apply(&Status { name: "r7".to_string(), current_points: 100, num_points: 400 });
    assert_eq!(pm.render("Splitting:"), "Splitting: r0(25.00%), r7(25.00%)");
    // A fresh report for a known node replaces its entry.
    pm.apply(&Status { name: "r0".to_string(), current_points: 100, num_points: 200 });
    assert_eq!(pm.render("Splitting:"), "Splitting: r7(25.00%), r0(50.00%)");
    // A completed node leaves the summary.
    pm.apply(&Status { name: "r0".to_string(), current_points: 200, num_points: 200 });
    assert_eq!(pm.render("Splitting:"), "Splitting: r7(25.00%)");
    assert!(!pm.is_empty());
    pm.apply(&Status { name: "r7".to_string(), current_points: 400, num_points: 400 });
    assert!(pm.is_empty());
}
