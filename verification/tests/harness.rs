use std::cell::Cell;

use maxbench::bench::{measure_total_nanos, report_header, report_line, ITERATIONS};
use maxbench::doc::make_json;
use maxbench::stream::streaming_max;

#[test]
fn harness_invokes_the_function_exactly_one_thousand_times() {
    assert_eq!(ITERATIONS, 1000);
    let count = Cell::new(0u64);
    let total = measure_total_nanos(&|| {
        count.set(count.get() + 1);
        7
    });
    assert_eq!(count.get(), 1000);
    let mean = total as f64 / ITERATIONS as f64;
    assert!(mean >= 0.0);
}

#[test]
fn harness_times_a_real_extraction() {
    let doc = make_json(5);
    let total = measure_total_nanos(&|| streaming_max(&doc).unwrap());
    let mean = total as f64 / ITERATIONS as f64;
    assert!(mean >= 0.0);
}

#[test]
fn report_lines_have_the_expected_shape() {
    assert_eq!(report_header(), "Size,Custom,Whole");
    let line = report_line(5, "12.5", "66.25");
    assert_eq!(line, "5,12.5,66.25");
    assert!(line.starts_with("5,"));
    let fields: Vec<&str> = line.split(',').collect();
    assert_eq!(fields.len(), 3);
    assert!(fields[1].parse::<f64>().unwrap() >= 0.0);
    assert!(fields[2].parse::<f64>().unwrap() >= 0.0);
}
