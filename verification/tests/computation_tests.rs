use std::collections::HashMap;
use std::iter::FromIterator;

use qasmsim::interpreter::computation::HistogramBuilder;

fn memory(entries: Vec<(&str, u64)>) -> Vec<(String, u64)> {
    entries.into_iter().map(|(name, value)| (name.to_string(), value)).collect()
}

fn as_map(histogram: Vec<(String, Vec<(u64, usize)>)>) -> HashMap<String, Vec<(u64, usize)>> {
    HashMap::from_iter(histogram)
}

#[test]
fn test_histogram_builder_empty_histogram() {
    let builder = HistogramBuilder::new();
    let histogram = builder.histogram();
    assert_eq!(as_map(histogram), HashMap::new());
}

#[test]
fn test_histogram_builder_one_update() {
    let mut builder = HistogramBuilder::new();
    builder.update(&memory(vec![("a", 1)]));
    let histogram = builder.histogram();
    assert_eq!(
        as_map(histogram),
        HashMap::from_iter(vec![("a".into(), vec![(1, 1)])])
    );
}

#[test]
fn test_histogram_builder_couple_of_updates() {
    let mut builder = HistogramBuilder::new();
    builder.update(&memory(vec![("a", 1)]));
    builder.update(&memory(vec![("a", 1)]));
    let histogram = builder.histogram();
    assert_eq!(
        as_map(histogram),
        HashMap::from_iter(vec![("a".into(), vec![(1, 2)])])
    );
}

#[test]
fn test_histogram_builder_couple_of_registers() {
    let mut builder = HistogramBuilder::new();
    builder.update(&memory(vec![("a", 1)]));
    builder.update(&memory(vec![("b", 1)]));
    let histogram = builder.histogram();
    assert_eq!(
        as_map(histogram),
        HashMap::from_iter(vec![
            ("a".into(), vec![(1, 1)]),
            ("b".into(), vec![(1, 1)])
        ])
    );
}

#[test]
fn test_histogram_builder_different_values() {
    let mut builder = HistogramBuilder::new();
    builder.update(&memory(vec![("a", 5)]));
    builder.update(&memory(vec![("b", 4)]));
    builder.update(&memory(vec![("a", 3)]));
    builder.update(&memory(vec![("b", 2)]));
    let histogram = builder.histogram();
    assert_eq!(
        as_map(histogram),
        HashMap::from_iter(vec![
            ("a".into(), vec![(3, 1), (5, 1)]),
            ("b".into(), vec![(2, 1), (4, 1)])
        ])
    );
}

#[test]
fn test_histogram_builder_different_repeated_values() {
    let mut builder = HistogramBuilder::new();
    builder.update(&memory(vec![("a", 5)]));
    builder.update(&memory(vec![("b", 4)]));
    builder.update(&memory(vec![("a", 5)]));
    builder.update(&memory(vec![("b", 2)]));
    let histogram = builder.histogram();
    assert_eq!(
        as_map(histogram),
        HashMap::from_iter(vec![
            ("a".into(), vec![(5, 2)]),
            ("b".into(), vec![(2, 1), (4, 1)])
        ])
    );
}

#[test]
fn histogram_update_with_several_registers_at_once() {
    let mut builder = HistogramBuilder::new();
    builder.update(&memory(vec![("a", 2), ("b", 7)]));
    builder.update(&memory(vec![("a", 0), ("b", 7)]));
    builder.update(&memory(vec![("a", 2), ("b", 1)]));
    let histogram = builder.histogram();
    assert_eq!(
        as_map(histogram),
        HashMap::from_iter(vec![
            ("a".into(), vec![(0, 1), (2, 2)]),
            ("b".into(), vec![(1, 1), (7, 2)])
        ])
    );
}

#[test]
fn histogram_counts_add_up_to_the_number_of_updates() {
    let mut builder = HistogramBuilder::new();
    for value in [9u64, 3, 9, 1, 3, 9, 0] {
        builder.update(&memory(vec![("c", value)]));
    }
    let histogram = builder.histogram();
    assert_eq!(histogram.len(), 1);
    let (name, counts) = &histogram[0];
    assert_eq!(name, "c");
    assert_eq!(counts, &vec![(0, 1), (1, 1), (3, 2), (9, 3)]);
    let total: usize = counts.iter().map(|(_, count)| count).sum();
    assert_eq!(total, 7);
}

#[test]
fn histogram_has_room_for_small_memories() {
    let builder = HistogramBuilder::new();
    assert!(builder.has_room(3));
}

#[test]
fn registers_not_in_a_memory_keep_their_counts() {
    let mut builder = HistogramBuilder::new();
    builder.update(&memory(vec![("a", 1), ("b", 2)]));
    builder.update(&memory(vec![("b", 2)]));
    let histogram = builder.histogram();
    assert_eq!(
        as_map(histogram),
        HashMap::from_iter(vec![("a".into(), vec![(1, 1)]), ("b".into(), vec![(2, 2)])])
    );
}
