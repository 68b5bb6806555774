use qasmsim::summary::{columns, memory_as_histogram, memory_summary, sections, state_titles, Columns};
use qasmsim::text::digits_of;

fn strings(cells: &[&str]) -> Vec<String> {
    cells.iter().map(|c| c.to_string()).collect()
}

#[test]
fn numbers_in_every_base() {
    assert_eq!(digits_of(0, 10), "0");
    assert_eq!(digits_of(255, 16), "ff");
    assert_eq!(digits_of(5, 2), "101");
    assert_eq!(digits_of(1234567890, 10), "1234567890");
    assert_eq!(digits_of(u64::MAX, 16), "ffffffffffffffff");
    assert_eq!(digits_of(u64::MAX, 10), u64::MAX.to_string());
}

#[test]
fn integer_column_is_the_default() {
    assert_eq!(
        columns(false, false, false, false),
        Columns { integer: true, hexadecimal: false, binary: false, count: true }
    );
    assert_eq!(
        columns(true, false, false, true),
        Columns { integer: false, hexadecimal: false, binary: true, count: false }
    );
    assert_eq!(
        columns(true, true, true, false),
        Columns { integer: true, hexadecimal: true, binary: true, count: true }
    );
}

#[test]
fn histogram_summary_names_each_register_once() {
    let histogram = vec![
        ("a".to_string(), vec![(3, 1), (5, 2)]),
        ("b".to_string(), vec![(2, 4)]),
    ];
    let rows = memory_summary(&histogram, true, true, false, false, false);
    assert_eq!(
        rows,
        vec![
            strings(&["Name", "Hex value", "Bin value", "Count"]),
            strings(&["a", "0x3", "0b11", "1"]),
            strings(&["", "0x5", "0b101", "2"]),
            strings(&["b", "0x2", "0b10", "4"]),
        ]
    );
    let rows = memory_summary(&histogram, false, false, false, false, true);
    assert_eq!(
        rows,
        vec![
            strings(&["Name", "Int value", "Count"]),
            strings(&["a", "3", "1"]),
            strings(&["a", "5", "2"]),
            strings(&["b", "2", "4"]),
        ]
    );
}

#[test]
fn memory_summary_omits_counts() {
    let memory = vec![("c".to_string(), 6), ("d".to_string(), 0)];
    let histogram = memory_as_histogram(&memory);
    assert_eq!(histogram, vec![("c".to_string(), vec![(6, 1)]), ("d".to_string(), vec![(0, 1)])]);
    let rows = memory_summary(&histogram, false, true, true, true, false);
    assert_eq!(
        rows,
        vec![
            strings(&["Name", "Int value", "Hex value"]),
            strings(&["c", "6", "0x6"]),
            strings(&["d", "0", "0x0"]),
        ]
    );
}

#[test]
fn report_sections_follow_the_options() {
    let parts = sections(false, true, false, false, 0);
    assert!(!parts.histogram && parts.state && !parts.times && !parts.headings);
    let parts = sections(true, true, true, true, 2);
    assert!(parts.histogram && !parts.state && parts.times && parts.headings);
    assert_eq!(state_titles(true, true), strings(&["Base", "Real", "Imaginary", "Probability"]));
    assert_eq!(state_titles(false, true), strings(&["Base", "Probability"]));
}
