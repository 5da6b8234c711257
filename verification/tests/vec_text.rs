use learn_rust_cli::sorting::is_sorted;
use learn_rust_cli::vec_text::{decimal, format_vec};

#[test]
fn decimal_writes_the_number() {
    assert_eq!(decimal(0), "0");
    assert_eq!(decimal(7), "7");
    assert_eq!(decimal(10), "10");
    assert_eq!(decimal(-1), "-1");
    assert_eq!(decimal(1_234_567_890), "1234567890");
    assert_eq!(decimal(i32::MAX), "2147483647");
    assert_eq!(decimal(i32::MIN), "-2147483648");
}

#[test]
fn decimal_agrees_with_display() {
    let mut v: i32 = -1_000_003;
    while v < 1_000_000 {
        assert_eq!(decimal(v), format!("{}", v));
        v += 9_973;
    }
}

#[test]
fn format_vec_shows_the_items_in_brackets() {
    assert_eq!(format_vec(&vec![3, -1, 20], 3), "[3 -1 20]");
    assert_eq!(format_vec(&vec![3, -1, 20], 10), "[3 -1 20]");
    assert_eq!(format_vec(&vec![5], 1), "[5]");
}

#[test]
fn format_vec_shows_at_most_the_number_asked_for() {
    assert_eq!(format_vec(&vec![3, -1, 20], 2), "[3 -1]");
    assert_eq!(format_vec(&vec![3, -1, 20], 1), "[3]");
    assert_eq!(format_vec(&vec![3, -1, 20], 0), "[]");
}

#[test]
fn format_vec_with_a_negative_limit_shows_all() {
    assert_eq!(format_vec(&vec![3, -1, 20], -1), "[3 -1 20]");
    assert_eq!(format_vec(&vec![3, -1, 20], i32::MIN), "[3 -1 20]");
}

#[test]
fn format_vec_of_nothing() {
    assert_eq!(format_vec(&Vec::new(), 5), "[]");
    assert_eq!(format_vec(&Vec::new(), 0), "[]");
}

#[test]
fn is_sorted_tells_order_from_disorder() {
    assert!(is_sorted(&Vec::new()));
    assert!(is_sorted(&vec![1]));
    assert!(is_sorted(&vec![1, 1, 2, 3]));
    assert!(is_sorted(&vec![i32::MIN, 0, i32::MAX]));
    assert!(!is_sorted(&vec![2, 1]));
    assert!(!is_sorted(&vec![1, 2, 3, 2]));
    assert!(!is_sorted(&vec![0, 1, 2, 3, -1]));
}
