use papers::anchor::anchor_position;
use papers::make_name;

#[test]
fn anchor_position_reads_the_index_back() {
    assert_eq!(anchor_position("Hello_World_12"), Some(12));
    assert_eq!(anchor_position("_0"), Some(0));
}

#[test]
fn anchor_position_takes_the_last_underscore() {
    assert_eq!(anchor_position("a_1_2"), Some(2));
    assert_eq!(anchor_position("2024_05_17_3"), Some(3));
}

#[test]
fn anchor_position_refuses_what_names_no_index() {
    assert_eq!(anchor_position(""), None);
    assert_eq!(anchor_position("12"), None);
    assert_eq!(anchor_position("title"), None);
    assert_eq!(anchor_position("title_"), None);
    assert_eq!(anchor_position("title-3"), None);
    assert_eq!(anchor_position("title_3a"), None);
}

#[test]
fn anchor_position_refuses_leading_zeros() {
    assert_eq!(anchor_position("title_007"), None);
    assert_eq!(anchor_position("title_00"), None);
    assert_eq!(anchor_position("title_0"), Some(0));
    assert_eq!(anchor_position("title_10"), Some(10));
}

#[test]
fn anchor_position_refuses_an_index_beyond_the_machine() {
    let max = format!("t_{}", usize::MAX);
    assert_eq!(anchor_position(&max), Some(usize::MAX));
    let beyond = format!("t_{}0", usize::MAX);
    assert_eq!(anchor_position(&beyond), None);
    assert_eq!(anchor_position("t_99999999999999999999999999999999999999999"), None);
}

#[test]
fn anchor_position_inverts_make_name() {
    for (title, index) in [("", 0usize), ("Leder", 1), ("a b c", 42), ("x_9", 7), ("1 2 3", 1000)] {
        assert_eq!(anchor_position(&make_name(title, index)), Some(index));
    }
}
