use papers::make_name;

#[test]
fn make_name_replaces_spaces_and_appends_index() {
    assert_eq!(make_name("Hello big world", 3), "Hello_big_world_3");
}

#[test]
fn make_name_of_empty_title_is_underscore_and_index() {
    assert_eq!(make_name("", 0), "_0");
}

#[test]
fn make_name_writes_the_index_in_decimal() {
    assert_eq!(make_name("a", 10), "a_10");
    assert_eq!(make_name("a", 1234567890), "a_1234567890");
    assert_eq!(make_name("a", usize::MAX), format!("a_{}", usize::MAX));
}

#[test]
fn make_name_keeps_other_characters() {
    assert_eq!(make_name("Blå  bær\t<1>", 7), "Blå__bær\t<1>_7");
}

#[test]
fn make_name_tells_equal_titles_apart() {
    assert_ne!(make_name("Leder", 1), make_name("Leder", 2));
}

#[test]
fn make_name_of_example_title() {
    assert_eq!(make_name("Krig og fred", 0), "Krig_og_fred_0");
}
