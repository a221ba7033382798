use papers::edition::{refid_pattern, PREFIX_LEN};
use papers::error::SourceError;

#[test]
fn prefix_has_six_characters() {
    assert_eq!(PREFIX_LEN, 6);
}

#[test]
fn pattern_of_latest_identifier() {
    assert_eq!(refid_pattern(Some("ABC123XYZ")), Ok("ABC123%".to_string()));
}

#[test]
fn pattern_of_identifier_of_exactly_six_characters() {
    assert_eq!(refid_pattern(Some("150307")), Ok("150307%".to_string()));
}

#[test]
fn no_row_is_an_empty_edition() {
    assert_eq!(refid_pattern(None), Err(SourceError::EmptyEdition));
}

#[test]
fn short_identifier_is_malformed() {
    assert_eq!(refid_pattern(Some("")), Err(SourceError::MalformedIdentifier));
    assert_eq!(refid_pattern(Some("ABC12")), Err(SourceError::MalformedIdentifier));
}

#[test]
fn prefix_counts_characters_not_bytes() {
    assert_eq!(refid_pattern(Some("æøåæøå-1")), Ok("æøåæøå%".to_string()));
    assert_eq!(refid_pattern(Some("æøå")), Err(SourceError::MalformedIdentifier));
}

#[test]
fn wildcards_in_the_identifier_are_kept() {
    assert_eq!(refid_pattern(Some("a%b_c%d")), Ok("a%b_c%%".to_string()));
}

#[test]
fn identifiers_of_one_edition_give_one_pattern() {
    assert_eq!(refid_pattern(Some("150307-0001")), refid_pattern(Some("150307-0417")));
    assert_ne!(refid_pattern(Some("150307-0001")), refid_pattern(Some("150308-0001")));
}
