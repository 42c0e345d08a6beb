use jlh_maps::decimal::parse_u32;
use jlh_maps::feature_ids::{feature_id, GENERATED_FEATURE_ID_BIT};
use std::collections::HashSet;

#[test]
fn stored_ids_are_kept_when_free() {
    let mut used = HashSet::new();
    assert_eq!(feature_id(Some(17), 0, &mut used), 17);
    assert!(used.contains(&17));
}

#[test]
fn taken_or_missing_ids_are_generated_from_the_index() {
    let mut used = HashSet::new();
    assert_eq!(feature_id(Some(17), 0, &mut used), 17);
    assert_eq!(feature_id(Some(17), 3, &mut used), GENERATED_FEATURE_ID_BIT | 3);
    assert_eq!(feature_id(None, 3, &mut used), GENERATED_FEATURE_ID_BIT | 4);
    assert_eq!(feature_id(None, 5, &mut used), GENERATED_FEATURE_ID_BIT | 5);
    assert_eq!(used.len(), 4);
}

#[test]
fn generated_ids_wrap_around_to_zero() {
    let mut used = HashSet::new();
    let last = GENERATED_FEATURE_ID_BIT | (GENERATED_FEATURE_ID_BIT - 1);
    used.insert(last);
    let index = usize::MAX;
    let expected = if (index as u64) & !GENERATED_FEATURE_ID_BIT == GENERATED_FEATURE_ID_BIT - 1 {
        GENERATED_FEATURE_ID_BIT
    } else {
        GENERATED_FEATURE_ID_BIT | ((index as u64) & !GENERATED_FEATURE_ID_BIT)
    };
    assert_eq!(feature_id(None, index, &mut used), expected);
}

#[test]
fn decimal_parsing_matches_u32_from_str() {
    for text in ["0", "42", "+5", "4294967295", "4294967296", "", "+", "-1", "1a", " 1", "007"] {
        assert_eq!(parse_u32(text.as_bytes()), text.parse::<u32>().ok(), "{text}");
    }
}
