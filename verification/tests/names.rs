use bevy_ecs_tiled::names::{normalize, trim, TiledName, TiledNameFilter};

#[test]
fn name_filter_doc_example() {
    let name_to_check = String::from("some name");
    let matching_allowed_names = TiledName::Names(vec!["some name".to_string()]);
    let non_matching_allowed_names = TiledName::Names(vec!["some other name".to_string()]);

    assert_eq!(TiledNameFilter::from(&matching_allowed_names).contains(&name_to_check), true);
    assert_eq!(TiledNameFilter::from(&non_matching_allowed_names).contains(&name_to_check), false);
    assert_eq!(TiledNameFilter::from(&TiledName::All).contains(&name_to_check), true);
    assert_eq!(TiledNameFilter::from(&TiledName::Nothing).contains(&name_to_check), false);
}

#[test]
fn names_match_ignoring_case_and_outer_space() {
    let filter = TiledNameFilter::from(&TiledName::Names(vec!["  Collider ".to_string(), "WALL".to_string()]));
    assert!(filter.contains("collider"));
    assert!(filter.contains("\tCOLLIDER\n"));
    assert!(filter.contains("wall"));
    assert!(!filter.contains("col lider"));
    assert!(!filter.contains(""));
}

#[test]
fn empty_names_never_match() {
    let filter = TiledNameFilter::from(&TiledName::Names(vec!["   ".to_string(), String::new()]));
    assert!(!filter.contains(""));
    assert!(!filter.contains("  "));
    assert!(!filter.contains("x"));
}

#[test]
fn default_name_specification_allows_all() {
    assert_eq!(TiledName::default(), TiledName::All);
}

#[test]
fn trimming_and_normalizing() {
    assert_eq!(trim("  a b \t"), "a b");
    assert_eq!(trim("\u{3000}x\u{00A0}"), "x");
    assert_eq!(trim(""), "");
    assert_eq!(normalize(" Ab C "), "ab c".to_string());
}
