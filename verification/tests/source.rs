use zhiforge_knowledge::source::{
    clean_optional, escape_like, required_source_id, source_library_filters, SOURCE_PLATFORMS,
};

#[test]
fn source_filters_check_platform_and_bound_the_limit() {
    let f = source_library_filters(Some(" 50%_done ".into()), Some(" web ".into()), Some(500)).unwrap();
    assert_eq!(f.like.as_deref(), Some("%50\\%\\_done%"));
    assert_eq!(f.platform.as_deref(), Some("web"));
    assert_eq!(f.limit, 200);
    let f = source_library_filters(None, Some("  ".into()), None).unwrap();
    assert!(f.like.is_none());
    assert!(f.platform.is_none());
    assert_eq!(f.limit, 100);
    assert_eq!(source_library_filters(None, Some("twitter".into()), Some(0)).unwrap_err(), "unsupported source platform");
    assert_eq!(source_library_filters(None, None, Some(0)).unwrap().limit, 1);
    assert!(SOURCE_PLATFORMS.contains(&"pdf"));
}

#[test]
fn source_ids_and_text_helpers() {
    assert_eq!(required_source_id(" s1 ").unwrap(), "s1");
    assert_eq!(required_source_id("  ").unwrap_err(), "source id is empty");
    assert_eq!(clean_optional(Some(" q ".into())), Some("q".to_string()));
    assert_eq!(escape_like("\\"), "\\\\");
}
