use zhiforge_knowledge::capture::{
    capture_hash, normalized_optional, normalized_platform, now_ms, should_upgrade_to_zhihu,
    to_lower_hex, validate_capture, SourceCaptureInput,
};

fn input(platform: &str, text: &str) -> SourceCaptureInput {
    SourceCaptureInput {
        platform: platform.into(),
        selected_text: text.into(),
        url: None,
        title: None,
        author: None,
        context_before: None,
        context_after: None,
        application: None,
        window_title: None,
    }
}

#[test]
fn platform_is_bounded_to_supported_values() {
    assert_eq!(normalized_platform("zhihu"), "zhihu");
    assert_eq!(normalized_platform("DESKTOP"), "desktop");
    assert_eq!(normalized_platform("something-else"), "unknown");
}

#[test]
fn zhihu_upgrade_requires_canonical_source_url() {
    let mut input = SourceCaptureInput {
        platform: "zhihu".into(),
        selected_text: "same quote".into(),
        url: None,
        title: Some("Question".into()),
        author: None,
        context_before: None,
        context_after: None,
        application: None,
        window_title: None,
    };
    assert!(!should_upgrade_to_zhihu(&input));
    input.url = Some("https://www.zhihu.com/question/1/answer/2".into());
    assert!(should_upgrade_to_zhihu(&input));
}

#[test]
fn empty_selection_is_rejected() {
    let input = SourceCaptureInput {
        platform: "desktop".into(),
        selected_text: "   ".into(),
        url: None,
        title: None,
        author: None,
        context_before: None,
        context_after: None,
        application: None,
        window_title: None,
    };
    assert!(validate_capture(&input).is_err());
}

#[test]
fn selection_with_text_is_accepted() {
    assert!(validate_capture(&input("web", " a ")).is_ok());
}

#[test]
fn optional_metadata_is_trimmed() {
    assert_eq!(normalized_optional(&Some("  t ".into())), Some("t".to_string()));
    assert_eq!(normalized_optional(&Some("   ".into())), None);
    assert_eq!(normalized_optional(&None), None);
}

#[test]
fn hex_is_lowercase_two_digits_per_byte() {
    assert_eq!(to_lower_hex(&[0x00, 0x0f, 0xab, 0xff]), "000fabff");
}

#[test]
fn capture_hash_is_sha256_of_the_canonical_bytes() {
    assert_eq!(
        capture_hash(b"abc"),
        "ba7816bf8f01cfea414140de5dae2223b00361a396177a9cb410ff61f20015ad"
    );
    assert_eq!(capture_hash(b"abc"), capture_hash(b"abc"));
    assert_ne!(capture_hash(b"abc"), capture_hash(b"abd"));
}

#[test]
fn clock_is_after_the_epoch() {
    assert!(now_ms() > 1_600_000_000_000);
}

use zhiforge_knowledge::capture::epoch_millis;

#[test]
fn epoch_millis_saturates() {
    assert_eq!(epoch_millis(None), 0);
    assert_eq!(epoch_millis(Some(1234)), 1234);
    assert_eq!(epoch_millis(Some(u128::MAX)), i64::MAX);
}
