use chapter_zero::config::{Config, ConfigError, RawSettings, RawValue};
use chapter_zero::ChapterZeroPreprocessor;

const DEFAULT_MARKER: &str = "<!-- ch0 -->\n";

fn settings(levels: Option<RawValue>, marker: Option<RawValue>) -> RawSettings {
    RawSettings { levels, marker }
}

#[test]
fn absent_settings_yield_default() {
    let cfg = Config::resolve(None).unwrap();
    assert_eq!(cfg.levels, Vec::<usize>::new());
    assert_eq!(cfg.marker, DEFAULT_MARKER);
}

#[test]
fn empty_settings_yield_default() {
    let cfg = Config::resolve(Some(settings(None, None))).unwrap();
    assert_eq!(cfg.levels, Vec::<usize>::new());
    assert_eq!(cfg.marker, DEFAULT_MARKER);
}

#[test]
fn integer_levels_are_accepted_in_order() {
    let raw = settings(
        Some(RawValue::Array(vec![RawValue::Int(0), RawValue::Int(2), RawValue::Int(0)])),
        None,
    );
    let cfg = Config::resolve(Some(raw)).unwrap();
    assert_eq!(cfg.levels, vec![0usize, 2, 0]);
    assert_eq!(cfg.marker, DEFAULT_MARKER);
}

#[test]
fn empty_levels_array_is_valid() {
    let cfg = Config::resolve(Some(settings(Some(RawValue::Array(vec![])), None))).unwrap();
    assert_eq!(cfg.levels, Vec::<usize>::new());
}

#[test]
fn string_level_element_is_invalid() {
    let raw = settings(
        Some(RawValue::Array(vec![RawValue::Str("a".to_string())])),
        None,
    );
    let err = Config::resolve(Some(raw)).unwrap_err();
    assert_eq!(err, ConfigError::InvalidLevels(RawValue::Str("a".to_string())));
}

#[test]
fn first_invalid_level_element_is_reported() {
    let raw = settings(
        Some(RawValue::Array(vec![
            RawValue::Int(1),
            RawValue::Str("a".to_string()),
            RawValue::Int(-1),
        ])),
        None,
    );
    let err = Config::resolve(Some(raw)).unwrap_err();
    assert_eq!(err, ConfigError::InvalidLevels(RawValue::Str("a".to_string())));
}

#[test]
fn negative_level_element_is_invalid() {
    let raw = settings(Some(RawValue::Array(vec![RawValue::Int(-1)])), None);
    let err = Config::resolve(Some(raw)).unwrap_err();
    assert_eq!(err, ConfigError::InvalidLevels(RawValue::Int(-1)));
}

#[test]
fn non_array_levels_value_is_invalid() {
    let raw = settings(Some(RawValue::Int(1)), None);
    let err = Config::resolve(Some(raw)).unwrap_err();
    assert_eq!(err, ConfigError::InvalidLevels(RawValue::Int(1)));
}

#[test]
fn non_string_marker_is_invalid() {
    let raw = settings(None, Some(RawValue::Int(3)));
    let err = Config::resolve(Some(raw)).unwrap_err();
    assert_eq!(err, ConfigError::InvalidMarker(RawValue::Int(3)));
}

#[test]
fn custom_marker_is_accepted() {
    let raw = settings(None, Some(RawValue::Str("<!--zero-->".to_string())));
    let cfg = Config::resolve(Some(raw)).unwrap();
    assert_eq!(cfg.marker, "<!--zero-->");
}

#[test]
fn levels_error_wins_over_marker_error() {
    let raw = settings(Some(RawValue::Other), Some(RawValue::Int(3)));
    let err = Config::resolve(Some(raw)).unwrap_err();
    assert_eq!(err, ConfigError::InvalidLevels(RawValue::Other));
}

#[test]
fn preprocessor_name() {
    let p = ChapterZeroPreprocessor::new();
    assert_eq!(p.name(), "chapter-zero");
}

#[test]
fn supports_every_renderer_but_the_gated_one() {
    let p = ChapterZeroPreprocessor::new();
    assert!(p.supports_renderer("html"));
    assert!(p.supports_renderer("linkcheck"));
    assert!(!p.supports_renderer("not-supported"));
}
