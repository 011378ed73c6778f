use aiss::actor::Actor;
use aiss::deception::DeceptionPattern;
use aiss::importer::{detect_format, FileFormat};
use aiss::shared::Difficulty;

fn make(affinity: u8) -> Actor {
    Actor {
        id: "test".into(),
        name: "Test".into(),
        avatar: String::new(),
        short_bio: String::new(),
        personality_traits: vec![],
        speech_style: String::new(),
        discussion_lens: String::new(),
        affinity,
        eagerness: 5,
    }
}

fn make_pattern(affinity: u8) -> DeceptionPattern {
    DeceptionPattern {
        id: "p1".into(),
        name_zh: "test".into(),
        description: String::new(),
        example: String::new(),
        difficulty: Difficulty::Easy,
        teaching_goal: String::new(),
        affinity,
    }
}

#[test]
fn validate_accepts_anchor_values() {
    for a in [3u8, 6, 9] {
        assert!(make(a).validate().is_ok(), "anchor {} should be valid", a);
    }
}

#[test]
fn validate_accepts_charisma_zone() {
    for a in [10u8, 11, 12] {
        assert!(make(a).validate().is_ok(), "{} should be valid", a);
    }
}

#[test]
fn validate_rejects_zero() {
    assert!(make(0).validate().is_err());
}

#[test]
fn validate_rejects_above_12() {
    assert!(make(13).validate().is_err());
}

#[test]
fn actor_validate_accepts_full_range() {
    for a in 1..=12 {
        assert!(make(a).validate().is_ok(), "{} should be valid", a);
    }
}

#[test]
fn validate_rejects_out_of_range() {
    assert!(make_pattern(0).validate().is_err());
    assert!(make_pattern(13).validate().is_err());
    assert!(make_pattern(100).validate().is_err());
}

#[test]
fn deception_validate_accepts_full_range() {
    for a in 1..=12 {
        assert!(make_pattern(a).validate().is_ok());
    }
}

#[test]
fn detects_yaml() {
    assert_eq!(detect_format("foo.yaml").unwrap(), FileFormat::Yaml);
    assert_eq!(detect_format("foo.yml").unwrap(), FileFormat::Yaml);
}

#[test]
fn detects_csv() {
    assert_eq!(detect_format("data.csv").unwrap(), FileFormat::Csv);
}

#[test]
fn detects_excel() {
    assert_eq!(detect_format("a.xlsx").unwrap(), FileFormat::Excel);
    assert_eq!(detect_format("a.xls").unwrap(), FileFormat::Excel);
}

#[test]
fn rejects_unknown_extension() {
    assert!(detect_format("foo.txt").is_err());
    assert!(detect_format("noext").is_err());
}
