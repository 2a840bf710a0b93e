use yt_shortmaker::config::{default_key_name, default_true, enabled_key_pairs, ApiKey};
use yt_shortmaker::layout::{default_blur_intensity, default_fit, Crop, Fit, PositionValue, SizeValue};

#[test]
fn test_size_value_resolve() {
    assert_eq!(SizeValue::Pixels(500).resolve(1080), 500);
    assert_eq!(SizeValue::Keyword("full".to_string()).resolve(1080), 1080);
    assert_eq!(SizeValue::Keyword("50%".to_string()).resolve(1000), 500);
}

#[test]
fn size_value_unknown_keyword_is_full() {
    assert_eq!(SizeValue::Keyword("huge".to_string()).resolve(720), 720);
    assert_eq!(SizeValue::Keyword("FULL".to_string()).resolve(720), 720);
}

#[test]
fn test_position_value_resolve() {
    assert_eq!(PositionValue::Pixels(100).resolve(1000, 200), 100);
    assert_eq!(
        PositionValue::Keyword("center".to_string()).resolve(1000, 200),
        400
    );
}

#[test]
fn position_value_keywords() {
    assert_eq!(PositionValue::Keyword("CENTER".to_string()).resolve(1000, 200), 400);
    assert_eq!(PositionValue::Keyword("25%".to_string()).resolve(1000, 0), 250);
    assert_eq!(PositionValue::Keyword("left".to_string()).resolve(1000, 0), 0);
}

#[test]
fn test_crop_is_specified() {
    let empty = Crop::default();
    assert!(!empty.is_specified());

    let with_x = Crop {
        x_from: Some(100),
        x_to: Some(500),
        y_from: None,
        y_to: None,
    };
    assert!(with_x.is_specified());
}

#[test]
fn layout_defaults() {
    assert_eq!(default_blur_intensity(), 20);
    assert_eq!(default_fit(), Fit::Stretch);
    assert_eq!(default_key_name(), "Gemini Key");
    assert!(default_true());
}

#[test]
fn enabled_keys_keep_order() {
    let keys = vec![
        ApiKey { value: "a".to_string(), name: "A".to_string(), enabled: true },
        ApiKey { value: "b".to_string(), name: "B".to_string(), enabled: false },
        ApiKey { value: "c".to_string(), name: "C".to_string(), enabled: true },
    ];
    let pairs = enabled_key_pairs(&keys);
    assert_eq!(
        pairs,
        vec![("A".to_string(), "a".to_string()), ("C".to_string(), "c".to_string())]
    );
}
