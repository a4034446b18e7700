use nuke::apps::{App, Policy};
use nuke::config::{keep_array, keep_key, set_in_text, Config, ConfigValue};

#[test]
fn keep_key_prefers_bundle_id() {
    let with = App {
        pid: 1,
        name: "Mail".to_string(),
        bundle_id: Some("com.apple.mail".to_string()),
        policy: Policy::Regular,
    };
    assert_eq!(keep_key(&with), "com.apple.mail");
    let without = App {
        pid: 2,
        name: "Tool".to_string(),
        bundle_id: None,
        policy: Policy::Regular,
    };
    assert_eq!(keep_key(&without), "Tool");
}

#[test]
fn default_config_keeps_nothing() {
    let cfg = Config::default();
    assert!(cfg.keep.is_empty());
    assert_eq!(cfg.timeout, None);
    assert_eq!(cfg.force_after, None);
    assert!(!cfg.include_accessory);
}

#[test]
fn keep_array_holds_the_list() {
    match keep_array(&["A".to_string(), "C".to_string()]) {
        ConfigValue::List(v) => assert_eq!(v, ["A", "C"]),
        ConfigValue::Flag(_) => panic!("expected a list"),
    }
}

#[test]
fn set_preserves_comments_and_other_keys() {
    let text = "# my notes\nkeep = [\"A\"] # inline\ntimeout = 9\n";
    let text = set_in_text(text, "keep", &keep_array(&["A".into(), "C".into()])).unwrap();
    let text = set_in_text(&text, "include_accessory", &ConfigValue::Flag(true)).unwrap();

    assert!(text.starts_with("# my notes\n"), "{text}");
    assert!(text.contains("# inline"), "{text}");
    assert!(text.contains("timeout = 9"), "{text}");
    let cfg: toml::Table = toml::from_str(&text).unwrap();
    let keep: Vec<&str> = cfg["keep"]
        .as_array()
        .unwrap()
        .iter()
        .map(|v| v.as_str().unwrap())
        .collect();
    assert_eq!(keep, ["A", "C"]);
    assert_eq!(cfg["include_accessory"].as_bool(), Some(true));
}

#[test]
fn set_creates_missing_file() {
    let text = set_in_text("", "keep", &keep_array(&[])).unwrap();
    assert_eq!(text, "keep = []\n");
}

#[test]
fn set_rejects_text_that_is_not_toml() {
    assert!(set_in_text("keep = [", "keep", &keep_array(&[])).is_err());
}

#[test]
fn set_keeps_spacing_and_comment_of_replaced_value() {
    let text = "keep = [\"A\"] # inline\ntimeout = 9\n";
    let out = set_in_text(text, "keep", &keep_array(&["A".into(), "C".into()])).unwrap();
    assert_eq!(out, "keep = [\"A\", \"C\"] # inline\ntimeout = 9\n");
    let again = set_in_text(&out, "keep", &keep_array(&["A".into(), "C".into()])).unwrap();
    assert_eq!(again, out);
}

#[test]
fn set_appends_a_new_key() {
    let out = set_in_text("timeout = 9\n", "include_accessory", &ConfigValue::Flag(false)).unwrap();
    assert_eq!(out, "timeout = 9\ninclude_accessory = false\n");
}

#[test]
fn set_keeps_other_tables_and_comment_lines() {
    let text = "# top\ntimeout = 9 # seconds\n\n[extra]\nx = 1\n";
    let out = set_in_text(text, "timeout", &ConfigValue::Flag(true)).unwrap();
    assert_eq!(out, "# top\ntimeout = true # seconds\n\n[extra]\nx = 1\n");
}
