use whale::config::{read_config, update_config};

#[test]
fn missing_key_returns_default_when_file_absent() {
    assert_eq!(read_config(None, "missing_key", "default"), "default");
}

#[test]
fn missing_key_returns_default_when_file_empty() {
    assert_eq!(read_config(Some(""), "missing_key", "default"), "default");
}

#[test]
fn missing_key_returns_default_when_file_malformed() {
    assert_eq!(read_config(Some("a: [unclosed"), "missing_key", "default"), "default");
    assert_eq!(read_config(Some(":\n:::"), "missing_key", "default"), "default");
}

#[test]
fn missing_key_returns_default_when_other_keys_exist() {
    assert_eq!(read_config(Some("a: 1\nb: two\n"), "missing_key", "default"), "default");
}

#[test]
fn scalars_coerce_to_their_string_form() {
    let text = "is_git_etl_enabled: true\npython3_alias: python3.9\nretries: 7\n";
    assert_eq!(read_config(Some(text), "is_git_etl_enabled", "false"), "true");
    assert_eq!(read_config(Some(text), "python3_alias", "python3"), "python3.9");
    assert_eq!(read_config(Some(text), "retries", "0"), "7");
}

#[test]
fn non_scalar_value_falls_back_to_default() {
    let text = "nested:\n  a: 1\n";
    assert_eq!(read_config(Some(text), "nested", "default"), "default");
}

#[test]
fn two_updates_keep_both_keys() {
    let first = update_config("", &vec![("a".to_string(), "1".to_string())]);
    let second = update_config(&first, &vec![("b".to_string(), "2".to_string())]);
    assert_eq!(read_config(Some(&second), "a", "default"), "1");
    assert_eq!(read_config(Some(&second), "b", "default"), "2");
}

#[test]
fn update_preserves_unknown_keys() {
    let text = "keep: 7\npreview_command: less\n";
    let updated = update_config(text, &vec![("a".to_string(), "1".to_string())]);
    assert_eq!(read_config(Some(&updated), "keep", "default"), "7");
    assert_eq!(read_config(Some(&updated), "preview_command", ""), "less");
    assert_eq!(read_config(Some(&updated), "a", "default"), "1");
}

#[test]
fn update_overwrites_existing_keys() {
    let first = update_config("", &vec![("a".to_string(), "1".to_string())]);
    let second = update_config(&first, &vec![("a".to_string(), "2".to_string())]);
    assert_eq!(read_config(Some(&second), "a", "default"), "2");
}

#[test]
fn update_starts_from_empty_mapping_on_corrupt_file() {
    let updated = update_config("a: [unclosed", &vec![("b".to_string(), "2".to_string())]);
    assert_eq!(read_config(Some(&updated), "b", "default"), "2");
    assert_eq!(read_config(Some(&updated), "a", "default"), "default");
}
