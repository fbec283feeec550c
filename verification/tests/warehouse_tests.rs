use whale::prompt::{get_input_as_bool, parse_bool_str};
use whale::source_kind::MetadataSource;
use whale::strutil::{deduplicate_lines, i32_to_string, parse_i32, parse_u32, trimmed};
use whale::warehouse::{get_name, optional_field, Bigquery, GitServer};

#[test]
fn optional_fields_treat_blank_as_absent() {
    assert_eq!(optional_field(String::new()), None);
    assert_eq!(optional_field("reader".to_string()), Some("reader".to_string()));
}

#[test]
fn connection_name_uses_trimmed_input_or_a_generated_name() {
    assert_eq!(get_name("  bq-1  "), "bq-1");
    assert_eq!(get_name("bq-1"), "bq-1");
    let generated = get_name("");
    assert!(!generated.is_empty());
    let generated_from_blank = get_name("   ");
    assert!(!generated_from_blank.is_empty());
}

#[test]
fn credential_method_selector_accepts_only_the_two_methods() {
    assert!(Bigquery::is_valid_credential_method(1));
    assert!(Bigquery::is_valid_credential_method(2));
    assert!(!Bigquery::is_valid_credential_method(0));
    assert!(!Bigquery::is_valid_credential_method(3));
}

#[test]
fn credential_choice_populates_exactly_one_source() {
    let env = Some("/env/creds.json".to_string());
    let (k, p) = Bigquery::choose_credentials(env.clone(), true, 0, String::new());
    assert_eq!(k, env);
    assert_eq!(p, None);

    let (k, p) = Bigquery::choose_credentials(None, false, 1, "/path.json".to_string());
    assert_eq!(k, Some("/path.json".to_string()));
    assert_eq!(p, None);

    let (k, p) = Bigquery::choose_credentials(None, false, 2, "rawkey".to_string());
    assert_eq!(k, None);
    assert_eq!(p, Some("rawkey".to_string()));

    let (k, p) = Bigquery::choose_credentials(None, false, 9, "ignored".to_string());
    assert_eq!(k, None);
    assert_eq!(p, None);
}

#[test]
fn git_server_default_is_the_marker_record() {
    let g = GitServer::default();
    assert_eq!(g.metadata_source, MetadataSource::GitServer);
    assert_eq!(g.uri, "None");
}

#[test]
fn yes_no_answers_default_to_assent() {
    assert!(get_input_as_bool(""));
    assert!(get_input_as_bool("y"));
    assert!(get_input_as_bool("Y"));
    assert!(get_input_as_bool("anything"));
    assert!(!get_input_as_bool("n"));
    assert!(!get_input_as_bool("N"));
    assert!(!get_input_as_bool("f"));
    assert!(!get_input_as_bool("false"));
    assert!(!get_input_as_bool("False"));
    assert!(!get_input_as_bool("  n  "));
}

#[test]
fn stored_flags_parse_strictly() {
    assert_eq!(parse_bool_str("true"), Some(true));
    assert_eq!(parse_bool_str("false"), Some(false));
    assert_eq!(parse_bool_str("True"), None);
    assert_eq!(parse_bool_str(""), None);
}

#[test]
fn integers_print_and_parse_exactly() {
    assert_eq!(i32_to_string(0), "0");
    assert_eq!(i32_to_string(5432), "5432");
    assert_eq!(i32_to_string(-17), "-17");
    assert_eq!(i32_to_string(i32::MAX), "2147483647");
    assert_eq!(i32_to_string(i32::MIN), "-2147483648");
    assert_eq!(parse_i32("5432"), Some(5432));
    assert_eq!(parse_i32("-2147483648"), Some(i32::MIN));
    assert_eq!(parse_i32("2147483648"), None);
    assert_eq!(parse_i32("12a"), None);
    assert_eq!(parse_i32(""), None);
    assert_eq!(parse_u32("4294967295"), Some(u32::MAX));
    assert_eq!(parse_u32("4294967296"), None);
    assert_eq!(parse_u32("007"), Some(7));
}

#[test]
fn manifest_deduplication_sorts_and_removes_repeats() {
    assert_eq!(
        deduplicate_lines("orders\ncustomers\norders\naccounts\ncustomers\n"),
        "accounts\ncustomers\norders\n"
    );
    assert_eq!(deduplicate_lines(""), "");
    assert_eq!(deduplicate_lines("one"), "one\n");
}

#[test]
fn trimming_removes_surrounding_blanks_only() {
    assert_eq!(trimmed("  a b \t\n"), "a b");
    assert_eq!(trimmed(""), "");
    assert_eq!(trimmed("x"), "x");
}
