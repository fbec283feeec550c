use whale::explorer::{
    browsing_list, build_preview_command, convert_table_name_to_file_name,
    get_manifest_and_preview_arg, no_manifest_placeholder, resolve_preview_reader,
};
use whale::paths::{get_base_dirname, get_metadata_dirname};

#[test]
fn tmp_manifest_alone_drives_the_browsing_list() {
    let (list, preview_arg) = get_manifest_and_preview_arg(
        None,
        Some("orders\ncustomers".to_string()),
        "/home/u/.whale/metadata",
    );
    assert_eq!(browsing_list(&list), vec!["orders".to_string(), "customers".to_string()]);
    assert_eq!(preview_arg, "/home/u/.whale/metadata/{}.md");
}

#[test]
fn primary_manifest_wins_over_tmp_manifest() {
    let (list, preview_arg) = get_manifest_and_preview_arg(
        Some("a\nb\n".to_string()),
        Some("c\n".to_string()),
        "/md",
    );
    assert_eq!(list, "a\nb\n");
    assert_eq!(browsing_list(&list), vec!["a".to_string(), "b".to_string()]);
    assert_eq!(preview_arg, "/md/{}.md");
}

#[test]
fn no_manifest_yields_the_fixed_placeholder() {
    let (list, preview_arg) = get_manifest_and_preview_arg(None, None, "/md");
    assert_eq!(list, "No tables found.");
    assert_eq!(preview_arg, no_manifest_placeholder());
    assert!(preview_arg.contains("No table manifest found."));
    assert!(preview_arg.contains("Good luck, and happy whaling!"));
}

#[test]
fn preview_reader_resolution_chain() {
    assert_eq!(resolve_preview_reader("less -R", true), "less -R");
    assert_eq!(resolve_preview_reader("less -R", false), "less -R");
    assert_eq!(resolve_preview_reader("", true), "bat --color=always --style='changes'");
    assert_eq!(resolve_preview_reader("", false), "cat");
    assert_eq!(build_preview_command("cat", "/md/{}.md"), "cat /md/{}.md");
}

#[test]
fn test_table_file_name_conversion() {
    let table_name = "hello";
    let actual_file_name = shellexpand::tilde("~/.whale/metadata/hello.md");
    let file_name =
        convert_table_name_to_file_name(&get_metadata_dirname(&get_base_dirname()), table_name);
    assert_eq!(file_name, actual_file_name);
}
