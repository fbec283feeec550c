use whale::paths::{
    get_activate_filename, get_base_dirname, get_bin_dirname, get_build_script_filename,
    get_config_dirname, get_config_filename, get_connections_filename, get_cron_log_filename,
    get_etl_command, get_logs_dirname, get_manifest_dirname, get_manifest_filename,
    get_metadata_dirname, get_metrics_dirname, get_recently_used_filename,
    get_run_script_filename, get_tmp_manifest_filename, get_usage_filename,
    get_whale_binary_filename,
};

#[test]
fn base_dirname_is_the_expanded_home_directory() {
    let base = get_base_dirname();
    assert!(base.ends_with("/.whale"));
    assert_eq!(base, shellexpand::tilde("~/.whale"));
}

#[test]
fn directory_layout_under_the_base() {
    let base = "/home/u/.whale";
    assert_eq!(get_bin_dirname(base), "/home/u/.whale/bin");
    assert_eq!(get_config_dirname(base), "/home/u/.whale/config");
    assert_eq!(get_logs_dirname(base), "/home/u/.whale/logs");
    assert_eq!(get_manifest_dirname(base), "/home/u/.whale/manifests");
    assert_eq!(get_metadata_dirname(base), "/home/u/.whale/metadata");
    assert_eq!(get_metrics_dirname(base), "/home/u/.whale/metrics");
}

#[test]
fn file_names_under_the_layout() {
    let base = "/home/u/.whale";
    assert_eq!(get_config_filename(base), "/home/u/.whale/config/config.yaml");
    assert_eq!(get_connections_filename(base), "/home/u/.whale/config/connections.yaml");
    assert_eq!(get_cron_log_filename(base), "/home/u/.whale/logs/cron.log");
    assert_eq!(get_manifest_filename(base), "/home/u/.whale/manifests/manifest.txt");
    assert_eq!(get_tmp_manifest_filename(base), "/home/u/.whale/manifests/tmp_manifest.txt");
    assert_eq!(get_recently_used_filename(base), "/home/u/.whale/logs/recently_used.txt");
    assert_eq!(get_usage_filename(base), "/home/u/.whale/logs/usage.csv");
    assert_eq!(get_whale_binary_filename(base), "/home/u/.whale/bin/whale");
}

#[test]
fn libexec_file_names() {
    let libexec = "/opt/whale/libexec";
    assert_eq!(get_activate_filename(libexec), "/opt/whale/libexec/env/bin/activate");
    assert_eq!(get_build_script_filename(libexec), "/opt/whale/libexec/build_script.py");
    assert_eq!(get_run_script_filename(libexec), "/opt/whale/libexec/run_script.py");
}

#[test]
fn etl_command_prefers_the_installed_binary() {
    assert_eq!(get_etl_command("/home/u/.whale", true), "/home/u/.whale/bin/whale pull");
    assert_eq!(get_etl_command("/home/u/.whale", false), "wh pull");
}
