//! The fixed directory layout under the user's base directory, and the
//! derived file names.  Callers resolve the base and libexec directories
//! once and pass them in; everything below them is a pure path
//! computation.

use vstd::prelude::*;

verus! {

/// Relies on `shellexpand::tilde`: the leading `~` of the fixed base path
/// is replaced by the home directory when one is known, and the input is
/// returned unchanged otherwise, so the result always ends in `/.whale`.
#[verifier::external_body]
pub fn get_base_dirname() -> (r: String)
    ensures
        exists|h: Seq<char>| r@ == h + "/.whale"@,
{
    shellexpand::tilde("~/.whale").to_string()
}

/// The executables directory.
pub fn get_bin_dirname(base_dirname: &str) -> (r: String)
    ensures
        r@ == base_dirname@ + "/bin"@,
{
    let mut r = base_dirname.to_owned();
    r.append("/bin");
    r
}

/// The configuration directory.
pub fn get_config_dirname(base_dirname: &str) -> (r: String)
    ensures
        r@ == base_dirname@ + "/config"@,
{
    let mut r = base_dirname.to_owned();
    r.append("/config");
    r
}

/// The application config file.
pub fn get_config_filename(base_dirname: &str) -> (r: String)
    ensures
        r@ == base_dirname@ + "/config"@ + "/config.yaml"@,
{
    let mut r = get_config_dirname(base_dirname);
    r.append("/config.yaml");
    r
}

/// The connection log file.
pub fn get_connections_filename(base_dirname: &str) -> (r: String)
    ensures
        r@ == base_dirname@ + "/config"@ + "/connections.yaml"@,
{
    let mut r = get_config_dirname(base_dirname);
    r.append("/connections.yaml");
    r
}

/// The logs directory.
pub fn get_logs_dirname(base_dirname: &str) -> (r: String)
    ensures
        r@ == base_dirname@ + "/logs"@,
{
    let mut r = base_dirname.to_owned();
    r.append("/logs");
    r
}

/// The scheduler's log file.
pub fn get_cron_log_filename(base_dirname: &str) -> (r: String)
    ensures
        r@ == base_dirname@ + "/logs"@ + "/cron.log"@,
{
    let mut r = get_logs_dirname(base_dirname);
    r.append("/cron.log");
    r
}

/// The manifests directory.
pub fn get_manifest_dirname(base_dirname: &str) -> (r: String)
    ensures
        r@ == base_dirname@ + "/manifests"@,
{
    let mut r = base_dirname.to_owned();
    r.append("/manifests");
    r
}

/// The primary manifest file.
pub fn get_manifest_filename(base_dirname: &str) -> (r: String)
    ensures
        r@ == base_dirname@ + "/manifests"@ + "/manifest.txt"@,
{
    let mut r = get_manifest_dirname(base_dirname);
    r.append("/manifest.txt");
    r
}

/// The temporary manifest file.
pub fn get_tmp_manifest_filename(base_dirname: &str) -> (r: String)
    ensures
        r@ == base_dirname@ + "/manifests"@ + "/tmp_manifest.txt"@,
{
    let mut r = get_manifest_dirname(base_dirname);
    r.append("/tmp_manifest.txt");
    r
}

/// The per-table documentation directory.
pub fn get_metadata_dirname(base_dirname: &str) -> (r: String)
    ensures
        r@ == base_dirname@ + "/metadata"@,
{
    let mut r = base_dirname.to_owned();
    r.append("/metadata");
    r
}

/// The metrics directory.
pub fn get_metrics_dirname(base_dirname: &str) -> (r: String)
    ensures
        r@ == base_dirname@ + "/metrics"@,
{
    let mut r = base_dirname.to_owned();
    r.append("/metrics");
    r
}

/// The recently-used log file.
pub fn get_recently_used_filename(base_dirname: &str) -> (r: String)
    ensures
        r@ == base_dirname@ + "/logs"@ + "/recently_used.txt"@,
{
    let mut r = get_logs_dirname(base_dirname);
    r.append("/recently_used.txt");
    r
}

/// The usage record file.
pub fn get_usage_filename(base_dirname: &str) -> (r: String)
    ensures
        r@ == base_dirname@ + "/logs"@ + "/usage.csv"@,
{
    let mut r = get_logs_dirname(base_dirname);
    r.append("/usage.csv");
    r
}

/// The virtual environment's activation script, under libexec.
pub fn get_activate_filename(libexec_dirname: &str) -> (r: String)
    ensures
        r@ == libexec_dirname@ + "/env/bin/activate"@,
{
    let mut r = libexec_dirname.to_owned();
    r.append("/env/bin/activate");
    r
}

/// The extraction script, under libexec.
pub fn get_build_script_filename(libexec_dirname: &str) -> (r: String)
    ensures
        r@ == libexec_dirname@ + "/build_script.py"@,
{
    let mut r = libexec_dirname.to_owned();
    r.append("/build_script.py");
    r
}

/// The query-runner script, under libexec.
pub fn get_run_script_filename(libexec_dirname: &str) -> (r: String)
    ensures
        r@ == libexec_dirname@ + "/run_script.py"@,
{
    let mut r = libexec_dirname.to_owned();
    r.append("/run_script.py");
    r
}

/// The installed binary whose presence selects the scheduled command.
pub fn get_whale_binary_filename(base_dirname: &str) -> (r: String)
    ensures
        r@ == base_dirname@ + "/bin/whale"@,
{
    let mut r = base_dirname.to_owned();
    r.append("/bin/whale");
    r
}

/// The command a cron job runs: the installed binary when present, the
/// short alias otherwise.  The caller reports whether the binary exists.
pub fn get_etl_command(base_dirname: &str, whale_binary_exists: bool) -> (r: String)
    ensures
        whale_binary_exists ==> r@ == base_dirname@ + "/bin/whale"@ + " pull"@,
        !whale_binary_exists ==> r@ == "wh pull"@,
{
    if whale_binary_exists {
        let mut r = get_whale_binary_filename(base_dirname);
        r.append(" pull");
        r
    } else {
        String::from_str("wh pull")
    }
}

} // verus!
