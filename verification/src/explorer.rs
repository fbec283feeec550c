//! The manifest-driven explorer's pure decisions: which browsing list to
//! show, which preview argument and command to use, and how a selected
//! table maps to its documentation file.

use vstd::prelude::*;

use crate::strutil::{split_sep, split_sep_spec};

verus! {

/// The block shown in place of a preview when no manifest exists yet.
pub fn no_manifest_placeholder() -> (r: &'static str)
    ensures
        r@ == no_manifest_placeholder_view(),
{
    "<< EOF
___=____
,^        ^.      _
|  x        |____| |
~^~^~^~^~^~^~^~^~^~^~^~

\u{201c}It is not down on any map; true places never are.\u{201d}

No table manifest found.

This probably means either:

(a) You have not initialized whale yet.
 Run 'wh init'.

(b) You have not run your first scraping job.
 Run 'wh pull' or wait for your cron job to run.

Good luck, and happy whaling!"
}

/// The placeholder's text.
pub open spec fn no_manifest_placeholder_view() -> Seq<char> {
    "<< EOF
___=____
,^        ^.      _
|  x        |____| |
~^~^~^~^~^~^~^~^~^~^~^~

\u{201c}It is not down on any map; true places never are.\u{201d}

No table manifest found.

This probably means either:

(a) You have not initialized whale yet.
 Run 'wh init'.

(b) You have not run your first scraping job.
 Run 'wh pull' or wait for your cron job to run.

Good luck, and happy whaling!"@
}

/// The preview-argument template for a manifest: the documentation file
/// of the selector's per-item token.
pub open spec fn preview_template_spec(metadata_dirname: Seq<char>) -> Seq<char> {
    metadata_dirname + "/{}.md"@
}

/// Resolves the browsing list and preview argument, first match winning:
/// the primary manifest's contents, else the temporary manifest's, else a
/// fixed "no tables" marker with the placeholder block.
pub fn get_manifest_and_preview_arg(
    manifest: Option<String>,
    tmp_manifest: Option<String>,
    metadata_dirname: &str,
) -> (r: (String, String))
    ensures
        manifest matches Some(m) ==> r.0@ == m@ && r.1@ == preview_template_spec(
            metadata_dirname@,
        ),
        manifest is None ==> (tmp_manifest matches Some(m) ==> r.0@ == m@ && r.1@
            == preview_template_spec(metadata_dirname@)),
        manifest is None && tmp_manifest is None ==> r.0@ == "No tables found."@ && r.1@
            == no_manifest_placeholder_view(),
{
    let mut markdown_path = metadata_dirname.to_owned();
    markdown_path.append("/{}.md");
    match manifest {
        Some(m) => (m, markdown_path),
        None => match tmp_manifest {
            Some(m) => (m, markdown_path),
            None => (
                String::from_str("No tables found."),
                String::from_str(no_manifest_placeholder()),
            ),
        },
    }
}

/// Resolves the preview reader: a non-empty configured command wins;
/// otherwise the syntax-highlighting pager when installed, else plain
/// concatenation.
pub fn resolve_preview_reader(custom_preview_command: &str, bat_installed: bool) -> (r: String)
    ensures
        custom_preview_command@.len() > 0 ==> r@ == custom_preview_command@,
        custom_preview_command@.len() == 0 && bat_installed ==> r@
            == "bat --color=always --style='changes'"@,
        custom_preview_command@.len() == 0 && !bat_installed ==> r@ == "cat"@,
{
    if custom_preview_command.unicode_len() > 0 {
        custom_preview_command.to_owned()
    } else if bat_installed {
        String::from_str("bat --color=always --style='changes'")
    } else {
        String::from_str("cat")
    }
}

/// The full preview command: the reader, one space, the preview argument.
pub fn build_preview_command(reader: &str, preview_arg: &str) -> (r: String)
    ensures
        r@ == reader@ + " "@ + preview_arg@,
{
    let mut r = reader.to_owned();
    r.append(" ");
    r.append(preview_arg);
    r
}

/// The browsing list: the manifest's lines, in order.
pub fn browsing_list(table_manifest: &str) -> (r: Vec<String>)
    ensures
        r.deep_view() == split_sep_spec(table_manifest@, '\n'),
{
    split_sep(table_manifest, '\n')
}

/// Maps a selected table label to its documentation file.
pub fn convert_table_name_to_file_name(metadata_dirname: &str, table_name: &str) -> (r: String)
    ensures
        r@ == metadata_dirname@ + "/"@ + table_name@ + ".md"@,
{
    let mut r = metadata_dirname.to_owned();
    r.append("/");
    r.append(table_name);
    r.append(".md");
    r
}

} // verus!
