//! Connection records: one immutable variant record per source kind, each
//! serialized once into the connection log and never mutated in place.

use vstd::prelude::*;

use crate::document::{emit_document, emit_document_spec, log_entry, log_entry_spec, wf_doc,
    wf_field};
use crate::source_kind::MetadataSource;
use crate::strutil::{dec_int, i32_to_string, is_digit, lemma_parse_i32_round, parse_i32,
    parse_i32_spec, str_eq};

verus! {

/// A key the serializer writes: non-empty, no `:`, no line break.
pub open spec fn wf_key(k: Seq<char>) -> bool {
    k.len() > 0 && !k.contains(':') && !k.contains('\n')
}

/// How an optional text field is rendered: `~` when absent, the text
/// itself when present.
pub open spec fn opt_view(o: Option<String>) -> Seq<char> {
    match o {
        Some(s) => s@,
        None => seq!['~'],
    }
}

/// An optional field that renders unambiguously: present text has no line
/// break and is not the absent marker itself.
pub open spec fn valid_opt(o: Option<String>) -> bool {
    match o {
        Some(s) => !s@.contains('\n') && s@ != seq!['~'],
        None => true,
    }
}

/// Renders an optional field.
pub fn opt_field(o: &Option<String>) -> (r: String)
    ensures
        r@ == opt_view(*o),
{
    match o {
        Some(s) => s.clone(),
        None => {
            proof {
                reveal_strlit("~");
                assert("~"@ =~= seq!['~']);
            }
            String::from_str("~")
        },
    }
}

/// Turns blank input into an absent optional field, as the interactive
/// prompts do.
pub fn optional_field(input: String) -> (r: Option<String>)
    ensures
        input@.len() == 0 ==> r is None,
        input@.len() > 0 ==> (r matches Some(s) && s@ == input@),
{
    if input.unicode_len() == 0 {
        None
    } else {
        Some(input)
    }
}

/// No serialization tag contains a line break.
pub proof fn lemma_tags_no_newline(k: MetadataSource)
    ensures
        !k.tag_spec().contains('\n'),
        k.tag_spec().len() > 0,
{
    reveal_strlit("Bigquery");
    reveal_strlit("GitServer");
    reveal_strlit("Glue");
    reveal_strlit("Hive");
    reveal_strlit("HiveMetastore");
    reveal_strlit("Postgres");
    reveal_strlit("Presto");
    reveal_strlit("Redshift");
    reveal_strlit("Snowflake");
    reveal_strlit("AmundsenNeo4j");
    reveal_strlit("BuildScript");
    let t = k.tag_spec();
    assert forall|j: int| 0 <= j < t.len() implies t[j] != '\n' by {
        match k {
            MetadataSource::Bigquery => {
                assert("Bigquery"@[0] == 'B' && "Bigquery"@[1] == 'i' && "Bigquery"@[2] == 'g'
                    && "Bigquery"@[3] == 'q' && "Bigquery"@[4] == 'u' && "Bigquery"@[5] == 'e'
                    && "Bigquery"@[6] == 'r' && "Bigquery"@[7] == 'y');
            },
            MetadataSource::GitServer => {
                assert("GitServer"@[0] == 'G' && "GitServer"@[1] == 'i' && "GitServer"@[2] == 't'
                    && "GitServer"@[3] == 'S' && "GitServer"@[4] == 'e' && "GitServer"@[5] == 'r'
                    && "GitServer"@[6] == 'v' && "GitServer"@[7] == 'e' && "GitServer"@[8] == 'r');
            },
            MetadataSource::Glue => {
                assert("Glue"@[0] == 'G' && "Glue"@[1] == 'l' && "Glue"@[2] == 'u' && "Glue"@[3]
                    == 'e');
            },
            MetadataSource::Hive => {
                assert("Hive"@[0] == 'H' && "Hive"@[1] == 'i' && "Hive"@[2] == 'v' && "Hive"@[3]
                    == 'e');
            },
            MetadataSource::HiveMetastore => {
                assert("HiveMetastore"@[0] == 'H' && "HiveMetastore"@[1] == 'i'
                    && "HiveMetastore"@[2] == 'v' && "HiveMetastore"@[3] == 'e'
                    && "HiveMetastore"@[4] == 'M' && "HiveMetastore"@[5] == 'e'
                    && "HiveMetastore"@[6] == 't' && "HiveMetastore"@[7] == 'a'
                    && "HiveMetastore"@[8] == 's' && "HiveMetastore"@[9] == 't'
                    && "HiveMetastore"@[10] == 'o' && "HiveMetastore"@[11] == 'r'
                    && "HiveMetastore"@[12] == 'e');
            },
            MetadataSource::Postgres => {
                assert("Postgres"@[0] == 'P' && "Postgres"@[1] == 'o' && "Postgres"@[2] == 's'
                    && "Postgres"@[3] == 't' && "Postgres"@[4] == 'g' && "Postgres"@[5] == 'r'
                    && "Postgres"@[6] == 'e' && "Postgres"@[7] == 's');
            },
            MetadataSource::Presto => {
                assert("Presto"@[0] == 'P' && "Presto"@[1] == 'r' && "Presto"@[2] == 'e'
                    && "Presto"@[3] == 's' && "Presto"@[4] == 't' && "Presto"@[5] == 'o');
            },
            MetadataSource::Redshift => {
                assert("Redshift"@[0] == 'R' && "Redshift"@[1] == 'e' && "Redshift"@[2] == 'd'
                    && "Redshift"@[3] == 's' && "Redshift"@[4] == 'h' && "Redshift"@[5] == 'i'
                    && "Redshift"@[6] == 'f' && "Redshift"@[7] == 't');
            },
            MetadataSource::Snowflake => {
                assert("Snowflake"@[0] == 'S' && "Snowflake"@[1] == 'n' && "Snowflake"@[2] == 'o'
                    && "Snowflake"@[3] == 'w' && "Snowflake"@[4] == 'f' && "Snowflake"@[5] == 'l'
                    && "Snowflake"@[6] == 'a' && "Snowflake"@[7] == 'k' && "Snowflake"@[8] == 'e');
            },
            MetadataSource::AmundsenNeo4j => {
                assert("AmundsenNeo4j"@[0] == 'A' && "AmundsenNeo4j"@[1] == 'm'
                    && "AmundsenNeo4j"@[2] == 'u' && "AmundsenNeo4j"@[3] == 'n'
                    && "AmundsenNeo4j"@[4] == 'd' && "AmundsenNeo4j"@[5] == 's'
                    && "AmundsenNeo4j"@[6] == 'e' && "AmundsenNeo4j"@[7] == 'n'
                    && "AmundsenNeo4j"@[8] == 'N' && "AmundsenNeo4j"@[9] == 'e'
                    && "AmundsenNeo4j"@[10] == 'o' && "AmundsenNeo4j"@[11] == '4'
                    && "AmundsenNeo4j"@[12] == 'j');
            },
            MetadataSource::BuildScript => {
                assert("BuildScript"@[0] == 'B' && "BuildScript"@[1] == 'u' && "BuildScript"@[2]
                    == 'i' && "BuildScript"@[3] == 'l' && "BuildScript"@[4] == 'd'
                    && "BuildScript"@[5] == 'S' && "BuildScript"@[6] == 'c' && "BuildScript"@[7]
                    == 'r' && "BuildScript"@[8] == 'i' && "BuildScript"@[9] == 'p'
                    && "BuildScript"@[10] == 't');
            },
        }
    }
}

/// A decimal rendering holds only digits and a possible leading sign,
/// never a line break.
pub proof fn lemma_dec_int_no_newline(n: int)
    ensures
        !dec_int(n).contains('\n'),
{
    let m = if n >= 0 {
        n
    } else {
        -n
    };
    lemma_dec_digits_no_newline(m);
    if n < 0 {
        let s = dec_int(n);
        assert forall|j: int| 0 <= j < s.len() implies s[j] != '\n' by {
            if j == 0 {
                assert(s[0] == '-');
            } else {
                assert(s[j] == dec_digits_at(m, j - 1));
            }
        }
        if s.contains('\n') {
            let j = choose|j: int| 0 <= j < s.len() && s[j] == '\n';
        }
    }
}

/// Helper naming the characters of `dec_digits`.
spec fn dec_digits_at(n: int, j: int) -> char {
    crate::strutil::dec_digits(n)[j]
}

proof fn lemma_dec_digits_no_newline(n: int)
    requires
        n >= 0,
    ensures
        !crate::strutil::dec_digits(n).contains('\n'),
        forall|j: int|
            0 <= j < crate::strutil::dec_digits(n).len() ==> is_digit(
                #[trigger] crate::strutil::dec_digits(n)[j],
            ),
    decreases n,
{
    let s = crate::strutil::dec_digits(n);
    if n < 10 {
        assert(s[0] == crate::strutil::digit_char(n));
        assert(is_digit(crate::strutil::digit_char(n)));
    } else {
        lemma_dec_digits_no_newline(n / 10);
        let p = crate::strutil::dec_digits(n / 10);
        assert forall|j: int| 0 <= j < s.len() implies is_digit(#[trigger] s[j]) by {
            if j < p.len() {
                assert(s[j] == p[j]);
            } else {
                assert(s[j] == crate::strutil::digit_char(n % 10));
            }
        }
    }
    if s.contains('\n') {
        let j = choose|j: int| 0 <= j < s.len() && s[j] == '\n';
        assert(is_digit(s[j]));
    }
}

/// Every field key the record serializers write is a well-formed key.
pub proof fn lemma_record_keys_wf()
    ensures
        wf_key("name"@),
        wf_key("metadata_source"@),
        wf_key("uri"@),
        wf_key("port"@),
        wf_key("username"@),
        wf_key("password"@),
        wf_key("cluster"@),
        wf_key("dialect"@),
        wf_key("database"@),
        wf_key("account"@),
        wf_key("key_path"@),
        wf_key("project_credentials"@),
        wf_key("project_id"@),
        wf_key("build_script_path"@),
        wf_key("venv_path"@),
        wf_key("python_binary_path"@),
{
    reveal_strlit("name");
    reveal_strlit("metadata_source");
    reveal_strlit("uri");
    reveal_strlit("port");
    reveal_strlit("username");
    reveal_strlit("password");
    reveal_strlit("cluster");
    reveal_strlit("dialect");
    reveal_strlit("database");
    reveal_strlit("account");
    reveal_strlit("key_path");
    reveal_strlit("project_credentials");
    reveal_strlit("project_id");
    reveal_strlit("build_script_path");
    reveal_strlit("venv_path");
    assert("name"@.len() == 4);
    assert forall|j: int| 0 <= j < "name"@.len() implies "name"@[j] != ':' && "name"@[j]
        != '\n' by {
        assert("name"@[0] == 'n' && "name"@[1] == 'a' && "name"@[2] == 'm' && "name"@[3] == 'e');
    }
    assert(wf_key("name"@)) by {
        if "name"@.contains(':') {
            let j = choose|j: int| 0 <= j < "name"@.len() && "name"@[j] == ':';
        }
        if "name"@.contains('\n') {
            let j = choose|j: int| 0 <= j < "name"@.len() && "name"@[j] == '\n';
        }
    }
    assert("metadata_source"@.len() == 15);
    assert forall|j: int| 0 <= j < "metadata_source"@.len() implies "metadata_source"@[j] != ':' && "metadata_source"@[j]
        != '\n' by {
        assert("metadata_source"@[0] == 'm' && "metadata_source"@[1] == 'e' && "metadata_source"@[2] == 't' && "metadata_source"@[3] == 'a' && "metadata_source"@[4] == 'd' && "metadata_source"@[5] == 'a' && "metadata_source"@[6] == 't' && "metadata_source"@[7] == 'a' && "metadata_source"@[8] == '_' && "metadata_source"@[9] == 's' && "metadata_source"@[10] == 'o' && "metadata_source"@[11] == 'u' && "metadata_source"@[12] == 'r' && "metadata_source"@[13] == 'c' && "metadata_source"@[14] == 'e');
    }
    assert(wf_key("metadata_source"@)) by {
        if "metadata_source"@.contains(':') {
            let j = choose|j: int| 0 <= j < "metadata_source"@.len() && "metadata_source"@[j] == ':';
        }
        if "metadata_source"@.contains('\n') {
            let j = choose|j: int| 0 <= j < "metadata_source"@.len() && "metadata_source"@[j] == '\n';
        }
    }
    assert("uri"@.len() == 3);
    assert forall|j: int| 0 <= j < "uri"@.len() implies "uri"@[j] != ':' && "uri"@[j]
        != '\n' by {
        assert("uri"@[0] == 'u' && "uri"@[1] == 'r' && "uri"@[2] == 'i');
    }
    assert(wf_key("uri"@)) by {
        if "uri"@.contains(':') {
            let j = choose|j: int| 0 <= j < "uri"@.len() && "uri"@[j] == ':';
        }
        if "uri"@.contains('\n') {
            let j = choose|j: int| 0 <= j < "uri"@.len() && "uri"@[j] == '\n';
        }
    }
    assert("port"@.len() == 4);
    assert forall|j: int| 0 <= j < "port"@.len() implies "port"@[j] != ':' && "port"@[j]
        != '\n' by {
        assert("port"@[0] == 'p' && "port"@[1] == 'o' && "port"@[2] == 'r' && "port"@[3] == 't');
    }
    assert(wf_key("port"@)) by {
        if "port"@.contains(':') {
            let j = choose|j: int| 0 <= j < "port"@.len() && "port"@[j] == ':';
        }
        if "port"@.contains('\n') {
            let j = choose|j: int| 0 <= j < "port"@.len() && "port"@[j] == '\n';
        }
    }
    assert("username"@.len() == 8);
    assert forall|j: int| 0 <= j < "username"@.len() implies "username"@[j] != ':' && "username"@[j]
        != '\n' by {
        assert("username"@[0] == 'u' && "username"@[1] == 's' && "username"@[2] == 'e' && "username"@[3] == 'r' && "username"@[4] == 'n' && "username"@[5] == 'a' && "username"@[6] == 'm' && "username"@[7] == 'e');
    }
    assert(wf_key("username"@)) by {
        if "username"@.contains(':') {
            let j = choose|j: int| 0 <= j < "username"@.len() && "username"@[j] == ':';
        }
        if "username"@.contains('\n') {
            let j = choose|j: int| 0 <= j < "username"@.len() && "username"@[j] == '\n';
        }
    }
    assert("password"@.len() == 8);
    assert forall|j: int| 0 <= j < "password"@.len() implies "password"@[j] != ':' && "password"@[j]
        != '\n' by {
        assert("password"@[0] == 'p' && "password"@[1] == 'a' && "password"@[2] == 's' && "password"@[3] == 's' && "password"@[4] == 'w' && "password"@[5] == 'o' && "password"@[6] == 'r' && "password"@[7] == 'd');
    }
    assert(wf_key("password"@)) by {
        if "password"@.contains(':') {
            let j = choose|j: int| 0 <= j < "password"@.len() && "password"@[j] == ':';
        }
        if "password"@.contains('\n') {
            let j = choose|j: int| 0 <= j < "password"@.len() && "password"@[j] == '\n';
        }
    }
    assert("cluster"@.len() == 7);
    assert forall|j: int| 0 <= j < "cluster"@.len() implies "cluster"@[j] != ':' && "cluster"@[j]
        != '\n' by {
        assert("cluster"@[0] == 'c' && "cluster"@[1] == 'l' && "cluster"@[2] == 'u' && "cluster"@[3] == 's' && "cluster"@[4] == 't' && "cluster"@[5] == 'e' && "cluster"@[6] == 'r');
    }
    assert(wf_key("cluster"@)) by {
        if "cluster"@.contains(':') {
            let j = choose|j: int| 0 <= j < "cluster"@.len() && "cluster"@[j] == ':';
        }
        if "cluster"@.contains('\n') {
            let j = choose|j: int| 0 <= j < "cluster"@.len() && "cluster"@[j] == '\n';
        }
    }
    assert("dialect"@.len() == 7);
    assert forall|j: int| 0 <= j < "dialect"@.len() implies "dialect"@[j] != ':' && "dialect"@[j]
        != '\n' by {
        assert("dialect"@[0] == 'd' && "dialect"@[1] == 'i' && "dialect"@[2] == 'a' && "dialect"@[3] == 'l' && "dialect"@[4] == 'e' && "dialect"@[5] == 'c' && "dialect"@[6] == 't');
    }
    assert(wf_key("dialect"@)) by {
        if "dialect"@.contains(':') {
            let j = choose|j: int| 0 <= j < "dialect"@.len() && "dialect"@[j] == ':';
        }
        if "dialect"@.contains('\n') {
            let j = choose|j: int| 0 <= j < "dialect"@.len() && "dialect"@[j] == '\n';
        }
    }
    assert("database"@.len() == 8);
    assert forall|j: int| 0 <= j < "database"@.len() implies "database"@[j] != ':' && "database"@[j]
        != '\n' by {
        assert("database"@[0] == 'd' && "database"@[1] == 'a' && "database"@[2] == 't' && "database"@[3] == 'a' && "database"@[4] == 'b' && "database"@[5] == 'a' && "database"@[6] == 's' && "database"@[7] == 'e');
    }
    assert(wf_key("database"@)) by {
        if "database"@.contains(':') {
            let j = choose|j: int| 0 <= j < "database"@.len() && "database"@[j] == ':';
        }
        if "database"@.contains('\n') {
            let j = choose|j: int| 0 <= j < "database"@.len() && "database"@[j] == '\n';
        }
    }
    assert("account"@.len() == 7);
    assert forall|j: int| 0 <= j < "account"@.len() implies "account"@[j] != ':' && "account"@[j]
        != '\n' by {
        assert("account"@[0] == 'a' && "account"@[1] == 'c' && "account"@[2] == 'c' && "account"@[3] == 'o' && "account"@[4] == 'u' && "account"@[5] == 'n' && "account"@[6] == 't');
    }
    assert(wf_key("account"@)) by {
        if "account"@.contains(':') {
            let j = choose|j: int| 0 <= j < "account"@.len() && "account"@[j] == ':';
        }
        if "account"@.contains('\n') {
            let j = choose|j: int| 0 <= j < "account"@.len() && "account"@[j] == '\n';
        }
    }
    assert("key_path"@.len() == 8);
    assert forall|j: int| 0 <= j < "key_path"@.len() implies "key_path"@[j] != ':' && "key_path"@[j]
        != '\n' by {
        assert("key_path"@[0] == 'k' && "key_path"@[1] == 'e' && "key_path"@[2] == 'y' && "key_path"@[3] == '_' && "key_path"@[4] == 'p' && "key_path"@[5] == 'a' && "key_path"@[6] == 't' && "key_path"@[7] == 'h');
    }
    assert(wf_key("key_path"@)) by {
        if "key_path"@.contains(':') {
            let j = choose|j: int| 0 <= j < "key_path"@.len() && "key_path"@[j] == ':';
        }
        if "key_path"@.contains('\n') {
            let j = choose|j: int| 0 <= j < "key_path"@.len() && "key_path"@[j] == '\n';
        }
    }
    assert("project_credentials"@.len() == 19);
    assert forall|j: int| 0 <= j < "project_credentials"@.len() implies "project_credentials"@[j] != ':' && "project_credentials"@[j]
        != '\n' by {
        assert("project_credentials"@[0] == 'p' && "project_credentials"@[1] == 'r' && "project_credentials"@[2] == 'o' && "project_credentials"@[3] == 'j' && "project_credentials"@[4] == 'e' && "project_credentials"@[5] == 'c' && "project_credentials"@[6] == 't' && "project_credentials"@[7] == '_' && "project_credentials"@[8] == 'c' && "project_credentials"@[9] == 'r' && "project_credentials"@[10] == 'e' && "project_credentials"@[11] == 'd' && "project_credentials"@[12] == 'e' && "project_credentials"@[13] == 'n' && "project_credentials"@[14] == 't' && "project_credentials"@[15] == 'i' && "project_credentials"@[16] == 'a' && "project_credentials"@[17] == 'l' && "project_credentials"@[18] == 's');
    }
    assert(wf_key("project_credentials"@)) by {
        if "project_credentials"@.contains(':') {
            let j = choose|j: int| 0 <= j < "project_credentials"@.len() && "project_credentials"@[j] == ':';
        }
        if "project_credentials"@.contains('\n') {
            let j = choose|j: int| 0 <= j < "project_credentials"@.len() && "project_credentials"@[j] == '\n';
        }
    }
    assert("project_id"@.len() == 10);
    assert forall|j: int| 0 <= j < "project_id"@.len() implies "project_id"@[j] != ':' && "project_id"@[j]
        != '\n' by {
        assert("project_id"@[0] == 'p' && "project_id"@[1] == 'r' && "project_id"@[2] == 'o' && "project_id"@[3] == 'j' && "project_id"@[4] == 'e' && "project_id"@[5] == 'c' && "project_id"@[6] == 't' && "project_id"@[7] == '_' && "project_id"@[8] == 'i' && "project_id"@[9] == 'd');
    }
    assert(wf_key("project_id"@)) by {
        if "project_id"@.contains(':') {
            let j = choose|j: int| 0 <= j < "project_id"@.len() && "project_id"@[j] == ':';
        }
        if "project_id"@.contains('\n') {
            let j = choose|j: int| 0 <= j < "project_id"@.len() && "project_id"@[j] == '\n';
        }
    }
    assert("build_script_path"@.len() == 17);
    assert forall|j: int| 0 <= j < "build_script_path"@.len() implies "build_script_path"@[j] != ':' && "build_script_path"@[j]
        != '\n' by {
        assert("build_script_path"@[0] == 'b' && "build_script_path"@[1] == 'u' && "build_script_path"@[2] == 'i' && "build_script_path"@[3] == 'l' && "build_script_path"@[4] == 'd' && "build_script_path"@[5] == '_' && "build_script_path"@[6] == 's' && "build_script_path"@[7] == 'c' && "build_script_path"@[8] == 'r' && "build_script_path"@[9] == 'i' && "build_script_path"@[10] == 'p' && "build_script_path"@[11] == 't' && "build_script_path"@[12] == '_' && "build_script_path"@[13] == 'p' && "build_script_path"@[14] == 'a' && "build_script_path"@[15] == 't' && "build_script_path"@[16] == 'h');
    }
    assert(wf_key("build_script_path"@)) by {
        if "build_script_path"@.contains(':') {
            let j = choose|j: int| 0 <= j < "build_script_path"@.len() && "build_script_path"@[j] == ':';
        }
        if "build_script_path"@.contains('\n') {
            let j = choose|j: int| 0 <= j < "build_script_path"@.len() && "build_script_path"@[j] == '\n';
        }
    }
    assert("venv_path"@.len() == 9);
    assert forall|j: int| 0 <= j < "venv_path"@.len() implies "venv_path"@[j] != ':' && "venv_path"@[j]
        != '\n' by {
        assert("venv_path"@[0] == 'v' && "venv_path"@[1] == 'e' && "venv_path"@[2] == 'n' && "venv_path"@[3] == 'v' && "venv_path"@[4] == '_' && "venv_path"@[5] == 'p' && "venv_path"@[6] == 'a' && "venv_path"@[7] == 't' && "venv_path"@[8] == 'h');
    }
    assert(wf_key("venv_path"@)) by {
        if "venv_path"@.contains(':') {
            let j = choose|j: int| 0 <= j < "venv_path"@.len() && "venv_path"@[j] == ':';
        }
        if "venv_path"@.contains('\n') {
            let j = choose|j: int| 0 <= j < "venv_path"@.len() && "venv_path"@[j] == '\n';
        }
    }
    reveal_strlit("python_binary_path");
    assert("python_binary_path"@.len() == 18);
    assert forall|j: int| 0 <= j < "python_binary_path"@.len() implies "python_binary_path"@[j] != ':' && "python_binary_path"@[j]
        != '\n' by {
        assert("python_binary_path"@[0] == 'p' && "python_binary_path"@[1] == 'y' && "python_binary_path"@[2] == 't' && "python_binary_path"@[3] == 'h' && "python_binary_path"@[4] == 'o' && "python_binary_path"@[5] == 'n' && "python_binary_path"@[6] == '_' && "python_binary_path"@[7] == 'b' && "python_binary_path"@[8] == 'i' && "python_binary_path"@[9] == 'n' && "python_binary_path"@[10] == 'a' && "python_binary_path"@[11] == 'r' && "python_binary_path"@[12] == 'y' && "python_binary_path"@[13] == '_' && "python_binary_path"@[14] == 'p' && "python_binary_path"@[15] == 'a' && "python_binary_path"@[16] == 't' && "python_binary_path"@[17] == 'h');
    }
    assert(wf_key("python_binary_path"@)) by {
        if "python_binary_path"@.contains(':') {
            let j = choose|j: int| 0 <= j < "python_binary_path"@.len() && "python_binary_path"@[j] == ':';
        }
        if "python_binary_path"@.contains('\n') {
            let j = choose|j: int| 0 <= j < "python_binary_path"@.len() && "python_binary_path"@[j] == '\n';
        }
    }
}

/// A rendered optional field never holds a line break.
pub proof fn lemma_opt_view_no_newline(o: Option<String>)
    requires
        valid_opt(o),
    ensures
        !opt_view(o).contains('\n'),
{
    match o {
        Some(_) => {},
        None => {
            if opt_view(o).contains('\n') {
                let j = choose|j: int| 0 <= j < opt_view(o).len() && opt_view(o)[j] == '\n';
                assert(opt_view(o)[j] == '~');
            }
        },
    }
}

/// Reads a rendered optional field back: `~` means absent.
pub fn parse_opt(v: &String) -> (r: Option<String>)
    ensures
        r is Some <==> v@ != seq!['~'],
        opt_view(r) == v@,
{
    proof {
        reveal_strlit("~");
        assert("~"@ =~= seq!['~']);
    }
    if str_eq(v.as_str(), "~") {
        None
    } else {
        Some(v.clone())
    }
}

/// A warehouse reachable over a URI and port, with optional credentials
/// and an optional catalog restriction.
#[derive(Debug)]
pub struct GenericWarehouse {
    pub name: String,
    pub metadata_source: MetadataSource,
    pub uri: String,
    pub port: i32,
    pub username: Option<String>,
    pub password: Option<String>,
    pub cluster: Option<String>,
}

impl GenericWarehouse {
    /// The serialized mapping: keys are the field names, in field order;
    /// the source kind serializes to its variant tag.
    pub open spec fn doc_spec(self) -> Seq<(Seq<char>, Seq<char>)> {
        seq![
            ("name"@, self.name@),
            ("metadata_source"@, self.metadata_source.tag_spec()),
            ("uri"@, self.uri@),
            ("port"@, dec_int(self.port as int)),
            ("username"@, opt_view(self.username)),
            ("password"@, opt_view(self.password)),
            ("cluster"@, opt_view(self.cluster)),
        ]
    }

    /// The record serializes losslessly: no text field holds a line break
    /// and no present optional field is the absent marker.
    pub open spec fn wf(self) -> bool {
        !self.name@.contains('\n') && !self.uri@.contains('\n') && valid_opt(self.username)
            && valid_opt(self.password) && valid_opt(self.cluster)
    }

    /// Builds a record once from collected input; it is never mutated.
    pub fn new(
        name: String,
        metadata_source: MetadataSource,
        uri: String,
        port: i32,
        username: Option<String>,
        password: Option<String>,
        cluster: Option<String>,
    ) -> (r: Self)
        ensures
            r.name == name,
            r.metadata_source == metadata_source,
            r.uri == uri,
            r.port == port,
            r.username == username,
            r.password == password,
            r.cluster == cluster,
    {
        GenericWarehouse { name, metadata_source, uri, port, username, password, cluster }
    }

    /// Serializes the record into its document.
    pub fn to_document(&self) -> (r: Vec<(String, String)>)
        ensures
            r.deep_view() == self.doc_spec(),
    {
        let mut d: Vec<(String, String)> = Vec::new();
        d.push((String::from_str("name"), self.name.clone()));
        d.push(
            (String::from_str("metadata_source"), String::from_str(self.metadata_source.tag())),
        );
        d.push((String::from_str("uri"), self.uri.clone()));
        d.push((String::from_str("port"), i32_to_string(self.port)));
        d.push((String::from_str("username"), opt_field(&self.username)));
        d.push((String::from_str("password"), opt_field(&self.password)));
        d.push((String::from_str("cluster"), opt_field(&self.cluster)));
        proof {
            assert(d.deep_view() =~~= self.doc_spec());
        }
        d
    }

    /// Renders the record as YAML text.
    pub fn generate_yaml(&self) -> (r: String)
        ensures
            r@ == emit_document_spec(self.doc_spec()),
    {
        emit_document(&self.to_document())
    }

    /// The bytes one registration appends to the connection log.
    pub fn connection_log_entry(&self) -> (r: String)
        ensures
            r@ == log_entry_spec(self.doc_spec()),
    {
        log_entry(&self.to_document())
    }

    /// A well-formed record serializes to a well-formed document.
    pub proof fn lemma_wf_doc(self)
        requires
            self.wf(),
        ensures
            wf_doc(self.doc_spec()),
    {
        lemma_record_keys_wf();
        lemma_tags_no_newline(self.metadata_source);
        lemma_dec_int_no_newline(self.port as int);
        lemma_opt_view_no_newline(self.username);
        lemma_opt_view_no_newline(self.password);
        lemma_opt_view_no_newline(self.cluster);
        let d = self.doc_spec();
        assert forall|i: int| 0 <= i < d.len() implies wf_field((#[trigger] d[i]).0, d[i].1) by {
            assert(wf_field(d[0].0, d[0].1));
            assert(wf_field(d[1].0, d[1].1));
            assert(wf_field(d[2].0, d[2].1));
            assert(wf_field(d[3].0, d[3].1));
            assert(wf_field(d[4].0, d[4].1));
            assert(wf_field(d[5].0, d[5].1));
            assert(wf_field(d[6].0, d[6].1));
        }
    }

    /// The shape of documents that read back as a generic warehouse.
    pub open spec fn doc_shape(d: Seq<(Seq<char>, Seq<char>)>) -> bool {
        d.len() == 7 && d[0].0 == "name"@ && d[1].0 == "metadata_source"@
            && MetadataSource::kind_of_tag(d[1].1) is Some && d[2].0 == "uri"@ && d[3].0
            == "port"@ && parse_i32_spec(d[3].1) is Some && d[4].0 == "username"@ && d[5].0
            == "password"@ && d[6].0 == "cluster"@
    }

    /// Reads a record back from a document.  Succeeds exactly on documents
    /// of the serializer's shape, and then restores every field value.
    pub fn from_document(d: &Vec<(String, String)>) -> (r: Option<GenericWarehouse>)
        ensures
            r is Some <==> GenericWarehouse::doc_shape(d.deep_view()),
            r matches Some(w) ==> ({
                let dv = d.deep_view();
                &&& w.name@ == dv[0].1
                &&& Some(w.metadata_source) == MetadataSource::kind_of_tag(dv[1].1)
                &&& w.uri@ == dv[2].1
                &&& parse_i32_spec(dv[3].1) == Some(w.port)
                &&& opt_view(w.username) == dv[4].1
                &&& (w.username is Some <==> dv[4].1 != seq!['~'])
                &&& opt_view(w.password) == dv[5].1
                &&& (w.password is Some <==> dv[5].1 != seq!['~'])
                &&& opt_view(w.cluster) == dv[6].1
                &&& (w.cluster is Some <==> dv[6].1 != seq!['~'])
            }),
    {
        let ghost dv = d.deep_view();
        if d.len() != 7 {
            return None;
        }
        proof {
            assert forall|i: int| 0 <= i < 7 implies #[trigger] dv[i] == (d@[i].0@, d@[i].1@) by {}
        }
        if !(str_eq(d[0].0.as_str(), "name") && str_eq(d[1].0.as_str(), "metadata_source")
            && str_eq(d[2].0.as_str(), "uri") && str_eq(d[3].0.as_str(), "port") && str_eq(
            d[4].0.as_str(),
            "username",
        ) && str_eq(d[5].0.as_str(), "password") && str_eq(d[6].0.as_str(), "cluster")) {
            return None;
        }
        let metadata_source = match MetadataSource::from_tag(d[1].1.as_str()) {
            Some(k) => k,
            None => {
                return None;
            },
        };
        let port = match parse_i32(d[3].1.as_str()) {
            Some(p) => p,
            None => {
                return None;
            },
        };
        Some(
            GenericWarehouse {
                name: d[0].1.clone(),
                metadata_source,
                uri: d[2].1.clone(),
                port,
                username: parse_opt(&d[4].1),
                password: parse_opt(&d[5].1),
                cluster: parse_opt(&d[6].1),
            },
        )
    }

    /// A well-formed record's document has the reader's shape, and its tag
    /// and port fields read back to the record's own values.
    pub proof fn lemma_doc_reads_back(self)
        requires
            self.wf(),
        ensures
            GenericWarehouse::doc_shape(self.doc_spec()),
            MetadataSource::kind_of_tag(self.doc_spec()[1].1) == Some(self.metadata_source),
            parse_i32_spec(self.doc_spec()[3].1) == Some(self.port),
    {
        crate::source_kind::lemma_tag_round_trip(self.metadata_source);
        lemma_parse_i32_round(self.port);
    }
}

/// Appending two records to an empty log yields a byte stream that reads
/// back as the two records' documents, in append order.
pub proof fn lemma_connection_log_round_trip(w1: GenericWarehouse, w2: GenericWarehouse)
    requires
        w1.wf(),
        w2.wf(),
    ensures
        crate::document::parse_log_spec(log_entry_spec(w1.doc_spec()) + log_entry_spec(w2.doc_spec()))
            == Some(seq![w1.doc_spec(), w2.doc_spec()]),
{
    w1.lemma_wf_doc();
    w2.lemma_wf_doc();
    crate::document::lemma_two_entries_round_trip(w1.doc_spec(), w2.doc_spec());
}

/// A Hive metastore reached through a SQLAlchemy dialect.
#[derive(Debug)]
pub struct HiveMetastore {
    pub name: String,
    pub metadata_source: MetadataSource,
    pub uri: String,
    pub port: i32,
    pub dialect: String,
    pub username: Option<String>,
    pub password: Option<String>,
    pub database: Option<String>,
}

impl HiveMetastore {
    /// The serialized mapping: keys are the field names, in field order.
    pub open spec fn doc_spec(self) -> Seq<(Seq<char>, Seq<char>)> {
        seq![
            ("name"@, self.name@),
            ("metadata_source"@, self.metadata_source.tag_spec()),
            ("uri"@, self.uri@),
            ("port"@, dec_int(self.port as int)),
            ("dialect"@, self.dialect@),
            ("username"@, opt_view(self.username)),
            ("password"@, opt_view(self.password)),
            ("database"@, opt_view(self.database)),
        ]
    }

    /// The record serializes losslessly.
    pub open spec fn wf(self) -> bool {
        !self.name@.contains('\n')
            && !self.uri@.contains('\n')
            && !self.dialect@.contains('\n')
            && valid_opt(self.username)
            && valid_opt(self.password)
            && valid_opt(self.database)
    }

    /// Builds a record once from collected input; it is never mutated.
    pub fn new(
        name: String,
        uri: String,
        port: i32,
        dialect: String,
        username: Option<String>,
        password: Option<String>,
        database: Option<String>,
    ) -> (r: Self)
        ensures
            r.name == name,
            r.uri == uri,
            r.port == port,
            r.dialect == dialect,
            r.username == username,
            r.password == password,
            r.database == database,
            r.metadata_source == MetadataSource::HiveMetastore,
    {
        HiveMetastore { name, metadata_source: MetadataSource::HiveMetastore, uri, port, dialect, username, password, database }
    }

    /// Serializes the record into its document.
    pub fn to_document(&self) -> (r: Vec<(String, String)>)
        ensures
            r.deep_view() == self.doc_spec(),
    {
        let mut d: Vec<(String, String)> = Vec::new();
        d.push((String::from_str("name"), self.name.clone()));
        d.push((String::from_str("metadata_source"), String::from_str(self.metadata_source.tag())));
        d.push((String::from_str("uri"), self.uri.clone()));
        d.push((String::from_str("port"), i32_to_string(self.port)));
        d.push((String::from_str("dialect"), self.dialect.clone()));
        d.push((String::from_str("username"), opt_field(&self.username)));
        d.push((String::from_str("password"), opt_field(&self.password)));
        d.push((String::from_str("database"), opt_field(&self.database)));
        proof {
            assert(d.deep_view() =~~= self.doc_spec());
        }
        d
    }

    /// Renders the record as YAML text.
    pub fn generate_yaml(&self) -> (r: String)
        ensures
            r@ == emit_document_spec(self.doc_spec()),
    {
        emit_document(&self.to_document())
    }

    /// The bytes one registration appends to the connection log.
    pub fn connection_log_entry(&self) -> (r: String)
        ensures
            r@ == log_entry_spec(self.doc_spec()),
    {
        log_entry(&self.to_document())
    }

    /// A well-formed record serializes to a well-formed document.
    pub proof fn lemma_wf_doc(self)
        requires
            self.wf(),
        ensures
            wf_doc(self.doc_spec()),
    {
        lemma_record_keys_wf();
        lemma_tags_no_newline(self.metadata_source);
        lemma_dec_int_no_newline(self.port as int);
        lemma_opt_view_no_newline(self.username);
        lemma_opt_view_no_newline(self.password);
        lemma_opt_view_no_newline(self.database);
        let d = self.doc_spec();
        assert forall|i: int| 0 <= i < d.len() implies wf_field((#[trigger] d[i]).0, d[i].1) by {
            assert(wf_field(d[0].0, d[0].1));
            assert(wf_field(d[1].0, d[1].1));
            assert(wf_field(d[2].0, d[2].1));
            assert(wf_field(d[3].0, d[3].1));
            assert(wf_field(d[4].0, d[4].1));
            assert(wf_field(d[5].0, d[5].1));
            assert(wf_field(d[6].0, d[6].1));
            assert(wf_field(d[7].0, d[7].1));
        }
    }
}

/// A Google BigQuery project, with exactly one credential source populated by the collection flow.
#[derive(Debug)]
pub struct Bigquery {
    pub name: String,
    pub metadata_source: MetadataSource,
    pub key_path: Option<String>,
    pub project_credentials: Option<String>,
    pub project_id: Option<String>,
}

impl Bigquery {
    /// The serialized mapping: keys are the field names, in field order.
    pub open spec fn doc_spec(self) -> Seq<(Seq<char>, Seq<char>)> {
        seq![
            ("name"@, self.name@),
            ("metadata_source"@, self.metadata_source.tag_spec()),
            ("key_path"@, opt_view(self.key_path)),
            ("project_credentials"@, opt_view(self.project_credentials)),
            ("project_id"@, opt_view(self.project_id)),
        ]
    }

    /// The record serializes losslessly.
    pub open spec fn wf(self) -> bool {
        !self.name@.contains('\n')
            && valid_opt(self.key_path)
            && valid_opt(self.project_credentials)
            && valid_opt(self.project_id)
    }

    /// Builds a record once from collected input; it is never mutated.
    pub fn new(
        name: String,
        key_path: Option<String>,
        project_credentials: Option<String>,
        project_id: Option<String>,
    ) -> (r: Self)
        ensures
            r.name == name,
            r.key_path == key_path,
            r.project_credentials == project_credentials,
            r.project_id == project_id,
            r.metadata_source == MetadataSource::Bigquery,
    {
        Bigquery { name, metadata_source: MetadataSource::Bigquery, key_path, project_credentials, project_id }
    }

    /// Serializes the record into its document.
    pub fn to_document(&self) -> (r: Vec<(String, String)>)
        ensures
            r.deep_view() == self.doc_spec(),
    {
        let mut d: Vec<(String, String)> = Vec::new();
        d.push((String::from_str("name"), self.name.clone()));
        d.push((String::from_str("metadata_source"), String::from_str(self.metadata_source.tag())));
        d.push((String::from_str("key_path"), opt_field(&self.key_path)));
        d.push((String::from_str("project_credentials"), opt_field(&self.project_credentials)));
        d.push((String::from_str("project_id"), opt_field(&self.project_id)));
        proof {
            assert(d.deep_view() =~~= self.doc_spec());
        }
        d
    }

    /// Renders the record as YAML text.
    pub fn generate_yaml(&self) -> (r: String)
        ensures
            r@ == emit_document_spec(self.doc_spec()),
    {
        emit_document(&self.to_document())
    }

    /// The bytes one registration appends to the connection log.
    pub fn connection_log_entry(&self) -> (r: String)
        ensures
            r@ == log_entry_spec(self.doc_spec()),
    {
        log_entry(&self.to_document())
    }

    /// A well-formed record serializes to a well-formed document.
    pub proof fn lemma_wf_doc(self)
        requires
            self.wf(),
        ensures
            wf_doc(self.doc_spec()),
    {
        lemma_record_keys_wf();
        lemma_tags_no_newline(self.metadata_source);
        lemma_opt_view_no_newline(self.key_path);
        lemma_opt_view_no_newline(self.project_credentials);
        lemma_opt_view_no_newline(self.project_id);
        let d = self.doc_spec();
        assert forall|i: int| 0 <= i < d.len() implies wf_field((#[trigger] d[i]).0, d[i].1) by {
            assert(wf_field(d[0].0, d[0].1));
            assert(wf_field(d[1].0, d[1].1));
            assert(wf_field(d[2].0, d[2].1));
            assert(wf_field(d[3].0, d[3].1));
            assert(wf_field(d[4].0, d[4].1));
        }
    }
}

/// A Snowflake account connection.
#[derive(Debug)]
pub struct Snowflake {
    pub name: String,
    pub metadata_source: MetadataSource,
    pub account: String,
    pub username: String,
    pub password: String,
    pub database: String,
}

impl Snowflake {
    /// The serialized mapping: keys are the field names, in field order.
    pub open spec fn doc_spec(self) -> Seq<(Seq<char>, Seq<char>)> {
        seq![
            ("name"@, self.name@),
            ("metadata_source"@, self.metadata_source.tag_spec()),
            ("account"@, self.account@),
            ("username"@, self.username@),
            ("password"@, self.password@),
            ("database"@, self.database@),
        ]
    }

    /// The record serializes losslessly.
    pub open spec fn wf(self) -> bool {
        !self.name@.contains('\n')
            && !self.account@.contains('\n')
            && !self.username@.contains('\n')
            && !self.password@.contains('\n')
            && !self.database@.contains('\n')
    }

    /// Builds a record once from collected input; it is never mutated.
    pub fn new(
        name: String,
        account: String,
        username: String,
        password: String,
        database: String,
    ) -> (r: Self)
        ensures
            r.name == name,
            r.account == account,
            r.username == username,
            r.password == password,
            r.database == database,
            r.metadata_source == MetadataSource::Snowflake,
    {
        Snowflake { name, metadata_source: MetadataSource::Snowflake, account, username, password, database }
    }

    /// Serializes the record into its document.
    pub fn to_document(&self) -> (r: Vec<(String, String)>)
        ensures
            r.deep_view() == self.doc_spec(),
    {
        let mut d: Vec<(String, String)> = Vec::new();
        d.push((String::from_str("name"), self.name.clone()));
        d.push((String::from_str("metadata_source"), String::from_str(self.metadata_source.tag())));
        d.push((String::from_str("account"), self.account.clone()));
        d.push((String::from_str("username"), self.username.clone()));
        d.push((String::from_str("password"), self.password.clone()));
        d.push((String::from_str("database"), self.database.clone()));
        proof {
            assert(d.deep_view() =~~= self.doc_spec());
        }
        d
    }

    /// Renders the record as YAML text.
    pub fn generate_yaml(&self) -> (r: String)
        ensures
            r@ == emit_document_spec(self.doc_spec()),
    {
        emit_document(&self.to_document())
    }

    /// The bytes one registration appends to the connection log.
    pub fn connection_log_entry(&self) -> (r: String)
        ensures
            r@ == log_entry_spec(self.doc_spec()),
    {
        log_entry(&self.to_document())
    }

    /// A well-formed record serializes to a well-formed document.
    pub proof fn lemma_wf_doc(self)
        requires
            self.wf(),
        ensures
            wf_doc(self.doc_spec()),
    {
        lemma_record_keys_wf();
        lemma_tags_no_newline(self.metadata_source);
        let d = self.doc_spec();
        assert forall|i: int| 0 <= i < d.len() implies wf_field((#[trigger] d[i]).0, d[i].1) by {
            assert(wf_field(d[0].0, d[0].1));
            assert(wf_field(d[1].0, d[1].1));
            assert(wf_field(d[2].0, d[2].1));
            assert(wf_field(d[3].0, d[3].1));
            assert(wf_field(d[4].0, d[4].1));
            assert(wf_field(d[5].0, d[5].1));
        }
    }
}

/// A user-supplied build script run in a virtual environment.
#[derive(Debug)]
pub struct BuildScript {
    pub build_script_path: String,
    pub venv_path: String,
    pub python_binary_path: Option<String>,
}

impl BuildScript {
    /// The serialized mapping: keys are the field names, in field order.
    pub open spec fn doc_spec(self) -> Seq<(Seq<char>, Seq<char>)> {
        seq![
            ("build_script_path"@, self.build_script_path@),
            ("venv_path"@, self.venv_path@),
            ("python_binary_path"@, opt_view(self.python_binary_path)),
        ]
    }

    /// The record serializes losslessly.
    pub open spec fn wf(self) -> bool {
        !self.build_script_path@.contains('\n')
            && !self.venv_path@.contains('\n')
            && valid_opt(self.python_binary_path)
    }

    /// Builds a record once from collected input; it is never mutated.
    pub fn new(
        build_script_path: String,
        venv_path: String,
        python_binary_path: Option<String>,
    ) -> (r: Self)
        ensures
            r.build_script_path == build_script_path,
            r.venv_path == venv_path,
            r.python_binary_path == python_binary_path,
    {
        BuildScript { build_script_path, venv_path, python_binary_path }
    }

    /// Serializes the record into its document.
    pub fn to_document(&self) -> (r: Vec<(String, String)>)
        ensures
            r.deep_view() == self.doc_spec(),
    {
        let mut d: Vec<(String, String)> = Vec::new();
        d.push((String::from_str("build_script_path"), self.build_script_path.clone()));
        d.push((String::from_str("venv_path"), self.venv_path.clone()));
        d.push((String::from_str("python_binary_path"), opt_field(&self.python_binary_path)));
        proof {
            assert(d.deep_view() =~~= self.doc_spec());
        }
        d
    }

    /// Renders the record as YAML text.
    pub fn generate_yaml(&self) -> (r: String)
        ensures
            r@ == emit_document_spec(self.doc_spec()),
    {
        emit_document(&self.to_document())
    }

    /// The bytes one registration appends to the connection log.
    pub fn connection_log_entry(&self) -> (r: String)
        ensures
            r@ == log_entry_spec(self.doc_spec()),
    {
        log_entry(&self.to_document())
    }

    /// A well-formed record serializes to a well-formed document.
    pub proof fn lemma_wf_doc(self)
        requires
            self.wf(),
        ensures
            wf_doc(self.doc_spec()),
    {
        lemma_record_keys_wf();
        lemma_opt_view_no_newline(self.python_binary_path);
        let d = self.doc_spec();
        assert forall|i: int| 0 <= i < d.len() implies wf_field((#[trigger] d[i]).0, d[i].1) by {
            assert(wf_field(d[0].0, d[0].1));
            assert(wf_field(d[1].0, d[1].1));
            assert(wf_field(d[2].0, d[2].1));
        }
    }
}

/// A marker record: enabling git flips a configuration flag instead of registering a scrape target.
#[derive(Debug)]
pub struct GitServer {
    pub metadata_source: MetadataSource,
    pub uri: String,
}

impl GitServer {
    /// The serialized mapping: keys are the field names, in field order.
    pub open spec fn doc_spec(self) -> Seq<(Seq<char>, Seq<char>)> {
        seq![
            ("metadata_source"@, self.metadata_source.tag_spec()),
            ("uri"@, self.uri@),
        ]
    }

    /// The record serializes losslessly.
    pub open spec fn wf(self) -> bool {
        !self.uri@.contains('\n')
    }

    /// Builds a record once from collected input; it is never mutated.
    pub fn new(
        uri: String,
    ) -> (r: Self)
        ensures
            r.uri == uri,
            r.metadata_source == MetadataSource::GitServer,
    {
        GitServer { metadata_source: MetadataSource::GitServer, uri }
    }

    /// Serializes the record into its document.
    pub fn to_document(&self) -> (r: Vec<(String, String)>)
        ensures
            r.deep_view() == self.doc_spec(),
    {
        let mut d: Vec<(String, String)> = Vec::new();
        d.push((String::from_str("metadata_source"), String::from_str(self.metadata_source.tag())));
        d.push((String::from_str("uri"), self.uri.clone()));
        proof {
            assert(d.deep_view() =~~= self.doc_spec());
        }
        d
    }

    /// Renders the record as YAML text.
    pub fn generate_yaml(&self) -> (r: String)
        ensures
            r@ == emit_document_spec(self.doc_spec()),
    {
        emit_document(&self.to_document())
    }

    /// The bytes one registration appends to the connection log.
    pub fn connection_log_entry(&self) -> (r: String)
        ensures
            r@ == log_entry_spec(self.doc_spec()),
    {
        log_entry(&self.to_document())
    }

    /// A well-formed record serializes to a well-formed document.
    pub proof fn lemma_wf_doc(self)
        requires
            self.wf(),
        ensures
            wf_doc(self.doc_spec()),
    {
        lemma_record_keys_wf();
        lemma_tags_no_newline(self.metadata_source);
        let d = self.doc_spec();
        assert forall|i: int| 0 <= i < d.len() implies wf_field((#[trigger] d[i]).0, d[i].1) by {
            assert(wf_field(d[0].0, d[0].1));
            assert(wf_field(d[1].0, d[1].1));
        }
    }
}

/// An AWS Glue catalog; the connection itself is configured externally.
#[derive(Debug)]
pub struct Glue {
    pub name: String,
    pub metadata_source: MetadataSource,
}

impl Glue {
    /// The serialized mapping: keys are the field names, in field order.
    pub open spec fn doc_spec(self) -> Seq<(Seq<char>, Seq<char>)> {
        seq![
            ("name"@, self.name@),
            ("metadata_source"@, self.metadata_source.tag_spec()),
        ]
    }

    /// The record serializes losslessly.
    pub open spec fn wf(self) -> bool {
        !self.name@.contains('\n')
    }

    /// Builds a record once from collected input; it is never mutated.
    pub fn new(
        name: String,
    ) -> (r: Self)
        ensures
            r.name == name,
            r.metadata_source == MetadataSource::Glue,
    {
        Glue { name, metadata_source: MetadataSource::Glue }
    }

    /// Serializes the record into its document.
    pub fn to_document(&self) -> (r: Vec<(String, String)>)
        ensures
            r.deep_view() == self.doc_spec(),
    {
        let mut d: Vec<(String, String)> = Vec::new();
        d.push((String::from_str("name"), self.name.clone()));
        d.push((String::from_str("metadata_source"), String::from_str(self.metadata_source.tag())));
        proof {
            assert(d.deep_view() =~~= self.doc_spec());
        }
        d
    }

    /// Renders the record as YAML text.
    pub fn generate_yaml(&self) -> (r: String)
        ensures
            r@ == emit_document_spec(self.doc_spec()),
    {
        emit_document(&self.to_document())
    }

    /// The bytes one registration appends to the connection log.
    pub fn connection_log_entry(&self) -> (r: String)
        ensures
            r@ == log_entry_spec(self.doc_spec()),
    {
        log_entry(&self.to_document())
    }

    /// A well-formed record serializes to a well-formed document.
    pub proof fn lemma_wf_doc(self)
        requires
            self.wf(),
        ensures
            wf_doc(self.doc_spec()),
    {
        lemma_record_keys_wf();
        lemma_tags_no_newline(self.metadata_source);
        let d = self.doc_spec();
        assert forall|i: int| 0 <= i < d.len() implies wf_field((#[trigger] d[i]).0, d[i].1) by {
            assert(wf_field(d[0].0, d[0].1));
            assert(wf_field(d[1].0, d[1].1));
        }
    }
}

impl Bigquery {
    /// At most one credential source is populated, never both.
    pub open spec fn credentials_exclusive(self) -> bool {
        !(self.key_path is Some && self.project_credentials is Some)
    }

    /// The credential-method selector accepts only the two offered methods.
    pub fn is_valid_credential_method(method: i32) -> (r: bool)
        ensures
            r == (method == 1 || method == 2),
    {
        method == 1 || method == 2
    }

    /// Decides the credential pair from the collection flow's answers: the
    /// environment-provided path when offered and accepted, else the field
    /// chosen by the method selector.  Exactly one of the pair is
    /// populated, unless the method is out of range.
    pub fn choose_credentials(
        env_var: Option<String>,
        use_env_var: bool,
        method: i32,
        credentials: String,
    ) -> (r: (Option<String>, Option<String>))
        requires
            use_env_var ==> env_var is Some,
        ensures
            !(r.0 is Some && r.1 is Some),
            use_env_var ==> r.0 == env_var && r.1 is None,
            !use_env_var && method == 1 ==> (r.0 matches Some(c) && c@ == credentials@) && r.1
                is None,
            !use_env_var && method == 2 ==> r.0 is None && (r.1 matches Some(c) && c@
                == credentials@),
            !use_env_var && method != 1 && method != 2 ==> r.0 is None && r.1 is None,
    {
        if use_env_var {
            (env_var, None)
        } else if method == 1 {
            (Some(credentials), None)
        } else if method == 2 {
            (None, Some(credentials))
        } else {
            (None, None)
        }
    }
}

impl Default for GitServer {
    /// The placeholder record: the git kind with no remote set.
    fn default() -> (r: Self)
        ensures
            r.metadata_source == MetadataSource::GitServer,
            r.uri@ == "None"@,
    {
        GitServer { metadata_source: MetadataSource::GitServer, uri: String::from_str("None") }
    }
}

/// Relies on `names::Generator::next` with plain naming: it always returns
/// a generated `adjective-noun` name, so the unwrap cannot fail and the
/// result is never empty.  The name drawn is random: nothing more is
/// promised of it.
#[verifier::external_body]
fn generate_random_name() -> (r: String)
    ensures
        r@.len() > 0,
{
    let mut generator = names::Generator::with_naming(names::Name::Plain);
    generator.next().unwrap()
}

/// The connection name: the user's input, trimmed, or a generated
/// human-readable name when the input is blank.
pub fn get_name(input: &str) -> (r: String)
    ensures
        crate::strutil::trim_spec(input@).len() > 0 ==> r@ == crate::strutil::trim_spec(input@),
{
    let name = crate::strutil::trimmed(input);
    if name.unicode_len() == 0 {
        generate_random_name()
    } else {
        name
    }
}

} // verus!
