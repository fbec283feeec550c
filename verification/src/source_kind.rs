//! The closed registry of supported metadata-source kinds, with its
//! string-alias parser and display labels.

use vstd::prelude::*;

use crate::strutil::str_eq;

verus! {

/// The kinds of data source a connection can describe.
#[derive(Clone, Copy, PartialEq, Eq, Structural, Debug)]
pub enum MetadataSource {
    Bigquery,
    GitServer,
    Glue,
    Hive,
    HiveMetastore,
    Postgres,
    Presto,
    Redshift,
    Snowflake,
    AmundsenNeo4j,
    BuildScript,
}

/// The error returned when an alias names no metadata source.
#[derive(Clone, Copy, PartialEq, Eq, Structural, Debug)]
pub struct ParseMetadataSourceError {}

impl ParseMetadataSourceError {
    /// The message shown for an unrecognized source kind.
    pub fn message(&self) -> (r: &'static str)
        ensures
            r@ == "Invalid metadata source."@,
    {
        "Invalid metadata source."
    }
}

/// The aliases accepted for each kind.  Lookup is case-sensitive and the
/// sets are fixed.
pub open spec fn alias_strings(k: MetadataSource) -> Set<Seq<char>> {
    match k {
        MetadataSource::Bigquery => set!["bigquery"@, "bq"@, "b"@],
        MetadataSource::GitServer => set!["git"@, "g"@],
        MetadataSource::Glue => set!["glue"@],
        MetadataSource::Hive => set!["hive"@, "h"@],
        MetadataSource::HiveMetastore => set![
            "hive_metastore"@,
            "hive-metastore"@,
            "hive metastore"@,
            "hm"@,
        ],
        MetadataSource::Postgres => set!["postgres"@, "po"@],
        MetadataSource::Presto => set!["presto"@, "pr"@],
        MetadataSource::Redshift => set!["redshift"@, "r"@],
        MetadataSource::Snowflake => set!["snowflake"@, "s"@],
        MetadataSource::AmundsenNeo4j => set!["amundsen-neo4j"@, "a"@],
        MetadataSource::BuildScript => set!["build-script"@, "bs"@],
    }
}

/// The kind an alias denotes, if any.
pub open spec fn alias_kind(s: Seq<char>) -> Option<MetadataSource> {
    if s == "bigquery"@ || s == "bq"@ || s == "b"@ {
        Some(MetadataSource::Bigquery)
    } else if s == "glue"@ {
        Some(MetadataSource::Glue)
    } else if s == "hive"@ || s == "h"@ {
        Some(MetadataSource::Hive)
    } else if s == "hive_metastore"@ || s == "hive-metastore"@ || s == "hive metastore"@ || s
        == "hm"@ {
        Some(MetadataSource::HiveMetastore)
    } else if s == "postgres"@ || s == "po"@ {
        Some(MetadataSource::Postgres)
    } else if s == "presto"@ || s == "pr"@ {
        Some(MetadataSource::Presto)
    } else if s == "redshift"@ || s == "r"@ {
        Some(MetadataSource::Redshift)
    } else if s == "snowflake"@ || s == "s"@ {
        Some(MetadataSource::Snowflake)
    } else if s == "amundsen-neo4j"@ || s == "a"@ {
        Some(MetadataSource::AmundsenNeo4j)
    } else if s == "git"@ || s == "g"@ {
        Some(MetadataSource::GitServer)
    } else if s == "build-script"@ || s == "bs"@ {
        Some(MetadataSource::BuildScript)
    } else {
        None
    }
}

/// Every alias of a kind parses to that kind; the alias sets cannot
/// overlap, since `alias_kind` is a function.
pub proof fn lemma_alias_parses_to_kind(k: MetadataSource, s: Seq<char>)
    requires
        alias_strings(k).contains(s),
    ensures
        alias_kind(s) == Some(k),
{
    reveal_strlit("bigquery");
    reveal_strlit("bq");
    reveal_strlit("b");
    reveal_strlit("glue");
    reveal_strlit("hive");
    reveal_strlit("h");
    reveal_strlit("hive_metastore");
    reveal_strlit("hive-metastore");
    reveal_strlit("hive metastore");
    reveal_strlit("hm");
    reveal_strlit("postgres");
    reveal_strlit("po");
    reveal_strlit("presto");
    reveal_strlit("pr");
    reveal_strlit("redshift");
    reveal_strlit("r");
    reveal_strlit("snowflake");
    reveal_strlit("s");
    reveal_strlit("amundsen-neo4j");
    reveal_strlit("a");
    reveal_strlit("git");
    reveal_strlit("g");
    reveal_strlit("build-script");
    reveal_strlit("bs");
    assert("bigquery"@.len() == 8);
    assert("bq"@.len() == 2);
    assert("b"@.len() == 1);
    assert("glue"@.len() == 4);
    assert("hive"@.len() == 4);
    assert("h"@.len() == 1);
    assert("hive_metastore"@.len() == 14);
    assert("hive-metastore"@.len() == 14);
    assert("hive metastore"@.len() == 14);
    assert("hm"@.len() == 2);
    assert("postgres"@.len() == 8);
    assert("po"@.len() == 2);
    assert("presto"@.len() == 6);
    assert("pr"@.len() == 2);
    assert("redshift"@.len() == 8);
    assert("r"@.len() == 1);
    assert("snowflake"@.len() == 9);
    assert("s"@.len() == 1);
    assert("amundsen-neo4j"@.len() == 14);
    assert("a"@.len() == 1);
    assert("git"@.len() == 3);
    assert("g"@.len() == 1);
    assert("build-script"@.len() == 12);
    assert("bs"@.len() == 2);
    assert("b"@[0] == 'b' && "h"@[0] == 'h' && "r"@[0] == 'r' && "s"@[0] == 's' && "a"@[0] == 'a'
        && "g"@[0] == 'g');
    assert("bq"@[1] == 'q' && "hm"@[0] == 'h' && "po"@[0] == 'p' && "pr"@[1] == 'r' && "bs"@[1]
        == 's' && "bq"@[0] == 'b' && "po"@[1] == 'o' && "bs"@[0] == 'b' && "pr"@[0] == 'p');
    assert("glue"@[0] == 'g' && "hive"@[0] == 'h');
    assert("bigquery"@[0] == 'b' && "postgres"@[0] == 'p' && "redshift"@[0] == 'r');
    assert("hive_metastore"@[4] == '_' && "hive-metastore"@[4] == '-' && "hive metastore"@[4]
        == ' ' && "amundsen-neo4j"@[0] == 'a' && "hive_metastore"@[0] == 'h' && "hive-metastore"@[0]
        == 'h' && "hive metastore"@[0] == 'h');
}

/// A string in no alias set parses to no kind.
pub proof fn lemma_unknown_alias_rejected(s: Seq<char>)
    requires
        forall|k: MetadataSource| !(#[trigger] alias_strings(k)).contains(s),
    ensures
        alias_kind(s) is None,
{
    assert(!alias_strings(MetadataSource::Bigquery).contains(s));
    assert(!alias_strings(MetadataSource::GitServer).contains(s));
    assert(!alias_strings(MetadataSource::Glue).contains(s));
    assert(!alias_strings(MetadataSource::Hive).contains(s));
    assert(!alias_strings(MetadataSource::HiveMetastore).contains(s));
    assert(!alias_strings(MetadataSource::Postgres).contains(s));
    assert(!alias_strings(MetadataSource::Presto).contains(s));
    assert(!alias_strings(MetadataSource::Redshift).contains(s));
    assert(!alias_strings(MetadataSource::Snowflake).contains(s));
    assert(!alias_strings(MetadataSource::AmundsenNeo4j).contains(s));
    assert(!alias_strings(MetadataSource::BuildScript).contains(s));
}

/// No alias belongs to two kinds.
pub proof fn lemma_alias_sets_disjoint(k1: MetadataSource, k2: MetadataSource, s: Seq<char>)
    requires
        alias_strings(k1).contains(s),
        alias_strings(k2).contains(s),
    ensures
        k1 == k2,
{
    lemma_alias_parses_to_kind(k1, s);
    lemma_alias_parses_to_kind(k2, s);
}

impl MetadataSource {
    /// Parses a source-kind alias; unknown input yields a typed error,
    /// never a silent default.
    pub fn from_str(warehouse: &str) -> (r: Result<MetadataSource, ParseMetadataSourceError>)
        ensures
            r matches Ok(k) ==> alias_kind(warehouse@) == Some(k),
            r is Err ==> alias_kind(warehouse@) is None,
            r is Err ==> r == Err::<MetadataSource, ParseMetadataSourceError>(
                (ParseMetadataSourceError {  }),
            ),
    {
        if str_eq(warehouse, "bigquery") || str_eq(warehouse, "bq") || str_eq(warehouse, "b") {
            Ok(MetadataSource::Bigquery)
        } else if str_eq(warehouse, "glue") {
            Ok(MetadataSource::Glue)
        } else if str_eq(warehouse, "hive") || str_eq(warehouse, "h") {
            Ok(MetadataSource::Hive)
        } else if str_eq(warehouse, "hive_metastore") || str_eq(warehouse, "hive-metastore")
            || str_eq(warehouse, "hive metastore") || str_eq(warehouse, "hm") {
            Ok(MetadataSource::HiveMetastore)
        } else if str_eq(warehouse, "postgres") || str_eq(warehouse, "po") {
            Ok(MetadataSource::Postgres)
        } else if str_eq(warehouse, "presto") || str_eq(warehouse, "pr") {
            Ok(MetadataSource::Presto)
        } else if str_eq(warehouse, "redshift") || str_eq(warehouse, "r") {
            Ok(MetadataSource::Redshift)
        } else if str_eq(warehouse, "snowflake") || str_eq(warehouse, "s") {
            Ok(MetadataSource::Snowflake)
        } else if str_eq(warehouse, "amundsen-neo4j") || str_eq(warehouse, "a") {
            Ok(MetadataSource::AmundsenNeo4j)
        } else if str_eq(warehouse, "git") || str_eq(warehouse, "g") {
            Ok(MetadataSource::GitServer)
        } else if str_eq(warehouse, "build-script") || str_eq(warehouse, "bs") {
            Ok(MetadataSource::BuildScript)
        } else {
            Err(ParseMetadataSourceError {  })
        }
    }

    /// The canonical human-readable label of the kind.
    pub open spec fn label_spec(self) -> Seq<char> {
        match self {
            MetadataSource::Bigquery => "Bigquery"@,
            MetadataSource::GitServer => "Git Server"@,
            MetadataSource::Glue => "Glue"@,
            MetadataSource::Hive => "Hive"@,
            MetadataSource::HiveMetastore => "Hive Metastore"@,
            MetadataSource::Postgres => "Postgres"@,
            MetadataSource::Presto => "Presto"@,
            MetadataSource::Redshift => "Redshift"@,
            MetadataSource::Snowflake => "Snowflake"@,
            MetadataSource::AmundsenNeo4j => "Amundsen Neo4j"@,
            MetadataSource::BuildScript => "Custom Build Script"@,
        }
    }

    /// Returns the canonical human-readable label.
    pub fn label(&self) -> (r: &'static str)
        ensures
            r@ == self.label_spec(),
    {
        match self {
            MetadataSource::Bigquery => "Bigquery",
            MetadataSource::GitServer => "Git Server",
            MetadataSource::Glue => "Glue",
            MetadataSource::Hive => "Hive",
            MetadataSource::HiveMetastore => "Hive Metastore",
            MetadataSource::Postgres => "Postgres",
            MetadataSource::Presto => "Presto",
            MetadataSource::Redshift => "Redshift",
            MetadataSource::Snowflake => "Snowflake",
            MetadataSource::AmundsenNeo4j => "Amundsen Neo4j",
            MetadataSource::BuildScript => "Custom Build Script",
        }
    }

    /// The tag a kind carries in a serialized connection record.
    pub open spec fn tag_spec(self) -> Seq<char> {
        match self {
            MetadataSource::Bigquery => "Bigquery"@,
            MetadataSource::GitServer => "GitServer"@,
            MetadataSource::Glue => "Glue"@,
            MetadataSource::Hive => "Hive"@,
            MetadataSource::HiveMetastore => "HiveMetastore"@,
            MetadataSource::Postgres => "Postgres"@,
            MetadataSource::Presto => "Presto"@,
            MetadataSource::Redshift => "Redshift"@,
            MetadataSource::Snowflake => "Snowflake"@,
            MetadataSource::AmundsenNeo4j => "AmundsenNeo4j"@,
            MetadataSource::BuildScript => "BuildScript"@,
        }
    }

    /// Returns the serialization tag of the kind.
    pub fn tag(&self) -> (r: &'static str)
        ensures
            r@ == self.tag_spec(),
    {
        match self {
            MetadataSource::Bigquery => "Bigquery",
            MetadataSource::GitServer => "GitServer",
            MetadataSource::Glue => "Glue",
            MetadataSource::Hive => "Hive",
            MetadataSource::HiveMetastore => "HiveMetastore",
            MetadataSource::Postgres => "Postgres",
            MetadataSource::Presto => "Presto",
            MetadataSource::Redshift => "Redshift",
            MetadataSource::Snowflake => "Snowflake",
            MetadataSource::AmundsenNeo4j => "AmundsenNeo4j",
            MetadataSource::BuildScript => "BuildScript",
        }
    }

    /// The kind a serialization tag denotes, if any.
    pub open spec fn kind_of_tag(s: Seq<char>) -> Option<MetadataSource> {
        if s == "Bigquery"@ {
            Some(MetadataSource::Bigquery)
        } else if s == "GitServer"@ {
            Some(MetadataSource::GitServer)
        } else if s == "Glue"@ {
            Some(MetadataSource::Glue)
        } else if s == "Hive"@ {
            Some(MetadataSource::Hive)
        } else if s == "HiveMetastore"@ {
            Some(MetadataSource::HiveMetastore)
        } else if s == "Postgres"@ {
            Some(MetadataSource::Postgres)
        } else if s == "Presto"@ {
            Some(MetadataSource::Presto)
        } else if s == "Redshift"@ {
            Some(MetadataSource::Redshift)
        } else if s == "Snowflake"@ {
            Some(MetadataSource::Snowflake)
        } else if s == "AmundsenNeo4j"@ {
            Some(MetadataSource::AmundsenNeo4j)
        } else if s == "BuildScript"@ {
            Some(MetadataSource::BuildScript)
        } else {
            None
        }
    }

    /// Parses a serialization tag back to its kind.
    pub fn from_tag(s: &str) -> (r: Option<MetadataSource>)
        ensures
            r == MetadataSource::kind_of_tag(s@),
    {
        if str_eq(s, "Bigquery") {
            Some(MetadataSource::Bigquery)
        } else if str_eq(s, "GitServer") {
            Some(MetadataSource::GitServer)
        } else if str_eq(s, "Glue") {
            Some(MetadataSource::Glue)
        } else if str_eq(s, "Hive") {
            Some(MetadataSource::Hive)
        } else if str_eq(s, "HiveMetastore") {
            Some(MetadataSource::HiveMetastore)
        } else if str_eq(s, "Postgres") {
            Some(MetadataSource::Postgres)
        } else if str_eq(s, "Presto") {
            Some(MetadataSource::Presto)
        } else if str_eq(s, "Redshift") {
            Some(MetadataSource::Redshift)
        } else if str_eq(s, "Snowflake") {
            Some(MetadataSource::Snowflake)
        } else if str_eq(s, "AmundsenNeo4j") {
            Some(MetadataSource::AmundsenNeo4j)
        } else if str_eq(s, "BuildScript") {
            Some(MetadataSource::BuildScript)
        } else {
            None
        }
    }
}

/// Reading a tag back yields the kind it was written for.
pub proof fn lemma_tag_round_trip(k: MetadataSource)
    ensures
        MetadataSource::kind_of_tag(k.tag_spec()) == Some(k),
{
    reveal_strlit("Bigquery");
    reveal_strlit("GitServer");
    reveal_strlit("Glue");
    reveal_strlit("Hive");
    reveal_strlit("HiveMetastore");
    reveal_strlit("Postgres");
    reveal_strlit("Presto");
    reveal_strlit("Redshift");
    reveal_strlit("Snowflake");
    reveal_strlit("AmundsenNeo4j");
    reveal_strlit("BuildScript");
    assert("Bigquery"@.len() == 8);
    assert("GitServer"@.len() == 9);
    assert("Glue"@.len() == 4);
    assert("Hive"@.len() == 4);
    assert("HiveMetastore"@.len() == 13);
    assert("Postgres"@.len() == 8);
    assert("Presto"@.len() == 6);
    assert("Redshift"@.len() == 8);
    assert("Snowflake"@.len() == 9);
    assert("AmundsenNeo4j"@.len() == 13);
    assert("BuildScript"@.len() == 11);
    assert("Bigquery"@[0] == 'B' && "Postgres"@[0] == 'P' && "Redshift"@[0] == 'R');
    assert("GitServer"@[0] == 'G' && "Snowflake"@[0] == 'S');
    assert("Glue"@[0] == 'G' && "Hive"@[0] == 'H');
    assert("HiveMetastore"@[0] == 'H' && "AmundsenNeo4j"@[0] == 'A');
}

} // verus!
