use whale::source_kind::MetadataSource;

#[test]
fn every_alias_parses_to_its_kind() {
    let cases: Vec<(&str, MetadataSource)> = vec![
        ("bigquery", MetadataSource::Bigquery),
        ("bq", MetadataSource::Bigquery),
        ("b", MetadataSource::Bigquery),
        ("glue", MetadataSource::Glue),
        ("hive", MetadataSource::Hive),
        ("h", MetadataSource::Hive),
        ("hive_metastore", MetadataSource::HiveMetastore),
        ("hive-metastore", MetadataSource::HiveMetastore),
        ("hive metastore", MetadataSource::HiveMetastore),
        ("hm", MetadataSource::HiveMetastore),
        ("postgres", MetadataSource::Postgres),
        ("po", MetadataSource::Postgres),
        ("presto", MetadataSource::Presto),
        ("pr", MetadataSource::Presto),
        ("redshift", MetadataSource::Redshift),
        ("r", MetadataSource::Redshift),
        ("snowflake", MetadataSource::Snowflake),
        ("s", MetadataSource::Snowflake),
        ("amundsen-neo4j", MetadataSource::AmundsenNeo4j),
        ("a", MetadataSource::AmundsenNeo4j),
        ("git", MetadataSource::GitServer),
        ("g", MetadataSource::GitServer),
        ("build-script", MetadataSource::BuildScript),
        ("bs", MetadataSource::BuildScript),
    ];
    for (alias, kind) in cases {
        assert_eq!(MetadataSource::from_str(alias), Ok(kind), "alias {}", alias);
    }
}

#[test]
fn unknown_aliases_are_rejected() {
    for alias in ["", "mysql", "BigQuery", "bigquery ", "x", "hive -metastore"] {
        let r = MetadataSource::from_str(alias);
        assert!(r.is_err(), "alias {:?} should be rejected", alias);
        assert_eq!(r.unwrap_err().message(), "Invalid metadata source.");
    }
}

#[test]
fn labels_are_the_human_readable_names() {
    assert_eq!(MetadataSource::HiveMetastore.label(), "Hive Metastore");
    assert_eq!(MetadataSource::AmundsenNeo4j.label(), "Amundsen Neo4j");
    assert_eq!(MetadataSource::GitServer.label(), "Git Server");
    assert_eq!(MetadataSource::BuildScript.label(), "Custom Build Script");
    assert_eq!(MetadataSource::Postgres.label(), "Postgres");
}

#[test]
fn tags_round_trip_through_from_tag() {
    let kinds = [
        MetadataSource::Bigquery,
        MetadataSource::GitServer,
        MetadataSource::Glue,
        MetadataSource::Hive,
        MetadataSource::HiveMetastore,
        MetadataSource::Postgres,
        MetadataSource::Presto,
        MetadataSource::Redshift,
        MetadataSource::Snowflake,
        MetadataSource::AmundsenNeo4j,
        MetadataSource::BuildScript,
    ];
    for kind in kinds {
        assert_eq!(MetadataSource::from_tag(kind.tag()), Some(kind));
    }
    assert_eq!(MetadataSource::from_tag("Hive Metastore"), None);
}
