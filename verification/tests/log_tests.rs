use whale::document::{append_connection, parse_log};
use whale::source_kind::MetadataSource;
use whale::warehouse::{Bigquery, BuildScript, GenericWarehouse, Glue, Snowflake};
use yaml_rust::{Yaml, YamlLoader};

fn sample_generic() -> GenericWarehouse {
    GenericWarehouse::new(
        "pg-main".to_string(),
        MetadataSource::Postgres,
        "db.example.com".to_string(),
        5432,
        Some("reader".to_string()),
        None,
        None,
    )
}

#[test]
fn generate_yaml_has_the_exact_expected_text() {
    let w = sample_generic();
    assert_eq!(
        w.generate_yaml(),
        "---\nname: pg-main\nmetadata_source: Postgres\nuri: db.example.com\nport: 5432\nusername: reader\npassword: ~\ncluster: ~\n"
    );
}

#[test]
fn two_appends_parse_as_two_yaml_documents_in_order() {
    let w1 = sample_generic();
    let w2 = GenericWarehouse::new(
        "presto-1".to_string(),
        MetadataSource::Presto,
        "presto.example.com".to_string(),
        8080,
        None,
        Some("secret".to_string()),
        Some("hive".to_string()),
    );
    let mut log = String::new();
    append_connection(&mut log, &w1.to_document());
    append_connection(&mut log, &w2.to_document());

    let docs = YamlLoader::load_from_str(&log).expect("the log must stay parseable");
    assert_eq!(docs.len(), 2);
    assert_eq!(docs[0]["name"], Yaml::String("pg-main".to_string()));
    assert_eq!(docs[0]["metadata_source"], Yaml::String("Postgres".to_string()));
    assert_eq!(docs[0]["uri"], Yaml::String("db.example.com".to_string()));
    assert_eq!(docs[0]["port"], Yaml::Integer(5432));
    assert_eq!(docs[0]["username"], Yaml::String("reader".to_string()));
    assert_eq!(docs[0]["password"], Yaml::Null);
    assert_eq!(docs[1]["name"], Yaml::String("presto-1".to_string()));
    assert_eq!(docs[1]["metadata_source"], Yaml::String("Presto".to_string()));
    assert_eq!(docs[1]["port"], Yaml::Integer(8080));
    assert_eq!(docs[1]["password"], Yaml::String("secret".to_string()));
    assert_eq!(docs[1]["cluster"], Yaml::String("hive".to_string()));
}

#[test]
fn appending_never_disturbs_prior_entries() {
    let w1 = sample_generic();
    let mut log = String::new();
    append_connection(&mut log, &w1.to_document());
    let before = log.clone();
    let w2 = sample_generic();
    append_connection(&mut log, &w2.to_document());
    assert!(log.starts_with(&before));
}

#[test]
fn parse_log_restores_the_appended_documents() {
    let w1 = sample_generic();
    let w2 = GenericWarehouse::new(
        "red-1".to_string(),
        MetadataSource::Redshift,
        "r.example.com".to_string(),
        -1,
        None,
        None,
        None,
    );
    let mut log = String::new();
    append_connection(&mut log, &w1.to_document());
    append_connection(&mut log, &w2.to_document());

    let docs = parse_log(&log).expect("the emitted log must read back");
    assert_eq!(docs.len(), 2);
    let r1 = GenericWarehouse::from_document(&docs[0]).expect("first record reads back");
    assert_eq!(r1.name, "pg-main");
    assert_eq!(r1.metadata_source, MetadataSource::Postgres);
    assert_eq!(r1.uri, "db.example.com");
    assert_eq!(r1.port, 5432);
    assert_eq!(r1.username, Some("reader".to_string()));
    assert_eq!(r1.password, None);
    assert_eq!(r1.cluster, None);
    let r2 = GenericWarehouse::from_document(&docs[1]).expect("second record reads back");
    assert_eq!(r2.name, "red-1");
    assert_eq!(r2.metadata_source, MetadataSource::Redshift);
    assert_eq!(r2.port, -1);
}

#[test]
fn from_document_rejects_a_foreign_shape() {
    let doc = vec![("name".to_string(), "x".to_string())];
    assert!(GenericWarehouse::from_document(&doc).is_none());
}

#[test]
fn parse_log_rejects_text_the_emitter_never_writes() {
    assert!(parse_log("garbage").is_none());
    assert!(parse_log("---\nno separator here").is_none());
    assert_eq!(parse_log("").map(|d| d.len()), Some(0));
}

#[test]
fn other_record_kinds_serialize_with_their_field_names() {
    let b = Bigquery::new(
        "bq-1".to_string(),
        Some("/k.json".to_string()),
        None,
        Some("proj".to_string()),
    );
    assert_eq!(
        b.generate_yaml(),
        "---\nname: bq-1\nmetadata_source: Bigquery\nkey_path: /k.json\nproject_credentials: ~\nproject_id: proj\n"
    );
    let s = Snowflake::new(
        "sf".to_string(),
        "acct".to_string(),
        "u".to_string(),
        "p".to_string(),
        "db".to_string(),
    );
    assert_eq!(
        s.generate_yaml(),
        "---\nname: sf\nmetadata_source: Snowflake\naccount: acct\nusername: u\npassword: p\ndatabase: db\n"
    );
    let g = Glue::new("glue-1".to_string());
    assert_eq!(g.generate_yaml(), "---\nname: glue-1\nmetadata_source: Glue\n");
    let bs = BuildScript::new("/b.py".to_string(), "/venv".to_string(), None);
    assert_eq!(
        bs.generate_yaml(),
        "---\nbuild_script_path: /b.py\nvenv_path: /venv\npython_binary_path: ~\n"
    );
    assert_eq!(bs.connection_log_entry(), format!("{}\n", bs.generate_yaml()));
}
