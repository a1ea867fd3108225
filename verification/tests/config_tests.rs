use csv_importer::config::{Config, ConfigError, DatabaseConfig, Source};
use csv_importer::db::DatabaseError;
use csv_importer::record::LoadOptions;

#[test]
fn database_config_carries_its_parts() {
    let c = DatabaseConfig::new(
        5432,
        "localhost".to_string(),
        "postgres".to_string(),
        "postgres".to_string(),
        "postgres".to_string(),
        false,
        "transactions".to_string(),
        true,
    );
    assert_eq!(c.get_table_name(), "transactions");
    assert!(c.is_init());
    assert_eq!(c.port(), 5432);
    assert_eq!(c.host(), "localhost");
    assert_eq!(c.username(), "postgres");
    assert_eq!(c.database_name(), "postgres");
    assert!(!c.tls());
}

#[test]
fn default_config_is_empty_and_not_init() {
    let c = DatabaseConfig::default();
    assert_eq!(c.get_table_name(), "");
    assert!(!c.is_init());
    assert_eq!(c.port(), 0);
}

#[test]
fn a_whole_invocation_config_assembles() {
    let config = Config {
        database: DatabaseConfig::default(),
        source: Source::File("ledger.csv".to_string()),
        load_options: LoadOptions::New,
    };
    match &config.source {
        Source::File(p) => assert_eq!(p, "ledger.csv"),
        Source::Directory(_) => panic!("expected a file source"),
    }
    assert!(matches!(config.load_options, LoadOptions::New));
}

#[test]
fn config_errors_name_what_is_missing() {
    assert!(matches!(
        ConfigError::file_not_found("a.csv"),
        ConfigError::FileNotFound(s) if s == "a.csv"
    ));
    assert!(matches!(
        ConfigError::directory_not_found("d"),
        ConfigError::DirectoryNotFound(s) if s == "d"
    ));
    assert!(matches!(
        ConfigError::directory_empty("d"),
        ConfigError::DirectoryEmpty(s) if s == "d"
    ));
    assert!(matches!(
        ConfigError::required_configuration_missing("file or directory"),
        ConfigError::RequiredConfigurationMissing(s) if s == "file or directory"
    ));
}

#[test]
fn database_error_is_a_connection_failure() {
    assert!(matches!(DatabaseError::connection(), DatabaseError::ConnectionError));
}
