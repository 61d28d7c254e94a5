use pgrust_nextest_repro::config::{accept_config, database_config, session_config, ConfigError};

#[test]
fn url_is_parsed() {
    let config = database_config(Some("postgres://bench@localhost:5433/postgres")).unwrap();
    assert_eq!(config.get_user(), Some("bench"));
    assert_eq!(config.get_dbname(), Some("postgres"));
    assert_eq!(config.get_ports(), &[5433]);
}

#[test]
fn missing_url_is_an_error() {
    let error = database_config(None).unwrap_err();
    assert!(matches!(error, ConfigError::NotSet));
    assert_eq!(error.message(), "DATABASE_URL is not set");
}

#[test]
fn wrong_url_is_an_error() {
    let error = database_config(Some("postgres://localhost:port/")).unwrap_err();
    assert!(matches!(error, ConfigError::Invalid { .. }));
    assert_eq!(error.message(), "invalid DATABASE_URL");
}

#[test]
fn parsed_settings_are_accepted() {
    let parsed: Result<tokio_postgres::Config, tokio_postgres::Error> = "user=bench".parse();
    let config = accept_config(Some(parsed)).unwrap();
    assert_eq!(config.get_user(), Some("bench"));
    assert!(matches!(accept_config(None), Err(ConfigError::NotSet)));
    assert!(matches!(accept_config(Some("user".parse())), Err(ConfigError::Invalid { .. })));
}

#[test]
fn session_goes_to_the_named_database() {
    let config = database_config(Some("postgres://bench@localhost/postgres")).unwrap();
    let named = session_config(&config, Some("repro_template"));
    assert_eq!(named.get_dbname(), Some("repro_template"));
    assert_eq!(named.get_user(), Some("bench"));
    assert_eq!(named.get_hosts(), config.get_hosts());
    let plain = session_config(&config, None);
    assert!(plain == config);
    assert_eq!(config.get_dbname(), Some("postgres"));
}

#[test]
fn refused_url_keeps_its_own_cause() {
    for url in ["postgres://localhost:port/", "user", "port=x", "postgres://localhost/%ff"] {
        let expected = url.parse::<tokio_postgres::Config>().unwrap_err();
        match database_config(Some(url)) {
            Err(ConfigError::Invalid { cause }) => {
                assert_eq!(format!("{cause:?}"), format!("{expected:?}"));
            }
            other => panic!("{other:?}"),
        }
    }
    let port = "port=x".parse::<tokio_postgres::Config>().unwrap_err();
    let key = "user".parse::<tokio_postgres::Config>().unwrap_err();
    assert_ne!(format!("{port:?}"), format!("{key:?}"));
}
