use todo::config::{Config, StorageFormat};
use todo::error::TodoError;

#[test]
fn output_serialised_config() {
    let config = Config::new("file:///home/user/.config/todo/todos").unwrap();
    let serialized_config = config.to_file_text();
    println!("{}", serialized_config);
}

#[test]
fn file_scheme_picks_local_storage() {
    let config = Config::new("file:///tmp/todos").unwrap();
    assert!(matches!(config.storage_format(), Ok(StorageFormat::LocalStorage)));
}

#[test]
fn postgresql_scheme_picks_postgres() {
    let config = Config::new("postgresql://localhost/todos").unwrap();
    assert!(matches!(config.storage_format(), Ok(StorageFormat::Postgres)));
}

#[test]
fn sqlite_scheme_picks_sqlite() {
    let config = Config::new("sqlite://tasks.db").unwrap();
    assert!(matches!(config.storage_format(), Ok(StorageFormat::Sqlite)));
}

#[test]
fn unsupported_scheme_is_a_configuration_error() {
    let config = Config::new("mysql://localhost/todos").unwrap();
    match config.storage_format() {
        Err(TodoError::ConfigurationError(scheme)) => assert_eq!(scheme, "mysql"),
        other => panic!("expected a configuration error, got {:?}", other),
    }
}

#[test]
fn text_without_a_scheme_is_a_configuration_error() {
    let config = Config::new_with_url("no scheme here".to_string());
    assert!(matches!(config.storage_format(), Err(TodoError::ConfigurationError(_))));
}

#[test]
fn invalid_url_is_rejected() {
    let r = Config::new("not a url");
    match r {
        Err(TodoError::ConfigurationError(text)) => assert_eq!(text, "not a url"),
        other => panic!("expected a configuration error, got {:?}", other),
    }
}

#[test]
fn storage_hands_the_url_back() {
    let config = Config::new_with_url("file:///tmp/todos".to_string());
    assert_eq!(config.storage(), "file:///tmp/todos");
}

#[test]
fn config_file_text_round_trip() {
    let config = Config::new_with_url("file:///home/user/.config/todo/todos".to_string());
    let text = config.to_file_text();
    assert_eq!(text, "storage = \"file:///home/user/.config/todo/todos\"\n");
    let back = Config::from_file_text(&text).unwrap();
    assert_eq!(back.storage(), config.storage());
}

#[test]
fn config_file_text_tolerates_trailing_whitespace() {
    let back = Config::from_file_text("storage = \"file:///tmp/x\"  \n").unwrap();
    assert_eq!(back.storage(), "file:///tmp/x");
}

#[test]
fn corrupt_config_text_is_rejected() {
    assert!(matches!(
        Config::from_file_text("storage: nope"),
        Err(TodoError::SerializationFailure)
    ));
    assert!(matches!(
        Config::from_file_text("storage = \"unterminated"),
        Err(TodoError::SerializationFailure)
    ));
    assert!(matches!(
        Config::from_file_text("storage = \"x\" trailing"),
        Err(TodoError::SerializationFailure)
    ));
}

#[test]
fn default_points_at_the_home_configuration_file() {
    let config = Config::default("/home/user").unwrap();
    assert_eq!(config.storage(), "file:///home/user/.config/todo/default.todo.ron");
    assert!(matches!(config.storage_format(), Ok(StorageFormat::LocalStorage)));
}

#[test]
fn default_path_under_home() {
    assert_eq!(Config::default_path("/home/user"), "/home/user/.config/todo");
}
