use todo::error::no_config_error::NoConfigError;
use todo::error::no_home_error::NoHomeError;
use todo::paths::{config_dir, tasks_file};
use todo::persistence::ron_file_persistence::RonFilePersistence;

#[test]
fn config_dir_under_home() {
    assert_eq!(config_dir("/home/user"), "/home/user/.config/todo");
}

#[test]
fn tasks_file_under_home() {
    assert_eq!(tasks_file("/home/user"), "/home/user/.config/todo/tasks.ron");
}

#[test]
fn no_config_error_names_the_path() {
    let e = NoConfigError("/tmp/config.toml".to_string());
    assert_eq!(e.message(), "No config file found at /tmp/config.toml");
}

#[test]
fn no_home_error_message() {
    assert_eq!(NoHomeError.message(), "Unable to find home directory");
}

#[test]
fn ron_file_persistence_remembers_its_location() {
    let p = RonFilePersistence::new("/tmp/tasks.ron".to_string());
    assert_eq!(p.location, "/tmp/tasks.ron");
}

#[test]
fn legacy_save_text_lists_records() {
    let p = RonFilePersistence::new("/tmp/tasks.ron".to_string());
    let data = vec![
        todo::task::Task::new("a", "b"),
        todo::task::Task::new("c", ""),
    ];
    assert_eq!(
        p.save_text(&data),
        "[(name:\"a\",description:\"b\",completed:false),(name:\"c\",description:\"\",completed:false)]"
    );
}

#[test]
fn legacy_load_text_round_trip() {
    let p = RonFilePersistence::new("/tmp/tasks.ron".to_string());
    let mut done = todo::task::Task::new("quote\"", "slash\\");
    done.complete();
    let data = vec![done, todo::task::Task::new("c", "d")];
    let text = p.save_text(&data);
    let back = p.load_text(&text).unwrap();
    assert_eq!(back.len(), 2);
    assert_eq!(back[0].name(), "quote\"");
    assert_eq!(back[0].description(), "slash\\");
    assert!(back[0].completed());
    assert_eq!(back[1].name(), "c");
    assert!(!back[1].completed());
}

#[test]
fn legacy_load_text_rejects_corrupt_text() {
    let p = RonFilePersistence::new("/tmp/tasks.ron".to_string());
    assert!(p.load_text("").is_err());
    assert!(p.load_text("[(name:\"a\")]").is_err());
    assert!(p.load_text("[]extra").is_err());
    assert_eq!(p.load_text("[]").unwrap().len(), 0);
}
