use todo::task::Task;

fn is_send<T: Send>() {}

fn is_sync<T: Sync>() {}

#[test]
fn test_send() {
    is_send::<Task>();
}

#[test]
fn test_sync() {
    is_sync::<Task>();
}

#[test]
fn test_display() {
    let mut task = Task::new("test", "test");
    let formatted_task = task.render();
    assert_eq!(formatted_task, "☐ test - test");

    task.complete();
    let formatted_task = task.render();
    assert_eq!(formatted_task, "☑ test - test");
}

#[test]
fn new_sets_fields() {
    let task = Task::new("water plants", "only the basil");
    assert_eq!(task.name(), "water plants");
    assert_eq!(task.description(), "only the basil");
    assert!(!task.completed());
}

#[test]
fn new_from_name_leaves_description_empty() {
    let task = Task::new_from_name("water plants");
    assert_eq!(task.name(), "water plants");
    assert_eq!(task.description(), "");
    assert!(!task.completed());
}

#[test]
fn complete_keeps_other_fields() {
    let mut task = Task::new("a", "b");
    task.complete();
    assert!(task.completed());
    assert_eq!(task.name(), "a");
    assert_eq!(task.description(), "b");
}

#[test]
fn clone_copies_fields() {
    let task = Task::new("a", "b");
    let copy = task.clone();
    assert_eq!(copy.name(), "a");
    assert_eq!(copy.description(), "b");
    assert_eq!(copy.completed(), task.completed());
}
