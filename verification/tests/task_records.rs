use todo::{NewTask, Task};

fn is_send<T: Send>() {}

fn is_sync<T: Sync>() {}

#[test]
fn task_test_send() {
    is_send::<Task>();
}

#[test]
fn task_test_sync() {
    is_sync::<Task>();
}

#[test]
fn task_accessors() {
    let t = Task::new(3, "milk".to_string(), Some("two bottles".to_string()), false);
    assert_eq!(t.id(), 3);
    assert_eq!(t.name(), "milk");
    assert_eq!(t.description(), Some(&"two bottles".to_string()));
    assert!(!t.completed());
}

#[test]
fn task_without_description() {
    let t = Task::new(7, "walk".to_string(), None, true);
    assert_eq!(t.description(), None);
    assert!(t.completed());
}

#[test]
fn task_set_completed() {
    let mut t = Task::new(1, "milk".to_string(), None, false);
    t.set_completed();
    assert!(t.completed());
    assert_eq!(t.id(), 1);
    assert_eq!(t.name(), "milk");
}

#[test]
fn task_clone_copies_fields() {
    let t = Task::new(9, "a".to_string(), Some("b".to_string()), true);
    let c = t.clone();
    assert_eq!(c.id(), 9);
    assert_eq!(c.name(), "a");
    assert_eq!(c.description(), Some(&"b".to_string()));
    assert!(c.completed());
}

#[test]
fn new_task_accessors() {
    let nt = NewTask::new("shop".to_string(), Some("greens".to_string()));
    assert_eq!(nt.name(), "shop");
    assert_eq!(nt.description(), Some(&"greens".to_string()));
    let bare = NewTask::new("rest".to_string(), None);
    assert_eq!(bare.description(), None);
}
