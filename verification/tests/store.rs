use todo::error::TodoError;
use todo::{FileRepository, NewTask, Repository, Task};

#[test]
fn add_to_empty_store() {
    let mut repo = FileRepository::new("");
    repo.add(NewTask::new("buy milk".to_string(), None)).unwrap();
    let all = repo.get_all();
    assert_eq!(all.len(), 1);
    assert_eq!(all[0].id(), 1);
    assert_eq!(all[0].name(), "buy milk");
    assert_eq!(all[0].description(), None);
    assert!(!all[0].completed());
}

#[test]
fn add_assigns_increasing_ids_from_one() {
    let mut repo = FileRepository::new("");
    for name in ["a", "b", "c", "d", "e"] {
        repo.add(NewTask::new(name.to_string(), None)).unwrap();
    }
    let ids: Vec<i32> = repo.get_all().iter().map(|t| t.id()).collect();
    assert_eq!(ids, vec![1, 2, 3, 4, 5]);
}

#[test]
fn add_continues_past_existing_maximum() {
    let mut repo = FileRepository::new("[(id:4,name:\"old\",description:None,completed:true)]");
    repo.add(NewTask::new("new".to_string(), None)).unwrap();
    let ids: Vec<i32> = repo.get_all().iter().map(|t| t.id()).collect();
    assert_eq!(ids, vec![4, 5]);
}

#[test]
fn update_completes_a_task() {
    let mut repo = FileRepository::new("");
    repo.add(NewTask::new("buy milk".to_string(), None)).unwrap();
    repo.update(Task::new(1, "buy milk".to_string(), None, true)).unwrap();
    let found = repo.get_by_id(1).unwrap();
    assert!(found.completed());
    assert_eq!(found.name(), "buy milk");
}

#[test]
fn update_missing_id_is_not_found_and_changes_nothing() {
    let mut repo = FileRepository::new("");
    repo.add(NewTask::new("buy milk".to_string(), None)).unwrap();
    let before = repo.to_text();
    let r = repo.update(Task::new(2, "other".to_string(), None, true));
    assert!(matches!(r, Err(TodoError::NotFound)));
    assert_eq!(repo.to_text(), before);
}

#[test]
fn remove_keeps_the_other_tasks() {
    let mut repo = FileRepository::new("");
    repo.add(NewTask::new("one".to_string(), None)).unwrap();
    repo.add(NewTask::new("two".to_string(), None)).unwrap();
    repo.remove(1).unwrap();
    let all = repo.get_all();
    assert_eq!(all.len(), 1);
    assert_eq!(all[0].id(), 2);
    assert_eq!(all[0].name(), "two");
}

#[test]
fn removed_id_is_not_found_afterwards() {
    let mut repo = FileRepository::new("");
    repo.add(NewTask::new("one".to_string(), None)).unwrap();
    repo.remove(1).unwrap();
    assert!(matches!(repo.get_by_id(1), Err(TodoError::NotFound)));
}

#[test]
fn removing_an_absent_id_succeeds_and_it_stays_absent() {
    let mut repo = FileRepository::new("");
    repo.add(NewTask::new("one".to_string(), None)).unwrap();
    repo.remove(9).unwrap();
    assert_eq!(repo.get_all().len(), 1);
    assert!(matches!(repo.get_by_id(9), Err(TodoError::NotFound)));
}

#[test]
fn get_by_id_finds_the_matching_record() {
    let mut repo = FileRepository::new("");
    repo.add(NewTask::new("one".to_string(), None)).unwrap();
    repo.add(NewTask::new("two".to_string(), Some("more".to_string()))).unwrap();
    let t = repo.get_by_id(2).unwrap();
    assert_eq!(t.name(), "two");
    assert_eq!(t.description(), Some(&"more".to_string()));
}

#[test]
fn corrupt_content_yields_an_empty_store() {
    let repo = FileRepository::new("!! not a task list !!");
    assert_eq!(repo.get_all().len(), 0);
}

#[test]
fn unordered_content_loads_in_file_order() {
    let text = "[(id:2,name:\"b\",description:None,completed:false),(id:1,name:\"a\",description:None,completed:false)]";
    let repo = FileRepository::new(text);
    let ids: Vec<i32> = repo.get_all().iter().map(|t| t.id()).collect();
    assert_eq!(ids, vec![2, 1]);
}

#[test]
fn add_scans_for_the_maximum_id() {
    let text = "[(id:7,name:\"b\",description:None,completed:false),(id:3,name:\"a\",description:None,completed:false)]";
    let mut repo = FileRepository::new(text);
    repo.add(NewTask::new("c".to_string(), None)).unwrap();
    let ids: Vec<i32> = repo.get_all().iter().map(|t| t.id()).collect();
    assert_eq!(ids, vec![7, 3, 8]);
}

#[test]
fn duplicate_ids_load_and_first_match_wins() {
    let text = "[(id:1,name:\"first\",description:None,completed:false),(id:1,name:\"second\",description:None,completed:false)]";
    let mut repo = FileRepository::new(text);
    assert_eq!(repo.get_by_id(1).unwrap().name(), "first");
    repo.update(Task::new(1, "patched".to_string(), None, true)).unwrap();
    let all = repo.get_all();
    assert_eq!(all[0].name(), "patched");
    assert_eq!(all[1].name(), "second");
    repo.remove(1).unwrap();
    assert_eq!(repo.get_all().len(), 0);
}

#[test]
fn store_text_round_trip() {
    let mut repo = FileRepository::new("");
    repo.add(NewTask::new("one \"quoted\"".to_string(), Some("with \\ slash".to_string())))
        .unwrap();
    repo.add(NewTask::new("two".to_string(), None)).unwrap();
    repo.update(Task::new(2, "two".to_string(), None, true)).unwrap();
    let text = repo.to_text();
    let reloaded = FileRepository::new(&text);
    let a = repo.get_all();
    let b = reloaded.get_all();
    assert_eq!(a.len(), b.len());
    for (x, y) in a.iter().zip(b.iter()) {
        assert_eq!(x.id(), y.id());
        assert_eq!(x.name(), y.name());
        assert_eq!(x.description(), y.description());
        assert_eq!(x.completed(), y.completed());
    }
}

#[test]
fn empty_store_serializes_to_empty_brackets() {
    let repo = FileRepository::new("");
    assert_eq!(repo.to_text(), "[]");
}
