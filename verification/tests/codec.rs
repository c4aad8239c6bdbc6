use todo::codec::{emit_tasks, parse_tasks};
use todo::Task;

#[test]
fn emit_empty_list() {
    let v: Vec<Task> = Vec::new();
    assert_eq!(emit_tasks(&v), "[]");
}

#[test]
fn emit_one_record() {
    let v = vec![Task::new(1, "buy milk".to_string(), None, false)];
    assert_eq!(
        emit_tasks(&v),
        "[(id:1,name:\"buy milk\",description:None,completed:false)]"
    );
}

#[test]
fn emit_two_records_with_description() {
    let v = vec![
        Task::new(1, "a".to_string(), Some("d".to_string()), true),
        Task::new(2, "b".to_string(), None, false),
    ];
    assert_eq!(
        emit_tasks(&v),
        "[(id:1,name:\"a\",description:Some(\"d\"),completed:true),(id:2,name:\"b\",description:None,completed:false)]"
    );
}

#[test]
fn emit_escapes_quotes_and_backslashes() {
    let v = vec![Task::new(1, "say \"hi\"".to_string(), Some("a\\b".to_string()), false)];
    assert_eq!(
        emit_tasks(&v),
        "[(id:1,name:\"say \\\"hi\\\"\",description:Some(\"a\\\\b\"),completed:false)]"
    );
}

#[test]
fn emit_negative_id() {
    let v = vec![Task::new(-3, "n".to_string(), None, false)];
    assert_eq!(emit_tasks(&v), "[(id:-3,name:\"n\",description:None,completed:false)]");
}

#[test]
fn parse_reads_a_record_back() {
    let ts = parse_tasks("[(id:12,name:\"x\",description:Some(\"y\"),completed:true)]").unwrap();
    assert_eq!(ts.len(), 1);
    assert_eq!(ts[0].id(), 12);
    assert_eq!(ts[0].name(), "x");
    assert_eq!(ts[0].description(), Some(&"y".to_string()));
    assert!(ts[0].completed());
}

#[test]
fn parse_empty_brackets() {
    assert_eq!(parse_tasks("[]").unwrap().len(), 0);
}

#[test]
fn parse_rejects_malformed_text() {
    assert!(parse_tasks("").is_none());
    assert!(parse_tasks("[").is_none());
    assert!(parse_tasks("[]trailing").is_none());
    assert!(parse_tasks("[(id:1,name:\"a\",description:None,completed:false)").is_none());
    assert!(parse_tasks("[(id:x,name:\"a\",description:None,completed:false)]").is_none());
    assert!(parse_tasks("[(name:\"a\",description:None,completed:false)]").is_none());
    assert!(parse_tasks("[(id:99999999999,name:\"a\",description:None,completed:false)]").is_none());
}

#[test]
fn round_trip_reproduces_every_field() {
    let v = vec![
        Task::new(-10, "quote \" and slash \\".to_string(), Some("line\nbreak".to_string()), true),
        Task::new(0, "".to_string(), None, false),
        Task::new(2147483647, "max".to_string(), Some("".to_string()), true),
    ];
    let text = emit_tasks(&v);
    let back = parse_tasks(&text).unwrap();
    assert_eq!(back.len(), v.len());
    for (x, y) in v.iter().zip(back.iter()) {
        assert_eq!(x.id(), y.id());
        assert_eq!(x.name(), y.name());
        assert_eq!(x.description(), y.description());
        assert_eq!(x.completed(), y.completed());
    }
}

#[test]
fn emitted_text_is_well_formed_ron() {
    let v = vec![
        Task::new(1, "say \"hi\"".to_string(), Some("a\\b".to_string()), false),
        Task::new(5, "plain".to_string(), None, true),
    ];
    let text = emit_tasks(&v);
    let parsed: Result<ron::Value, _> = ron::from_str(&text);
    assert!(parsed.is_ok());
}

#[test]
fn parse_accepts_common_escapes() {
    let ts =
        parse_tasks("[(id:1,name:\"don\\'t\",description:Some(\"a\\nb\"),completed:false)]")
            .unwrap();
    assert_eq!(ts[0].name(), "don't");
    assert_eq!(ts[0].description(), Some(&"a\nb".to_string()));
    let tabbed = parse_tasks("[(id:1,name:\"a\\tb\\rc\\0d\",description:None,completed:false)]")
        .unwrap();
    assert_eq!(tabbed[0].name(), "a\tb\rc\0d");
}

#[test]
fn parse_accepts_unicode_escapes() {
    let ts = parse_tasks("[(id:1,name:\"caf\\u{e9}\",description:Some(\"\\u{1F600}\"),completed:false)]")
        .unwrap();
    assert_eq!(ts[0].name(), "caf\u{e9}");
    assert_eq!(ts[0].description(), Some(&"\u{1F600}".to_string()));
}

#[test]
fn parse_rejects_bad_escapes() {
    assert!(parse_tasks("[(id:1,name:\"a\\x\",description:None,completed:false)]").is_none());
    assert!(parse_tasks("[(id:1,name:\"a\\u{}\",description:None,completed:false)]").is_none());
    assert!(parse_tasks("[(id:1,name:\"a\\u{110000}\",description:None,completed:false)]").is_none());
    assert!(parse_tasks("[(id:1,name:\"a\\u{d800}\",description:None,completed:false)]").is_none());
}
