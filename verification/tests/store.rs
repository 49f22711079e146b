use flist::config::{Entry, FlistConfig};
use flist::link::Link;
use flist::project::Project;
use flist::requests::{apply_messages, InsertRequest, ListenerMessages};

fn entry(name: &str) -> Entry {
    Entry {
        name: name.to_string(),
        link: Link::Url(format!("http://{}", name)),
        time_added: 1000,
        metadata: vec![],
    }
}

fn project_with(names: &[&str], max_archive: usize) -> Project {
    Project::new(
        "/tmp/p".to_string(),
        FlistConfig::new(max_archive, vec![]),
        names.iter().map(|n| entry(n)).collect(),
        vec![],
    )
}

fn names(v: &[Entry]) -> Vec<String> {
    v.iter().map(|e| e.name.clone()).collect()
}

#[test]
fn three_inserts_then_archive_middle() {
    // inserting A, B, C, each at the head, ends as [C, B, A]
    let mut p = project_with(&[], 100);
    let msgs = vec![
        ListenerMessages::Insert(InsertRequest {
            name: "A".to_string(),
            link: Link::Url("a".to_string()),
            metadata: vec![],
        }),
        ListenerMessages::Insert(InsertRequest {
            name: "B".to_string(),
            link: Link::Url("b".to_string()),
            metadata: vec![],
        }),
        ListenerMessages::Insert(InsertRequest {
            name: "C".to_string(),
            link: Link::Url("c".to_string()),
            metadata: vec![],
        }),
    ];
    let saved = apply_messages(&mut p, msgs, 7);
    assert!(saved);
    assert_eq!(names(&p.entries), vec!["C", "B", "A"]);
    assert_eq!(p.entries[0].time_added, 7);

    // archiving index 1 (B) leaves active [C, A], archive [B]
    p.archive_entry(1);
    assert_eq!(names(&p.entries), vec!["C", "A"]);
    assert_eq!(names(&p.archive), vec!["B"]);
}

#[test]
fn apply_no_messages_needs_no_save() {
    let mut p = project_with(&["A"], 100);
    let saved = apply_messages(&mut p, vec![], 7);
    assert!(!saved);
    assert_eq!(names(&p.entries), vec!["A"]);
}

#[test]
fn archive_bound_evicts_oldest() {
    // with max_archive = 1, archiving two entries keeps only the second
    let mut p = project_with(&["A", "B"], 1);
    p.archive_entry(0);
    assert_eq!(names(&p.archive), vec!["A"]);
    p.archive_entry(0);
    assert_eq!(names(&p.archive), vec!["B"]);
    assert!(p.entries.is_empty());
}

#[test]
fn archive_decrements_active_and_heads_archive() {
    let mut p = project_with(&["A", "B", "C"], 100);
    p.archive_entry(2);
    assert_eq!(p.entries.len(), 2);
    assert_eq!(p.archive.len(), 1);
    assert_eq!(p.archive[0].name, "C");
}

#[test]
fn restore_round_trip_preserves_entry() {
    let mut p = project_with(&["A", "B"], 100);
    let original = Entry {
        name: "B".to_string(),
        link: Link::Url("http://B".to_string()),
        time_added: 1000,
        metadata: vec![],
    };
    p.archive_entry(1);
    assert!(p.archive[0].same(&original));
    p.restore_from_archive(0);
    assert!(p.entries[0].same(&original));
    assert!(p.archive.is_empty());
    p.archive_entry(0);
    assert!(p.archive[0].same(&original));
}

#[test]
fn remove_from_archive_is_permanent() {
    let mut p = project_with(&["A"], 100);
    p.archive_entry(0);
    p.remove_from_archive(0);
    assert!(p.archive.is_empty());
    assert!(p.entries.is_empty());
}

#[test]
fn move_entry_same_index_is_noop() {
    let mut p = project_with(&["A", "B", "C"], 100);
    p.move_entry(1, 1);
    assert_eq!(names(&p.entries), vec!["A", "B", "C"]);
}

#[test]
fn move_entry_keeps_relative_order_of_others() {
    let mut p = project_with(&["A", "B", "C", "D"], 100);
    p.move_entry(0, 2);
    assert_eq!(names(&p.entries), vec!["B", "C", "A", "D"]);
    let mut q = project_with(&["A", "B", "C", "D"], 100);
    q.move_entry(3, 0);
    assert_eq!(names(&q.entries), vec!["D", "A", "B", "C"]);
}

#[test]
fn insert_entry_at_position() {
    let mut p = project_with(&["A", "B"], 100);
    p.insert_entry_at(entry("X"), 1);
    assert_eq!(names(&p.entries), vec!["A", "X", "B"]);
}
