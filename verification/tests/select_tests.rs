use flist::config::{Entry, FlistConfig};
use flist::link::{Link, PreferredFile};
use flist::project::Project;
use flist::select::{Activation, InputEvent, NextState, SelectState};

fn entry(name: &str) -> Entry {
    Entry {
        name: name.to_string(),
        link: Link::Url(format!("http://{}", name)),
        time_added: 0,
        metadata: vec![],
    }
}

fn project_with(names: &[&str], archived: &[&str], max_archive: usize) -> Project {
    Project::new(
        "/tmp/p".to_string(),
        FlistConfig::new(max_archive, vec![]),
        names.iter().map(|n| entry(n)).collect(),
        archived.iter().map(|n| entry(n)).collect(),
    )
}

fn names(v: &[Entry]) -> Vec<String> {
    v.iter().map(|e| e.name.clone()).collect()
}

#[test]
fn navigation_stays_in_bounds() {
    let mut p = project_with(&["A", "B", "C"], &[], 100);
    // Up at the top is a no-op
    let r = SelectState::Entry(0).on_event(InputEvent::Up, &mut p);
    assert!(r.next_state.is_none());
    // Down at the bottom is a no-op
    let r = SelectState::Entry(2).on_event(InputEvent::Down, &mut p);
    assert!(r.next_state.is_none());
    // Down in the middle moves down without saving
    let r = SelectState::Entry(1).on_event(InputEvent::Down, &mut p);
    assert_eq!(r.next_state, Some(NextState::State(SelectState::Entry(2))));
    assert!(!r.save);
    // Home and End land on the ends
    let r = SelectState::Entry(2).on_event(InputEvent::Home, &mut p);
    assert_eq!(r.next_state, Some(NextState::State(SelectState::Entry(0))));
    let r = SelectState::Entry(0).on_event(InputEvent::End, &mut p);
    assert_eq!(r.next_state, Some(NextState::State(SelectState::Entry(2))));
}

#[test]
fn navigation_on_empty_list_is_noop() {
    let mut p = project_with(&[], &[], 100);
    for ev in [InputEvent::Up, InputEvent::Down, InputEvent::End, InputEvent::Delete,
        InputEvent::StartDrag] {
        let r = SelectState::Entry(0).on_event(ev, &mut p);
        assert!(r.next_state.is_none());
        assert!(!r.save);
    }
}

#[test]
fn quit_overrides_every_state() {
    let mut p = project_with(&["A"], &["B"], 100);
    for st in [SelectState::Entry(0), SelectState::Archive(0), SelectState::Drag {
        dragged_entry_idx: 0,
        new_position: 0,
    }] {
        let r = st.on_event(InputEvent::Quit, &mut p);
        assert_eq!(r.next_state, Some(NextState::Exit));
        assert!(!r.save);
    }
}

#[test]
fn delete_archives_and_refocuses() {
    // deleting the last entry refocuses one up
    let mut p = project_with(&["A", "B"], &[], 100);
    let r = SelectState::Entry(1).on_event(InputEvent::Delete, &mut p);
    assert_eq!(r.next_state, Some(NextState::State(SelectState::Entry(0))));
    assert!(r.save);
    assert_eq!(names(&p.entries), vec!["A"]);
    assert_eq!(names(&p.archive), vec!["B"]);
    // deleting elsewhere keeps the index
    let mut q = project_with(&["A", "B", "C"], &[], 100);
    let r = SelectState::Entry(0).on_event(InputEvent::Delete, &mut q);
    assert_eq!(r.next_state, Some(NextState::State(SelectState::Entry(0))));
    assert_eq!(names(&q.entries), vec!["B", "C"]);
}

#[test]
fn archive_mode_toggle_needs_archived_entries() {
    let mut p = project_with(&["A"], &[], 100);
    let r = SelectState::Entry(0).on_event(InputEvent::ToggleArchive, &mut p);
    assert!(r.next_state.is_none());
    let mut q = project_with(&["A"], &["B"], 100);
    let r = SelectState::Entry(0).on_event(InputEvent::ToggleArchive, &mut q);
    assert_eq!(r.next_state, Some(NextState::State(SelectState::Archive(0))));
    let r = SelectState::Archive(0).on_event(InputEvent::ToggleArchive, &mut q);
    assert_eq!(r.next_state, Some(NextState::State(SelectState::Entry(0))));
}

#[test]
fn archive_delete_refocuses_or_leaves() {
    let mut p = project_with(&[], &["A", "B"], 100);
    let r = SelectState::Archive(1).on_event(InputEvent::Delete, &mut p);
    assert_eq!(r.next_state, Some(NextState::State(SelectState::Archive(0))));
    assert!(r.save);
    let r = SelectState::Archive(0).on_event(InputEvent::Delete, &mut p);
    assert_eq!(r.next_state, Some(NextState::State(SelectState::Entry(0))));
    assert!(p.archive.is_empty());
}

#[test]
fn restore_refocuses_active_head() {
    let mut p = project_with(&["A"], &["B"], 100);
    let r = SelectState::Archive(0).on_event(InputEvent::Restore, &mut p);
    assert_eq!(r.next_state, Some(NextState::State(SelectState::Entry(0))));
    assert!(r.save);
    assert_eq!(names(&p.entries), vec!["B", "A"]);
    assert!(p.archive.is_empty());
}

#[test]
fn drag_preview_and_commit() {
    let mut p = project_with(&["A", "B", "C"], &[], 100);
    let r = SelectState::Entry(0).on_event(InputEvent::StartDrag, &mut p);
    assert_eq!(
        r.next_state,
        Some(NextState::State(SelectState::Drag { dragged_entry_idx: 0, new_position: 0 }))
    );
    let st = SelectState::Drag { dragged_entry_idx: 0, new_position: 0 };
    // moving the preview does not touch the store
    let r = st.on_event(InputEvent::Down, &mut p);
    assert_eq!(
        r.next_state,
        Some(NextState::State(SelectState::Drag { dragged_entry_idx: 0, new_position: 1 }))
    );
    assert_eq!(names(&p.entries), vec!["A", "B", "C"]);
    // committing moves the entry and refocuses it
    let st = SelectState::Drag { dragged_entry_idx: 0, new_position: 2 };
    let r = st.on_event(InputEvent::Activate { quick: false }, &mut p);
    assert_eq!(r.next_state, Some(NextState::State(SelectState::Entry(2))));
    assert!(r.save);
    assert_eq!(names(&p.entries), vec!["B", "C", "A"]);
}

#[test]
fn drag_commit_in_place_changes_nothing() {
    let mut p = project_with(&["A", "B"], &[], 100);
    let st = SelectState::Drag { dragged_entry_idx: 1, new_position: 1 };
    let r = st.on_event(InputEvent::Activate { quick: false }, &mut p);
    assert_eq!(r.next_state, Some(NextState::State(SelectState::Entry(1))));
    assert_eq!(names(&p.entries), vec!["A", "B"]);
}

#[test]
fn drag_escape_cancels() {
    let mut p = project_with(&["A", "B", "C"], &[], 100);
    let st = SelectState::Drag { dragged_entry_idx: 1, new_position: 2 };
    let r = st.on_event(InputEvent::Escape, &mut p);
    assert_eq!(r.next_state, Some(NextState::State(SelectState::Entry(1))));
    assert!(!r.save);
    assert_eq!(names(&p.entries), vec!["A", "B", "C"]);
}

#[test]
fn drag_bounds_are_noops() {
    let mut p = project_with(&["A", "B"], &[], 100);
    let st = SelectState::Drag { dragged_entry_idx: 0, new_position: 0 };
    assert!(st.on_event(InputEvent::Up, &mut p).next_state.is_none());
    let st = SelectState::Drag { dragged_entry_idx: 0, new_position: 1 };
    assert!(st.on_event(InputEvent::Down, &mut p).next_state.is_none());
}

#[test]
fn activation_opens_without_mutating() {
    let mut p = project_with(&["A", "B"], &["C"], 100);
    let r = SelectState::Entry(1).on_event(InputEvent::Activate { quick: true }, &mut p);
    assert_eq!(r.activate, Some(Activation::Entry { idx: 1, quick: true }));
    assert!(r.next_state.is_none());
    assert!(!r.save);
    let r = SelectState::Archive(0).on_event(InputEvent::Activate { quick: false }, &mut p);
    assert_eq!(r.activate, Some(Activation::Archived { idx: 0, quick: false }));
    assert_eq!(names(&p.entries), vec!["A", "B"]);
}

#[test]
fn paste_inserts_after_focus() {
    let mut p = project_with(&["A", "B"], &[], 100);
    let r = SelectState::Entry(0).on_event(
        InputEvent::Paste { entry: Some(entry("X")) },
        &mut p,
    );
    assert_eq!(r.next_state, Some(NextState::State(SelectState::Entry(1))));
    assert!(r.save);
    assert_eq!(names(&p.entries), vec!["A", "X", "B"]);
}

#[test]
fn paste_on_empty_list_inserts_at_head() {
    let mut p = project_with(&[], &[], 100);
    let r = SelectState::Entry(0).on_event(
        InputEvent::Paste { entry: Some(entry("X")) },
        &mut p,
    );
    assert_eq!(r.next_state, Some(NextState::State(SelectState::Entry(0))));
    assert_eq!(names(&p.entries), vec!["X"]);
}

#[test]
fn paste_without_content_is_noop() {
    let mut p = project_with(&["A"], &[], 100);
    let r = SelectState::Entry(0).on_event(InputEvent::Paste { entry: None }, &mut p);
    assert!(r.next_state.is_none());
    assert!(!r.save);
    assert_eq!(names(&p.entries), vec!["A"]);
}

#[test]
fn options_reflect_state_and_uppercase_extension() {
    let p = project_with(&["A", "B"], &["C"], 100);
    let pref = Some(PreferredFile::new(
        Link::File("/d/x.pdf".to_string()),
        Some("pdf".to_string()),
    ));
    let opts = SelectState::Entry(0).get_options(&p, &pref, true);
    let keys: Vec<&str> = opts.iter().map(|o| o.key).collect();
    assert!(keys.contains(&"<Enter>"));
    assert!(keys.contains(&"<Ctrl+Enter>"));
    assert!(!keys.contains(&"<Up>"));
    assert!(keys.contains(&"<Down>"));
    assert!(keys.contains(&"a"));
    assert!(keys.contains(&"^v"));
    assert_eq!(keys.last(), Some(&"q"));
    let ctrl = opts.iter().find(|o| o.key == "<Ctrl+Enter>").unwrap();
    assert_eq!(ctrl.description, "open .PDF file");
}

#[test]
fn options_on_empty_project_are_minimal() {
    let p = project_with(&[], &[], 100);
    let opts = SelectState::Entry(0).get_options(&p, &None, false);
    let keys: Vec<&str> = opts.iter().map(|o| o.key).collect();
    assert_eq!(keys, vec!["q"]);
}

#[test]
fn options_in_drag_state() {
    let p = project_with(&["A", "B"], &[], 100);
    let st = SelectState::Drag { dragged_entry_idx: 0, new_position: 1 };
    let opts = st.get_options(&p, &None, false);
    let keys: Vec<&str> = opts.iter().map(|o| o.key).collect();
    assert_eq!(keys, vec!["<Enter>", "<Up>", "<Home>", "<End>", "<Esc>", "q"]);
}
