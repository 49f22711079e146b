//! The selection state machine: what the focused view is, and how one input
//! event moves it and mutates the store.
//!
//! The machine is a pure function from the current state, one event and the
//! store to the next state, the store mutation, an optional activation to
//! perform, and a flag that says whether the store must be saved.  Reading
//! the keyboard, the clipboard and the clock is the caller's business; an
//! event arrives with everything the transition needs as plain values.

use crate::config::Entry;
use crate::link::PreferredFile;
use crate::project::spec_archive_step;
use crate::project::spec_move;
use crate::project::spec_restore_step;
use crate::project::Project;
use vstd::prelude::*;

verus! {

/// Which entry the interface focuses: an active entry, an archived entry, or
/// an active entry being dragged to a new position.
#[derive(Clone, Copy, Debug, PartialEq, Eq, Structural)]
pub enum SelectState {
    Entry(usize),
    Archive(usize),
    Drag { dragged_entry_idx: usize, new_position: usize },
}

impl SelectState {
    /// A state is valid for the given list lengths: the focused index is in
    /// range (0 on an empty active list).
    pub open spec fn valid(self, entries_len: int, archive_len: int) -> bool {
        match self {
            SelectState::Entry(idx) => if entries_len == 0 {
                idx == 0
            } else {
                idx < entries_len
            },
            SelectState::Archive(idx) => idx < archive_len,
            SelectState::Drag { dragged_entry_idx, new_position } => dragged_entry_idx
                < entries_len && new_position < entries_len,
        }
    }
}

/// One input event, with everything it needs carried as plain values.  A
/// paste event carries the entry the caller built from the clipboard, or
/// nothing when no clipboard content was available.
pub enum InputEvent {
    /// The quit key; it overrides every state.
    Quit,
    Up,
    Down,
    Home,
    End,
    /// Archive the focused active entry, or delete the focused archived one.
    Delete,
    /// Switch between the active list and the archive.
    ToggleArchive,
    /// Begin dragging the focused active entry.
    StartDrag,
    /// Open the focused entry; `quick` asks for its preferred file.  While
    /// dragging, this key commits the drag instead.
    Activate { quick: bool },
    /// Restore the focused archived entry.
    Restore,
    /// Cancel a drag.
    Escape,
    /// Paste the clipboard as a new entry after the focused one.
    Paste { entry: Option<Entry> },
    /// Any event the machine does not interpret.
    Other,
}

/// What the caller must open after a transition.
#[derive(Clone, Copy, Debug, PartialEq, Eq, Structural)]
pub enum Activation {
    Entry { idx: usize, quick: bool },
    Archived { idx: usize, quick: bool },
}

/// Where the machine goes after an event, when it goes anywhere.
#[derive(Clone, Copy, Debug, PartialEq, Eq, Structural)]
pub enum NextState {
    Exit,
    State(SelectState),
}

/// The visible outcome of one transition.
pub struct OnEvent {
    pub next_state: Option<NextState>,
    pub save: bool,
    pub activate: Option<Activation>,
}

impl OnEvent {
    pub fn exit() -> (r: Self)
        ensures
            r.next_state == Option::Some(NextState::Exit),
            !r.save,
            r.activate is None,
    {
        Self { next_state: Option::Some(NextState::Exit), save: false, activate: Option::None }
    }

    pub fn without_saving(state: SelectState) -> (r: Self)
        ensures
            r.next_state == Option::Some(NextState::State(state)),
            !r.save,
            r.activate is None,
    {
        Self {
            next_state: Option::Some(NextState::State(state)),
            save: false,
            activate: Option::None,
        }
    }

    pub fn with_saving(state: SelectState) -> (r: Self)
        ensures
            r.next_state == Option::Some(NextState::State(state)),
            r.save,
            r.activate is None,
    {
        Self {
            next_state: Option::Some(NextState::State(state)),
            save: true,
            activate: Option::None,
        }
    }

    pub fn ignore() -> (r: Self)
        ensures
            r.next_state is None,
            !r.save,
            r.activate is None,
    {
        Self { next_state: Option::None, save: false, activate: Option::None }
    }

    pub fn activating(a: Activation) -> (r: Self)
        ensures
            r.next_state is None,
            !r.save,
            r.activate == Option::Some(a),
    {
        Self { next_state: Option::None, save: false, activate: Option::Some(a) }
    }
}

/// Everything one transition decides: the visible outcome and the two lists
/// after the event.
pub struct Step {
    pub next: Option<NextState>,
    pub save: bool,
    pub activate: Option<Activation>,
    pub entries: Seq<Entry>,
    pub archive: Seq<Entry>,
}

pub open spec fn step_ignore(entries: Seq<Entry>, archive: Seq<Entry>) -> Step {
    Step {
        next: Option::None,
        save: false,
        activate: Option::None,
        entries: entries,
        archive: archive,
    }
}

pub open spec fn step_move_to(state: SelectState, entries: Seq<Entry>, archive: Seq<Entry>) -> Step {
    Step {
        next: Option::Some(NextState::State(state)),
        save: false,
        activate: Option::None,
        entries: entries,
        archive: archive,
    }
}

pub open spec fn step_save_to(state: SelectState, entries: Seq<Entry>, archive: Seq<Entry>) -> Step {
    Step {
        next: Option::Some(NextState::State(state)),
        save: true,
        activate: Option::None,
        entries: entries,
        archive: archive,
    }
}

pub open spec fn step_activate(a: Activation, entries: Seq<Entry>, archive: Seq<Entry>) -> Step {
    Step {
        next: Option::None,
        save: false,
        activate: Option::Some(a),
        entries: entries,
        archive: archive,
    }
}

/// The transition taken from active-entry focus.  Every transition that would
/// step out of bounds is a no-op.
pub open spec fn spec_step_entry(
    idx: usize,
    ev: InputEvent,
    entries: Seq<Entry>,
    archive: Seq<Entry>,
    max: int,
) -> Step {
    match ev {
        InputEvent::Up => if entries.len() > 0 && idx > 0 {
            step_move_to(SelectState::Entry((idx - 1) as usize), entries, archive)
        } else {
            step_ignore(entries, archive)
        },
        InputEvent::Down => if entries.len() > 0 && idx < entries.len() - 1 {
            step_move_to(SelectState::Entry((idx + 1) as usize), entries, archive)
        } else {
            step_ignore(entries, archive)
        },
        InputEvent::Delete => if entries.len() > 0 {
            let (e, a) = spec_archive_step(entries, archive, max, idx as int);
            let new_idx = if e.len() > 0 && idx == e.len() {
                (idx - 1) as usize
            } else {
                idx
            };
            step_save_to(SelectState::Entry(new_idx), e, a)
        } else {
            step_ignore(entries, archive)
        },
        InputEvent::ToggleArchive => if archive.len() > 0 {
            step_move_to(SelectState::Archive(0), entries, archive)
        } else {
            step_ignore(entries, archive)
        },
        InputEvent::StartDrag => if entries.len() > 0 {
            step_move_to(
                SelectState::Drag { dragged_entry_idx: idx, new_position: idx },
                entries,
                archive,
            )
        } else {
            step_ignore(entries, archive)
        },
        InputEvent::Home => step_move_to(SelectState::Entry(0), entries, archive),
        InputEvent::End => if entries.len() > 0 {
            step_move_to(SelectState::Entry((entries.len() - 1) as usize), entries, archive)
        } else {
            step_ignore(entries, archive)
        },
        InputEvent::Activate { quick } => if entries.len() > 0 {
            step_activate(Activation::Entry { idx, quick }, entries, archive)
        } else {
            step_ignore(entries, archive)
        },
        InputEvent::Paste { entry } => match entry {
            Option::Some(e) => {
                let new_idx: usize = if entries.len() == 0 {
                    0
                } else {
                    (idx + 1) as usize
                };
                step_save_to(
                    SelectState::Entry(new_idx),
                    entries.insert(new_idx as int, e),
                    archive,
                )
            },
            Option::None => step_ignore(entries, archive),
        },
        _ => step_ignore(entries, archive),
    }
}

/// The transition taken from archive focus.
pub open spec fn spec_step_archive(
    idx: usize,
    ev: InputEvent,
    entries: Seq<Entry>,
    archive: Seq<Entry>,
) -> Step {
    match ev {
        InputEvent::Up => if idx > 0 {
            step_move_to(SelectState::Archive((idx - 1) as usize), entries, archive)
        } else {
            step_ignore(entries, archive)
        },
        InputEvent::Down => if idx < archive.len() - 1 {
            step_move_to(SelectState::Archive((idx + 1) as usize), entries, archive)
        } else {
            step_ignore(entries, archive)
        },
        InputEvent::Delete => {
            let a = archive.remove(idx as int);
            let next = if a.len() == 0 {
                SelectState::Entry(0)
            } else if idx == a.len() {
                SelectState::Archive((idx - 1) as usize)
            } else {
                SelectState::Archive(idx)
            };
            step_save_to(next, entries, a)
        },
        InputEvent::ToggleArchive => step_move_to(SelectState::Entry(0), entries, archive),
        InputEvent::Restore => {
            let (e, a) = spec_restore_step(entries, archive, idx as int);
            step_save_to(SelectState::Entry(0), e, a)
        },
        InputEvent::Home => step_move_to(SelectState::Archive(0), entries, archive),
        InputEvent::End => step_move_to(
            SelectState::Archive((archive.len() - 1) as usize),
            entries,
            archive,
        ),
        InputEvent::Activate { quick } => step_activate(
            Activation::Archived { idx, quick },
            entries,
            archive,
        ),
        _ => step_ignore(entries, archive),
    }
}

/// The transition taken while dragging.  Navigation only previews the new
/// position; `Activate` commits the move, `Escape` abandons it.
pub open spec fn spec_step_drag(
    dragged: usize,
    pos: usize,
    ev: InputEvent,
    entries: Seq<Entry>,
    archive: Seq<Entry>,
) -> Step {
    match ev {
        InputEvent::Up => if pos > 0 {
            step_move_to(
                SelectState::Drag { dragged_entry_idx: dragged, new_position: (pos - 1) as usize },
                entries,
                archive,
            )
        } else {
            step_ignore(entries, archive)
        },
        InputEvent::Down => if pos < entries.len() - 1 {
            step_move_to(
                SelectState::Drag { dragged_entry_idx: dragged, new_position: (pos + 1) as usize },
                entries,
                archive,
            )
        } else {
            step_ignore(entries, archive)
        },
        InputEvent::Home => step_move_to(
            SelectState::Drag { dragged_entry_idx: dragged, new_position: 0 },
            entries,
            archive,
        ),
        InputEvent::End => if entries.len() > 0 {
            step_move_to(
                SelectState::Drag {
                    dragged_entry_idx: dragged,
                    new_position: (entries.len() - 1) as usize,
                },
                entries,
                archive,
            )
        } else {
            step_ignore(entries, archive)
        },
        InputEvent::Activate { quick } => step_save_to(
            SelectState::Entry(pos),
            spec_move(entries, dragged as int, pos as int),
            archive,
        ),
        InputEvent::Escape => step_move_to(SelectState::Entry(dragged), entries, archive),
        _ => step_ignore(entries, archive),
    }
}

/// The full transition relation: the quit key exits from every state; other
/// events go to the focused mode's rules.
pub open spec fn spec_step(
    st: SelectState,
    ev: InputEvent,
    entries: Seq<Entry>,
    archive: Seq<Entry>,
    max: int,
) -> Step {
    match ev {
        InputEvent::Quit => Step {
            next: Option::Some(NextState::Exit),
            save: false,
            activate: Option::None,
            entries: entries,
            archive: archive,
        },
        _ => match st {
            SelectState::Entry(idx) => spec_step_entry(idx, ev, entries, archive, max),
            SelectState::Archive(idx) => spec_step_archive(idx, ev, entries, archive),
            SelectState::Drag { dragged_entry_idx, new_position } => spec_step_drag(
                dragged_entry_idx,
                new_position,
                ev,
                entries,
                archive,
            ),
        },
    }
}

impl SelectState {
    /// Applies one input event: mutates the store as the transition relation
    /// says and reports the next state, the save flag, and what to open.
    pub fn on_event(&self, event: InputEvent, project: &mut Project) -> (r: OnEvent)
        requires
            self.valid(old(project).entries@.len() as int, old(project).archive@.len() as int),
        ensures
            ({
                let step = spec_step(
                    *self,
                    event,
                    old(project).entries@,
                    old(project).archive@,
                    old(project).config.max_archive as int,
                );
                &&& r.next_state == step.next
                &&& r.save == step.save
                &&& r.activate == step.activate
                &&& final(project).entries@ == step.entries
                &&& final(project).archive@ == step.archive
            }),
            final(project).config == old(project).config,
            final(project).root == old(project).root,
    {
        if let InputEvent::Quit = event {
            return OnEvent::exit();
        }
        match *self {
            SelectState::Entry(selected_idx) => match event {
                InputEvent::Up => {
                    if project.entries.len() > 0 && selected_idx > 0 {
                        OnEvent::without_saving(SelectState::Entry(selected_idx - 1))
                    } else {
                        OnEvent::ignore()
                    }
                },
                InputEvent::Down => {
                    if project.entries.len() > 0 && selected_idx < project.entries.len() - 1 {
                        OnEvent::without_saving(SelectState::Entry(selected_idx + 1))
                    } else {
                        OnEvent::ignore()
                    }
                },
                InputEvent::Delete => {
                    if project.entries.len() > 0 {
                        project.archive_entry(selected_idx);
                        let new_idx = if project.entries.len() > 0 && selected_idx
                            == project.entries.len() {
                            selected_idx - 1
                        } else {
                            selected_idx
                        };
                        OnEvent::with_saving(SelectState::Entry(new_idx))
                    } else {
                        OnEvent::ignore()
                    }
                },
                InputEvent::ToggleArchive => {
                    if project.archive.len() > 0 {
                        OnEvent::without_saving(SelectState::Archive(0))
                    } else {
                        OnEvent::ignore()
                    }
                },
                InputEvent::StartDrag => {
                    if project.entries.len() > 0 {
                        OnEvent::without_saving(
                            SelectState::Drag {
                                dragged_entry_idx: selected_idx,
                                new_position: selected_idx,
                            },
                        )
                    } else {
                        OnEvent::ignore()
                    }
                },
                InputEvent::Home => OnEvent::without_saving(SelectState::Entry(0)),
                InputEvent::End => {
                    if project.entries.len() > 0 {
                        OnEvent::without_saving(SelectState::Entry(project.entries.len() - 1))
                    } else {
                        OnEvent::ignore()
                    }
                },
                InputEvent::Activate { quick } => {
                    if project.entries.len() > 0 {
                        OnEvent::activating(Activation::Entry { idx: selected_idx, quick })
                    } else {
                        OnEvent::ignore()
                    }
                },
                InputEvent::Paste { entry } => match entry {
                    Option::Some(e) => {
                        let new_idx = if project.entries.len() == 0 {
                            0
                        } else {
                            selected_idx + 1
                        };
                        project.insert_entry_at(e, new_idx);
                        OnEvent::with_saving(SelectState::Entry(new_idx))
                    },
                    Option::None => OnEvent::ignore(),
                },
                _ => OnEvent::ignore(),
            },
            SelectState::Archive(selected_idx) => match event {
                InputEvent::Up => {
                    if selected_idx > 0 {
                        OnEvent::without_saving(SelectState::Archive(selected_idx - 1))
                    } else {
                        OnEvent::ignore()
                    }
                },
                InputEvent::Down => {
                    if selected_idx < project.archive.len() - 1 {
                        OnEvent::without_saving(SelectState::Archive(selected_idx + 1))
                    } else {
                        OnEvent::ignore()
                    }
                },
                InputEvent::Delete => {
                    project.remove_from_archive(selected_idx);
                    OnEvent::with_saving(
                        if project.archive.len() == 0 {
                            SelectState::Entry(0)
                        } else if selected_idx == project.archive.len() {
                            SelectState::Archive(selected_idx - 1)
                        } else {
                            SelectState::Archive(selected_idx)
                        },
                    )
                },
                InputEvent::ToggleArchive => OnEvent::without_saving(SelectState::Entry(0)),
                InputEvent::Restore => {
                    project.restore_from_archive(selected_idx);
                    OnEvent::with_saving(SelectState::Entry(0))
                },
                InputEvent::Home => OnEvent::without_saving(SelectState::Archive(0)),
                InputEvent::End => OnEvent::without_saving(
                    SelectState::Archive(project.archive.len() - 1),
                ),
                InputEvent::Activate { quick } => OnEvent::activating(
                    Activation::Archived { idx: selected_idx, quick },
                ),
                _ => OnEvent::ignore(),
            },
            SelectState::Drag { dragged_entry_idx, new_position } => match event {
                InputEvent::Up => {
                    if new_position > 0 {
                        OnEvent::without_saving(
                            SelectState::Drag {
                                dragged_entry_idx,
                                new_position: new_position - 1,
                            },
                        )
                    } else {
                        OnEvent::ignore()
                    }
                },
                InputEvent::Down => {
                    if new_position < project.entries.len() - 1 {
                        OnEvent::without_saving(
                            SelectState::Drag {
                                dragged_entry_idx,
                                new_position: new_position + 1,
                            },
                        )
                    } else {
                        OnEvent::ignore()
                    }
                },
                InputEvent::Home => OnEvent::without_saving(
                    SelectState::Drag { dragged_entry_idx, new_position: 0 },
                ),
                InputEvent::End => {
                    if project.entries.len() > 0 {
                        OnEvent::without_saving(
                            SelectState::Drag {
                                dragged_entry_idx,
                                new_position: project.entries.len() - 1,
                            },
                        )
                    } else {
                        OnEvent::ignore()
                    }
                },
                InputEvent::Activate { quick: _ } => {
                    project.move_entry(dragged_entry_idx, new_position);
                    OnEvent::with_saving(SelectState::Entry(new_position))
                },
                InputEvent::Escape => OnEvent::without_saving(
                    SelectState::Entry(dragged_entry_idx),
                ),
                _ => OnEvent::ignore(),
            },
        }
    }
}

// ---------------------------------------------------------------------------
// The key-binding menu shown beside the lists.
// ---------------------------------------------------------------------------

/// What the uppercasing of a string reads; the result depends on the
/// characters alone.
pub uninterp spec fn upper_of(s: Seq<char>) -> Seq<char>;

/// Relies on `str::to_uppercase`: a pure function of the characters.
#[verifier::external_body]
fn uppercase(s: &str) -> (r: String)
    ensures
        r@ == upper_of(s@),
{
    s.to_uppercase()
}

/// One line of the menu: a key and what it does.
pub struct KeyOption {
    pub key: &'static str,
    pub description: String,
}

/// The mathematical value of a [`KeyOption`].
pub struct KeyOptionV {
    pub key: Seq<char>,
    pub description: Seq<char>,
}

impl View for KeyOption {
    type V = KeyOptionV;

    open spec fn view(&self) -> KeyOptionV {
        KeyOptionV { key: self.key@, description: self.description@ }
    }
}

impl KeyOption {
    pub fn new(key: &'static str, description: String) -> (r: Self)
        ensures
            r.key == key,
            r.description == description,
    {
        Self { key, description }
    }
}

pub open spec fn kopt(key: Seq<char>, description: Seq<char>) -> KeyOptionV {
    KeyOptionV { key, description }
}

/// The quick-launch state the caller computed for the focused entry: `None`
/// when it has no preferred file, else that file's extension, if any.
pub open spec fn pref_view(p: Option<PreferredFile>) -> Option<Option<Seq<char>>> {
    match p {
        Option::Some(pf) => Option::Some(
            match pf.extension {
                Option::Some(e) => Option::Some(e@),
                Option::None => Option::None,
            },
        ),
        Option::None => Option::None,
    }
}

/// The description of the quick-launch binding.
pub open spec fn spec_pref_desc(ext: Option<Seq<char>>) -> Seq<char> {
    match ext {
        Option::Some(e) => "open ."@ + upper_of(e) + " file"@,
        Option::None => "open preferred file"@,
    }
}

/// The menu lines offered in each state: exactly the transitions that are
/// not no-ops (plus the always-available ones), then the quit key.
pub open spec fn spec_options(
    st: SelectState,
    entries_len: int,
    archive_len: int,
    pref: Option<Option<Seq<char>>>,
    clipboard_ok: bool,
) -> Seq<KeyOptionV> {
    (match st {
        SelectState::Entry(idx) => (if entries_len > 0 {
            seq![kopt("<Enter>"@, "open entry"@)] + (match pref {
                Option::Some(ext) => seq![kopt("<Ctrl+Enter>"@, spec_pref_desc(ext))],
                Option::None => Seq::empty(),
            }) + (if idx > 0 {
                seq![kopt("<Up>"@, "select above entry"@)]
            } else {
                Seq::empty()
            }) + (if (idx as int) < entries_len - 1 {
                seq![kopt("<Down>"@, "select below entry"@)]
            } else {
                Seq::empty()
            }) + seq![
                kopt("<Home>"@, "select first entry"@),
                kopt("<End>"@, "select last entry"@),
                kopt("<Delete>"@, "archive entry"@),
                kopt("d"@, "drag entry"@),
            ]
        } else {
            Seq::empty()
        }) + (if archive_len > 0 {
            seq![kopt("a"@, "go to archive"@)]
        } else {
            Seq::empty()
        }) + (if clipboard_ok {
            seq![kopt("^v"@, "paste clipboard"@)]
        } else {
            Seq::empty()
        }),
        SelectState::Archive(idx) => seq![kopt("<Enter>"@, "open entry"@)] + (match pref {
            Option::Some(ext) => seq![kopt("<Ctrl+Enter>"@, spec_pref_desc(ext))],
            Option::None => Seq::empty(),
        }) + (if idx > 0 {
            seq![kopt("<Up>"@, "select above entry"@)]
        } else {
            Seq::empty()
        }) + (if (idx as int) < archive_len - 1 {
            seq![kopt("<Down>"@, "select below entry"@)]
        } else {
            Seq::empty()
        }) + seq![
            kopt("<Home>"@, "select first entry"@),
            kopt("<End>"@, "select last entry"@),
            kopt("<Delete>"@, "delete entry forever"@),
            kopt("r"@, "restore entry"@),
            kopt("a"@, "return to main entries"@),
        ],
        SelectState::Drag { dragged_entry_idx: _, new_position: pos } => seq![
            kopt("<Enter>"@, "select new location"@),
        ] + (if pos > 0 {
            seq![kopt("<Up>"@, "shift one up"@)]
        } else {
            Seq::empty()
        }) + (if (pos as int) < entries_len - 1 {
            seq![kopt("<Down>"@, "shift one down"@)]
        } else {
            Seq::empty()
        }) + seq![kopt("<Home>"@, "shift to top"@), kopt("<End>"@, "shift to bottom"@), kopt(
            "<Esc>"@,
            "cancel drag"@,
        )],
    }) + seq![kopt("q"@, "quit"@)]
}

pub open spec fn opts_view(v: Seq<KeyOption>) -> Seq<KeyOptionV> {
    v.map_values(|o: KeyOption| o@)
}

/// Builds the quick-launch line's description.
fn pref_desc(ext: &Option<String>) -> (r: String)
    ensures
        r@ == spec_pref_desc(
            match ext {
                Option::Some(e) => Option::Some(e@),
                Option::None => Option::None,
            },
        ),
{
    match ext {
        Option::Some(e) => {
            let up = uppercase(e.as_str());
            let d = "open .".to_owned().concat(up.as_str()).concat(" file");
            d
        },
        Option::None => "open preferred file".to_owned(),
    }
}

impl SelectState {
    /// Lists the key bindings available in this state.  `pref` is the
    /// quick-launch target the caller computed for the focused entry, and
    /// `clipboard_ok` whether clipboard content is available to paste.
    #[verifier::rlimit(100)]
    pub fn get_options(&self, project: &Project, pref: &Option<PreferredFile>, clipboard_ok: bool)
        -> (r: Vec<KeyOption>)
        requires
            self.valid(project.entries@.len() as int, project.archive@.len() as int),
        ensures
            opts_view(r@) == spec_options(
                *self,
                project.entries@.len() as int,
                project.archive@.len() as int,
                pref_view(*pref),
                clipboard_ok,
            ),
    {
        let mut ret: Vec<KeyOption> = Vec::new();
        match *self {
            SelectState::Entry(selected_idx) => {
                if project.entries.len() > 0 {
                    ret.push(KeyOption::new("<Enter>", "open entry".to_owned()));
                    match pref {
                        Option::Some(pf) => {
                            ret.push(KeyOption::new("<Ctrl+Enter>", pref_desc(&pf.extension)));
                        },
                        Option::None => {},
                    }
                    if selected_idx > 0 {
                        ret.push(KeyOption::new("<Up>", "select above entry".to_owned()));
                    }
                    if selected_idx < project.entries.len() - 1 {
                        ret.push(KeyOption::new("<Down>", "select below entry".to_owned()));
                    }
                    ret.push(KeyOption::new("<Home>", "select first entry".to_owned()));
                    ret.push(KeyOption::new("<End>", "select last entry".to_owned()));
                    ret.push(KeyOption::new("<Delete>", "archive entry".to_owned()));
                    ret.push(KeyOption::new("d", "drag entry".to_owned()));
                }
                if project.archive.len() > 0 {
                    ret.push(KeyOption::new("a", "go to archive".to_owned()));
                }
                if clipboard_ok {
                    ret.push(KeyOption::new("^v", "paste clipboard".to_owned()));
                }
            },
            SelectState::Archive(selected_idx) => {
                ret.push(KeyOption::new("<Enter>", "open entry".to_owned()));
                match pref {
                    Option::Some(pf) => {
                        ret.push(KeyOption::new("<Ctrl+Enter>", pref_desc(&pf.extension)));
                    },
                    Option::None => {},
                }
                if selected_idx > 0 {
                    ret.push(KeyOption::new("<Up>", "select above entry".to_owned()));
                }
                if selected_idx < project.archive.len() - 1 {
                    ret.push(KeyOption::new("<Down>", "select below entry".to_owned()));
                }
                ret.push(KeyOption::new("<Home>", "select first entry".to_owned()));
                ret.push(KeyOption::new("<End>", "select last entry".to_owned()));
                ret.push(KeyOption::new("<Delete>", "delete entry forever".to_owned()));
                ret.push(KeyOption::new("r", "restore entry".to_owned()));
                ret.push(KeyOption::new("a", "return to main entries".to_owned()));
            },
            SelectState::Drag { dragged_entry_idx: _, new_position } => {
                ret.push(KeyOption::new("<Enter>", "select new location".to_owned()));
                if new_position > 0 {
                    ret.push(KeyOption::new("<Up>", "shift one up".to_owned()));
                }
                if new_position < project.entries.len() - 1 {
                    ret.push(KeyOption::new("<Down>", "shift one down".to_owned()));
                }
                ret.push(KeyOption::new("<Home>", "shift to top".to_owned()));
                ret.push(KeyOption::new("<End>", "shift to bottom".to_owned()));
                ret.push(KeyOption::new("<Esc>", "cancel drag".to_owned()));
            },
        }
        ret.push(KeyOption::new("q", "quit".to_owned()));
        proof {
            assert(opts_view(ret@) =~= spec_options(
                *self,
                project.entries@.len() as int,
                project.archive@.len() as int,
                pref_view(*pref),
                clipboard_ok,
            ));
        }
        ret
    }
}

/// Navigation and every other transition keep the selection valid: from a
/// valid state, whatever the event, the machine either exits, stays put, or
/// lands on a state that is valid for the lists as the event left them.
pub proof fn lemma_step_preserves_validity(
    st: SelectState,
    ev: InputEvent,
    entries: Seq<Entry>,
    archive: Seq<Entry>,
    max: int,
)
    requires
        st.valid(entries.len() as int, archive.len() as int),
    ensures
        ({
            let step = spec_step(st, ev, entries, archive, max);
            match step.next {
                Option::Some(NextState::State(s2)) => s2.valid(
                    step.entries.len() as int,
                    step.archive.len() as int,
                ),
                Option::Some(NextState::Exit) => true,
                Option::None => st.valid(step.entries.len() as int, step.archive.len() as int),
            }
        }),
{
}

} // verus!
