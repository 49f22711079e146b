//! The command-line surface: what an invocation asks for, and how a one-shot
//! command is applied to the store.
//!
//! Reading the actual command line, files and the clock is the caller's
//! business; these types carry the parsed values, and `apply` performs the
//! store mutation a one-shot command asks for.

use crate::config::Entry;
use crate::project::Project;
use crate::requests::spec_entry_of_request;
use crate::requests::spec_request_of_args;
use crate::requests::InsertRequest;
use vstd::prelude::*;

verus! {

/// What `apply` tells the caller: whether the process should exit instead
/// of opening the interactive view.
pub struct ArgsApplyResult {
    pub should_exit: bool,
}

/// A parsed invocation: the project directory, an optional subcommand, and
/// whether to exit after the one-shot action.
pub struct MainArgs {
    pub project_root: String,
    pub command: Option<Command>,
    pub exit: bool,
}

/// The subcommands; no subcommand means `View`.
pub enum Command {
    New(NewArgs),
    View,
    Add(AddArgs),
}

impl Default for Command {
    fn default() -> (r: Self)
        ensures
            r == Command::View,
    {
        Command::View
    }
}

/// Arguments of `new`: initialize a project directory.
pub struct NewArgs {
    pub max_archive: Option<usize>,
    pub quick_launch: Option<String>,
    pub force: bool,
    pub clear: bool,
}

/// Arguments of `add`: one entry to insert.
pub struct AddArgs {
    pub name: String,
    pub link: String,
    pub metadata: Vec<String>,
}

/// What a one-shot command does to the store: `add` inserts its entry at the
/// head and mutates; `new` and `view` touch nothing.
pub open spec fn spec_command_applies(c: Option<Command>) -> bool {
    c matches Option::Some(Command::Add(_))
}

impl Command {
    /// Applies a one-shot command to the store and says whether it mutated
    /// (so the caller must save).  For `Add`, `link_is_absolute` and
    /// `link_is_dir` are the caller's probe of the raw link string and `now`
    /// the add timestamp.
    pub fn apply(self, project: &mut Project, now: i64, link_is_absolute: bool, link_is_dir: bool)
        -> (r: bool)
        ensures
            match self {
                Command::Add(args) => {
                    &&& final(project).entries@ == seq![
                        spec_entry_of_request(
                            spec_request_of_args(args, link_is_absolute, link_is_dir),
                            now,
                        ),
                    ] + old(project).entries@
                    &&& r
                },
                _ => {
                    &&& final(project).entries == old(project).entries
                    &&& !r
                },
            },
            final(project).archive == old(project).archive,
            final(project).config == old(project).config,
            final(project).root == old(project).root,
    {
        match self {
            Command::New(_) => false,
            Command::View => false,
            Command::Add(args) => {
                let request = InsertRequest::from_args(args, link_is_absolute, link_is_dir);
                project.insert_entry(Entry::from_request(request, now));
                true
            },
        }
    }
}

impl MainArgs {
    /// Applies the invocation's one-shot command (none means `View`) and
    /// reports whether to exit and whether the store mutated.
    pub fn apply(self, project: &mut Project, now: i64, link_is_absolute: bool, link_is_dir: bool)
        -> (r: (ArgsApplyResult, bool))
        ensures
            r.0.should_exit == self.exit,
            match self.command {
                Option::Some(Command::Add(args)) => {
                    &&& final(project).entries@ == seq![
                        spec_entry_of_request(
                            spec_request_of_args(args, link_is_absolute, link_is_dir),
                            now,
                        ),
                    ] + old(project).entries@
                    &&& r.1
                },
                _ => {
                    &&& final(project).entries == old(project).entries
                    &&& !r.1
                },
            },
            final(project).archive == old(project).archive,
            final(project).config == old(project).config,
            final(project).root == old(project).root,
    {
        let should_exit = self.exit;
        let command = match self.command {
            Option::Some(c) => c,
            Option::None => Command::default(),
        };
        let mutated = command.apply(project, now, link_is_absolute, link_is_dir);
        (ArgsApplyResult { should_exit }, mutated)
    }
}

// ---------------------------------------------------------------------------
// The quick-launch layer syntax: layers separated by commas, suffixes within
// a layer separated by pipes.
// ---------------------------------------------------------------------------

/// Index of the first `sep` in `s`, or `-1` when there is none.
pub open spec fn find_sep(s: Seq<char>, sep: char) -> int
    decreases s.len(),
{
    if s.len() == 0 {
        -1
    } else if s[0] == sep {
        0
    } else if find_sep(s.drop_first(), sep) == -1 {
        -1
    } else {
        find_sep(s.drop_first(), sep) + 1
    }
}

/// The pieces of `s` between occurrences of `sep`; splitting never yields
/// zero pieces: a string without `sep` is one piece, possibly empty.
pub open spec fn spec_split(s: Seq<char>, sep: char) -> Seq<Seq<char>>
    decreases s.len(),
{
    let i = find_sep(s, sep);
    if i < 0 || i >= s.len() {
        seq![s]
    } else {
        seq![s.subrange(0, i)] + spec_split(s.subrange(i + 1, s.len() as int), sep)
    }
}

/// The layers a raw quick-launch string describes.
pub open spec fn spec_layers(s: Seq<char>) -> Seq<Seq<Seq<char>>> {
    spec_split(s, ',').map_values(|layer: Seq<char>| spec_split(layer, '|'))
}

/// `i` is the first occurrence of `sep` in `s` exactly when nothing before
/// it is `sep` and it is.
proof fn lemma_find_sep_at(s: Seq<char>, sep: char, i: int)
    requires
        0 <= i < s.len(),
        s[i] == sep,
        forall|j: int| 0 <= j < i ==> s[j] != sep,
    ensures
        find_sep(s, sep) == i,
    decreases s.len(),
{
    if i > 0 {
        assert(forall|j: int| 0 <= j < s.len() - 1 ==> s.drop_first()[j] == s[j + 1]);
        lemma_find_sep_at(s.drop_first(), sep, i - 1);
    }
}

proof fn lemma_find_sep_none(s: Seq<char>, sep: char)
    requires
        forall|j: int| 0 <= j < s.len() ==> s[j] != sep,
    ensures
        find_sep(s, sep) == -1,
    decreases s.len(),
{
    if s.len() > 0 {
        assert(forall|j: int| 0 <= j < s.len() - 1 ==> s.drop_first()[j] == s[j + 1]);
        lemma_find_sep_none(s.drop_first(), sep);
    }
}

/// Splits `s` at every occurrence of `sep`.
pub fn split_str(s: &str, sep: char) -> (r: Vec<String>)
    ensures
        r@.map_values(|p: String| p@) == spec_split(s@, sep),
    decreases s@.len(),
{
    let len = s.unicode_len();
    let mut i: usize = 0;
    while i < len && s.get_char(i) != sep
        invariant
            0 <= i <= s@.len(),
            len == s@.len(),
            forall|j: int| 0 <= j < i ==> s@[j] != sep,
        decreases len - i,
    {
        i = i + 1;
    }
    if i == len {
        proof {
            lemma_find_sep_none(s@, sep);
        }
        let mut r: Vec<String> = Vec::new();
        r.push(s.to_owned());
        proof {
            assert(r@.map_values(|p: String| p@) =~= spec_split(s@, sep));
        }
        r
    } else {
        proof {
            lemma_find_sep_at(s@, sep, i as int);
        }
        let piece = s.substring_char(0, i).to_owned();
        let rest = s.substring_char(i + 1, len);
        let mut tail = split_str(rest, sep);
        let ghost tail_view = tail@;
        let mut r: Vec<String> = Vec::new();
        r.push(piece);
        r.append(&mut tail);
        proof {
            assert(r@ =~= seq![piece] + tail_view);
            assert(tail_view.map_values(|p: String| p@) == spec_split(rest@, sep));
            assert(rest@ == s@.subrange(find_sep(s@, sep) + 1, s@.len() as int));
            assert(r@.map_values(|p: String| p@) =~= spec_split(s@, sep));
        }
        r
    }
}

/// Parses the quick-launch syntax: comma-separated layers, each a
/// pipe-separated list of suffixes, most preferred layer first.
pub fn parse_layers(s: &str) -> (r: Vec<Vec<String>>)
    ensures
        r@.map_values(|layer: Vec<String>| layer@.map_values(|p: String| p@)) == spec_layers(s@),
{
    let pieces = split_str(s, ',');
    let mut r: Vec<Vec<String>> = Vec::new();
    let mut i: usize = 0;
    while i < pieces.len()
        invariant
            0 <= i <= pieces@.len(),
            r@.len() == i,
            pieces@.map_values(|p: String| p@) == spec_split(s@, ','),
            forall|j: int|
                0 <= j < i ==> r@[j]@.map_values(|p: String| p@) == spec_split(
                    pieces@[j]@,
                    '|',
                ),
        decreases pieces@.len() - i,
    {
        let layer = split_str(pieces[i].as_str(), '|');
        r.push(layer);
        i = i + 1;
    }
    proof {
        assert(spec_split(s@, ',').len() == pieces@.len());
        assert(r@.map_values(|layer: Vec<String>| layer@.map_values(|p: String| p@))
            =~= spec_layers(s@));
    }
    r
}

} // verus!
