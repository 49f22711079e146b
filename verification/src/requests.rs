//! Remote commands: what a forwarding invocation sends to the live instance,
//! and how the live instance applies what its listener queued.
//!
//! The listener thread and the queue live with the caller; the queue's
//! drained contents arrive here as a plain vector, and each command is
//! applied in drain order.

use crate::args::AddArgs;
use crate::config::Entry;
use crate::link::spec_link_from_parts;
use crate::link::Link;
use crate::project::Project;
use vstd::prelude::*;

verus! {

/// The one command a remote invocation can forward: insert an entry.
pub struct InsertRequest {
    pub name: String,
    pub link: Link,
    pub metadata: Vec<String>,
}

/// The open union of commands the control channel carries.
pub enum RemoteRequest {
    Insert(InsertRequest),
}

/// The request an `add` invocation builds from its arguments.
/// `link_is_absolute` and `link_is_dir` are the caller's filesystem probe of
/// the raw link string.
pub open spec fn spec_request_of_args(
    args: AddArgs,
    link_is_absolute: bool,
    link_is_dir: bool,
) -> InsertRequest {
    InsertRequest {
        name: args.name,
        link: if link_is_absolute {
            if link_is_dir {
                Link::Directory(args.link)
            } else {
                Link::File(args.link)
            }
        } else {
            Link::Url(args.link)
        },
        metadata: args.metadata,
    }
}

impl InsertRequest {
    /// Builds the request an `add` invocation forwards or applies.
    pub fn from_args(args: AddArgs, link_is_absolute: bool, link_is_dir: bool) -> (r: Self)
        ensures
            r == spec_request_of_args(args, link_is_absolute, link_is_dir),
            r.link@ == spec_link_from_parts(args.link@, link_is_absolute, link_is_dir),
    {
        let AddArgs { name, link, metadata } = args;
        InsertRequest { name, link: Link::from_parts(link, link_is_absolute, link_is_dir), metadata }
    }
}

/// The entry a request turns into when it is applied at time `now`.
pub open spec fn spec_entry_of_request(req: InsertRequest, now: i64) -> Entry {
    Entry { name: req.name, link: req.link, time_added: now, metadata: req.metadata }
}

impl Entry {
    /// Builds the entry a request inserts; `now` is the add timestamp.
    pub fn from_request(req: InsertRequest, now: i64) -> (r: Self)
        ensures
            r == spec_entry_of_request(req, now),
    {
        let InsertRequest { name, link, metadata } = req;
        Entry { name, link, time_added: now, metadata }
    }
}

/// A command as the listener queued it for the interactive loop.
pub enum ListenerMessages {
    Insert(InsertRequest),
}

impl From<RemoteRequest> for ListenerMessages {
    fn from(request: RemoteRequest) -> (r: Self) {
        match request {
            RemoteRequest::Insert(req) => ListenerMessages::Insert(req),
        }
    }
}

impl vstd::std_specs::convert::FromSpecImpl<RemoteRequest> for ListenerMessages {
    open spec fn obeys_from_spec() -> bool {
        true
    }

    open spec fn from_spec(request: RemoteRequest) -> Self {
        match request {
            RemoteRequest::Insert(req) => ListenerMessages::Insert(req),
        }
    }
}

/// The entry a queued command inserts when applied at time `now`.
pub open spec fn spec_entry_of_message(m: ListenerMessages, now: i64) -> Entry {
    match m {
        ListenerMessages::Insert(req) => spec_entry_of_request(req, now),
    }
}

impl ListenerMessages {
    /// Applies one queued command to the store and says whether the store
    /// now needs saving.  Every command the channel carries mutates.
    pub fn apply(self, project: &mut Project, now: i64) -> (r: bool)
        ensures
            final(project).entries@ == seq![spec_entry_of_message(self, now)] + old(
                project,
            ).entries@,
            final(project).archive == old(project).archive,
            final(project).config == old(project).config,
            final(project).root == old(project).root,
            r,
    {
        match self {
            ListenerMessages::Insert(req) => {
                project.insert_entry(Entry::from_request(req, now));
                true
            },
        }
    }
}

/// The active list after the queued commands from `i` on are applied, oldest
/// first, each inserting its entry at the head.
pub open spec fn spec_apply_from(
    messages: Seq<ListenerMessages>,
    i: int,
    entries: Seq<Entry>,
    now: i64,
) -> Seq<Entry>
    decreases messages.len() - i,
{
    if i < 0 || i >= messages.len() {
        entries
    } else {
        spec_apply_from(messages, i + 1, seq![spec_entry_of_message(messages[i], now)] + entries, now)
    }
}

/// Drains one tick's worth of queued commands into the store, in queue
/// order, and says whether anything mutated (so the store must be saved).
pub fn apply_messages(project: &mut Project, messages: Vec<ListenerMessages>, now: i64) -> (r: bool)
    ensures
        final(project).entries@ == spec_apply_from(messages@, 0, old(project).entries@, now),
        final(project).archive == old(project).archive,
        final(project).config == old(project).config,
        final(project).root == old(project).root,
        r == (messages@.len() > 0),
{
    let ghost all = messages@;
    let ghost base = project.entries@;
    let mut pending = messages;
    let mut mutated = false;
    while pending.len() > 0
        invariant
            pending@.len() <= all.len(),
            spec_apply_from(pending@, 0, project.entries@, now) == spec_apply_from(
                all,
                0,
                base,
                now,
            ),
            mutated == (pending@.len() < all.len()),
            project.archive == old(project).archive,
            project.config == old(project).config,
            project.root == old(project).root,
        decreases pending@.len(),
    {
        let ghost before = pending@;
        let m = pending.remove(0);
        proof {
            assert(pending@ =~= before.drop_first());
            lemma_apply_shift(before, 1, seq![spec_entry_of_message(m, now)] + project.entries@, now);
        }
        mutated = m.apply(project, now) || mutated;
    }
    mutated
}

proof fn lemma_apply_shift(messages: Seq<ListenerMessages>, j: int, entries: Seq<Entry>, now: i64)
    requires
        1 <= j,
        1 <= messages.len(),
    ensures
        spec_apply_from(messages, j, entries, now) == spec_apply_from(
            messages.drop_first(),
            j - 1,
            entries,
            now,
        ),
    decreases messages.len() - j,
{
    if j < messages.len() {
        assert(messages.drop_first()[j - 1] == messages[j]);
        lemma_apply_shift(
            messages,
            j + 1,
            seq![spec_entry_of_message(messages[j], now)] + entries,
            now,
        );
    }
}


proof fn lemma_apply_from_order(
    messages: Seq<ListenerMessages>,
    i: int,
    entries: Seq<Entry>,
    now: i64,
)
    requires
        0 <= i <= messages.len(),
    ensures
        spec_apply_from(messages, i, entries, now) == messages.skip(i).map_values(
            |m: ListenerMessages| spec_entry_of_message(m, now),
        ).reverse() + entries,
    decreases messages.len() - i,
{
    let f = |m: ListenerMessages| spec_entry_of_message(m, now);
    if i >= messages.len() {
        assert(messages.skip(i).map_values(f).reverse() + entries =~= entries);
    } else {
        lemma_apply_from_order(messages, i + 1, seq![f(messages[i])] + entries, now);
        assert(messages.skip(i).map_values(f).reverse() =~= messages.skip(i + 1).map_values(
            f,
        ).reverse() + seq![f(messages[i])]);
        assert(messages.skip(i + 1).map_values(f).reverse() + (seq![f(messages[i])] + entries)
            =~= messages.skip(i).map_values(f).reverse() + entries);
    }
}

/// Drained commands are applied oldest first and each inserts at the head:
/// the batch ends up newest-first, in front of whatever the list held.
pub proof fn lemma_apply_messages_order(
    messages: Seq<ListenerMessages>,
    entries: Seq<Entry>,
    now: i64,
)
    ensures
        spec_apply_from(messages, 0, entries, now) == messages.map_values(
            |m: ListenerMessages| spec_entry_of_message(m, now),
        ).reverse() + entries,
{
    lemma_apply_from_order(messages, 0, entries, now);
    assert(messages.skip(0) =~= messages);
}

} // verus!
