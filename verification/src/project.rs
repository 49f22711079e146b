//! The entry store: an ordered active list and an ordered archive, with the
//! atomic transfers between them.
//!
//! The archive holds the most recently archived entry first and never grows
//! past the configured bound: archiving past the bound evicts the oldest
//! archived entry.  Loading and saving the store is the caller's business.

use crate::config::Entry;
use crate::config::FlistConfig;
use vstd::prelude::*;

verus! {

/// A project: its directory, its configuration, and the two entry lists.
pub struct Project {
    pub root: String,
    pub config: FlistConfig,
    pub entries: Vec<Entry>,
    pub archive: Vec<Entry>,
}

/// What archiving the entry at `i` does to the two lists: the entry moves to
/// the head of the archive, and when that pushes the archive past `max`, the
/// oldest archived entry (the tail) is evicted.
pub open spec fn spec_archive_step(
    entries: Seq<Entry>,
    archive: Seq<Entry>,
    max: int,
    i: int,
) -> (Seq<Entry>, Seq<Entry>) {
    let pushed = seq![entries[i]] + archive;
    (entries.remove(i), if pushed.len() > max { pushed.drop_last() } else { pushed })
}

/// What restoring the archived entry at `j` does to the two lists: the entry
/// moves to the head of the active list.
pub open spec fn spec_restore_step(
    entries: Seq<Entry>,
    archive: Seq<Entry>,
    j: int,
) -> (Seq<Entry>, Seq<Entry>) {
    (seq![archive[j]] + entries, archive.remove(j))
}

/// What a committed drag does to the active list: nothing when `from == to`,
/// otherwise the entry at `from` is taken out and re-inserted at `to`.
pub open spec fn spec_move(s: Seq<Entry>, from: int, to: int) -> Seq<Entry> {
    if from == to {
        s
    } else {
        s.remove(from).insert(to, s[from])
    }
}

impl Project {
    /// The archive respects its configured bound.
    pub open spec fn wf(&self) -> bool {
        self.archive@.len() <= self.config.max_archive
    }

    pub fn new(root: String, config: FlistConfig, entries: Vec<Entry>, archive: Vec<Entry>) -> (r:
        Self)
        ensures
            r.root == root,
            r.config == config,
            r.entries == entries,
            r.archive == archive,
    {
        Self { root, config, entries, archive }
    }

    /// Inserts a new entry at the head of the active list.
    pub fn insert_entry(&mut self, entry: Entry)
        ensures
            final(self).entries@ == seq![entry] + old(self).entries@,
            final(self).archive == old(self).archive,
            final(self).config == old(self).config,
            final(self).root == old(self).root,
    {
        self.entries.insert(0, entry);
        proof {
            assert(self.entries@ =~= seq![entry] + old(self).entries@);
        }
    }

    /// Inserts a new entry at position `idx` of the active list.
    pub fn insert_entry_at(&mut self, entry: Entry, idx: usize)
        requires
            idx <= old(self).entries@.len(),
        ensures
            final(self).entries@ == old(self).entries@.insert(idx as int, entry),
            final(self).archive == old(self).archive,
            final(self).config == old(self).config,
            final(self).root == old(self).root,
    {
        self.entries.insert(idx, entry);
    }

    /// Moves the entry at `entry_idx` from the active list to the head of the
    /// archive, evicting the archive's tail when the bound is exceeded.
    pub fn archive_entry(&mut self, entry_idx: usize)
        requires
            entry_idx < old(self).entries@.len(),
        ensures
            (final(self).entries@, final(self).archive@) == spec_archive_step(
                old(self).entries@,
                old(self).archive@,
                old(self).config.max_archive as int,
                entry_idx as int,
            ),
            final(self).config == old(self).config,
            final(self).root == old(self).root,
            old(self).wf() ==> final(self).wf(),
    {
        let entry = self.entries.remove(entry_idx);
        self.archive.insert(0, entry);
        if self.archive.len() > self.config.max_archive {
            self.archive.pop();
        }
        proof {
            let pushed = seq![old(self).entries@[entry_idx as int]] + old(self).archive@;
            assert(old(self).archive@.insert(0, old(self).entries@[entry_idx as int]) =~= pushed);
            if pushed.len() > self.config.max_archive {
                assert(self.archive@ =~= pushed.drop_last());
            }
        }
    }

    /// Deletes the archived entry at `entry_idx` for good.
    pub fn remove_from_archive(&mut self, entry_idx: usize)
        requires
            entry_idx < old(self).archive@.len(),
        ensures
            final(self).archive@ == old(self).archive@.remove(entry_idx as int),
            final(self).entries == old(self).entries,
            final(self).config == old(self).config,
            final(self).root == old(self).root,
            old(self).wf() ==> final(self).wf(),
    {
        self.archive.remove(entry_idx);
    }

    /// Moves the archived entry at `entry_idx` back to the head of the active
    /// list.
    pub fn restore_from_archive(&mut self, entry_idx: usize)
        requires
            entry_idx < old(self).archive@.len(),
        ensures
            (final(self).entries@, final(self).archive@) == spec_restore_step(
                old(self).entries@,
                old(self).archive@,
                entry_idx as int,
            ),
            final(self).config == old(self).config,
            final(self).root == old(self).root,
            old(self).wf() ==> final(self).wf(),
    {
        let entry = self.archive.remove(entry_idx);
        self.entries.insert(0, entry);
        proof {
            assert(self.entries@ =~= seq![old(self).archive@[entry_idx as int]] + old(
                self,
            ).entries@);
        }
    }

    /// Re-orders the active list: the entry at `from` ends up at `to`.
    pub fn move_entry(&mut self, from: usize, to: usize)
        requires
            from < old(self).entries@.len(),
            to < old(self).entries@.len(),
        ensures
            final(self).entries@ == spec_move(old(self).entries@, from as int, to as int),
            final(self).archive == old(self).archive,
            final(self).config == old(self).config,
            final(self).root == old(self).root,
    {
        if from == to {
            return ;
        }
        let entry = self.entries.remove(from);
        self.entries.insert(to, entry);
    }
}

// ---------------------------------------------------------------------------
// Laws of the store.
// ---------------------------------------------------------------------------

/// Archiving the entry at `i` shortens the active list by one, grows the
/// archive by one (or keeps its length, evicting the oldest archived entry,
/// when it is already at the bound), and puts exactly the entry that stood at
/// `i` at the head of the archive.
pub proof fn lemma_archive_entry_effect(entries: Seq<Entry>, archive: Seq<Entry>, max: int, i: int)
    requires
        0 <= i < entries.len(),
        archive.len() <= max,
        max >= 1,
    ensures
        spec_archive_step(entries, archive, max, i).0.len() == entries.len() - 1,
        spec_archive_step(entries, archive, max, i).1.len() == if archive.len() == max {
            archive.len()
        } else {
            archive.len() + 1
        },
        spec_archive_step(entries, archive, max, i).1[0] == entries[i],
        forall|k: int|
            0 < k < spec_archive_step(entries, archive, max, i).1.len() ==> spec_archive_step(
                entries,
                archive,
                max,
                i,
            ).1[k] == archive[k - 1],
{
    let pushed = seq![entries[i]] + archive;
    assert(pushed.len() == archive.len() + 1);
    assert(pushed[0] == entries[i]);
}

/// Restoring the archived entry at `j` puts exactly that entry at index 0 of
/// the active list and removes it from the archive; archiving an entry and
/// restoring it straight away hands back the very same entry, name, link,
/// timestamp and metadata unchanged.
pub proof fn lemma_archive_restore_round_trip(
    entries: Seq<Entry>,
    archive: Seq<Entry>,
    max: int,
    i: int,
)
    requires
        0 <= i < entries.len(),
        archive.len() <= max,
        max >= 1,
    ensures
        ({
            let (e1, a1) = spec_archive_step(entries, archive, max, i);
            let (e2, a2) = spec_restore_step(e1, a1, 0);
            &&& a1[0] == entries[i]
            &&& e2[0] == entries[i]
            &&& e2 == seq![entries[i]] + e1
            &&& a2 == a1.remove(0)
        }),
{
    let pushed = seq![entries[i]] + archive;
    assert(pushed[0] == entries[i]);
}

/// A committed drag with `from == to` changes nothing; with `from != to` the
/// entry that stood at `from` stands at `to`, the length is unchanged, and
/// the remaining entries keep their relative order: taking the moved entry
/// back out of the result gives exactly the original list without it.
pub proof fn lemma_move_entry_effect(s: Seq<Entry>, from: int, to: int)
    requires
        0 <= from < s.len(),
        0 <= to < s.len(),
    ensures
        from == to ==> spec_move(s, from, to) == s,
        spec_move(s, from, to).len() == s.len(),
        spec_move(s, from, to)[to] == s[from],
        spec_move(s, from, to).remove(to) == s.remove(from),
{
    if from != to {
        let removed = s.remove(from);
        let r = removed.insert(to, s[from]);
        assert(r[to] == s[from]);
        assert(r.remove(to) =~= removed);
    }
}

} // verus!
