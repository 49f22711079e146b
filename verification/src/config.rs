//! Project configuration, and the entry record the lists are made of.

use crate::link::clone_string;
use crate::link::Link;
use crate::link::LinkV;
use vstd::prelude::*;

verus! {

/// The archive bound used when a project does not configure one.
pub const DEFAULT_MAX_ARCHIVE: usize = 100;

pub fn default_max_archive() -> (r: usize)
    ensures
        r == DEFAULT_MAX_ARCHIVE,
{
    DEFAULT_MAX_ARCHIVE
}

pub fn is_default_max_archive(max_archive: &usize) -> (r: bool)
    ensures
        r == (*max_archive == DEFAULT_MAX_ARCHIVE),
{
    *max_archive == DEFAULT_MAX_ARCHIVE
}

/// Configuration of a project: how many archived entries are kept, and the
/// ordered layers of file suffixes that pick a quick-launch target.
pub struct FlistConfig {
    pub max_archive: usize,
    pub preferred_suffixes: Vec<Vec<String>>,
}

impl FlistConfig {
    pub fn new(max_archive: usize, preferred_suffixes: Vec<Vec<String>>) -> (r: Self)
        ensures
            r.max_archive == max_archive,
            r.preferred_suffixes == preferred_suffixes,
    {
        Self { max_archive, preferred_suffixes }
    }
}

impl Default for FlistConfig {
    fn default() -> (r: Self)
        ensures
            r.max_archive == DEFAULT_MAX_ARCHIVE,
            r.preferred_suffixes@.len() == 0,
    {
        Self { max_archive: DEFAULT_MAX_ARCHIVE, preferred_suffixes: Vec::new() }
    }
}

/// One item of a list: a named link with an add timestamp (seconds since the
/// Unix epoch) and free-form metadata lines.  Entries are immutable once
/// built; only their position in a list changes.
pub struct Entry {
    pub name: String,
    pub link: Link,
    pub time_added: i64,
    pub metadata: Vec<String>,
}

/// The mathematical value of an [`Entry`].
pub struct EntryV {
    pub name: Seq<char>,
    pub link: LinkV,
    pub time_added: int,
    pub metadata: Seq<Seq<char>>,
}

impl View for Entry {
    type V = EntryV;

    open spec fn view(&self) -> EntryV {
        EntryV {
            name: self.name@,
            link: self.link@,
            time_added: self.time_added as int,
            metadata: self.metadata@.map_values(|m: String| m@),
        }
    }
}

impl Clone for Entry {
    fn clone(&self) -> (r: Self)
        ensures
            r@ == self@,
    {
        let r = Entry {
            name: clone_string(&self.name),
            link: self.link.clone(),
            time_added: self.time_added,
            metadata: clone_strings(&self.metadata),
        };
        proof {
            assert(r@.metadata =~= self@.metadata);
        }
        r
    }
}

/// Clones a vector of strings; each copy reads the same.
pub fn clone_strings(v: &Vec<String>) -> (r: Vec<String>)
    ensures
        r@.map_values(|m: String| m@) == v@.map_values(|m: String| m@),
{
    let mut r: Vec<String> = Vec::new();
    let mut i: usize = 0;
    while i < v.len()
        invariant
            0 <= i <= v@.len(),
            r@.len() == i,
            forall|j: int| 0 <= j < i ==> r@[j]@ == v@[j]@,
        decreases v@.len() - i,
    {
        r.push(clone_string(&v[i]));
        i = i + 1;
    }
    proof {
        assert(r@.map_values(|m: String| m@) =~= v@.map_values(|m: String| m@));
    }
    r
}

impl Entry {
    /// Tests whether two entries carry the same name, link, timestamp and
    /// metadata.
    pub fn same(&self, other: &Entry) -> (r: bool)
        ensures
            r == (self@ == other@),
    {
        let names_eq = str_eq(self.name.as_str(), other.name.as_str());
        let links_eq = match (&self.link, &other.link) {
            (Link::File(a), Link::File(b)) => str_eq(a.as_str(), b.as_str()),
            (Link::Directory(a), Link::Directory(b)) => str_eq(a.as_str(), b.as_str()),
            (Link::Url(a), Link::Url(b)) => str_eq(a.as_str(), b.as_str()),
            _ => false,
        };
        let meta_eq = strings_eq(&self.metadata, &other.metadata);
        names_eq && links_eq && self.time_added == other.time_added && meta_eq
    }
}

/// Tests whether two vectors of strings read the same, element by element.
pub fn strings_eq(a: &Vec<String>, b: &Vec<String>) -> (r: bool)
    ensures
        r == (a@.map_values(|m: String| m@) == b@.map_values(|m: String| m@)),
{
    if a.len() != b.len() {
        proof {
            assert(a@.map_values(|m: String| m@).len() != b@.map_values(|m: String| m@).len());
        }
        return false;
    }
    let mut i: usize = 0;
    while i < a.len()
        invariant
            0 <= i <= a@.len(),
            a@.len() == b@.len(),
            forall|j: int| 0 <= j < i ==> a@[j]@ == b@[j]@,
        decreases a@.len() - i,
    {
        if !str_eq(a[i].as_str(), b[i].as_str()) {
            proof {
                assert(a@.map_values(|m: String| m@)[i as int] != b@.map_values(
                    |m: String| m@,
                )[i as int]);
            }
            return false;
        }
        i = i + 1;
    }
    proof {
        assert(a@.map_values(|m: String| m@) =~= b@.map_values(|m: String| m@));
    }
    true
}

/// Tests whether two strings read the same.
pub fn str_eq(a: &str, b: &str) -> (r: bool)
    ensures
        r == (a@ == b@),
{
    let a_len = a.unicode_len();
    let b_len = b.unicode_len();
    if a_len != b_len {
        return false;
    }
    let mut i: usize = 0;
    while i < a_len
        invariant
            0 <= i <= a@.len(),
            a@.len() == b@.len(),
            a_len == a@.len(),
            forall|j: int| 0 <= j < i ==> a@[j] == b@[j],
        decreases a@.len() - i,
    {
        if a.get_char(i) != b.get_char(i) {
            return false;
        }
        i = i + 1;
    }
    proof {
        assert(a@ =~= b@);
    }
    true
}

} // verus!
