//! Version history: named snapshots of the shape list.

use vstd::prelude::*;

verus! {

use crate::shape::Shape;
use crate::text::{push_char, push_decimal, spec_dec_digits};

/// The auto-generated label of a version: `"Version N"`.
pub open spec fn spec_version_label(n: int) -> Seq<char> {
    seq!['V', 'e', 'r', 's', 'i', 'o', 'n', ' '] + spec_dec_digits(n)
}

/// One saved snapshot of the canvas: an identifier, a label, its creation
/// time in milliseconds since some epoch, and the shapes as they were.
#[derive(Debug, PartialEq)]
pub struct Version {
    pub id: u64,
    pub label: String,
    pub created_at: i64,
    pub shapes: Vec<Shape>,
}

impl Version {
    pub fn new(id: u64, label: String, created_at: i64, shapes: Vec<Shape>) -> (v: Version)
        ensures
            v.id == id,
            v.label@ == label@,
            v.created_at == created_at,
            v.shapes@ == shapes@,
    {
        Version { id, label, created_at, shapes }
    }
}

/// The saved versions, in creation order, and which of them is active.
#[derive(Debug, PartialEq)]
pub struct VersionHistory {
    /// All saved versions, oldest first.
    pub versions: Vec<Version>,
    /// The identifier for the next saved version.
    pub next_id: u64,
    /// The active version, or `None` while working on unsaved changes.
    pub current_version_idx: Option<usize>,
}

impl VersionHistory {
    /// An empty history.
    pub fn new() -> (h: VersionHistory)
        ensures
            h.versions@.len() == 0,
            h.next_id == 1,
            h.current_version_idx is None,
    {
        VersionHistory { versions: Vec::new(), next_id: 1, current_version_idx: None }
    }

    /// Save a snapshot as a new version and make it current. Without a
    /// label the version is named `"Version N"` after its identifier.
    /// Returns the new version's identifier.
    pub fn save_version(&mut self, shapes: Vec<Shape>, label: Option<String>, timestamp: i64) -> (r:
        u64)
        requires
            old(self).next_id < u64::MAX,
        ensures
            r == old(self).next_id,
            final(self).versions@.len() == old(self).versions@.len() + 1,
            forall|i: int|
                0 <= i < old(self).versions@.len() ==> final(self).versions@[i] == old(
                    self,
                ).versions@[i],
            final(self).versions@.last().id == old(self).next_id,
            final(self).versions@.last().created_at == timestamp,
            final(self).versions@.last().shapes@ == shapes@,
            final(self).versions@.last().label@ == match label {
                Some(l) => l@,
                None => spec_version_label(old(self).next_id as int),
            },
            final(self).next_id == old(self).next_id + 1,
            final(self).current_version_idx == Some((final(self).versions@.len() - 1) as usize),
    {
        let id = self.next_id;
        let name = match label {
            Some(l) => l,
            None => {
                let mut s = String::new();
                push_char(&mut s, 'V');
                push_char(&mut s, 'e');
                push_char(&mut s, 'r');
                push_char(&mut s, 's');
                push_char(&mut s, 'i');
                push_char(&mut s, 'o');
                push_char(&mut s, 'n');
                push_char(&mut s, ' ');
                push_decimal(&mut s, id);
                proof {
                    assert(s@ =~= spec_version_label(id as int));
                }
                s
            },
        };
        let version = Version { id, label: name, created_at: timestamp, shapes };
        self.next_id = self.next_id + 1;
        self.versions.push(version);
        self.current_version_idx = Some(self.versions.len() - 1);
        id
    }

    /// A saved version by index.
    pub fn get_version(&self, idx: usize) -> (r: Option<&Version>)
        ensures
            r is Some <==> idx < self.versions@.len(),
            r is Some ==> *r->0 == self.versions@[idx as int],
    {
        if idx < self.versions.len() {
            Some(&self.versions[idx])
        } else {
            None
        }
    }

    /// The number of saved versions.
    pub fn len(&self) -> (r: usize)
        ensures
            r == self.versions@.len(),
    {
        self.versions.len()
    }

    /// Whether no version has been saved.
    pub fn is_empty(&self) -> (r: bool)
        ensures
            r == (self.versions@.len() == 0),
    {
        self.versions.len() == 0
    }

    /// Make a saved version current; an out-of-range index changes
    /// nothing.
    pub fn set_current_version(&mut self, idx: usize)
        ensures
            idx < old(self).versions@.len() ==> *final(self) == (VersionHistory {
                current_version_idx: Some(idx),
                ..*old(self)
            }),
            idx >= old(self).versions@.len() ==> *final(self) == *old(self),
    {
        if idx < self.versions.len() {
            self.current_version_idx = Some(idx);
        }
    }
}

impl Default for VersionHistory {
    /// An empty history.
    fn default() -> (h: VersionHistory)
        ensures
            h.versions@.len() == 0,
            h.next_id == 1,
            h.current_version_idx is None,
    {
        VersionHistory::new()
    }
}

} // verus!
