//! What was observed of the directory tree.
//!
//! A caller reads the tree and describes it with these types; the rules of
//! the store are stated over them.

use vstd::prelude::*;
use vstd::string::*;

verus! {

/// What a directory entry turned out to be, links followed.
#[derive(Clone, Copy, Debug, PartialEq, Eq, Structural)]
pub enum EntryKind {
    Directory,
    File,
    /// Neither a directory nor a regular file.
    Other,
}

/// A time of the file system: its distance from the epoch in nanoseconds,
/// negative before it, and the text under which it is shown.
#[derive(Clone, Debug, PartialEq, Eq)]
pub struct Stamp {
    pub nanos: i128,
    pub text: String,
}

/// One entry of a directory.
#[derive(Debug)]
pub struct Entry {
    /// The name of the entry; `None` where it is not text.
    pub name: Option<String>,
    pub kind: EntryKind,
    /// When the entry was created; `None` where that cannot be told.
    pub created: Option<Stamp>,
    /// The text of the time of the last change; `None` where that cannot be
    /// told.
    pub modified: Option<String>,
    /// The entries of a directory; `None` for what is no directory, and for
    /// a directory that was not or could not be listed.
    pub children: Option<Vec<Entry>>,
}

/// What was found at the path of a directory.
#[derive(Debug)]
pub enum DirState {
    /// Nothing is there.
    Missing,
    /// Something is there, and it could not be listed.
    Unreadable,
    /// The entries of the directory.
    Listed(Vec<Entry>),
}

/// The name under which an entry goes whose name is not text.
pub open spec fn unnamed() -> Seq<char> {
    seq!['u', 'n', 'k', 'n', 'o', 'w', 'n']
}

/// The text shown for a time that cannot be told.
pub open spec fn unknown_time() -> Seq<char> {
    seq!['\u{672a}', '\u{77e5}']
}

/// The name of an entry.
pub open spec fn entry_name(e: Entry) -> Seq<char> {
    match e.name {
        Some(n) => n@,
        None => unnamed(),
    }
}

/// The time by which an entry is ranked: that of its creation, or the epoch
/// where that cannot be told.
pub open spec fn created_key(e: Entry) -> i128 {
    match e.created {
        Some(s) => s.nanos,
        None => 0,
    }
}

/// The text of the time at which an entry was created.
pub open spec fn created_text(e: Entry) -> Seq<char> {
    match e.created {
        Some(s) => s.text@,
        None => unknown_time(),
    }
}

/// The text of the time at which an entry was last changed.
pub open spec fn modified_text(e: Entry) -> Seq<char> {
    match e.modified {
        Some(s) => s@,
        None => unknown_time(),
    }
}

/// `found`, and `more` behind it where there is one.
pub open spec fn with_found<R>(found: Seq<R>, more: Option<R>) -> Seq<R> {
    match more {
        Some(r) => found.push(r),
        None => found,
    }
}

/// What `pick` makes of the entries of a directory, in their order; entries
/// of which it makes nothing are passed over.
pub open spec fn gathered<R>(entries: Seq<Entry>, pick: spec_fn(Entry) -> Option<R>) -> Seq<R>
    decreases entries.len(),
{
    if entries.len() == 0 {
        Seq::empty()
    } else {
        with_found(gathered(entries.drop_last(), pick), pick(entries.last()))
    }
}

/// The position among `entries` of the entry from which the item at position
/// `j` of `gathered(entries, pick)` was made.
pub open spec fn origin<R>(entries: Seq<Entry>, pick: spec_fn(Entry) -> Option<R>, j: int) -> int
    decreases entries.len(),
{
    if entries.len() == 0 {
        0
    } else if j < gathered(entries.drop_last(), pick).len() {
        origin(entries.drop_last(), pick, j)
    } else {
        entries.len() - 1
    }
}

/// Each gathered item was made from the entry at its origin; origins ascend
/// with the items; and every entry of which `pick` makes something is the
/// origin of an item.
pub proof fn lemma_origin<R>(entries: Seq<Entry>, pick: spec_fn(Entry) -> Option<R>)
    ensures
        gathered(entries, pick).len() <= entries.len(),
        forall|j: int|
            0 <= j < gathered(entries, pick).len() ==> {
                &&& 0 <= #[trigger] origin(entries, pick, j) < entries.len()
                &&& pick(entries[origin(entries, pick, j)]) == Some(gathered(entries, pick)[j])
            },
        forall|i: int, j: int|
            0 <= i < j < gathered(entries, pick).len() ==> #[trigger] origin(entries, pick, i)
                < #[trigger] origin(entries, pick, j),
        forall|k: int|
            0 <= k < entries.len() && (#[trigger] pick(entries[k])) is Some ==> exists|j: int|
                0 <= j < gathered(entries, pick).len() && #[trigger] origin(entries, pick, j) == k,
    decreases entries.len(),
{
    if entries.len() > 0 {
        let shorter = entries.drop_last();
        let before = gathered(shorter, pick);
        let all = gathered(entries, pick);
        lemma_origin(shorter, pick);
        assert forall|j: int| 0 <= j < all.len() implies {
            &&& 0 <= #[trigger] origin(entries, pick, j) < entries.len()
            &&& pick(entries[origin(entries, pick, j)]) == Some(all[j])
        } by {
            if j < before.len() {
                assert(origin(entries, pick, j) == origin(shorter, pick, j));
                assert(shorter[origin(shorter, pick, j)] == entries[origin(shorter, pick, j)]);
                assert(all[j] == before[j]);
            }
        }
        assert forall|i: int, j: int| 0 <= i < j < all.len() implies #[trigger] origin(
            entries,
            pick,
            i,
        ) < #[trigger] origin(entries, pick, j) by {
            assert(origin(entries, pick, i) == origin(shorter, pick, i));
            if j < before.len() {
                assert(origin(entries, pick, j) == origin(shorter, pick, j));
            }
        }
        assert forall|k: int|
            0 <= k < entries.len() && (#[trigger] pick(entries[k])) is Some implies exists|j: int|
            0 <= j < all.len() && #[trigger] origin(entries, pick, j) == k by {
            if k < shorter.len() {
                assert(shorter[k] == entries[k]);
                let j = choose|j: int|
                    0 <= j < before.len() && #[trigger] origin(shorter, pick, j) == k;
                assert(origin(entries, pick, j) == k);
            } else {
                assert(origin(entries, pick, before.len() as int) == k);
            }
        }
    }
}

impl Entry {
    /// The name of this entry.
    pub fn shown_name(&self) -> (res: String)
        ensures
            res@ == entry_name(*self),
    {
        match &self.name {
            Some(n) => n.clone(),
            None => {
                proof {
                    reveal_strlit("unknown");
                    assert("unknown"@ =~= unnamed());
                }
                String::from_str("unknown")
            },
        }
    }

    /// The time by which this entry is ranked.
    pub fn rank(&self) -> (res: i128)
        ensures
            res == created_key(*self),
    {
        match &self.created {
            Some(s) => s.nanos,
            None => 0,
        }
    }

    /// The text of the time at which this entry was created.
    pub fn created_time(&self) -> (res: String)
        ensures
            res@ == created_text(*self),
    {
        match &self.created {
            Some(s) => s.text.clone(),
            None => unknown_time_text(),
        }
    }

    /// The text of the time at which this entry was last changed.
    pub fn last_updated(&self) -> (res: String)
        ensures
            res@ == modified_text(*self),
    {
        match &self.modified {
            Some(s) => s.clone(),
            None => unknown_time_text(),
        }
    }
}

/// The text shown for a time that cannot be told.
pub fn unknown_time_text() -> (res: String)
    ensures
        res@ == unknown_time(),
{
    proof {
        reveal_strlit("\u{672a}\u{77e5}");
        assert("\u{672a}\u{77e5}"@ =~= unknown_time());
    }
    String::from_str("\u{672a}\u{77e5}")
}

} // verus!
