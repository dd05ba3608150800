//! The commit record the engine ingests: an author name and an instant
//! carrying its fixed UTC offset.

use vstd::prelude::*;

use crate::timestamp::Timestamp;

verus! {

/// One commit of the analyzed history, as handed to the engine.
#[derive(Debug)]
pub struct Commit {
    /// Author name, after any upstream rewriting.
    pub author: String,
    /// The commit's instant, in the offset it was recorded with.
    pub timestamp: Timestamp,
}

/// Mathematical image of a commit: the author as a character sequence and
/// the instant.
pub struct CommitView {
    /// View of the author name.
    pub author: Seq<char>,
    /// The instant, which is already a plain value.
    pub timestamp: Timestamp,
}

impl View for Commit {
    type V = CommitView;

    open spec fn view(&self) -> CommitView {
        CommitView { author: self.author@, timestamp: self.timestamp }
    }
}

impl Commit {
    /// A field-for-field copy of this commit.
    pub fn duplicate(&self) -> (r: Commit)
        ensures
            r@ == self@,
    {
        Commit { author: self.author.clone(), timestamp: self.timestamp }
    }
}

} // verus!
