//! The tail-reader state: a monotonic byte offset into a growing file, with
//! truncation detection. Opening, statting, and reading the file happen
//! outside; this state machine decides what to do with each observed size.

use vstd::prelude::*;

verus! {

/// Follows a file for appended content, keeping the byte offset up to which
/// its lines have been consumed.
pub struct FollowReader {
    path: String,
    position: u64,
}

impl FollowReader {
    /// The path of the file being followed.
    pub closed spec fn path_spec(self) -> Seq<char> {
        self.path@
    }

    /// The byte offset up to which content has been consumed.
    pub closed spec fn position_spec(self) -> u64 {
        self.position
    }

    /// Create a reader for a file, starting at the given byte offset: zero
    /// to read the whole file, or the file's current length to start at its
    /// end.
    pub fn new(path: String, position: u64) -> (r: FollowReader)
        ensures
            r.path_spec() == path@,
            r.position_spec() == position,
    {
        FollowReader { path, position }
    }

    /// The current file position.
    pub fn position(&self) -> (r: u64)
        ensures
            r == self.position_spec(),
    {
        self.position
    }

    /// The path of the file being followed.
    pub fn path(&self) -> (r: &str)
        ensures
            r@ == self.path_spec(),
    {
        self.path.as_str()
    }

    /// Decide what to do after observing the file's current size: a shrunken
    /// file means truncation, so the offset resets to zero and nothing is
    /// read; an unchanged file gives nothing to read; a grown file is to be
    /// read from the stored offset.
    pub fn observe_size(&mut self, current_size: u64) -> (read_from: Option<u64>)
        ensures
            final(self).path_spec() == old(self).path_spec(),
            current_size < old(self).position_spec() ==> final(self).position_spec() == 0
                && read_from is None,
            current_size == old(self).position_spec() ==> final(self).position_spec() == old(
                self,
            ).position_spec() && read_from is None,
            current_size > old(self).position_spec() ==> final(self).position_spec() == old(
                self,
            ).position_spec() && read_from == Some(old(self).position_spec()),
    {
        if current_size < self.position {
            self.position = 0;
            None
        } else if current_size == self.position {
            None
        } else {
            Some(self.position)
        }
    }

    /// Record the stream position reached after reading the complete lines
    /// that followed the stored offset.
    pub fn advance_to(&mut self, new_position: u64)
        ensures
            final(self).path_spec() == old(self).path_spec(),
            final(self).position_spec() == new_position,
    {
        self.position = new_position;
    }
}

} // verus!
