//! The changes a user can queue for a song.
use vstd::prelude::*;

verus! {

/// A pending change to a song's folder.
#[derive(Clone, Copy, Debug, PartialEq, Eq, Hash, Structural)]
pub enum Action {
    /// Remove the folder with everything in it.
    Delete,
    /// Rename the folder to the song's canonical name.
    Rename,
}

impl Action {
    pub open spec fn name(self) -> Seq<char> {
        match self {
            Action::Delete => "Delete"@,
            Action::Rename => "Rename"@,
        }
    }

    pub fn as_str(&self) -> (r: &'static str)
        ensures
            r@ == self.name(),
    {
        match self {
            Action::Delete => "Delete",
            Action::Rename => "Rename",
        }
    }
}

} // verus!
