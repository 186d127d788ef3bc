use vstd::prelude::*;

use crate::args::Flags;

verus! {

/// What becomes of one path named on the `srm` command line.
#[derive(Clone, Copy, Debug, PartialEq, Eq, Structural)]
pub enum Removal {
    /// Move it into safe storage.
    Store,
    /// Delete the directory and everything below it.
    RemoveTree,
    /// Delete the file.
    RemoveFile,
    /// Stop: a directory without the recursive flag.
    RefuseDirectory,
}

/// The action for a path that is a directory (`is_dir`) under `flags`.
pub open spec fn removal_for(flags: Flags, is_dir: bool) -> Removal {
    if flags.store {
        Removal::Store
    } else if is_dir {
        if flags.recursive {
            Removal::RemoveTree
        } else {
            Removal::RefuseDirectory
        }
    } else {
        Removal::RemoveFile
    }
}

/// The `srm` command: removes the paths of a parsed command line.
pub struct Srm;

impl Srm {
    pub fn new() -> Srm {
        Srm
    }

    /// Decides what to do with one path named on the command line.
    pub fn action_for(&self, flags: &Flags, is_dir: bool) -> (r: Removal)
        ensures
            r == removal_for(*flags, is_dir),
    {
        if flags.store {
            Removal::Store
        } else if is_dir {
            if flags.recursive {
                Removal::RemoveTree
            } else {
                Removal::RefuseDirectory
            }
        } else {
            Removal::RemoveFile
        }
    }
}

impl Default for Srm {
    fn default() -> Srm {
        Srm::new()
    }
}

} // verus!
