//! Resolution of the source files that a tag generator should index: the files
//! that git tracks, optionally without those that git-lfs tracks.
use vstd::prelude::*;

pub mod cmd_git;
pub mod text;

verus! {

} // verus!
