//! The platform that a tool runs on.

use vstd::prelude::*;

verus! {

/// The two kinds of platform that the tools tell apart.
#[derive(Debug, Clone, Copy, PartialEq, Eq, Structural)]
pub enum Platform {
    Unix,
    Windows,
}

} // verus!
