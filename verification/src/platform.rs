//! The operating systems that the rules of the library tell apart.

use vstd::prelude::*;

verus! {

/// An operating system.
#[derive(Debug, Clone, Copy, PartialEq, Eq, Structural)]
pub enum Platform {
    Windows,
    Macos,
    /// Linux, and every other Unix.
    Linux,
}

} // verus!
