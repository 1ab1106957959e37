//! The two faces of the program: a terminal and a desktop window.

use vstd::prelude::*;

verus! {

/// Where the user sits.
#[derive(Debug, Clone, Copy, PartialEq, Eq, Structural)]
pub enum Front {
    /// At a terminal.
    Terminal,
    /// At the desktop window.
    Desktop,
}

} // verus!
