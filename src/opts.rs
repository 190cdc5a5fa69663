//! Options of the command-line interface that the library knows of.
use vstd::prelude::*;

verus! {

/// Settings for colouring output.
#[derive(Debug, Clone, Copy, PartialEq, Eq, Structural)]
pub enum Color {
    /// Colour when stderr is a terminal.
    Auto,
    /// Always colour.
    Always,
    /// Never colour.
    Never,
}

} // verus!
