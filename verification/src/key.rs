use vstd::prelude::*;

verus! {

/// A key read from the terminal, as far as the games tell keys apart.
#[derive(Clone, Copy, Debug, PartialEq, Eq, Structural)]
pub enum Key {
    ArrowUp,
    ArrowDown,
    ArrowLeft,
    ArrowRight,
    Enter,
    Char(char),
    /// Any other key.
    Other,
}

} // verus!
