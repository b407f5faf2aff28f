use vstd::prelude::*;

verus! {

/// One operation of the virtual machine. Every embedded address is absolute:
/// an index into the generated program.
#[derive(Clone, Copy, Debug, PartialEq, Eq)]
pub enum Instruction {
    /// Advance if the current input element equals the code point, else this
    /// branch fails.
    Char(char),
    /// The whole program accepts.
    Match,
    /// Unconditional control transfer.
    Jump(usize),
    /// Nondeterministic branch: the first address is explored exhaustively
    /// before the second, both from the same input position.
    Split(usize, usize),
}

} // verus!
