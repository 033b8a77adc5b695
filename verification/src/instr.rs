use vstd::prelude::*;

verus! {

/// One instruction of a translated program.
///
/// `Add` wraps modulo 256, so subtraction is addition of the complement
/// (`-2` is `+254`). The index carried by `LoopBegin` and `LoopEnd` is the
/// position of the matching bracket instruction itself: the engine's
/// uniform post-increment of the program counter then steps past the
/// partner after a jump.
#[derive(Clone, Copy, Debug, PartialEq, Eq, Structural)]
pub enum Instr {
    /// Add this delta to the current cell, wrapping modulo 256.
    Add(u8),
    /// Shift the data pointer by this signed delta.
    Ptr(isize),
    /// Jump to the matching `LoopEnd` when the current cell is zero.
    LoopBegin(usize),
    /// Jump back to the matching `LoopBegin` when the current cell is
    /// nonzero.
    LoopEnd(usize),
    /// Emit the current cell as a character.
    Out,
    /// Read one input byte into the current cell; zero at end of input.
    In,
}

/// A translation-time failure: the source's brackets do not match. No
/// program with unmatched brackets is ever constructed.
#[derive(Clone, Copy, Debug, PartialEq, Eq, Structural)]
pub enum SyntaxError {
    /// A closing bracket with no open partner, at this position of the
    /// filtered, coalesced instruction stream.
    UnmatchedClosingBracket(usize),
    /// This many opening brackets were never closed.
    UnmatchedOpeningBrackets(usize),
}

/// A run-time failure; the run stops at the first one, keeping the output
/// emitted so far.
#[derive(Clone, Copy, Debug, PartialEq, Eq, Structural)]
pub enum RuntimeError {
    /// The data pointer would have moved below index zero.
    PointerUnderflow,
    /// The data pointer would have moved past the largest representable
    /// index.
    PointerOverflow,
}

} // verus!
