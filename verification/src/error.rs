use vstd::prelude::*;

verus! {

/// Why a decode, an interpretation or a lookup failed.
#[derive(Clone, Copy, Debug, PartialEq, Eq, Structural)]
pub enum CfiError {
    /// Fewer bytes are available than a field or a declared length requires.
    UnexpectedEof,
    /// A LEB128 value that does not end within ten groups or does not fit
    /// in 64 bits, or an address width that no 64-bit value can hold.
    MalformedEncoding,
    /// A non-empty augmentation string that does not begin with `z`.
    UnsupportedAugmentation,
    /// An unknown opcode, an unreadable operand, or a `restore_state`
    /// with nothing saved.
    MalformedInstruction,
    /// A frame description whose reference names no known common
    /// information entry.
    UnresolvedReference,
    /// A program counter outside the address range of the table.
    NoCoverage,
}

} // verus!
