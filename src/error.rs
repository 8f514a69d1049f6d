use vstd::prelude::*;

verus! {

/// Why assembling stopped.
#[derive(Clone, Copy, PartialEq, Eq, Structural, Debug)]
pub enum AsmError {
    /// No source was given.
    NoInput,
    /// The source with this index holds a byte outside 7-bit ASCII.
    NotAscii(usize),
    /// The cursor would pass `0xFFFF`.
    SizeExceeded,
    TooManyArguments,
    NotEnoughArguments,
    InvalidInstruction,
    InvalidDirective,
    InvalidInteger,
    InvalidRegister,
    /// `.addr` with an odd address.
    UnalignedAddress,
    /// Two labels with this id.
    DuplicateLabel(u64),
    /// A reference to a label id that no label defines.
    UnknownLabel(u64),
    /// A register operand outside the range its instruction admits.
    RegisterOutOfRange,
    /// `callf` with the same register twice.
    SameRegister,
}

} // verus!
