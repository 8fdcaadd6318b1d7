use vstd::prelude::*;

verus! {

/// Every way a run can fail. All are fatal: the pipeline stops at the
/// first error and nothing is retried or rolled back.
///
/// The first three are lexical faults, the next group parse faults, the
/// rest runtime faults of the virtual machine.
#[derive(Clone, Copy, Debug, PartialEq, Eq, Structural)]
pub enum LuaError {
    /// A string literal reaches the end of the source without a closing quote.
    UnterminatedString,
    /// A byte that starts no token.
    UnexpectedChar(u8),
    /// A numeric literal with more than one dot, or an integer literal
    /// that does not fit 64 signed bits.
    MalformedNumber,
    /// A token that starts no statement, or a right-hand side that is
    /// neither a literal nor a name.
    UnexpectedToken,
    /// `local` not followed by a name.
    ExpectedName,
    /// A `local` declaration without `=` after its name.
    ExpectedAssign,
    /// A parenthesized call argument without the closing parenthesis.
    ExpectedRightParen,
    /// A call statement whose name is followed by neither a string
    /// literal nor `(`.
    ExpectedArgument,
    /// The constant pool would grow past 256 entries.
    ConstantOverflow,
    /// A local or call slot would not fit an 8-bit operand.
    SlotOverflow,
    /// A float literal still carrying its spelling: the host converts
    /// spellings to bit patterns before compilation.
    RawFloat,
    /// A constant used as a global's name is not a string.
    ExpectedStringConstant,
    /// A call target that is not a native function.
    NotCallable,
    /// An instruction addresses a stack slot past the current length.
    InvalidStackIndex,
    /// An instruction addresses a constant past the pool's length.
    InvalidConstantIndex,
    /// A native function signalled failure.
    NativeCallFailed,
}

} // verus!
