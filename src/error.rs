//! The errors of compilation.
use crate::arithmetic::Arithmetic;
use crate::assembly::{CoreOp, StandardOp};
use crate::lir::SourceCodeLocation;
use vstd::prelude::*;

verus! {

/// An error found while typing, folding or compiling a program.
#[derive(Debug, PartialEq, Eq)]
pub enum Error {
    /// An error with the place in the source it was found at.
    Annotated(Box<Error>, SourceCodeLocation),
    /// A name that nothing in scope defines.
    SymbolNotDefined(String),
    /// A type whose size is not defined, such as one with unapplied parameters.
    UnsizedType,
    /// An array length that is not a non-negative integer constant.
    InvalidArrayLength,
    /// A size that does not fit in a machine word.
    SizeOverflow,
    /// Types nested, or named in a cycle, beyond the limit of the compiler.
    RecursionLimit,
    /// Type arguments that do not match the parameters in number.
    ArityMismatch,
    /// Type arguments applied to something with no type parameters.
    InvalidMonomorphize,
    /// An operator applied to operands it is not defined on.
    InvalidBinaryOp(Arithmetic),
    /// An operator compiled for operand types it has no code for.
    InvalidBinaryOpTypes(Arithmetic),
    /// A constant computation that overflows or divides by zero.
    InvalidConstant(Arithmetic),
    /// A label that no function defined so far has.
    UndefinedLabel(usize),
    /// A field, element or variant that a type does not have.
    InvalidMember,
    /// A standard instruction on a target that lacks it.
    UnsupportedInstruction(StandardOp),
    /// An `End` that closes no scope, with its index; or a scope left open,
    /// with the index of the end of the program.
    Unmatched(Box<CoreOp>, usize),
}

} // verus!
