use vstd::prelude::*;

verus! {

/// Why a decode stopped. No partial result is ever handed out with one.
#[derive(Clone, Copy, Debug, PartialEq, Eq, Structural)]
pub enum ErrorKind {
    /// A read needed more bits than the buffer still holds.
    Truncated,
    /// A sum or a product left the range of `i128`.
    Overflow,
    /// A type id that names no operator where an operator is needed.
    UnknownType,
    /// An operator got a number of children that it is not defined for.
    MalformedArity,
    /// A length descriptor whose flag bit is not the one asked for.
    InvalidLength,
}

} // verus!
