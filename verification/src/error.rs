//! Typed errors returned to the immediate caller on every validation failure.

use vstd::prelude::*;

verus! {

/// A structural validation failure on a message component.
///
/// Every failure is reported as a value; malformed input is never coerced
/// into an accepted form.
#[derive(Clone, Copy, Debug, PartialEq, Eq, Structural)]
pub enum ValidationError {
    /// A parents-kind byte outside the known enumeration.
    InvalidParentsKind(u8),
    /// A parents count outside the permitted range.
    InvalidParentsCount(usize),
    /// Parent identifiers that are not pairwise distinct and strictly
    /// ascending in lexicographic byte order.
    ParentsNotUniqueSorted,
}

/// A failure while reading a message component from wire bytes.
#[derive(Clone, Copy, Debug, PartialEq, Eq, Structural)]
pub enum MessageUnpackError {
    /// The bytes are well delimited but fail a structural validation.
    Validation(ValidationError),
    /// The byte stream ends before the announced content.
    UnexpectedEof,
}

} // verus!
