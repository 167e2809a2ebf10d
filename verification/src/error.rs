//! The ways in which reading source text can fail.

use vstd::prelude::*;

verus! {

/// Why a text could not be read.
#[derive(Clone, Copy, Debug, PartialEq, Eq, Structural)]
pub enum ParseError {
    /// No form of the value grammar matches where a value is due.
    MalformedValue,
    /// What stands at an `@` cannot be read as the marker that is due there.
    MalformedAnnotation,
    /// The text declares no package.
    MissingPackageDeclaration,
    /// The text declares no type.
    MissingClassDeclaration,
    /// An entry of a parameter list is not made of markers, a type and a name.
    MalformedParameterEntry,
}

} // verus!
