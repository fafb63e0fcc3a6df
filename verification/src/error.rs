//! The classified failures this crate surfaces.

use vstd::prelude::*;

verus! {

/// Everything that can go wrong while resolving, inspecting or
/// encoding a value.  Failures are surfaced to the immediate caller;
/// nothing is retried or recovered internally, and on any error the
/// bytes already written must be treated as discarded.
#[derive(Clone, Copy, Debug, PartialEq, Eq, Structural)]
pub enum Error {
    /// No descriptor is registered for the value's type.
    KindResolution,
    /// A typed extraction was requested against a view whose
    /// descriptor identity does not match.
    TypeMismatch,
    /// The serializer reached a descriptor kind or scalar identity it
    /// has no encoding rule for.
    UnsupportedType,
}

impl Error {
    /// A short description of the failure.
    pub fn describe(&self) -> (r: &'static str)
        ensures
            r@ == match self {
                Error::KindResolution => "no descriptor registered for this type"@,
                Error::TypeMismatch => "descriptor identity does not match the requested type"@,
                Error::UnsupportedType => "no encoding rule for this descriptor"@,
            },
    {
        match self {
            Error::KindResolution => "no descriptor registered for this type",
            Error::TypeMismatch => "descriptor identity does not match the requested type",
            Error::UnsupportedType => "no encoding rule for this descriptor",
        }
    }
}

} // verus!
