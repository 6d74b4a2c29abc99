use vstd::prelude::*;

verus! {

/// Failures reported by the drawing surface.
#[derive(Debug, PartialEq, Eq, Structural, Copy, Clone)]
pub enum UefiDisplayError {
    /// A pixel format other than 32-bit RGB was requested (no such format exists yet).
    UnsupportedFormat,
    /// `width * height * 4` does not fit in a `usize`.
    InvalidResolution,
    /// A pixel's byte index lies past the end of the shadow buffer.
    OutOfBounds,
}

impl UefiDisplayError {
    /// A short human-readable description of the error.
    pub fn message(&self) -> (r: &'static str)
        ensures
            *self == UefiDisplayError::UnsupportedFormat ==> r@ == "Unsupported Color Format"@,
            *self == UefiDisplayError::InvalidResolution ==> r@ == "Invalid Resolution"@,
            *self == UefiDisplayError::OutOfBounds ==> r@ == "Out of Bounds"@,
    {
        match self {
            UefiDisplayError::UnsupportedFormat => "Unsupported Color Format",
            UefiDisplayError::InvalidResolution => "Invalid Resolution",
            UefiDisplayError::OutOfBounds => "Out of Bounds",
        }
    }
}

} // verus!
