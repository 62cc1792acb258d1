//! The error type of the library.

use vstd::prelude::*;

verus! {

/// `png::EncodingError`, the encoder's own error: carried through unchanged,
/// with nothing said of what it holds.
#[verifier::external_type_specification]
#[verifier::external_body]
pub struct ExEncodingError(png::EncodingError);

/// What can go wrong while an image is generated.
///
/// `E` is the error type of the pixel-filling function.
#[derive(Debug)]
#[non_exhaustive]
pub enum DocimaError<E> {
    /// The PNG encoder rejected the image.
    PngEncodingError(png::EncodingError),
    /// The pixel-filling function failed; its error is kept as it came.
    StdError(E),
    /// A required field was never set; the string is the field's name.
    MissingField(String),
    /// Any other failure, explained in the string.
    Custom(String),
}

} // verus!
