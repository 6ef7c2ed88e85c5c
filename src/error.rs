use vstd::prelude::*;

verus! {

/// The ways in which a run of the pipeline can fail.
#[derive(Debug, Clone, Copy, PartialEq, Eq, Structural)]
pub enum PipelineError {
    /// The text is not a canonical padded base64 encoding.
    MalformedInput,
    /// The bytes start with no known image signature.
    UnsupportedFormat,
    /// The signature is known but the image data behind it is invalid.
    CorruptImage,
    /// The pixels could not be written out as an image file.
    EncodingError,
}

} // verus!
