//! Grayscale conversion of base64-encoded image files into PNG data URLs:
//! base64 text is decoded, the image file is parsed into pixels, the pixels
//! are turned gray, and the result is written as PNG and wrapped in a data URL.

use vstd::prelude::*;

pub mod codec;
pub mod error;
pub mod format;
pub mod pipeline;
pub mod pixel;
pub mod transport;

pub use codec::{decode_image, encode_image, strip_alpha_of};
pub use error::PipelineError;
pub use format::{detect_format, ContainerFormat};
pub use pipeline::{gray_data_url, grayscale, to_png_data_url};
pub use pixel::{luma_of, PixelBuffer};
pub use transport::{decode_text, encode_bytes};

verus! {

} // verus!
