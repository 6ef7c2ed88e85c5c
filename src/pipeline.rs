use vstd::prelude::*;

use crate::codec::{decode_image, decoded_view, encode_image, png_encoding};
use crate::error::PipelineError;
use crate::format::format_of;
use crate::pixel::{gray_view, PixelBuffer};
use crate::transport::{base64_decoding, base64_encoding, decode_text, encode_bytes};

verus! {

/// A data URL that declares a PNG image and carries the base64 text of it.
pub open spec fn png_data_url(payload: Seq<char>) -> Seq<char> {
    "data:image/png;base64,"@ + payload
}

/// Wraps the bytes of a PNG file in a data URL. Fails with `EncodingError`
/// where the text would be too long to hold.
pub fn to_png_data_url(png: &[u8]) -> (r: Result<String, PipelineError>)
    ensures
        r is Ok <==> png@.len() <= usize::MAX / 4,
        r matches Ok(s) ==> s@ == png_data_url(base64_encoding(png@)),
        r matches Err(e) ==> e == PipelineError::EncodingError,
{
    if png.len() > usize::MAX / 4 {
        return Err(PipelineError::EncodingError);
    }
    let payload = encode_bytes(png);
    let mut url = String::from_str("data:image/png;base64,");
    url.append(payload.as_str());
    Ok(url)
}

/// The second half of the pipeline, from decoded pixels on: turns the
/// buffer gray, writes it as PNG and wraps that in a data URL. Fails only
/// with `EncodingError`.
pub fn gray_data_url(p: &PixelBuffer) -> (r: Result<String, PipelineError>)
    ensures
        r is Ok <==> png_encoding(gray_view(p@)).len() <= usize::MAX / 4,
        r matches Ok(s) ==> s@ == png_data_url(base64_encoding(png_encoding(gray_view(p@)))),
        r matches Err(e) ==> e == PipelineError::EncodingError,
{
    let gray = p.grayscale();
    let png = encode_image(&gray)?;
    to_png_data_url(png.as_slice())
}

/// Converts a base64-encoded image file into a data URL of its grayscale
/// version as PNG. Each stage stops the run at its first failure:
/// `MalformedInput` for text that is not base64, `UnsupportedFormat` for
/// bytes of no known format, `CorruptImage` for a file that cannot be
/// parsed, `EncodingError` where the output cannot be written.
pub fn grayscale(encoded_file: &str) -> (r: Result<String, PipelineError>)
    ensures
        base64_decoding(encoded_file@) is None <==> r == Err::<String, PipelineError>(
            PipelineError::MalformedInput,
        ),
        base64_decoding(encoded_file@) matches Some(b) ==> (format_of(b) is None <==> r == Err::<
            String,
            PipelineError,
        >(PipelineError::UnsupportedFormat)),
        base64_decoding(encoded_file@) matches Some(b) ==> (r == Err::<String, PipelineError>(
            PipelineError::CorruptImage,
        ) <==> (format_of(b) is Some && !(decoded_view(b) matches Some(v) && v.wf()))),
        base64_decoding(encoded_file@) matches Some(b) ==> (decoded_view(b) matches Some(v) ==> (v.wf() ==> (r is Ok
            <==> png_encoding(gray_view(v)).len() <= usize::MAX / 4))),
        r matches Ok(s) ==> (base64_decoding(encoded_file@) matches Some(b) && decoded_view(b) matches Some(v)
            && s@ == png_data_url(base64_encoding(png_encoding(gray_view(v))))),
        r matches Err(e) ==> e != PipelineError::EncodingError || (base64_decoding(encoded_file@) matches Some(
            b,
        ) && decoded_view(b) matches Some(v) && v.wf() && png_encoding(gray_view(v)).len() > usize::MAX / 4),
{
    let bytes = decode_text(encoded_file)?;
    let buffer = decode_image(bytes.as_slice())?;
    let r = gray_data_url(&buffer);
    r
}

} // verus!
