use vstd::arithmetic::div_mod::{lemma_fundamental_div_mod, lemma_fundamental_div_mod_converse};
use vstd::prelude::*;

use crate::error::PipelineError;
use crate::format::{detect_format, format_of, ContainerFormat};
use crate::pixel::{PixelBuffer, PixelView};

verus! {

#[verifier::external_type_specification]
#[verifier::external_body]
pub struct ExDynamicImage(image::DynamicImage);

#[verifier::external_type_specification]
#[verifier::external_body]
pub struct ExImageError(image::ImageError);

/// The PNG file that the `png` codec of `image` writes for RGB pixels.
pub uninterp spec fn png_rgb_encoding(data: Seq<u8>, width: u32, height: u32) -> Seq<u8>;

/// The PNG file that the `png` codec of `image` writes for RGBA pixels.
pub uninterp spec fn png_rgba_encoding(data: Seq<u8>, width: u32, height: u32) -> Seq<u8>;

/// The PNG file written for a buffer, in the buffer's own layout.
pub open spec fn png_encoding(p: PixelView) -> Seq<u8> {
    if p.has_alpha {
        png_rgba_encoding(p.data, p.width as u32, p.height as u32)
    } else {
        png_rgb_encoding(p.data, p.width as u32, p.height as u32)
    }
}

/// What `image` decodes from a file of the given format: width, height,
/// whether the file's colour type has alpha, and the pixels as RGBA.
pub uninterp spec fn decoded_rgba(bytes: Seq<u8>, format: ContainerFormat) -> Option<(u32, u32, bool, Seq<u8>)>;

/// Relies on `image::load_from_memory_with_format` (default limits), then
/// `DynamicImage::color().has_alpha()` and `DynamicImage::to_rgba8`, which
/// gives a fresh buffer of four bytes per pixel, row by row.
#[verifier::external_body]
fn load_rgba(bytes: &[u8], format: ContainerFormat) -> (r: Result<(u32, u32, bool, Vec<u8>), image::ImageError>)
    ensures
        r is Ok <==> decoded_rgba(bytes@, format) is Some,
        r matches Ok(t) ==> decoded_rgba(bytes@, format) == Some((t.0, t.1, t.2, t.3@)),
        r matches Ok(t) ==> t.3@.len() == t.0 * t.1 * 4,
{
    let format = match format {
        ContainerFormat::Png => image::ImageFormat::Png,
        ContainerFormat::Jpeg => image::ImageFormat::Jpeg,
        ContainerFormat::Gif => image::ImageFormat::Gif,
        ContainerFormat::Bmp => image::ImageFormat::Bmp,
    };
    let img = image::load_from_memory_with_format(bytes, format)?;
    let has_alpha = img.color().has_alpha();
    let buf = img.to_rgba8();
    Ok((buf.width(), buf.height(), has_alpha, buf.into_raw()))
}

/// RGBA pixels with the alpha byte of each dropped.
pub open spec fn strip_alpha(d: Seq<u8>) -> Seq<u8> {
    Seq::new(d.len() / 4 * 3, |i: int| d[(i / 3) * 4 + i % 3])
}

/// The pixels of an image file, as the decoder gives them: RGBA where the
/// file has alpha, RGB otherwise.
pub open spec fn decoded_view(b: Seq<u8>) -> Option<PixelView> {
    match format_of(b) {
        None => None,
        Some(f) => match decoded_rgba(b, f) {
            None => None,
            Some(t) => Some(
                PixelView {
                    width: t.0 as nat,
                    height: t.1 as nat,
                    has_alpha: t.2,
                    data: if t.2 {
                        t.3
                    } else {
                        strip_alpha(t.3)
                    },
                },
            ),
        },
    }
}

/// Drops the alpha byte of each RGBA pixel.
pub fn strip_alpha_of(data: &Vec<u8>) -> (r: Vec<u8>)
    ensures
        r@ == strip_alpha(data@),
{
    let len: usize = data.len();
    let n: usize = len / 4;
    let ghost d = data@;
    let mut out: Vec<u8> = Vec::with_capacity(n);
    let mut k: usize = 0;
    proof {
        lemma_fundamental_div_mod(d.len() as int, 4);
    }
    while k < n
        invariant
            d == data@,
            4 * n <= d.len(),
            d.len() == len,
            n == d.len() / 4,
            k <= n,
            out@ =~= strip_alpha(d).subrange(0, 3 * k as int),
        decreases n - k,
    {
        let start: usize = 4 * k;
        proof {
            assert forall|j: int| 0 <= j < 3 implies #[trigger] strip_alpha(d)[3 * k + j] == d[4 * k + j] by {
                lemma_fundamental_div_mod_converse(3 * k + j, 3, k as int, j);
            }
        }
        out.push(data[start]);
        out.push(data[start + 1]);
        out.push(data[start + 2]);
        proof {
            assert(strip_alpha(d)[3 * k + 0] == d[4 * k + 0]);
            assert(strip_alpha(d)[3 * k + 1] == d[4 * k + 1]);
            assert(strip_alpha(d)[3 * k + 2] == d[4 * k + 2]);
        }
        k = k + 1;
    }
    out
}

/// Relies on `PngEncoder::write_image` with `ColorType::Rgb8`, which asserts
/// that the data holds three bytes per pixel. Written into a `Vec`, it fails only
/// on a zero width or height.
#[verifier::external_body]
fn write_png_rgb(data: &[u8], width: u32, height: u32) -> (r: Result<Vec<u8>, image::ImageError>)
    requires
        data@.len() == width * height * 3,
    ensures
        r matches Ok(v) ==> v@ == png_rgb_encoding(data@, width, height),
        width >= 1 && height >= 1 ==> r is Ok,
{
    let mut out: Vec<u8> = Vec::new();
    let res = image::ImageEncoder::write_image(
        image::codecs::png::PngEncoder::new(&mut out),
        data,
        width,
        height,
        image::ColorType::Rgb8,
    );
    res.map(|_| out)
}

/// Relies on `PngEncoder::write_image` with `ColorType::Rgba8`, which asserts
/// that the data holds four bytes per pixel. Written into a `Vec`, it fails only
/// on a zero width or height.
#[verifier::external_body]
fn write_png_rgba(data: &[u8], width: u32, height: u32) -> (r: Result<Vec<u8>, image::ImageError>)
    requires
        data@.len() == width * height * 4,
    ensures
        r matches Ok(v) ==> v@ == png_rgba_encoding(data@, width, height),
        width >= 1 && height >= 1 ==> r is Ok,
{
    let mut out: Vec<u8> = Vec::new();
    let res = image::ImageEncoder::write_image(
        image::codecs::png::PngEncoder::new(&mut out),
        data,
        width,
        height,
        image::ColorType::Rgba8,
    );
    res.map(|_| out)
}

/// Decodes an image file into pixels, normalised to RGB or RGBA. Fails with
/// `UnsupportedFormat` exactly where the bytes start with no known
/// signature; a recognised file that cannot be parsed, or that holds no
/// pixel, fails with `CorruptImage`.
pub fn decode_image(bytes: &[u8]) -> (r: Result<PixelBuffer, PipelineError>)
    ensures
        format_of(bytes@) is None <==> r == Err::<PixelBuffer, PipelineError>(PipelineError::UnsupportedFormat),
        r is Ok <==> (decoded_view(bytes@) matches Some(v) && v.wf()),
        r matches Ok(p) ==> decoded_view(bytes@) == Some(p@) && p@.wf(),
        r matches Err(e) ==> e == PipelineError::UnsupportedFormat || e == PipelineError::CorruptImage,
{
    let format = match detect_format(bytes) {
        Some(f) => f,
        None => return Err(PipelineError::UnsupportedFormat),
    };
    let (width, height, has_alpha, rgba) = match load_rgba(bytes, format) {
        Ok(t) => t,
        Err(_) => return Err(PipelineError::CorruptImage),
    };
    if has_alpha {
        PixelBuffer::new(width, height, true, rgba)
    } else {
        let rgb = strip_alpha_of(&rgba);
        proof {
            let m = width as int * height as int;
            assert(m >= 0) by (nonlinear_arith)
                requires
                    m == width as int * height as int,
                    width >= 0,
                    height >= 0,
            ;
            assert(rgba@.len() as int / 4 == m) by {
                lemma_fundamental_div_mod_converse(rgba@.len() as int, 4, m, 0);
            }
            assert(rgb@.len() == width as nat * height as nat * 3);
        }
        PixelBuffer::new(width, height, false, rgb)
    }
}

/// Writes a buffer out as a PNG file. Fails only with `EncodingError`.
pub fn encode_image(p: &PixelBuffer) -> (r: Result<Vec<u8>, PipelineError>)
    ensures
        r is Ok,
        r matches Ok(v) ==> v@ == png_encoding(p@),
        r matches Err(e) ==> e == PipelineError::EncodingError,
{
    let data = p.data();
    let res = if p.has_alpha() {
        write_png_rgba(data.as_slice(), p.width(), p.height())
    } else {
        write_png_rgb(data.as_slice(), p.width(), p.height())
    };
    match res {
        Ok(v) => Ok(v),
        Err(_) => Err(PipelineError::EncodingError),
    }
}

} // verus!
