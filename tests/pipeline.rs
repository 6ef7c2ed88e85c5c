use std::io::Cursor;

use grayscale_image::{
    decode_image, decode_text, detect_format, encode_bytes, encode_image, gray_data_url, grayscale, luma_of,
    strip_alpha_of, to_png_data_url, ContainerFormat, PipelineError, PixelBuffer,
};

const PREFIX: &str = "data:image/png;base64,";
const PNG_SIGNATURE: [u8; 8] = [0x89, 0x50, 0x4E, 0x47, 0x0D, 0x0A, 0x1A, 0x0A];

fn png_file(img: image::DynamicImage) -> Vec<u8> {
    let mut out: Vec<u8> = Vec::new();
    img.write_to(&mut Cursor::new(&mut out), image::ImageOutputFormat::Png).unwrap();
    out
}

fn four_pixel_png() -> Vec<u8> {
    let raw = vec![255, 0, 0, 0, 255, 0, 0, 0, 255, 255, 255, 255];
    png_file(image::DynamicImage::ImageRgb8(image::RgbImage::from_raw(2, 2, raw).unwrap()))
}

#[test]
fn encode_bytes_known_values() {
    assert_eq!(encode_bytes(&[]), "");
    assert_eq!(encode_bytes(b"M"), "TQ==");
    assert_eq!(encode_bytes(b"Ma"), "TWE=");
    assert_eq!(encode_bytes(b"Man"), "TWFu");
    assert_eq!(encode_bytes(&[0xFB, 0xFF]), "+/8=");
}

#[test]
fn decode_text_known_values() {
    assert_eq!(decode_text("").unwrap(), Vec::<u8>::new());
    assert_eq!(decode_text("TQ==").unwrap(), b"M".to_vec());
    assert_eq!(decode_text("TWFu").unwrap(), b"Man".to_vec());
}

#[test]
fn round_trip_of_all_byte_values() {
    let bytes: Vec<u8> = (0..=255u8).collect();
    for n in 0..bytes.len() {
        let text = encode_bytes(&bytes[..n]);
        assert_eq!(text.len() % 4, 0);
        assert_eq!(decode_text(&text).unwrap(), bytes[..n].to_vec());
    }
}

#[test]
fn decode_text_rejects_space() {
    assert_eq!(decode_text("TW Fu"), Err(PipelineError::MalformedInput));
    assert_eq!(decode_text("TW u"), Err(PipelineError::MalformedInput));
}

#[test]
fn decode_text_rejects_bad_length_and_padding() {
    assert_eq!(decode_text("TWF"), Err(PipelineError::MalformedInput));
    assert_eq!(decode_text("T==="), Err(PipelineError::MalformedInput));
    assert_eq!(decode_text("TQ=A"), Err(PipelineError::MalformedInput));
    assert_eq!(decode_text("TQ"), Err(PipelineError::MalformedInput));
    assert_eq!(decode_text("TR=="), Err(PipelineError::MalformedInput));
}

#[test]
fn detect_format_by_signature() {
    assert_eq!(detect_format(&PNG_SIGNATURE), Some(ContainerFormat::Png));
    assert_eq!(detect_format(&[0xFF, 0xD8, 0xFF, 0xE0]), Some(ContainerFormat::Jpeg));
    assert_eq!(detect_format(b"GIF87a..."), Some(ContainerFormat::Gif));
    assert_eq!(detect_format(b"GIF89a"), Some(ContainerFormat::Gif));
    assert_eq!(detect_format(b"BM\x00\x00"), Some(ContainerFormat::Bmp));
    assert_eq!(detect_format(b"GIF88a"), None);
    assert_eq!(detect_format(&[0x89, 0x50]), None);
    assert_eq!(detect_format(&[]), None);
}

#[test]
fn decode_image_rejects_all_zero_bytes() {
    assert_eq!(decode_image(&[0u8; 64]).err(), Some(PipelineError::UnsupportedFormat));
    assert_eq!(decode_image(&[]).err(), Some(PipelineError::UnsupportedFormat));
}

#[test]
fn decode_image_rejects_truncated_png() {
    let png = four_pixel_png();
    assert_eq!(decode_image(&png[..8]).err(), Some(PipelineError::CorruptImage));
    assert_eq!(decode_image(&png[..png.len() / 2]).err(), Some(PipelineError::CorruptImage));
}

#[test]
fn decode_image_reads_rgb_png() {
    let p = decode_image(&four_pixel_png()).unwrap();
    assert_eq!((p.width(), p.height(), p.has_alpha(), p.channels()), (2, 2, false, 3));
    assert_eq!(p.data(), &vec![255, 0, 0, 0, 255, 0, 0, 0, 255, 255, 255, 255]);
}

#[test]
fn decode_image_reads_rgba_png() {
    let raw = vec![10, 20, 30, 77];
    let png = png_file(image::DynamicImage::ImageRgba8(image::RgbaImage::from_raw(1, 1, raw.clone()).unwrap()));
    let p = decode_image(&png).unwrap();
    assert_eq!((p.width(), p.height(), p.has_alpha(), p.channels()), (1, 1, true, 4));
    assert_eq!(p.data(), &raw);
}

#[test]
fn luma_known_values() {
    assert_eq!(luma_of(255, 0, 0), 54);
    assert_eq!(luma_of(0, 255, 0), 182);
    assert_eq!(luma_of(0, 0, 255), 18);
    assert_eq!(luma_of(255, 255, 255), 255);
    assert_eq!(luma_of(0, 0, 0), 0);
    assert_eq!(luma_of(10, 20, 30), 19);
    assert_eq!(luma_of(77, 77, 77), 77);
}

#[test]
fn pixel_buffer_new_checks_layout() {
    assert!(PixelBuffer::new(2, 1, false, vec![0; 6]).is_ok());
    assert!(PixelBuffer::new(1, 1, true, vec![0; 4]).is_ok());
    assert_eq!(PixelBuffer::new(0, 1, false, vec![]).err(), Some(PipelineError::CorruptImage));
    assert_eq!(PixelBuffer::new(1, 0, true, vec![]).err(), Some(PipelineError::CorruptImage));
    assert_eq!(PixelBuffer::new(2, 2, false, vec![0; 11]).err(), Some(PipelineError::CorruptImage));
    assert_eq!(PixelBuffer::new(2, 2, true, vec![0; 12]).err(), Some(PipelineError::CorruptImage));
    assert_eq!(PixelBuffer::new(1, 1, false, vec![0; 4]).err(), Some(PipelineError::CorruptImage));
}

#[test]
fn grayscale_buffer_rgb() {
    let p = PixelBuffer::new(2, 2, false, vec![255, 0, 0, 0, 255, 0, 0, 0, 255, 255, 255, 255]).unwrap();
    let g = p.grayscale();
    assert_eq!((g.width(), g.height(), g.has_alpha()), (2, 2, false));
    assert_eq!(g.data(), &vec![54, 54, 54, 182, 182, 182, 18, 18, 18, 255, 255, 255]);
}

#[test]
fn grayscale_buffer_keeps_alpha() {
    let p = PixelBuffer::new(2, 1, true, vec![10, 20, 30, 77, 255, 0, 0, 0]).unwrap();
    let g = p.grayscale();
    assert_eq!((g.width(), g.height(), g.has_alpha()), (2, 1, true));
    assert_eq!(g.data(), &vec![19, 19, 19, 77, 54, 54, 54, 0]);
}

#[test]
fn grayscale_buffer_twice_is_once() {
    let p = PixelBuffer::new(3, 1, true, vec![1, 2, 3, 4, 200, 100, 50, 255, 9, 250, 17, 128]).unwrap();
    let once = p.grayscale();
    let twice = once.grayscale();
    assert_eq!(once.data(), twice.data());
    assert_eq!((once.width(), once.height()), (twice.width(), twice.height()));
    for px in once.data().chunks(4) {
        assert!(px[0] == px[1] && px[1] == px[2]);
    }
}

#[test]
fn encode_image_round_trips_through_decode() {
    let data = vec![1, 2, 3, 40, 50, 60, 70, 80, 90, 200, 210, 220, 0, 0, 0, 255, 255, 255];
    let p = PixelBuffer::new(3, 2, false, data.clone()).unwrap();
    let png = encode_image(&p).unwrap();
    assert_eq!(&png[..8], &PNG_SIGNATURE);
    let back = decode_image(&png).unwrap();
    assert_eq!((back.width(), back.height(), back.has_alpha()), (3, 2, false));
    assert_eq!(back.data(), &data);

    let rgba = vec![1, 2, 3, 4, 5, 6, 7, 8];
    let q = PixelBuffer::new(1, 2, true, rgba.clone()).unwrap();
    let back = decode_image(&encode_image(&q).unwrap()).unwrap();
    assert_eq!((back.width(), back.height(), back.has_alpha()), (1, 2, true));
    assert_eq!(back.data(), &rgba);
}

#[test]
fn to_png_data_url_known_value() {
    assert_eq!(to_png_data_url(&[1, 2, 3]).unwrap(), "data:image/png;base64,AQID");
    assert_eq!(to_png_data_url(&[]).unwrap(), "data:image/png;base64,");
}

#[test]
fn gray_data_url_of_buffer() {
    let p = PixelBuffer::new(1, 1, false, vec![255, 0, 0]).unwrap();
    let url = gray_data_url(&p).unwrap();
    let png = decode_text(url.strip_prefix(PREFIX).unwrap()).unwrap();
    let back = decode_image(&png).unwrap();
    assert_eq!(back.data(), &vec![54, 54, 54]);
}

#[test]
fn pipeline_end_to_end_four_pixels() {
    let input = encode_bytes(&four_pixel_png());
    let url = grayscale(&input).unwrap();
    assert!(url.starts_with(PREFIX));
    let png = decode_text(&url[PREFIX.len()..]).unwrap();
    let back = decode_image(&png).unwrap();
    assert_eq!((back.width(), back.height()), (2, 2));
    assert_eq!(back.data(), &vec![54, 54, 54, 182, 182, 182, 18, 18, 18, 255, 255, 255]);
}

#[test]
fn pipeline_reports_each_error_kind() {
    assert_eq!(grayscale("not base64!"), Err(PipelineError::MalformedInput));
    assert_eq!(grayscale("AAAA AAA"), Err(PipelineError::MalformedInput));
    assert_eq!(grayscale(&encode_bytes(&[0u8; 30])), Err(PipelineError::UnsupportedFormat));
    assert_eq!(grayscale(""), Err(PipelineError::UnsupportedFormat));
    assert_eq!(grayscale(&encode_bytes(&PNG_SIGNATURE)), Err(PipelineError::CorruptImage));
    assert_eq!(grayscale(&encode_bytes(b"GIF89a")), Err(PipelineError::CorruptImage));
}

#[test]
fn strip_alpha_drops_every_fourth_byte() {
    assert_eq!(strip_alpha_of(&vec![1, 2, 3, 4, 5, 6, 7, 8]), vec![1, 2, 3, 5, 6, 7]);
    assert_eq!(strip_alpha_of(&vec![]), Vec::<u8>::new());
}

#[test]
fn pipeline_signature_only_png_is_corrupt() {
    assert_eq!(grayscale("iVBORw0KGgo="), Err(PipelineError::CorruptImage));
}

#[test]
fn pipeline_keeps_alpha() {
    let raw = vec![10, 20, 30, 77, 255, 255, 255, 0];
    let png = png_file(image::DynamicImage::ImageRgba8(image::RgbaImage::from_raw(2, 1, raw).unwrap()));
    let url = grayscale(&encode_bytes(&png)).unwrap();
    let back = decode_image(&decode_text(&url[PREFIX.len()..]).unwrap()).unwrap();
    assert_eq!((back.width(), back.height(), back.has_alpha()), (2, 1, true));
    assert_eq!(back.data(), &vec![19, 19, 19, 77, 255, 255, 255, 0]);
}

#[test]
fn pipeline_reads_bmp() {
    let raw = vec![0, 0, 255, 255, 255, 255];
    let img = image::DynamicImage::ImageRgb8(image::RgbImage::from_raw(2, 1, raw).unwrap());
    let mut bmp: Vec<u8> = Vec::new();
    img.write_to(&mut Cursor::new(&mut bmp), image::ImageOutputFormat::Bmp).unwrap();
    assert_eq!(detect_format(&bmp), Some(ContainerFormat::Bmp));
    let url = grayscale(&encode_bytes(&bmp)).unwrap();
    let back = decode_image(&decode_text(&url[PREFIX.len()..]).unwrap()).unwrap();
    assert_eq!(back.data(), &vec![18, 18, 18, 255, 255, 255]);
}

#[test]
fn pipeline_twice_gives_same_url() {
    let once = grayscale(&encode_bytes(&four_pixel_png())).unwrap();
    let twice = grayscale(&once[PREFIX.len()..]).unwrap();
    assert_eq!(once, twice);
}
