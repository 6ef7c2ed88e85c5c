use vstd::prelude::*;

verus! {

/// The image file formats that the decoder recognises.
#[derive(Debug, Clone, Copy, PartialEq, Eq, Structural)]
pub enum ContainerFormat {
    Png,
    Jpeg,
    Gif,
    Bmp,
}

pub open spec fn starts_with(b: Seq<u8>, sig: Seq<u8>) -> bool {
    sig.len() <= b.len() && b.subrange(0, sig.len() as int) == sig
}

/// `\x89PNG\r\n\x1a\n`
pub open spec fn png_signature() -> Seq<u8> {
    seq![0x89u8, 0x50u8, 0x4Eu8, 0x47u8, 0x0Du8, 0x0Au8, 0x1Au8, 0x0Au8]
}

pub open spec fn jpeg_signature() -> Seq<u8> {
    seq![0xFFu8, 0xD8u8, 0xFFu8]
}

/// `GIF87a`
pub open spec fn gif87_signature() -> Seq<u8> {
    seq![0x47u8, 0x49u8, 0x46u8, 0x38u8, 0x37u8, 0x61u8]
}

/// `GIF89a`
pub open spec fn gif89_signature() -> Seq<u8> {
    seq![0x47u8, 0x49u8, 0x46u8, 0x38u8, 0x39u8, 0x61u8]
}

/// `BM`
pub open spec fn bmp_signature() -> Seq<u8> {
    seq![0x42u8, 0x4Du8]
}

/// The format whose signature the bytes start with, if any. No two
/// signatures are prefixes of one another, so at most one matches.
pub open spec fn format_of(b: Seq<u8>) -> Option<ContainerFormat> {
    if starts_with(b, png_signature()) {
        Some(ContainerFormat::Png)
    } else if starts_with(b, jpeg_signature()) {
        Some(ContainerFormat::Jpeg)
    } else if starts_with(b, gif87_signature()) || starts_with(b, gif89_signature()) {
        Some(ContainerFormat::Gif)
    } else if starts_with(b, bmp_signature()) {
        Some(ContainerFormat::Bmp)
    } else {
        None
    }
}

fn has_prefix(bytes: &[u8], sig: &Vec<u8>) -> (r: bool)
    ensures
        r == starts_with(bytes@, sig@),
{
    if sig.len() > bytes.len() {
        return false;
    }
    let mut i: usize = 0;
    while i < sig.len()
        invariant
            sig@.len() <= bytes@.len(),
            i <= sig@.len(),
            forall|j: int| 0 <= j < i ==> bytes@[j] == sig@[j],
        decreases sig.len() - i,
    {
        if bytes[i] != sig[i] {
            assert(bytes@.subrange(0, sig@.len() as int)[i as int] != sig@[i as int]);
            return false;
        }
        i = i + 1;
    }
    assert(bytes@.subrange(0, sig@.len() as int) =~= sig@);
    true
}

/// Identifies the format of an image file by its leading bytes.
pub fn detect_format(bytes: &[u8]) -> (r: Option<ContainerFormat>)
    ensures
        r == format_of(bytes@),
{
    let png: Vec<u8> = vec![0x89, 0x50, 0x4E, 0x47, 0x0D, 0x0A, 0x1A, 0x0A];
    let jpeg: Vec<u8> = vec![0xFF, 0xD8, 0xFF];
    let gif87: Vec<u8> = vec![0x47, 0x49, 0x46, 0x38, 0x37, 0x61];
    let gif89: Vec<u8> = vec![0x47, 0x49, 0x46, 0x38, 0x39, 0x61];
    let bmp: Vec<u8> = vec![0x42, 0x4D];
    assert(png@ =~= png_signature());
    assert(jpeg@ =~= jpeg_signature());
    assert(gif87@ =~= gif87_signature());
    assert(gif89@ =~= gif89_signature());
    assert(bmp@ =~= bmp_signature());
    if has_prefix(bytes, &png) {
        Some(ContainerFormat::Png)
    } else if has_prefix(bytes, &jpeg) {
        Some(ContainerFormat::Jpeg)
    } else if has_prefix(bytes, &gif87) || has_prefix(bytes, &gif89) {
        Some(ContainerFormat::Gif)
    } else if has_prefix(bytes, &bmp) {
        Some(ContainerFormat::Bmp)
    } else {
        None
    }
}

/// Bytes that start with a zero byte match no signature.
pub proof fn lemma_leading_zero_unrecognised(b: Seq<u8>)
    requires
        b.len() > 0,
        b[0] == 0,
    ensures
        format_of(b) is None,
{
    assert(b.len() >= 8 ==> b.subrange(0, 8)[0] == 0);
    assert(b.len() >= 3 ==> b.subrange(0, 3)[0] == 0);
    assert(b.len() >= 6 ==> b.subrange(0, 6)[0] == 0);
    assert(b.len() >= 2 ==> b.subrange(0, 2)[0] == 0);
}

} // verus!
