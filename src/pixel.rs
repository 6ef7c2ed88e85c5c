use vstd::arithmetic::div_mod::{lemma_fundamental_div_mod, lemma_mod_multiples_vanish, lemma_small_mod};
use vstd::prelude::*;

use crate::error::PipelineError;

verus! {

/// Bytes per pixel: red, green and blue, and alpha where the buffer has it.
pub open spec fn channel_count(has_alpha: bool) -> nat {
    if has_alpha {
        4
    } else {
        3
    }
}

/// What a pixel buffer holds: its size and its pixels, row by row, one byte
/// per channel.
pub struct PixelView {
    pub width: nat,
    pub height: nat,
    pub has_alpha: bool,
    pub data: Seq<u8>,
}

impl PixelView {
    /// Both sides are at least one pixel long, and the data holds exactly one
    /// group of channels per pixel.
    pub open spec fn wf(self) -> bool {
        &&& self.width >= 1
        &&& self.height >= 1
        &&& self.data.len() == self.width * self.height * channel_count(self.has_alpha)
    }

    pub open spec fn channels(self) -> nat {
        channel_count(self.has_alpha)
    }
}

/// Perceptual luma of a colour: the sRGB weights 0.2126, 0.7152 and 0.0722,
/// rounded to the nearest integer.
pub open spec fn luma(r: u8, g: u8, b: u8) -> u8 {
    ((2126 * r + 7152 * g + 722 * b + 5000) / 10000) as u8
}

/// The byte at index `i` once its pixel has been turned gray: each colour
/// channel takes the pixel's luma, the alpha channel stays.
pub open spec fn gray_byte(d: Seq<u8>, ch: nat, i: int) -> u8 {
    let start = i - i % (ch as int);
    if i % (ch as int) < 3 {
        luma(d[start], d[start + 1], d[start + 2])
    } else {
        d[i]
    }
}

pub open spec fn gray_data(d: Seq<u8>, ch: nat) -> Seq<u8> {
    Seq::new(d.len(), |i: int| gray_byte(d, ch, i))
}

/// The grayscale image of a buffer: same size and layout, gray pixels.
pub open spec fn gray_view(p: PixelView) -> PixelView {
    PixelView { data: gray_data(p.data, p.channels()), ..p }
}

/// An image held in memory, with red, green, blue and optionally alpha
/// channels of eight bits each.
pub struct PixelBuffer {
    width: u32,
    height: u32,
    has_alpha: bool,
    data: Vec<u8>,
}

impl View for PixelBuffer {
    type V = PixelView;

    closed spec fn view(&self) -> PixelView {
        PixelView {
            width: self.width as nat,
            height: self.height as nat,
            has_alpha: self.has_alpha,
            data: self.data@,
        }
    }
}

/// Where pixel `q` starts, channel `j` of it lies at offset `j`.
proof fn lemma_channel_offset(q: int, ch: int, j: int)
    requires
        q >= 0,
        0 <= j < ch,
    ensures
        (q * ch + j) % ch == j,
        (q * ch + j) - (q * ch + j) % ch == q * ch,
{
    lemma_mod_multiples_vanish(q, j, ch);
    lemma_small_mod(j as nat, ch as nat);
    assert(ch * q == q * ch) by (nonlinear_arith);
}

/// The pixel that byte `i` belongs to lies wholly inside the data.
proof fn lemma_pixel_in_bounds(i: int, m: int, ch: int)
    requires
        0 <= i < m * ch,
        ch > 0,
    ensures
        0 <= i - i % ch,
        i - i % ch + ch <= m * ch,
        (i - i % ch) % ch == 0,
{
    lemma_fundamental_div_mod(i, ch);
    let q = i / ch;
    let r = i % ch;
    assert(0 <= r < ch);
    assert(q >= 0 && q + 1 <= m) by (nonlinear_arith)
        requires
            i == ch * q + r,
            0 <= r < ch,
            0 <= i < m * ch,
    ;
    assert((q + 1) * ch <= m * ch) by (nonlinear_arith)
        requires
            q + 1 <= m,
            ch > 0,
    ;
    assert(i - r == q * ch) by (nonlinear_arith)
        requires
            i == ch * q + r,
    ;
    assert(i - r + ch == (q + 1) * ch) by (nonlinear_arith)
        requires
            i - r == q * ch,
    ;
    lemma_channel_offset(q, ch, 0);
}

impl PixelBuffer {
    #[verifier::type_invariant]
    closed spec fn inv(&self) -> bool {
        self@.wf()
    }

    /// Builds a buffer from its size and its pixel data. Fails with
    /// `CorruptImage` where a side is zero or the data does not hold exactly
    /// one group of channels per pixel.
    pub fn new(width: u32, height: u32, has_alpha: bool, data: Vec<u8>) -> (r: Result<
        PixelBuffer,
        PipelineError,
    >)
        ensures
            r is Ok <==> (PixelView { width: width as nat, height: height as nat, has_alpha, data: data@ }).wf(),
            r matches Ok(p) ==> p@ == (PixelView {
                width: width as nat,
                height: height as nat,
                has_alpha,
                data: data@,
            }),
            r matches Err(e) ==> e == PipelineError::CorruptImage,
            r matches Ok(p) ==> p@.wf(),
    {
        let ch: usize = if has_alpha {
            4
        } else {
            3
        };
        let len = data.len();
        if width == 0 || height == 0 || len % ch != 0 {
            proof {
                if width >= 1 && height >= 1 && len % ch != 0 {
                    let m = width as int * height as int;
                    assert((m * ch as int) % (ch as int) == 0) by {
                        lemma_channel_offset(m, ch as int, 0);
                    }
                }
            }
            return Err(PipelineError::CorruptImage);
        }
        assert(width as u64 * height as u64 <= u32::MAX as u64 * u32::MAX as u64) by (nonlinear_arith);
        let pixels: u64 = (width as u64) * (height as u64);
        proof {
            lemma_fundamental_div_mod(len as int, ch as int);
        }
        if (len / ch) as u64 != pixels {
            proof {
                let m = width as int * height as int;
                if len as int == m * ch as int {
                    assert(len as int / ch as int == m) by (nonlinear_arith)
                        requires
                            len as int == m * ch as int,
                            len as int == ch as int * (len as int / ch as int) + len as int % ch as int,
                            len as int % ch as int == 0,
                            ch > 0,
                    ;
                }
            }
            return Err(PipelineError::CorruptImage);
        }
        proof {
            assert(len as int == (width as int * height as int) * ch as int) by (nonlinear_arith)
                requires
                    len as int == ch as int * (len as int / ch as int) + len as int % ch as int,
                    len as int % ch as int == 0,
                    len as int / ch as int == width as int * height as int,
            ;
        }
        Ok(PixelBuffer { width, height, has_alpha, data })
    }

    pub fn width(&self) -> (r: u32)
        ensures
            r == self@.width,
    {
        self.width
    }

    pub fn height(&self) -> (r: u32)
        ensures
            r == self@.height,
    {
        self.height
    }

    pub fn has_alpha(&self) -> (r: bool)
        ensures
            r == self@.has_alpha,
    {
        self.has_alpha
    }

    /// Bytes per pixel.
    pub fn channels(&self) -> (r: usize)
        ensures
            r == self@.channels(),
    {
        if self.has_alpha {
            4
        } else {
            3
        }
    }

    /// The pixel data, row by row. Every buffer is well formed.
    pub fn data(&self) -> (r: &Vec<u8>)
        ensures
            r@ == self@.data,
            self@.wf(),
    {
        proof {
            use_type_invariant(self);
        }
        &self.data
    }
}

/// The luma of one colour, as `luma` states it.
pub fn luma_of(r: u8, g: u8, b: u8) -> (l: u8)
    ensures
        l == luma(r, g, b),
{
    let sum: u32 = 2126 * (r as u32) + 7152 * (g as u32) + 722 * (b as u32) + 5000;
    (sum / 10000) as u8
}

impl PixelBuffer {
    /// The grayscale image: each pixel's colour channels all take its luma,
    /// its alpha stays, and the size is kept.
    pub fn grayscale(&self) -> (r: PixelBuffer)
        ensures
            r@ == gray_view(self@),
            r@.wf(),
            r@.width == self@.width,
            r@.height == self@.height,
    {
        proof {
            use_type_invariant(self);
        }
        let ch: usize = self.channels();
        let n: usize = self.data.len();
        let ghost m = self@.width * self@.height;
        let ghost d = self.data@;
        let mut out: Vec<u8> = Vec::with_capacity(n);
        let mut i: usize = 0;
        while i < n
            invariant
                n == d.len(),
                d == self.data@,
                n == m * ch,
                ch == self@.channels(),
                i <= n,
                out@ =~= gray_data(d, ch as nat).subrange(0, i as int),
            decreases n - i,
        {
            let k: usize = i % ch;
            let v: u8 = if k < 3 {
                proof {
                    lemma_pixel_in_bounds(i as int, m as int, ch as int);
                }
                let start: usize = i - k;
                luma_of(self.data[start], self.data[start + 1], self.data[start + 2])
            } else {
                self.data[i]
            };
            out.push(v);
            i = i + 1;
        }
        let r = PixelBuffer { width: self.width, height: self.height, has_alpha: self.has_alpha, data: out };
        assert(r@.data =~= gray_data(d, ch as nat));
        r
    }
}

/// Turning a buffer gray a second time changes nothing.
pub proof fn lemma_grayscale_idempotent(p: PixelView)
    requires
        p.wf(),
    ensures
        gray_view(gray_view(p)) == gray_view(p),
{
    let ch = p.channels();
    let d = p.data;
    let g = gray_data(d, ch);
    let m = p.width * p.height;
    assert forall|i: int| 0 <= i < d.len() implies #[trigger] gray_byte(g, ch, i) == g[i] by {
        lemma_pixel_in_bounds(i, m as int, ch as int);
        let start = i - i % (ch as int);
        if i % (ch as int) < 3 {
            let q = start / (ch as int);
            lemma_fundamental_div_mod(start, ch as int);
            assert(start == q * ch) by (nonlinear_arith)
                requires
                    start == ch * q + start % (ch as int),
                    start % (ch as int) == 0,
            ;
            assert(q >= 0) by (nonlinear_arith)
                requires
                    start == q * ch,
                    start >= 0,
                    ch > 0,
            ;
            lemma_channel_offset(q, ch as int, 1);
            lemma_channel_offset(q, ch as int, 2);
            let l = luma(d[start], d[start + 1], d[start + 2]);
            assert(g[start] == l && g[start + 1] == l && g[start + 2] == l);
        }
    }
    assert(gray_data(g, ch) =~= g);
}

/// In the grayscale image the red, green and blue channels of each pixel
/// are equal, and its alpha channel is the one of the input.
pub proof fn lemma_grayscale_pixel(p: PixelView, k: int)
    requires
        p.wf(),
        0 <= k < p.width * p.height,
    ensures
        ({
            let ch = p.channels() as int;
            let g = gray_view(p).data;
            &&& g[k * ch] == g[k * ch + 1]
            &&& g[k * ch + 1] == g[k * ch + 2]
            &&& g[k * ch] == luma(p.data[k * ch], p.data[k * ch + 1], p.data[k * ch + 2])
            &&& p.has_alpha ==> g[k * ch + 3] == p.data[k * ch + 3]
        }),
{
    let ch = p.channels() as int;
    let m = p.width * p.height;
    assert(k * ch + ch <= m * ch) by (nonlinear_arith)
        requires
            k < m,
            ch > 0,
    ;
    lemma_channel_offset(k, ch, 0);
    lemma_channel_offset(k, ch, 1);
    lemma_channel_offset(k, ch, 2);
    if p.has_alpha {
        lemma_channel_offset(k, ch, 3);
    }
}

} // verus!
