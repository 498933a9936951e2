//! From a decoded picture to the network's input.
//!
//! A picture is held as 8-bit RGB samples. The network's input holds the
//! same samples mapped linearly onto -255..=255, which stands for -1..=1.

use vstd::prelude::*;
use vstd::arithmetic::div_mod::lemma_fundamental_div_mod_converse;
use crate::profile::{ModelType, INPUT_CHANNELS, MAX_INPUT_SIZE};

verus! {

/// A picture: three samples for each pixel.
#[derive(Clone, Debug, PartialEq, Eq)]
pub struct Image {
    pub width: u32,
    pub height: u32,
    pub pixels: Vec<u8>,
}

/// The network's input, channel first: all of one channel, then the next.
#[derive(Clone, Debug, PartialEq, Eq)]
pub struct InputTensor {
    pub channels: u32,
    pub height: u32,
    pub width: u32,
    pub values: Vec<i16>,
}

/// Why a picture cannot be used.
#[derive(Clone, Copy, Debug, PartialEq, Eq, Structural)]
pub enum ImageError {
    /// The picture has no pixel.
    Empty,
    /// The buffer does not hold three samples for each pixel.
    BufferMismatch,
    /// A side is too long to be scaled to the profile's resolution.
    TooLarge,
}

/// Number of samples of a picture of the given size.
pub open spec fn sample_count(width: int, height: int) -> int {
    3 * (width * height)
}

/// What stands in the way of scaling a picture to a square of `side`, if
/// anything does.
pub open spec fn resize_fault(width: int, height: int, len: int, side: int) -> Option<ImageError> {
    if width == 0 || height == 0 {
        Some(ImageError::Empty)
    } else if len != sample_count(width, height) {
        Some(ImageError::BufferMismatch)
    } else if width * side > u32::MAX || height * side > u32::MAX {
        Some(ImageError::TooLarge)
    } else {
        None
    }
}

/// The three samples of pixel `at` of a buffer.
pub open spec fn pixel_at(samples: Seq<u8>, at: int) -> (u8, u8, u8) {
    (samples[3 * at], samples[3 * at + 1], samples[3 * at + 2])
}

/// Whether `pixel` is one of the pixels of `source`.
pub open spec fn is_pixel_of(pixel: (u8, u8, u8), source: Seq<u8>) -> bool {
    exists|q: int| 0 <= q && 3 * q + 2 < source.len() && #[trigger] pixel_at(source, q) == pixel
}

/// Whether every pixel of `out` is a pixel of `source`: nothing was blended.
pub open spec fn takes_pixels_from(out: Seq<u8>, source: Seq<u8>) -> bool {
    forall|p: int| 0 <= p && 3 * p + 2 < out.len() ==> is_pixel_of(#[trigger] pixel_at(out, p), source)
}

/// The samples of a picture after it was scaled, without interpolation, to
/// cover a square of `side` pixels and cut to that square.
pub uninterp spec fn resized_to_fill(pixels: Seq<u8>, width: u32, height: u32, side: u32) -> Seq<u8>;

/// Calls `image::DynamicImage::resize_to_fill` with the nearest-neighbour
/// filter on an 8-bit RGB picture made of the given samples, and hands back
/// the samples of the result. Trusted: that the result depends on the
/// arguments alone, that it is a square of `side` pixels, and that each of
/// its pixels is a pixel of the picture, since this filter gives every
/// pixel of the result exactly one pixel of the picture with weight one.
/// The picture must not be empty, its buffer must hold three samples for
/// each pixel, `side` may not exceed the largest resolution of a profile,
/// and neither side times `side` may leave 32 bits. How much memory the
/// scaling takes is not bounded here.
#[verifier::external_body]
fn resize_to_fill_nearest(pixels: &Vec<u8>, width: u32, height: u32, side: u32) -> (out: Vec<u8>)
    requires
        width > 0,
        height > 0,
        0 < side <= MAX_INPUT_SIZE,
        pixels@.len() == sample_count(width as int, height as int),
        width * side <= u32::MAX,
        height * side <= u32::MAX,
    ensures
        out@ == resized_to_fill(pixels@, width, height, side),
        out@.len() == sample_count(side as int, side as int),
        takes_pixels_from(out@, pixels@),
{
    let buffer = image::RgbImage::from_raw(width, height, pixels.clone()).unwrap();
    let resized = image::DynamicImage::ImageRgb8(buffer).resize_to_fill(
        side,
        side,
        image::imageops::FilterType::Nearest,
    );
    resized.to_rgb8().into_raw()
}

/// Position, in a picture's buffer, of sample `channel` of the pixel in row
/// `row` and column `col`. The buffer holds the picture row by row, and the
/// three samples of a pixel side by side.
pub open spec fn source_index(width: int, height: int, channel: int, row: int, col: int) -> int {
    (row * width + col) * 3 + channel
}

/// Position of `(channel, row, col)` in the tensor's values.
pub open spec fn tensor_index(width: int, height: int, channel: int, row: int, col: int) -> int {
    (channel * height + row) * width + col
}

/// A sample mapped from 0..=255 onto -255..=255: `v * 2 - 1` in units of
/// 1/255.
pub open spec fn normalized(v: u8) -> int {
    2 * v - 255
}

/// Whether `values` is the channel-first tensor of the picture `pixels`:
/// the value at `(channel, row, col)` is the mapped sample `channel` of the
/// pixel in row `row` and column `col`.
pub open spec fn is_tensor_of(values: Seq<i16>, pixels: Seq<u8>, width: int, height: int) -> bool {
    &&& values.len() == sample_count(width, height)
    &&& forall|channel: int, row: int, col: int|
        0 <= channel < 3 && 0 <= row < height && 0 <= col < width ==> {
            let at = #[trigger] tensor_index(width, height, channel, row, col);
            &&& 0 <= at < values.len()
            &&& 0 <= source_index(width, height, channel, row, col) < pixels.len()
            &&& values[at] == normalized(pixels[source_index(width, height, channel, row, col)])
        }
}

impl Image {
    /// The buffer holds three samples for each pixel.
    pub open spec fn wf(&self) -> bool {
        self.pixels@.len() == sample_count(self.width as int, self.height as int)
    }

    /// Whether the buffer holds three samples for each pixel.
    pub fn is_well_formed(&self) -> (ok: bool)
        ensures
            ok == self.wf(),
    {
        let w: u128 = self.width as u128;
        let h: u128 = self.height as u128;
        proof {
            assert(0 <= w * h <= 0xffff_ffff * 0xffff_ffff) by (nonlinear_arith)
                requires
                    0 <= w <= 0xffff_ffff,
                    0 <= h <= 0xffff_ffff,
            ;
        }
        let expected: u128 = 3 * (w * h);
        self.pixels.len() as u128 == expected
    }
}

/// Position in the buffer of the sample that belongs at position `at` of
/// the tensor.
pub open spec fn flat_source(at: int, width: int, height: int) -> int {
    (at % (width * height)) * 3 + at / (width * height)
}

/// A position of the tensor, taken apart, gives back its channel, row and
/// column.
pub proof fn lemma_tensor_index_parts(width: int, height: int, channel: int, row: int, col: int)
    requires
        0 <= channel < 3,
        0 <= row < height,
        0 <= col < width,
    ensures
        0 <= tensor_index(width, height, channel, row, col) < sample_count(width, height),
        0 <= source_index(width, height, channel, row, col) < sample_count(width, height),
        flat_source(tensor_index(width, height, channel, row, col), width, height) == source_index(
            width,
            height,
            channel,
            row,
            col,
        ),
{
    let at = tensor_index(width, height, channel, row, col);
    let plane = width * height;
    let inner = row * width + col;
    assert(0 <= inner < plane) by (nonlinear_arith)
        requires
            0 <= row < height,
            0 <= col < width,
            inner == row * width + col,
            plane == width * height,
    ;
    assert(at == channel * plane + inner) by (nonlinear_arith)
        requires
            at == (channel * height + row) * width + col,
            plane == width * height,
            inner == row * width + col,
    ;
    assert(0 <= at < 3 * plane) by (nonlinear_arith)
        requires
            at == channel * plane + inner,
            0 <= channel < 3,
            0 <= inner < plane,
    ;
    lemma_fundamental_div_mod_converse(at, plane, channel, inner);
}

/// The tensor of a picture: channel first, each sample mapped onto
/// -255..=255. Fails where the buffer does not hold three samples for each
/// pixel.
pub fn convert_image_to_tensor(image: &Image) -> (r: Result<InputTensor, ImageError>)
    ensures
        match r {
            Ok(t) => {
                &&& image.wf()
                &&& t.channels == INPUT_CHANNELS
                &&& t.height == image.height
                &&& t.width == image.width
                &&& is_tensor_of(t.values@, image.pixels@, image.width as int, image.height as int)
            },
            Err(e) => !image.wf() && e == ImageError::BufferMismatch,
        },
{
    if !image.is_well_formed() {
        return Err(ImageError::BufferMismatch);
    }
    let n: usize = image.pixels.len();
    let w: usize = image.width as usize;
    let h: usize = image.height as usize;
    let mut values: Vec<i16> = Vec::new();
    if n > 0 {
        proof {
            assert(w > 0 && h > 0 && w * h <= n) by (nonlinear_arith)
                requires
                    n == 3 * (w * h),
                    n > 0,
                    w >= 0,
                    h >= 0,
            ;
        }
        let plane: usize = w * h;
        let mut at: usize = 0;
        while at < n
            invariant
                at <= n,
                n == image.pixels@.len(),
                n == 3 * plane,
                plane == w * h,
                w > 0,
                h > 0,
                values@.len() == at,
                forall|j: int|
                    0 <= j < at ==> {
                        &&& 0 <= #[trigger] flat_source(j, w as int, h as int) < n
                        &&& values@[j] == normalized(image.pixels@[flat_source(j, w as int, h as int)])
                    },
            decreases n - at,
        {
            let channel: usize = at / plane;
            let within: usize = at % plane;
            proof {
                assert(channel < 3) by (nonlinear_arith)
                    requires
                        channel == at as int / plane as int,
                        at < 3 * plane,
                        plane > 0,
                ;
            }
            let source: usize = within * 3 + channel;
            let sample: u8 = image.pixels[source];
            let ghost before = values@;
            values.push(2 * (sample as i16) - 255);
            proof {
                assert(w as int * h as int == plane as int);
                assert(flat_source(at as int, w as int, h as int) == source as int);
                assert forall|j: int| 0 <= j < at + 1 implies {
                    &&& 0 <= #[trigger] flat_source(j, w as int, h as int) < n
                    &&& values@[j] == normalized(image.pixels@[flat_source(j, w as int, h as int)])
                } by {
                    if j < at {
                        assert(values@[j] == before[j]);
                    }
                }
            }
            at += 1;
        }
    }
    proof {
        let wi = image.width as int;
        let hi = image.height as int;
        assert forall|channel: int, row: int, col: int|
            0 <= channel < 3 && 0 <= row < hi && 0 <= col < wi implies {
            let at = #[trigger] tensor_index(wi, hi, channel, row, col);
            &&& 0 <= at < values@.len()
            &&& 0 <= source_index(wi, hi, channel, row, col) < image.pixels@.len()
            &&& values@[at] == normalized(image.pixels@[source_index(wi, hi, channel, row, col)])
        } by {
            lemma_tensor_index_parts(wi, hi, channel, row, col);
        }
    }
    Ok(InputTensor { channels: INPUT_CHANNELS, height: image.height, width: image.width, values })
}

/// Scales a picture to the square resolution of the profile, without
/// interpolation: the shorter side is brought to the resolution and the
/// longer one is cut to it around the middle. Every pixel of the result is
/// a pixel of the picture.
pub fn load_image(image: &Image, model_type: ModelType) -> (r: Result<Image, ImageError>)
    ensures
        match r {
            Ok(out) => {
                &&& resize_fault(
                    image.width as int,
                    image.height as int,
                    image.pixels@.len() as int,
                    model_type.spec_input_size(),
                ) is None
                &&& out.width == model_type.spec_input_size()
                &&& out.height == model_type.spec_input_size()
                &&& out.pixels@ == resized_to_fill(
                    image.pixels@,
                    image.width,
                    image.height,
                    model_type.spec_input_size() as u32,
                )
                &&& takes_pixels_from(out.pixels@, image.pixels@)
                &&& out.wf()
            },
            Err(e) => resize_fault(
                image.width as int,
                image.height as int,
                image.pixels@.len() as int,
                model_type.spec_input_size(),
            ) == Some(e),
        },
{
    let side: u32 = model_type.input_size();
    if image.width == 0 || image.height == 0 {
        return Err(ImageError::Empty);
    }
    if !image.is_well_formed() {
        return Err(ImageError::BufferMismatch);
    }
    let limit: u64 = 0xffff_ffff;
    proof {
        assert(image.width * side <= 0xffff_ffff * 256 && image.height * side <= 0xffff_ffff * 256)
            by (nonlinear_arith)
            requires
                0 <= image.width <= 0xffff_ffff,
                0 <= image.height <= 0xffff_ffff,
                0 <= side <= 256,
        ;
    }
    if (image.width as u64) * (side as u64) > limit || (image.height as u64) * (side as u64) > limit {
        return Err(ImageError::TooLarge);
    }
    let pixels = resize_to_fill_nearest(&image.pixels, image.width, image.height, side);
    Ok(Image { width: side, height: side, pixels })
}

} // verus!
