use blaze_face::preprocess::{convert_image_to_tensor, load_image, Image, ImageError, InputTensor};
use blaze_face::profile::ModelType;

fn plain(width: u32, height: u32, rgb: [u8; 3]) -> Image {
    let mut pixels: Vec<u8> = Vec::new();
    let mut i: u32 = 0;
    while i < width * height {
        pixels.extend_from_slice(&rgb);
        i += 1;
    }
    Image { width, height, pixels }
}

#[test]
fn samples_are_mapped_onto_the_signed_range() {
    let image: Image = Image { width: 1, height: 1, pixels: vec![0, 128, 255] };
    let t: InputTensor = convert_image_to_tensor(&image).unwrap();
    assert_eq!(t, InputTensor { channels: 3, height: 1, width: 1, values: vec![-255, 1, 255] });
}

#[test]
fn tensor_is_channel_first() {
    // width 2, height 3, stored row by row
    let mut pixels: Vec<u8> = Vec::new();
    let mut i: u8 = 0;
    while i < 18 {
        pixels.push(i);
        i += 1;
    }
    let image: Image = Image { width: 2, height: 3, pixels };
    let t: InputTensor = convert_image_to_tensor(&image).unwrap();
    assert_eq!((t.channels, t.height, t.width), (3, 3, 2));
    let source: Vec<i16> = vec![
        0, 3, 6, 9, 12, 15, // channel 0: three rows of two columns
        1, 4, 7, 10, 13, 16, // channel 1
        2, 5, 8, 11, 14, 17, // channel 2
    ];
    let expected: Vec<i16> = source.iter().map(|v| 2 * v - 255).collect();
    assert_eq!(t.values, expected);
    for channel in 0..3usize {
        for row in 0..3usize {
            for col in 0..2usize {
                let at: usize = (channel * 3 + row) * 2 + col;
                let from: usize = (row * 2 + col) * 3 + channel;
                assert_eq!(t.values[at], 2 * (image.pixels[from] as i16) - 255);
            }
        }
    }
}

#[test]
fn a_white_pixel_keeps_its_row_and_column() {
    // 2 x 2, black but for the pixel in row 0, column 1
    let image: Image = Image { width: 2, height: 2, pixels: vec![0, 0, 0, 255, 255, 255, 0, 0, 0, 0, 0, 0] };
    let t: InputTensor = convert_image_to_tensor(&image).unwrap();
    assert_eq!((t.channels, t.height, t.width), (3, 2, 2));
    assert_eq!(t.values, vec![-255, 255, -255, -255, -255, 255, -255, -255, -255, 255, -255, -255]);
}

#[test]
fn tensor_of_a_wide_picture_is_not_transposed() {
    // width 3, height 1: red, green, blue
    let image: Image = Image { width: 3, height: 1, pixels: vec![255, 0, 0, 0, 255, 0, 0, 0, 255] };
    let t: InputTensor = convert_image_to_tensor(&image).unwrap();
    assert_eq!((t.channels, t.height, t.width), (3, 1, 3));
    assert_eq!(t.values, vec![255, -255, -255, -255, 255, -255, -255, -255, 255]);
}

#[test]
fn tensor_of_an_empty_picture_is_empty() {
    let image: Image = Image { width: 0, height: 5, pixels: Vec::new() };
    let t: InputTensor = convert_image_to_tensor(&image).unwrap();
    assert_eq!(t, InputTensor { channels: 3, height: 5, width: 0, values: Vec::new() });
}

#[test]
fn tensor_needs_three_samples_for_each_pixel() {
    let image: Image = Image { width: 2, height: 2, pixels: vec![0; 11] };
    assert_eq!(convert_image_to_tensor(&image), Err(ImageError::BufferMismatch));
    assert!(!image.is_well_formed());
    assert!(plain(2, 2, [1, 2, 3]).is_well_formed());
}

#[test]
fn load_image_scales_to_the_front_resolution() {
    let out: Image = load_image(&plain(4, 2, [10, 20, 30]), ModelType::Front).unwrap();
    assert_eq!(out, plain(128, 128, [10, 20, 30]));
}

#[test]
fn load_image_scales_to_the_back_resolution() {
    let out: Image = load_image(&plain(300, 500, [200, 100, 0]), ModelType::Back).unwrap();
    assert_eq!(out, plain(256, 256, [200, 100, 0]));
}

#[test]
fn load_image_cuts_the_longer_side_around_the_middle() {
    // four columns of one colour each, one row: scaled to 512 x 128, cut to the inner 128 columns
    let image: Image = Image { width: 4, height: 1, pixels: vec![1, 1, 1, 2, 2, 2, 3, 3, 3, 4, 4, 4] };
    let out: Image = load_image(&image, ModelType::Front).unwrap();
    assert_eq!((out.width, out.height), (128, 128));
    assert_eq!(out.pixels.len(), 3 * 128 * 128);
    for row in 0..128usize {
        for col in 0..128usize {
            let at: usize = (row * 128 + col) * 3;
            let expected: u8 = if col < 64 { 2 } else { 3 };
            assert_eq!(out.pixels[at], expected);
        }
    }
}

#[test]
fn load_image_takes_every_pixel_from_the_picture() {
    let mut pixels: Vec<u8> = Vec::new();
    let mut i: u32 = 0;
    while i < 7 * 5 {
        pixels.push((i * 7 % 256) as u8);
        pixels.push((i * 31 % 256) as u8);
        pixels.push((255 - i) as u8);
        i += 1;
    }
    let image: Image = Image { width: 7, height: 5, pixels };
    let out: Image = load_image(&image, ModelType::Front).unwrap();
    assert_eq!(out.pixels.len(), 3 * 128 * 128);
    for pixel in out.pixels.chunks(3) {
        assert!(image.pixels.chunks(3).any(|source| source == pixel));
    }
    // 179 x 128 after scaling, 25 columns cut on the left: still the first pixel
    assert_eq!(&out.pixels[0..3], &image.pixels[0..3]);
    assert_ne!(out.pixels, image.pixels);
}

#[test]
fn load_image_scales_down_without_blending() {
    // 512 x 512 of two colours in a chequerboard: no third colour may appear
    let mut pixels: Vec<u8> = Vec::new();
    for row in 0..512u32 {
        for col in 0..512u32 {
            let v: u8 = if (row + col) % 2 == 0 { 0 } else { 255 };
            pixels.extend_from_slice(&[v, v, v]);
        }
    }
    let image: Image = Image { width: 512, height: 512, pixels };
    let out: Image = load_image(&image, ModelType::Back).unwrap();
    assert_eq!((out.width, out.height), (256, 256));
    assert!(out.pixels.iter().all(|v| *v == 0 || *v == 255));
}

#[test]
fn load_image_repeats_a_run() {
    let image: Image = plain(8, 8, [9, 8, 7]);
    let first: Image = load_image(&image, ModelType::Front).unwrap();
    let second: Image = load_image(&image, ModelType::Front).unwrap();
    assert_eq!(first, second);
}

#[test]
fn load_image_rejects_an_empty_picture() {
    assert_eq!(load_image(&plain(0, 4, [0, 0, 0]), ModelType::Front), Err(ImageError::Empty));
    assert_eq!(load_image(&plain(4, 0, [0, 0, 0]), ModelType::Back), Err(ImageError::Empty));
}

#[test]
fn load_image_rejects_a_buffer_of_the_wrong_length() {
    let image: Image = Image { width: 2, height: 2, pixels: vec![0; 13] };
    assert_eq!(load_image(&image, ModelType::Front), Err(ImageError::BufferMismatch));
}

#[test]
fn load_image_rejects_a_side_that_is_too_long() {
    // 40_000_000 * 128 leaves 32 bits; the buffer itself is well formed
    let image: Image = Image { width: 40_000_000, height: 1, pixels: vec![0; 120_000_000] };
    assert_eq!(load_image(&image, ModelType::Front), Err(ImageError::TooLarge));
}

#[test]
fn scaled_picture_suits_the_tensor() {
    let out: Image = load_image(&plain(5, 7, [255, 0, 128]), ModelType::Front).unwrap();
    let t: InputTensor = convert_image_to_tensor(&out).unwrap();
    assert_eq!((t.channels, t.height, t.width), (3, 128, 128));
    assert_eq!(t.values.len(), 3 * 128 * 128);
    assert_eq!(t.values[0], 255);
    assert_eq!(t.values[128 * 128], -255);
    assert_eq!(t.values[2 * 128 * 128], 1);
}
