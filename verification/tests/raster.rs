use mandelbrot::escape::{advance, MAX_ITERATIONS};
use mandelbrot::image::{EncodingError, PixelBuffer};
use mandelbrot::layout::{buffer_len, pixel_index, CHANNELS};
use mandelbrot::raster::{pack_pixels, render_mandelbrot, write_pixel, OPAQUE};

/// Escape-time count of the point `(cx, cy)`, in double precision.
fn iterate(cx: f64, cy: f64) -> u8 {
    let mut zx = 0.0f64;
    let mut zy = 0.0f64;
    let mut iteration = 0u8;
    while let Some(next) = advance(iteration, zx * zx + zy * zy < 4.0) {
        let temp = zx * zx - zy * zy + cx;
        zy = 2.0 * zx * zy + cy;
        zx = temp;
        iteration = next;
    }
    iteration
}

/// Counts of every pixel of the grid over the viewport [-2.5, 1.0] x [-1.0, 1.0].
fn counts(width: u32, height: u32) -> Vec<u8> {
    let mut out = Vec::new();
    for y in 0..height {
        for x in 0..width {
            let cx = (x as f64 / width as f64) * 3.5 - 2.5;
            let cy = (y as f64 / height as f64) * 2.0 - 1.0;
            out.push(iterate(cx, cy));
        }
    }
    out
}

fn render(width: u32, height: u32) -> Vec<u8> {
    render_mandelbrot(width, height, &counts(width, height))
        .expect("a grid's own counts always fit it")
        .into_data()
}

#[test]
fn one_by_one_grid_is_one_pixel_that_escapes_at_once() {
    // The only pixel maps to (-2.5, -1.0): the first step leaves the origin
    // for that point, which lies outside the radius, so the count is 1.
    assert_eq!(render(1, 1), vec![1, 1, 1, 255]);
}

#[test]
fn default_grid_starts_outside_the_set() {
    let data = render(1600, 1200);
    assert_eq!(data.len(), 7_680_000);
    assert_eq!(&data[0..4], &[1, 1, 1, 255]);
    assert_eq!(&data[0..4], &render(1, 1)[..]);
}

#[test]
fn origin_of_the_plane_reaches_the_cap() {
    let width = 7u32;
    let height = 2u32;
    let data = render(width, height);
    let at = pixel_index(5, 1, width);
    assert_eq!(at, 48);
    assert_eq!(&data[at..at + 4], &[255, 255, 255, 255]);
}

#[test]
fn iterate_known_points() {
    assert_eq!(iterate(-2.5, -1.0), 1);
    assert_eq!(iterate(0.0, 0.0), 255);
    assert_eq!(iterate(2.0, 0.0), 1);
    assert_eq!(iterate(1.0, 0.0), 2);
    assert_eq!(iterate(-1.0, 0.0), 255);
}

#[test]
fn advance_steps_until_escape_or_cap() {
    assert_eq!(MAX_ITERATIONS, 255);
    assert_eq!(advance(0, true), Some(1));
    assert_eq!(advance(41, true), Some(42));
    assert_eq!(advance(254, true), Some(255));
    assert_eq!(advance(255, true), None);
    assert_eq!(advance(0, false), None);
    assert_eq!(advance(254, false), None);
    assert_eq!(advance(255, false), None);
}

#[test]
fn buffer_has_four_bytes_a_pixel() {
    for (width, height) in [(1u32, 1u32), (3, 2), (2, 3), (37, 23), (64, 1), (1, 64)] {
        let data = render(width, height);
        assert_eq!(data.len(), width as usize * height as usize * 4);
        assert_eq!(Some(data.len()), buffer_len(width, height));
    }
}

#[test]
fn every_pixel_is_gray_and_opaque() {
    let width = 37u32;
    let height = 23u32;
    let iterations = counts(width, height);
    let data = render(width, height);
    for y in 0..height {
        for x in 0..width {
            let at = pixel_index(x, y, width);
            let count = iterations[(y * width + x) as usize];
            assert_eq!(data[at], count);
            assert_eq!(data[at + 1], count);
            assert_eq!(data[at + 2], count);
            assert_eq!(data[at + 3], 255);
        }
    }
    assert!(data.iter().any(|&b| b != 0 && b != 255));
}

#[test]
fn rendering_twice_gives_the_same_bytes() {
    assert_eq!(render(40, 30), render(40, 30));
    let iterations = counts(16, 9);
    let first = render_mandelbrot(16, 9, &iterations).unwrap();
    let second = render_mandelbrot(16, 9, &iterations).unwrap();
    assert_eq!(first.data(), second.data());
}

#[test]
fn grid_without_columns_or_rows_is_empty() {
    let none: Vec<u8> = Vec::new();
    let no_columns = render_mandelbrot(0, 5, &none).unwrap();
    assert_eq!(no_columns.data().len(), 0);
    assert_eq!(no_columns.width(), 0);
    assert_eq!(no_columns.height(), 0);
    let no_rows = render_mandelbrot(5, 0, &none).unwrap();
    assert_eq!(no_rows.data().len(), 0);
    assert_eq!(no_rows.width(), 5);
    assert_eq!(no_rows.height(), 0);
    let neither = render_mandelbrot(0, 0, &none).unwrap();
    assert!(neither.into_data().is_empty());
    assert_eq!(render(0, 1200), Vec::<u8>::new());
    assert_eq!(render(1600, 0), Vec::<u8>::new());
}

#[test]
fn large_grid_is_packed_whole() {
    let width = 4000u32;
    let height = 4000u32;
    let mut iterations = vec![0u8; 16_000_000];
    for (i, count) in iterations.iter_mut().enumerate() {
        *count = (i % 251) as u8;
    }
    let image = render_mandelbrot(width, height, &iterations).unwrap();
    assert_eq!(image.width(), 4000);
    assert_eq!(image.height(), 4000);
    let data = image.into_data();
    assert_eq!(data.len(), 64_000_000);
    let last = pixel_index(3999, 3999, width);
    assert_eq!(last, 63_999_996);
    let count = (15_999_999usize % 251) as u8;
    assert_eq!(&data[last..], &[count, count, count, 255]);
    let middle = pixel_index(123, 2000, width);
    let count = ((2000usize * 4000 + 123) % 251) as u8;
    assert_eq!(&data[middle..middle + 4], &[count, count, count, 255]);
}

#[test]
fn wrong_number_of_counts_is_refused() {
    assert!(matches!(
        render_mandelbrot(2, 2, &vec![1, 2, 3]),
        Err(EncodingError::LengthMismatch)
    ));
    assert!(matches!(
        render_mandelbrot(2, 2, &vec![1, 2, 3, 4, 5]),
        Err(EncodingError::LengthMismatch)
    ));
    assert!(matches!(
        render_mandelbrot(0, 2, &vec![1]),
        Err(EncodingError::LengthMismatch)
    ));
    assert!(render_mandelbrot(2, 2, &vec![1, 2, 3, 4]).is_ok());
}

#[test]
fn rendering_keeps_row_major_order() {
    let image = render_mandelbrot(3, 2, &vec![10, 20, 30, 40, 50, 60]).unwrap();
    assert_eq!(image.width(), 3);
    assert_eq!(image.height(), 2);
    assert_eq!(
        image.data(),
        &vec![
            10, 10, 10, 255, 20, 20, 20, 255, 30, 30, 30, 255, 40, 40, 40, 255, 50, 50, 50, 255,
            60, 60, 60, 255
        ]
    );
}

#[test]
fn pack_pixels_differs_from_its_input() {
    let iterations = vec![7u8, 9];
    let data = pack_pixels(2, 1, &iterations);
    assert_eq!(data, vec![7, 7, 7, 255, 9, 9, 9, 255]);
    assert_eq!(pack_pixels(1, 2, &iterations), data);
}

#[test]
fn write_pixel_touches_its_four_bytes_only() {
    let mut data = vec![1u8; 12];
    write_pixel(&mut data, 4, 200);
    assert_eq!(data, vec![1, 1, 1, 1, 200, 200, 200, 255, 1, 1, 1, 1]);
    write_pixel(&mut data, 8, 0);
    assert_eq!(data, vec![1, 1, 1, 1, 200, 200, 200, 255, 0, 0, 0, 255]);
    assert_eq!(OPAQUE, 255);
}

#[test]
fn buffer_len_is_exact_or_none() {
    assert_eq!(CHANNELS, 4);
    assert_eq!(buffer_len(1600, 1200), Some(7_680_000));
    assert_eq!(buffer_len(4000, 4000), Some(64_000_000));
    assert_eq!(buffer_len(10_000, 10_000), Some(400_000_000));
    assert_eq!(buffer_len(32_767, 32_767), Some(4_294_705_156));
    assert_eq!(buffer_len(0, 77), Some(0));
    assert_eq!(buffer_len(77, 0), Some(0));
    assert_eq!(buffer_len(1, 1), Some(4));
    assert_eq!(buffer_len(u32::MAX, u32::MAX), None);
}

#[test]
fn pixel_index_is_row_major() {
    assert_eq!(pixel_index(0, 0, 1600), 0);
    assert_eq!(pixel_index(1, 0, 1600), 4);
    assert_eq!(pixel_index(0, 1, 1600), 6400);
    assert_eq!(pixel_index(3, 2, 10), 92);
    assert_eq!(pixel_index(1599, 1199, 1600), 7_679_996);
}

#[test]
fn image_has_whole_rows_only() {
    let image = PixelBuffer::new(vec![0u8; 8], 1).unwrap();
    assert_eq!(image.width(), 1);
    assert_eq!(image.height(), 2);
    assert_eq!(image.data().len(), 8);
    let image = PixelBuffer::new(vec![5u8; 24], 3).unwrap();
    assert_eq!(image.height(), 2);
    assert_eq!(image.into_data(), vec![5u8; 24]);
    let image = PixelBuffer::new(Vec::new(), 0).unwrap();
    assert_eq!((image.width(), image.height()), (0, 0));
    let image = PixelBuffer::new(Vec::new(), 9).unwrap();
    assert_eq!((image.width(), image.height()), (9, 0));
    assert!(matches!(
        PixelBuffer::new(vec![0u8; 5], 1),
        Err(EncodingError::LengthMismatch)
    ));
    assert!(matches!(
        PixelBuffer::new(vec![0u8; 8], 3),
        Err(EncodingError::LengthMismatch)
    ));
    assert!(matches!(
        PixelBuffer::new(vec![0u8; 4], 0),
        Err(EncodingError::LengthMismatch)
    ));
    assert_eq!(EncodingError::LengthMismatch, EncodingError::LengthMismatch);
}

/// Count that the loop ends with when the point is inside the radius as
/// `inside` says, turn by turn.
fn follow(inside: &[bool]) -> u8 {
    let mut iteration = 0u8;
    for &still in inside {
        match advance(iteration, still) {
            Some(next) => iteration = next,
            None => break,
        }
    }
    iteration
}

#[test]
fn count_is_the_steps_before_the_first_escape() {
    assert_eq!(follow(&[]), 0);
    assert_eq!(follow(&[false]), 0);
    assert_eq!(follow(&[true, false]), 1);
    assert_eq!(follow(&[true, true, false, true, true]), 2);
    assert_eq!(follow(&vec![true; 254]), 254);
    assert_eq!(follow(&vec![true; 255]), 255);
    assert_eq!(follow(&vec![true; 300]), 255);
}

#[test]
fn pixels_tile_the_buffer() {
    let width = 5u32;
    let height = 3u32;
    let len = buffer_len(width, height).unwrap();
    assert_eq!(len, 60);
    let mut owners = vec![0u32; len];
    for y in 0..height {
        for x in 0..width {
            let at = pixel_index(x, y, width);
            assert!(at + 4 <= len);
            for byte in at..at + 4 {
                owners[byte] += 1;
                assert_eq!(((byte / 4) as u32 % width, (byte / 4) as u32 / width), (x, y));
            }
        }
    }
    assert!(owners.iter().all(|&n| n == 1));
}

#[test]
fn equal_counts_pack_equal_and_different_counts_differ() {
    let first = pack_pixels(2, 2, &vec![1, 2, 3, 4]);
    let again = pack_pixels(2, 2, &vec![1, 2, 3, 4]);
    let other = pack_pixels(2, 2, &vec![1, 2, 3, 5]);
    assert_eq!(first, again);
    assert_ne!(first, other);
}
