use glyph_mosaic::Rgb;
use glyph_mosaic::buffer::PixelBuffer;
use glyph_mosaic::metric::{Score, score};

fn buf_from_reds(width: u32, height: u32, reds: &[u8]) -> PixelBuffer {
    let mut buf = PixelBuffer::create(width, height, Rgb::new(0, 0, 0));
    let mut i = 0;
    for y in 0..height {
        for x in 0..width {
            let r = reds[i];
            buf.set_pixel(x, y, Rgb::new(r, r, r));
            i += 1;
        }
    }
    buf
}

#[test]
fn score_of_identical_buffers_is_zero() {
    let a = buf_from_reds(3, 2, &[0, 50, 100, 150, 200, 250]);
    let sc = score(&a, &a, 0, 0);
    assert_eq!(sc.num, 0);
    assert_eq!(sc.den, 255 * 6);
    assert!(sc.is_zero());
}

#[test]
fn score_is_symmetric_in_its_two_images() {
    let a = buf_from_reds(2, 2, &[10, 20, 30, 40]);
    let b = buf_from_reds(2, 2, &[200, 5, 30, 90]);
    let ab = score(&a, &b, 0, 0);
    let ba = score(&b, &a, 0, 0);
    assert_eq!(ab.num, ba.num);
    assert_eq!(ab.den, ba.den);
}

#[test]
fn score_sums_absolute_luminance_differences() {
    let a = buf_from_reds(2, 1, &[10, 200]);
    let b = buf_from_reds(2, 1, &[30, 150]);
    let sc = score(&a, &b, 0, 0);
    assert_eq!(sc.num, 20 + 50);
    assert_eq!(sc.den, 255 * 2);
}

#[test]
fn score_reads_tile_at_offset() {
    let glyph = buf_from_reds(1, 1, &[100]);
    let src = buf_from_reds(2, 2, &[0, 0, 0, 140]);
    let sc = score(&glyph, &src, 1, 1);
    assert_eq!(sc.num, 40);
}

#[test]
fn score_ordering_compares_exact_rationals() {
    // 10 / (255 * 1) vs 30 / (255 * 4): 40 > 30, so the second is smaller.
    let a = Score { num: 10, den: 255 };
    let b = Score { num: 30, den: 1020 };
    assert!(b.lt(&a));
    assert!(b.le(&a));
    assert!(!a.le(&b));
    let c = Score { num: 40, den: 1020 };
    assert!(a.le(&c));
    assert!(c.le(&a));
    assert!(!c.lt(&a));
}
