use photon_rs::blend::{blend, watermark, BlendMode};
use photon_rs::channels::{adjust_channel, remove_channel, swap_channels, Channel, Comparison};
use photon_rs::conv::{convolve, sobel, Kernel};
use photon_rs::separable::convolve_separable;
use photon_rs::{PhotonError, PhotonImage, Rgb, Rgba};

fn flat(w: u32, h: u32, px: [u8; 4]) -> PhotonImage {
    let mut v = Vec::new();
    for _ in 0..(w * h) {
        v.extend_from_slice(&px);
    }
    PhotonImage::new(v, w, h)
}

fn from_pixels(w: u32, h: u32, px: &[[u8; 4]]) -> PhotonImage {
    let mut v = Vec::new();
    for p in px {
        v.extend_from_slice(p);
    }
    PhotonImage::new(v, w, h)
}

#[test]
fn image_accessors() {
    let img = PhotonImage::new(vec![1, 2, 3, 4, 5, 6, 7, 8], 2, 1);
    assert_eq!(img.get_width(), 2);
    assert_eq!(img.get_height(), 1);
    assert_eq!(img.get_raw_pixels(), vec![1, 2, 3, 4, 5, 6, 7, 8]);
}

#[test]
fn rgb_and_rgba_accessors() {
    let mut c = Rgb::new(1, 2, 3);
    c.set_red(10);
    c.set_green(20);
    c.set_blue(30);
    assert_eq!((c.get_red(), c.get_green(), c.get_blue()), (10, 20, 30));
    let mut d = Rgba::new(1, 2, 3, 4);
    d.set_red(9);
    d.set_green(8);
    d.set_blue(7);
    d.set_alpha(6);
    assert_eq!((d.get_red(), d.get_green(), d.get_blue(), d.get_alpha()), (9, 8, 7, 6));
}

#[test]
fn colour_from_vec() {
    assert_eq!(Rgb::from_vec(vec![1, 2, 3]), Ok(Rgb::new(1, 2, 3)));
    assert_eq!(Rgb::from_vec(vec![1, 2]), Err(PhotonError::InvalidParameter));
    assert_eq!(Rgba::from_vec(vec![1, 2, 3, 4]), Ok(Rgba::new(1, 2, 3, 4)));
    assert_eq!(Rgba::from_vec(vec![1, 2, 3, 4, 5]), Err(PhotonError::InvalidParameter));
}

#[test]
fn grey_red_plus_fifty() {
    let img = flat(2, 2, [128, 128, 128, 255]);
    let out = adjust_channel(&img, Channel::Red, 50);
    assert_eq!(out.get_raw_pixels(), flat(2, 2, [178, 128, 128, 255]).get_raw_pixels());
}

#[test]
fn adjust_saturates_high_and_low() {
    let img = from_pixels(2, 1, &[[250, 10, 250, 250], [250, 0, 3, 7]]);
    let up = adjust_channel(&img, Channel::Blue, 300);
    assert_eq!(up.get_raw_pixels(), vec![250, 10, 255, 250, 250, 0, 255, 7]);
    let down = adjust_channel(&img, Channel::Green, -20);
    assert_eq!(down.get_raw_pixels(), vec![250, 0, 250, 250, 250, 0, 3, 7]);
    let alpha = adjust_channel(&img, Channel::Alpha, -5);
    assert_eq!(alpha.get_raw_pixels(), vec![250, 10, 250, 245, 250, 0, 3, 2]);
}

#[test]
fn swap_twice_is_identity() {
    let img = from_pixels(2, 1, &[[1, 2, 3, 4], [5, 6, 7, 8]]);
    let once = swap_channels(&img, Channel::Red, Channel::Blue);
    assert_eq!(once.get_raw_pixels(), vec![3, 2, 1, 4, 7, 6, 5, 8]);
    let twice = swap_channels(&once, Channel::Red, Channel::Blue);
    assert_eq!(twice.get_raw_pixels(), img.get_raw_pixels());
}

#[test]
fn swap_with_alpha() {
    let img = from_pixels(1, 1, &[[1, 2, 3, 4]]);
    let out = swap_channels(&img, Channel::Alpha, Channel::Green);
    assert_eq!(out.get_raw_pixels(), vec![1, 4, 3, 2]);
}

#[test]
fn remove_channel_below_and_above() {
    let img = from_pixels(2, 1, &[[10, 200, 3, 4], [100, 50, 7, 8]]);
    let below = remove_channel(&img, Channel::Red, 50, Comparison::Below);
    assert_eq!(below.get_raw_pixels(), vec![0, 200, 3, 4, 100, 50, 7, 8]);
    let above = remove_channel(&img, Channel::Green, 50, Comparison::Above);
    assert_eq!(above.get_raw_pixels(), vec![10, 0, 3, 4, 100, 50, 7, 8]);
}

#[test]
fn laplace_on_flat_is_zero() {
    for c in [0u8, 17, 128, 255] {
        let img = flat(3, 3, [c, c / 2, 255 - c, 200]);
        let k = Kernel { size: 3, weights: vec![0, -1, 0, -1, 4, -1, 0, -1, 0], divisor: Some(1) };
        let out = convolve(&img, &k).unwrap();
        assert_eq!(out.get_raw_pixels(), flat(3, 3, [0, 0, 0, 200]).get_raw_pixels());
    }
}

#[test]
fn box_blur_keeps_uniform() {
    let img = flat(4, 3, [90, 45, 201, 77]);
    let k = Kernel { size: 3, weights: vec![1; 9], divisor: None };
    let out = convolve(&img, &k).unwrap();
    assert_eq!(out.get_raw_pixels(), img.get_raw_pixels());
    let g = Kernel { size: 5, weights: vec![1, 4, 6, 4, 1, 4, 16, 24, 16, 4, 6, 24, 36, 24, 6, 4, 16, 24, 16, 4, 1, 4, 6, 4, 1], divisor: Some(256) };
    let out = convolve(&img, &g).unwrap();
    assert_eq!(out.get_raw_pixels(), img.get_raw_pixels());
}

#[test]
fn convolve_replicates_edges_and_rounds() {
    // One row: 0, 100, 255. A 3x3 box blur averages each pixel with its
    // neighbours, the missing ones being copies of the edge pixel.
    let img = from_pixels(3, 1, &[[0, 0, 0, 9], [100, 100, 100, 9], [255, 255, 255, 9]]);
    let k = Kernel { size: 3, weights: vec![1; 9], divisor: None };
    let out = convolve(&img, &k).unwrap();
    // (0+0+100)*3/9 = 33.33 -> 33; (0+100+255)*3/9 = 118.33 -> 118; (100+255+255)*3/9 = 203.33 -> 203
    assert_eq!(out.get_raw_pixels(), vec![33, 33, 33, 9, 118, 118, 118, 9, 203, 203, 203, 9]);
}

#[test]
fn convolve_rounds_half_up_and_clamps() {
    let img = from_pixels(1, 1, &[[3, 5, 200, 1]]);
    let half = Kernel { size: 1, weights: vec![1], divisor: Some(2) };
    assert_eq!(convolve(&img, &half).unwrap().get_raw_pixels(), vec![2, 3, 100, 1]);
    let twice = Kernel { size: 1, weights: vec![2], divisor: Some(1) };
    assert_eq!(convolve(&img, &twice).unwrap().get_raw_pixels(), vec![6, 10, 255, 1]);
    let neg = Kernel { size: 1, weights: vec![-1], divisor: None };
    assert_eq!(convolve(&img, &neg).unwrap().get_raw_pixels(), vec![3, 5, 200, 1]);
    let neg_div = Kernel { size: 1, weights: vec![-1], divisor: Some(1) };
    assert_eq!(convolve(&img, &neg_div).unwrap().get_raw_pixels(), vec![0, 0, 0, 1]);
}

#[test]
fn convolve_rejects_bad_kernels() {
    let img = flat(2, 2, [1, 2, 3, 4]);
    let even = Kernel { size: 2, weights: vec![1; 4], divisor: None };
    assert_eq!(convolve(&img, &even).unwrap_err(), PhotonError::InvalidParameter);
    let short = Kernel { size: 3, weights: vec![1; 8], divisor: None };
    assert_eq!(convolve(&img, &short).unwrap_err(), PhotonError::InvalidParameter);
    let zero = Kernel { size: 3, weights: vec![1; 9], divisor: Some(0) };
    assert_eq!(convolve(&img, &zero).unwrap_err(), PhotonError::InvalidParameter);
}

#[test]
fn sobel_uniform_is_zero() {
    let img = flat(4, 4, [37, 200, 90, 123]);
    let out = sobel(&img);
    assert_eq!(out.get_raw_pixels(), flat(4, 4, [0, 0, 0, 123]).get_raw_pixels());
}

#[test]
fn sobel_vertical_edge() {
    // Columns 0, 0, 10: at the middle pixel gx = (10-0)*(1+2+1) = 40, gy = 0.
    let row = [[0, 0, 0, 255], [0, 0, 0, 255], [10, 10, 10, 255]];
    let img = from_pixels(3, 1, &row);
    let out = sobel(&img).get_raw_pixels();
    assert_eq!(&out[4..8], &[40, 40, 40, 255]);
    // Left pixel: neighbours 0 (replicated), 0 -> gx = 0.
    assert_eq!(&out[0..4], &[0, 0, 0, 255]);
    // A large jump saturates at 255: (255-0)*4 = 1020.
    let img = from_pixels(3, 1, &[[0, 0, 0, 1], [0, 0, 0, 1], [255, 255, 255, 1]]);
    assert_eq!(&sobel(&img).get_raw_pixels()[4..8], &[255, 255, 255, 1]);
}

#[test]
fn sobel_rounds_magnitude() {
    // gx = 4 * 3 = 12 on the middle pixel, gy = 0 -> 12; diagonal case: gx = gy.
    let img = from_pixels(3, 1, &[[0, 0, 0, 1], [0, 0, 0, 1], [3, 3, 3, 1]]);
    assert_eq!(&sobel(&img).get_raw_pixels()[4..8], &[12, 12, 12, 1]);
    // Single pixel image: every neighbour is the pixel itself.
    let one = from_pixels(1, 1, &[[9, 8, 7, 6]]);
    assert_eq!(sobel(&one).get_raw_pixels(), vec![0, 0, 0, 6]);
}

#[test]
fn blend_formulas() {
    let top = from_pixels(1, 1, &[[100, 200, 50, 255]]);
    let bottom = from_pixels(1, 1, &[[150, 100, 200, 80]]);
    let px = |m| blend(&top, &bottom, m).unwrap().get_raw_pixels();
    assert_eq!(px(BlendMode::Multiply), vec![58, 78, 39, 255]);
    assert_eq!(px(BlendMode::Screen), vec![192, 222, 211, 255]);
    // bottom 150 > 127: 255 - 2*155*105/255 = 128; bottom 100: 2*200*100/255 = 156;
    // bottom 200: 255 - 2*205*55/255 = 167
    assert_eq!(px(BlendMode::Overlay), vec![128, 156, 167, 255]);
    assert_eq!(px(BlendMode::Difference), vec![50, 100, 150, 255]);
    assert_eq!(px(BlendMode::Lighten), vec![150, 200, 200, 255]);
    assert_eq!(px(BlendMode::Darken), vec![100, 100, 50, 255]);
    assert_eq!(px(BlendMode::Over), vec![100, 200, 50, 255]);
}

#[test]
fn over_with_partial_alpha() {
    let top = from_pixels(1, 1, &[[200, 0, 100, 128]]);
    let bottom = from_pixels(1, 1, &[[0, 200, 100, 255]]);
    let out = blend(&top, &bottom, BlendMode::Over).unwrap().get_raw_pixels();
    // Rounded to nearest: 200*128/255 = 100.39 -> 100; 200*127/255 = 99.6 -> 100;
    // (100*128+100*127)/255 = 100; alpha 128 + 255*127/255 = 255
    assert_eq!(out, vec![100, 100, 100, 255]);
    let clear = from_pixels(1, 1, &[[0, 0, 0, 0]]);
    let out = blend(&clear, &from_pixels(1, 1, &[[0, 0, 0, 100]]), BlendMode::Over).unwrap();
    assert_eq!(out.get_raw_pixels(), vec![0, 0, 0, 100]);
}

#[test]
fn multiply_commutes() {
    let a = from_pixels(2, 1, &[[10, 20, 255, 7], [0, 128, 77, 9]]);
    let b = from_pixels(2, 1, &[[250, 3, 64, 7], [99, 200, 1, 9]]);
    let ab = blend(&a, &b, BlendMode::Multiply).unwrap();
    let ba = blend(&b, &a, BlendMode::Multiply).unwrap();
    assert_eq!(ab.get_raw_pixels(), ba.get_raw_pixels());
}

#[test]
fn blend_dimension_mismatch() {
    let a = flat(2, 2, [1, 2, 3, 4]);
    let b = flat(4, 1, [5, 6, 7, 8]);
    assert_eq!(blend(&a, &b, BlendMode::Multiply).unwrap_err(), PhotonError::DimensionMismatch);
    assert_eq!(a.get_raw_pixels(), flat(2, 2, [1, 2, 3, 4]).get_raw_pixels());
    assert_eq!(b.get_raw_pixels(), flat(4, 1, [5, 6, 7, 8]).get_raw_pixels());
}

#[test]
fn watermark_is_cropped() {
    let dest = flat(3, 2, [10, 10, 10, 255]);
    let mark = flat(2, 2, [250, 0, 0, 255]);
    let out = watermark(&dest, &mark, 2, 1).get_raw_pixels();
    let mut expected = flat(3, 2, [10, 10, 10, 255]).get_raw_pixels();
    expected[20..24].copy_from_slice(&[250, 0, 0, 255]);
    assert_eq!(out, expected);
    let far = watermark(&dest, &mark, 5, 5);
    assert_eq!(far.get_raw_pixels(), dest.get_raw_pixels());
}

#[test]
fn watermark_blends_alpha() {
    let dest = flat(1, 1, [0, 0, 200, 255]);
    let mark = flat(1, 1, [255, 0, 0, 51]);
    // red: 255*51/255 = 51; blue: 200*204/255 = 160
    assert_eq!(watermark(&dest, &mark, 0, 0).get_raw_pixels(), vec![51, 0, 160, 255]);
}

fn varied(w: u32, h: u32) -> PhotonImage {
    let mut v = Vec::new();
    for i in 0..(w * h) {
        v.extend_from_slice(&[(i * 37 % 256) as u8, (i * 91 % 256) as u8, (255 - i * 13 % 256) as u8, (i * 7) as u8]);
    }
    PhotonImage::new(v, w, h)
}

#[test]
fn separable_matches_full_kernel() {
    let img = varied(5, 4);
    let two_pass = convolve_separable(&img, &vec![1, 2, 1], &vec![1, 2, 1], None).unwrap();
    let full = Kernel { size: 3, weights: vec![1, 2, 1, 2, 4, 2, 1, 2, 1], divisor: None };
    assert_eq!(two_pass.get_raw_pixels(), convolve(&img, &full).unwrap().get_raw_pixels());
    let edge = convolve_separable(&img, &vec![-1, 0, 1], &vec![1, 2, 1], Some(1)).unwrap();
    let full = Kernel { size: 3, weights: vec![-1, 0, 1, -2, 0, 2, -1, 0, 1], divisor: Some(1) };
    assert_eq!(edge.get_raw_pixels(), convolve(&img, &full).unwrap().get_raw_pixels());
}

#[test]
fn separable_rejects_bad_factors() {
    let img = flat(2, 2, [1, 2, 3, 4]);
    let r = convolve_separable(&img, &vec![1, 1], &vec![1, 1], None);
    assert_eq!(r.unwrap_err(), PhotonError::InvalidParameter);
    let r = convolve_separable(&img, &vec![1, 1, 1], &vec![1], None);
    assert_eq!(r.unwrap_err(), PhotonError::InvalidParameter);
    let r = convolve_separable(&img, &vec![1, 1, 1], &vec![1, 1, 1], Some(0));
    assert_eq!(r.unwrap_err(), PhotonError::InvalidParameter);
}

#[test]
fn separable_blur_keeps_uniform() {
    let img = flat(6, 5, [12, 250, 99, 40]);
    let out = convolve_separable(&img, &vec![1, 4, 6, 4, 1], &vec![1, 4, 6, 4, 1], None).unwrap();
    assert_eq!(out.get_raw_pixels(), img.get_raw_pixels());
}

#[test]
fn over_rounds_to_nearest() {
    // 1 * 128 / 255 = 0.502 rounds to 1, not down to 0.
    let dest = flat(1, 1, [0, 0, 0, 0]);
    let mark = flat(1, 1, [1, 1, 1, 128]);
    assert_eq!(watermark(&dest, &mark, 0, 0).get_raw_pixels(), vec![1, 1, 1, 128]);
    let out = blend(&mark, &dest, BlendMode::Over).unwrap();
    assert_eq!(out.get_raw_pixels(), vec![1, 1, 1, 128]);
    // Alpha: 100 + 200 * 155 / 255 = 100 + 121.57 -> 222.
    let top = flat(1, 1, [0, 0, 0, 100]);
    let bottom = flat(1, 1, [0, 0, 0, 200]);
    assert_eq!(blend(&top, &bottom, BlendMode::Over).unwrap().get_raw_pixels(), vec![0, 0, 0, 222]);
}
