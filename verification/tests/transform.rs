// Pixel transforms of single frames.

use gifsennin_rust::model::transform::{
    clamp_crop, crop_frame, flip_frame, resize_frame, rotate_frame, FlipAxis, RotDir,
};
use gifsennin_rust::model::{Frame, ResizeFilter};

fn gradient(w: u32, h: u32, tag: u8) -> Frame {
    let mut data = vec![0u8; (w * h * 4) as usize];
    for (i, px) in data.chunks_exact_mut(4).enumerate() {
        px[0] = (i as u8).wrapping_add(tag);
        px[1] = (i / w as usize) as u8;
        px[2] = tag;
        px[3] = 255;
    }
    Frame::from_rgba(data, w, h, 100).unwrap()
}

#[test]
fn crop_reduces_dimensions_and_preserves_pixels() {
    let f = gradient(10, 10, 7);
    let c = crop_frame(&f, 2, 3, 4, 5);
    assert_eq!((c.width(), c.height()), (4, 5));
    // the top-left pixel is the original's (2, 3)
    let base = f.as_rgba();
    let got = c.as_rgba();
    let src = ((3 * 10 + 2) * 4) as usize;
    assert_eq!(&got[0..3], &base[src..src + 3]);
    assert_eq!(c.duration_ms(), 100);
}

#[test]
fn rotate_roundtrip_restores_original() {
    let f = gradient(20, 10, 3);
    let r = rotate_frame(&f, RotDir::Right);
    assert_eq!((r.width(), r.height()), (10, 20));
    let back = rotate_frame(&r, RotDir::Left);
    assert_eq!((back.width(), back.height()), (20, 10));
    assert_eq!(back.as_rgba(), f.as_rgba());
}

#[test]
fn rotate_right_maps_top_left_correctly() {
    // a 3×1 strip [A B C] (red 0, 1, 2). Clockwise: the top-left A goes to
    // the top right (the new width is 1, so the top), the column reads A B C.
    let mut data = vec![0u8; 3 * 1 * 4];
    for (i, px) in data.chunks_exact_mut(4).enumerate() {
        px[0] = i as u8; // 0,1,2
        px[3] = 255;
    }
    let f = Frame::from_rgba(data, 3, 1, 10).unwrap();
    let r = rotate_frame(&f, RotDir::Right);
    assert_eq!((r.width(), r.height()), (1, 3));
    assert_eq!(r.as_rgba()[0], 0);
    assert_eq!(r.as_rgba()[4], 1);
    assert_eq!(r.as_rgba()[8], 2);
}

#[test]
fn resize_keeps_target_dimensions() {
    let f = gradient(100, 50, 9);
    let r = resize_frame(&f, 50, 25, ResizeFilter::Nearest);
    assert_eq!((r.width(), r.height()), (50, 25));
}

#[test]
fn clamp_crop_bounds() {
    assert_eq!(clamp_crop((100, 80), 90, 70, 50, 50), (90, 70, 10, 10));
    assert_eq!(clamp_crop((100, 80), 0, 0, 0, 0), (0, 0, 1, 1));
}

#[test]
fn rotate_left_then_right_restores_original() {
    let f = gradient(7, 5, 11);
    let l = rotate_frame(&f, RotDir::Left);
    assert_eq!((l.width(), l.height()), (5, 7));
    let back = rotate_frame(&l, RotDir::Right);
    assert_eq!(back.as_rgba(), f.as_rgba());
}

#[test]
fn flip_twice_restores_original_and_once_mirrors() {
    let f = gradient(6, 4, 5);
    let h = flip_frame(&f, FlipAxis::Horizontal);
    // the first pixel of a row is the last one of the original row
    assert_eq!(&h.as_rgba()[0..4], &f.as_rgba()[5 * 4..6 * 4]);
    assert_eq!(flip_frame(&h, FlipAxis::Horizontal).as_rgba(), f.as_rgba());
    let v = flip_frame(&f, FlipAxis::Vertical);
    // the first row is the original's last row
    assert_eq!(&v.as_rgba()[0..6 * 4], &f.as_rgba()[3 * 6 * 4..4 * 6 * 4]);
    assert_eq!(flip_frame(&v, FlipAxis::Vertical).as_rgba(), f.as_rgba());
}

#[test]
fn resize_to_same_content_nearest_keeps_uniform_color() {
    let f = Frame::from_rgba(vec![9u8; 4 * 4 * 4], 4, 4, 30).unwrap();
    let r = resize_frame(&f, 8, 2, ResizeFilter::Nearest);
    assert_eq!(r.as_rgba().len(), 8 * 2 * 4);
    assert!(r.as_rgba().iter().all(|b| *b == 9));
    assert_eq!(r.duration_ms(), 30);
}
