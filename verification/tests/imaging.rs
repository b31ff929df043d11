use magictaskbar::imaging::{crop_box, crop_transparent_borders, square_icon_verdict, RgbaPixels};

fn blank(width: u32, height: u32) -> RgbaPixels {
    RgbaPixels { width, height, data: vec![0; (4 * width * height) as usize] }
}

fn paint(img: &mut RgbaPixels, x: u32, y: u32, rgba: [u8; 4]) {
    let i = (4 * (y * img.width + x)) as usize;
    img.data[i..i + 4].copy_from_slice(&rgba);
}

#[test]
fn a_fully_transparent_icon_crops_to_one_pixel() {
    let img = blank(4, 3);
    assert_eq!(crop_box(&img), None);
    let out = crop_transparent_borders(&img);
    assert_eq!((out.width, out.height, out.data), (1, 1, vec![0, 0, 0, 0]));
}

#[test]
fn the_visible_part_is_kept() {
    let mut img = blank(4, 3);
    paint(&mut img, 1, 0, [1, 2, 3, 255]);
    paint(&mut img, 2, 1, [4, 5, 6, 7]);
    assert_eq!(crop_box(&img), Some((1, 0, 2, 1)));
    let out = crop_transparent_borders(&img);
    assert_eq!((out.width, out.height), (2, 2));
    assert_eq!(out.data, vec![1, 2, 3, 255, 0, 0, 0, 0, 0, 0, 0, 0, 4, 5, 6, 7]);
}

#[test]
fn a_single_visible_row_or_pixel_is_kept() {
    let mut img = blank(4, 3);
    paint(&mut img, 1, 1, [9, 9, 9, 9]);
    paint(&mut img, 2, 1, [8, 8, 8, 8]);
    assert_eq!(crop_box(&img), Some((1, 1, 2, 1)));
    let out = crop_transparent_borders(&img);
    assert_eq!((out.width, out.height, out.data), (2, 1, vec![9, 9, 9, 9, 8, 8, 8, 8]));
    let mut dot = blank(3, 3);
    paint(&mut dot, 1, 1, [5, 6, 7, 1]);
    let out = crop_transparent_borders(&dot);
    assert_eq!((out.width, out.height, out.data), (1, 1, vec![5, 6, 7, 1]));
}

#[test]
fn pixels_of_the_bottom_row_widen_the_crop() {
    let mut wide = blank(5, 4);
    paint(&mut wide, 1, 1, [1, 1, 1, 1]);
    paint(&mut wide, 3, 2, [2, 2, 2, 2]);
    paint(&mut wide, 0, 3, [3, 3, 3, 3]);
    assert_eq!(crop_box(&wide), Some((0, 1, 3, 3)));
    let out = crop_transparent_borders(&wide);
    assert_eq!((out.width, out.height), (4, 3));
    assert_eq!(&out.data[4..8], &[1, 1, 1, 1]);
    assert_eq!(&out.data[4 * 7..4 * 8], &[2, 2, 2, 2]);
    assert_eq!(&out.data[4 * 8..4 * 9], &[3, 3, 3, 3]);
}

fn opaque(width: u32, height: u32) -> RgbaPixels {
    RgbaPixels { width, height, data: vec![255; (4 * width * height) as usize] }
}

#[test]
fn square_icons_need_an_opaque_inside_and_a_rounded_corner() {
    let mut img = opaque(10, 10);
    assert!(!square_icon_verdict(&img, 1, 1, 1));
    assert!(square_icon_verdict(&img, 1, 1, 0));
    paint(&mut img, 9, 9, [0, 0, 0, 10]);
    assert!(square_icon_verdict(&img, 1, 1, 1));
    paint(&mut img, 5, 5, [0, 0, 0, 253]);
    assert!(!square_icon_verdict(&img, 1, 1, 1));
    let mut edge = opaque(10, 10);
    paint(&mut edge, 0, 5, [0, 0, 0, 0]);
    assert!(square_icon_verdict(&edge, 1, 1, 0));
    assert!(!square_icon_verdict(&edge, 0, 0, 0));
}
