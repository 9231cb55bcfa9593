use std::io::Cursor;

use fototpm::collection::{DecodeError, ImageCollection};

fn png(width: u32, height: u32, shade: u8) -> Vec<u8> {
    let mut img = image::RgbImage::new(width, height);
    for (x, y, p) in img.enumerate_pixels_mut() {
        *p = image::Rgb([shade, (x % 256) as u8, (y % 256) as u8]);
    }
    let mut out = Cursor::new(Vec::new());
    img.write_to(&mut out, image::ImageFormat::Png).unwrap();
    out.into_inner()
}

fn collection_of(n: usize) -> ImageCollection {
    let mut c = ImageCollection::new();
    for i in 0..n {
        let path = format!("/photos/img{}.png", i);
        assert_eq!(c.append(&path, &png(40, 30, i as u8), false), Ok(i));
    }
    c
}

fn order(c: &ImageCollection) -> Vec<String> {
    c.records().iter().map(|r| r.display_name.clone()).collect()
}

fn names(v: &[usize]) -> Vec<String> {
    v.iter().map(|i| format!("img{}.png", i)).collect()
}

#[test]
fn append_fills_landscape_to_standard_size() {
    let mut c = ImageCollection::new();
    assert_eq!(c.active(), None);
    assert_eq!(c.append("/a/wide.png", &png(400, 100, 1), false), Ok(0));
    let r = c.get(0);
    assert_eq!((r.pixels.width, r.pixels.height), (800, 600));
    assert_eq!(r.pixels.data.len(), 800 * 600 * 3);
    assert_eq!(r.display_name, "wide.png");
    assert_eq!(r.source_path, "/a/wide.png");
    assert_eq!(c.active(), Some(0));
}

#[test]
fn append_fills_portrait_and_square_to_portrait_size() {
    let mut c = ImageCollection::new();
    assert_eq!(c.append("tall.png", &png(30, 90, 1), false), Ok(0));
    assert_eq!((c.get(0).pixels.width, c.get(0).pixels.height), (600, 800));
    assert_eq!(c.append("square.png", &png(50, 50, 1), false), Ok(1));
    assert_eq!((c.get(1).pixels.width, c.get(1).pixels.height), (600, 800));
}

#[test]
fn append_high_definition_size() {
    let mut c = ImageCollection::new();
    assert_eq!(c.append("w.png", &png(64, 48, 1), true), Ok(0));
    assert_eq!((c.get(0).pixels.width, c.get(0).pixels.height), (1600, 1200));
}

#[test]
fn append_of_unreadable_bytes_leaves_collection_unchanged() {
    let mut c = collection_of(2);
    assert_eq!(c.append("bad.jpg", &vec![1, 2, 3, 4], false), Err(DecodeError::Unreadable));
    assert_eq!(c.len(), 2);
    assert_eq!(order(&c), names(&[0, 1]));
}

#[test]
fn move_between_neighbours_swaps() {
    let mut c = collection_of(5);
    c.move_image(2, 3);
    assert_eq!(order(&c), names(&[0, 1, 3, 2, 4]));
    assert_eq!(c.active(), Some(3));
    c.move_image(3, 2);
    assert_eq!(order(&c), names(&[0, 1, 2, 3, 4]));
}

#[test]
fn move_far_extracts_and_reinserts() {
    let mut c = collection_of(5);
    c.move_image(0, 4);
    assert_eq!(order(&c), names(&[1, 2, 3, 4, 0]));
    assert_eq!(c.active(), Some(4));
    c.move_image(4, 1);
    assert_eq!(order(&c), names(&[1, 0, 2, 3, 4]));
}

#[test]
fn move_in_place_keeps_order() {
    let mut c = collection_of(3);
    c.move_image(1, 1);
    assert_eq!(order(&c), names(&[0, 1, 2]));
}

#[test]
fn four_rotations_restore_dimensions() {
    let mut c = collection_of(2);
    let before = c.get(1).pixels.data.clone();
    assert_eq!((c.get(1).pixels.width, c.get(1).pixels.height), (800, 600));
    c.rotate(1, true);
    assert_eq!((c.get(1).pixels.width, c.get(1).pixels.height), (600, 800));
    c.rotate(1, true);
    c.rotate(1, true);
    c.rotate(1, true);
    assert_eq!((c.get(1).pixels.width, c.get(1).pixels.height), (800, 600));
    assert_eq!(c.get(1).pixels.data, before);
}

#[test]
fn rotation_moves_pixels() {
    let mut c = collection_of(1);
    let w = c.get(0).pixels.width as usize;
    let h = c.get(0).pixels.height as usize;
    let src = c.get(0).pixels.data.clone();
    let at = |d: &Vec<u8>, width: usize, x: usize, y: usize| d[(y * width + x) * 3..(y * width + x) * 3 + 3].to_vec();
    c.rotate(0, true);
    let cw = c.get(0).pixels.data.clone();
    // Clockwise: the source pixel (x, y) lands at (h - 1 - y, x) in a raster h wide.
    assert_eq!(at(&cw, h, h - 1 - 0, 5), at(&src, w, 5, 0));
    assert_eq!(at(&cw, h, h - 1 - 7, 3), at(&src, w, 3, 7));
    c.rotate(0, false);
    assert_eq!(c.get(0).pixels.data, src);
    c.rotate(0, false);
    let ccw = c.get(0).pixels.data.clone();
    // Counter-clockwise: (x, y) lands at (y, w - 1 - x).
    assert_eq!(at(&ccw, h, 7, w - 1 - 3), at(&src, w, 3, 7));
}

#[test]
fn removal_clamps_the_active_index() {
    let mut c = collection_of(3);
    c.select(2);
    assert_eq!(c.active(), Some(2));
    let r = c.remove(2);
    assert_eq!(r.display_name, "img2.png");
    assert_eq!(c.active(), Some(1));
    c.remove(0);
    assert_eq!(c.active(), Some(0));
    assert_eq!(order(&c), names(&[1]));
    c.remove(0);
    assert_eq!(c.active(), None);
    assert!(c.is_empty());
}

#[test]
fn selection_is_clamped() {
    let mut c = collection_of(3);
    c.select(10);
    assert_eq!(c.active(), Some(2));
    let mut e = ImageCollection::new();
    e.select(0);
    assert_eq!(e.active(), None);
}

#[test]
fn used_files_lists_one_path_per_line() {
    let c = collection_of(2);
    assert_eq!(c.used_files(), "/photos/img0.png\n/photos/img1.png\n");
    assert_eq!(ImageCollection::new().used_files(), "");
}
