use raytrace::image::{encode_ppm, write_header, write_pixel, Rgb8};

fn px(r: u8, g: u8, b: u8) -> Rgb8 {
    Rgb8 { r, g, b }
}

#[test]
fn header_of_two_by_two() {
    let mut out = Vec::new();
    write_header(&mut out, 2, 2);
    assert_eq!(out, b"P3\n2 2\n255\n".to_vec());
}

#[test]
fn header_of_wide_image() {
    let mut out = b"x".to_vec();
    write_header(&mut out, 1920, 1080);
    assert_eq!(out, b"xP3\n1920 1080\n255\n".to_vec());
}

#[test]
fn pixel_line_digits() {
    let mut out = Vec::new();
    write_pixel(&mut out, px(0, 9, 10));
    write_pixel(&mut out, px(99, 100, 255));
    assert_eq!(String::from_utf8(out).unwrap(), "0 9 10\n99 100 255\n");
}

#[test]
fn two_by_two_image_has_header_and_four_lines() {
    let pixels = vec![px(255, 255, 255), px(127, 178, 255), px(0, 0, 0), px(12, 34, 56)];
    let text = String::from_utf8(encode_ppm(2, 2, &pixels).unwrap()).unwrap();
    assert!(text.starts_with("P3\n2 2\n255\n"));
    assert_eq!(text, "P3\n2 2\n255\n255 255 255\n127 178 255\n0 0 0\n12 34 56\n");
    let lines: Vec<&str> = text.lines().collect();
    assert_eq!(lines.len(), 3 + 4);
}

#[test]
fn pixel_count_must_match_size() {
    let pixels = vec![px(1, 2, 3); 3];
    assert_eq!(encode_ppm(2, 2, &pixels), None);
    assert_eq!(encode_ppm(2, 1, &Vec::new()), None);
    assert!(encode_ppm(3, 1, &pixels).is_some());
}

#[test]
fn empty_image_is_header_only() {
    let out = encode_ppm(0, 5, &Vec::new()).unwrap();
    assert_eq!(out, b"P3\n0 5\n255\n".to_vec());
}

#[test]
fn raster_is_row_major_from_top_left() {
    let positions = raytrace::image::render_raster(3, 2, |i: u32, j: u32| (i, j));
    assert_eq!(positions, vec![(0, 0), (1, 0), (2, 0), (0, 1), (1, 1), (2, 1)]);
}

#[test]
fn raster_of_empty_size_is_empty() {
    assert!(raytrace::image::render_raster(0, 4, |i: u32, j: u32| i + j).is_empty());
    assert!(raytrace::image::render_raster(4, 0, |i: u32, j: u32| i + j).is_empty());
}

#[test]
fn rendered_raster_encodes_one_line_per_pixel() {
    let pixels = raytrace::image::render_raster(2, 2, |i: u32, j: u32| px(i as u8, j as u8, 7));
    let text = String::from_utf8(encode_ppm(2, 2, &pixels).unwrap()).unwrap();
    assert_eq!(text, "P3\n2 2\n255\n0 0 7\n1 0 7\n0 1 7\n1 1 7\n");
}
