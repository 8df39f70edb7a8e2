use impact::image_wrapper::ImageWrapper;

fn filled(width: i32, height: i32, bytes: Vec<u8>) -> ImageWrapper {
    assert_eq!(bytes.len(), (width * height * 4) as usize);
    ImageWrapper {
        name: String::new(),
        width,
        height,
        frame_x: 0,
        frame_y: 0,
        frame_w: width,
        frame_h: height,
        data: bytes,
        hash_value: 0,
    }
}

#[test]
fn empty_image_is_fully_transparent() {
    let img = ImageWrapper::empty(3, 2);
    assert_eq!(img.width, 3);
    assert_eq!(img.height, 2);
    assert_eq!(img.data.len(), 3 * 2 * 4);
    assert!(img.data.iter().all(|b| *b == 0));
    assert_eq!(img.get_pixel(2, 1, 3), 0);
}

#[test]
fn set_pixel_changes_only_one_byte() {
    let mut img = ImageWrapper::empty(4, 4);
    img.set_pixel(1, 2, 3, 200);
    assert_eq!(img.get_pixel(1, 2, 3), 200);
    assert_eq!(img.get_pixel(1, 2, 2), 0);
    assert_eq!(img.get_pixel(2, 1, 3), 0);
    let nonzero = img.data.iter().filter(|b| **b != 0).count();
    assert_eq!(nonzero, 1);
}

#[test]
fn copy_pixels_blits_the_source_region() {
    // a 2x2 source with distinct per-pixel values
    let mut bytes = Vec::new();
    for p in 0..4u8 {
        for c in 0..4u8 {
            bytes.push(10 * p + c);
        }
    }
    let src = filled(2, 2, bytes);
    let mut dst = ImageWrapper::empty(4, 4);
    dst.copy_pixels(&src, 1, 1);
    for y in 0..2usize {
        for x in 0..2usize {
            for c in 0..4usize {
                assert_eq!(dst.get_pixel(1 + x, 1 + y, c), src.get_pixel(x, y, c));
            }
        }
    }
    // a corner outside the target region is untouched
    assert_eq!(dst.get_pixel(0, 0, 0), 0);
    assert_eq!(dst.get_pixel(3, 3, 3), 0);
}

#[test]
fn copy_pixels_rot_rotates_ninety_degrees_clockwise() {
    // source 2 wide, 3 tall; target region 3 wide, 2 tall
    let mut bytes = Vec::new();
    for p in 0..6u8 {
        for c in 0..4u8 {
            bytes.push(10 * p + c);
        }
    }
    let src = filled(2, 3, bytes);
    let mut dst = ImageWrapper::empty(5, 5);
    dst.copy_pixels_rot(&src, 1, 2);
    // target pixel (1 + x, 2 + y) takes source pixel (y, src.height - 1 - x)
    for x in 0..3usize {
        for y in 0..2usize {
            for c in 0..4usize {
                assert_eq!(
                    dst.get_pixel(1 + x, 2 + y, c),
                    src.get_pixel(y, 2 - x, c)
                );
            }
        }
    }
    assert_eq!(dst.get_pixel(0, 0, 0), 0);
}

#[test]
fn image_equality_compares_content_not_names() {
    let a = filled(2, 1, vec![1, 2, 3, 4, 5, 6, 7, 8]);
    let mut b = filled(2, 1, vec![1, 2, 3, 4, 5, 6, 7, 8]);
    b.name = "other".to_string();
    b.hash_value = 99;
    assert!(a == b);

    let c = filled(2, 1, vec![1, 2, 3, 4, 5, 6, 7, 9]);
    assert!(a != c);

    let d = filled(1, 2, vec![1, 2, 3, 4, 5, 6, 7, 8]);
    assert!(a != d);
}
