use vit_tracker::image::Image;
use vit_tracker::preprocess::{crop_and_preprocess, crop_fits, crop_origin, crop_size, BBox};

fn pixels((image, crop): (Image, i32)) -> (Vec<u8>, i32) {
    (image.to_vec(), crop)
}

fn uniform_image(height: usize, width: usize, value: u8) -> Image {
    Image::new(height, width, vec![value; height * width * 3]).unwrap()
}

/// A 2 by 2 image whose first channel holds `[[a, b], [c, d]]`, the other two zero.
fn two_by_two(a: u8, b: u8, c: u8, d: u8) -> Image {
    let data = vec![a, 0, 0, b, 0, 0, c, 0, 0, d, 0, 0];
    Image::new(2, 2, data).unwrap()
}

#[test]
fn test_bbox() {
    let bbox = BBox::new(100, 100, 50, 50);
    assert_eq!(bbox.area(), 2500);
}

#[test]
fn test_crop_size_calculation() {
    let bbox = BBox::new(100, 100, 50, 50);
    let crop_sz = crop_size(&bbox, 2);
    assert_eq!(crop_sz, 100);
}

#[test]
fn test_preprocess_shape() {
    let image = uniform_image(480, 640, 0);
    let bbox = BBox::new(100, 100, 50, 50);
    let (result, crop_sz) = pixels(crop_and_preprocess(&image, &bbox, 2, 128));

    assert_eq!(result.len(), 1 * 128 * 128 * 3);
    assert_eq!(crop_sz, 100);
}

#[test]
fn crop_size_of_square_box_anywhere() {
    for (x, y) in [(0, 0), (-500, 20), (1000, -1000), (7, 3)] {
        assert_eq!(crop_size(&BBox::new(x, y, 50, 50), 2), 100);
    }
    assert_eq!(crop_size(&BBox::new(0, 0, 50, 50), 4), 200);
}

#[test]
fn crop_size_rounds_up() {
    // sqrt(10 * 20) * 2 = 28.28..., up to 29.
    assert_eq!(crop_size(&BBox::new(0, 0, 10, 20), 2), 29);
    // sqrt(2) * 4 = 5.65..., up to 6.
    assert_eq!(crop_size(&BBox::new(0, 0, 1, 2), 4), 6);
}

#[test]
fn crop_size_of_degenerate_boxes() {
    assert_eq!(crop_size(&BBox::new(5, 5, 0, 40), 2), 0);
    assert_eq!(crop_size(&BBox::new(5, 5, -3, 40), 2), 0);
    assert_eq!(crop_size(&BBox::new(5, 5, 30, 40), 0), 0);
}

#[test]
fn crop_size_saturates() {
    assert_eq!(crop_size(&BBox::new(0, 0, i32::MAX, i32::MAX), 4), i32::MAX);
    assert!(!crop_fits(&BBox::new(0, 0, i32::MAX, i32::MAX), 4));
    assert!(crop_fits(&BBox::new(0, 0, 50, 50), 4));
}

#[test]
fn crop_origin_centers_on_box() {
    // (50 - 100) / 2 = -25.
    assert_eq!(crop_origin(&BBox::new(100, 200, 50, 50), 100), (75, 175));
    // (5 - 8) / 2 rounds toward zero: -1.
    assert_eq!(crop_origin(&BBox::new(10, 10, 5, 5), 8), (9, 9));
}

#[test]
fn image_requires_matching_length() {
    assert!(Image::new(2, 3, vec![0; 18]).is_some());
    assert!(Image::new(2, 3, vec![0; 17]).is_none());
    assert!(Image::new(usize::MAX, 2, vec![]).is_none());
    assert!(Image::new(0, usize::MAX, vec![]).is_none());
    let img = Image::new(2, 3, (0..18).collect()).unwrap();
    assert_eq!(img.shape(), (2, 3));
    assert_eq!(img.to_vec(), (0..18).collect::<Vec<u8>>());
}

#[test]
fn out_of_frame_crop_is_black() {
    let image = uniform_image(100, 100, 200);
    let bbox = BBox::new(1000, 1000, 20, 20);
    let (result, crop_sz) = pixels(crop_and_preprocess(&image, &bbox, 2, 128));
    assert_eq!(crop_sz, 40);
    assert_eq!(result.len(), 128 * 128 * 3);
    assert!(result.iter().all(|&v| v == 0));

    let left = BBox::new(-500, -500, 20, 20);
    let (result, _) = pixels(crop_and_preprocess(&image, &left, 2, 64));
    assert!(result.iter().all(|&v| v == 0));
}

#[test]
fn inside_crop_keeps_uniform_color() {
    let image = uniform_image(300, 300, 77);
    let (result, crop_sz) = pixels(crop_and_preprocess(&image, &BBox::new(100, 100, 50, 50), 2, 128));
    assert_eq!(crop_sz, 100);
    assert_eq!(result.len(), 128 * 128 * 3);
    assert!(result.iter().all(|&v| v == 77));
}

#[test]
fn partly_outside_crop_is_padded_black() {
    let image = uniform_image(10, 10, 90);
    // Crop of side 10 from (-5, -5): its top-left quarter is outside.
    let (result, crop_sz) = pixels(crop_and_preprocess(&image, &BBox::new(-5, -5, 10, 10), 1, 10));
    assert_eq!(crop_sz, 10);
    assert_eq!(result[0], 0);
    let last = (9 * 10 + 9) * 3;
    assert_eq!(result[last], 90);
    // Row 0, column 5 lies above the image.
    assert_eq!(result[5 * 3], 0);
    // Row 5, column 5 is the image's first pixel.
    assert_eq!(result[(5 * 10 + 5) * 3 + 2], 90);
}

#[test]
fn bilinear_upscale_values() {
    let image = two_by_two(0, 100, 200, 40);
    let (result, crop_sz) = pixels(crop_and_preprocess(&image, &BBox::new(0, 0, 2, 2), 1, 4));
    assert_eq!(crop_sz, 2);
    let at = |y: usize, x: usize| result[(y * 4 + x) * 3];
    assert_eq!(at(0, 0), 0);
    assert_eq!(at(0, 1), 50);
    assert_eq!(at(0, 2), 100);
    assert_eq!(at(1, 0), 100);
    assert_eq!(at(1, 1), 85);
    assert_eq!(at(3, 3), 40);
    assert_eq!(result[(1 * 4 + 1) * 3 + 1], 0);
}

#[test]
fn bilinear_rounds_half_up() {
    let image = two_by_two(0, 1, 0, 1);
    let (result, _) = pixels(crop_and_preprocess(&image, &BBox::new(0, 0, 2, 2), 1, 4));
    // Halfway between 0 and 1.
    assert_eq!(result[1 * 3], 1);
}

#[test]
fn bilinear_downscale_values() {
    let image = two_by_two(10, 20, 30, 40);
    let (result, _) = pixels(crop_and_preprocess(&image, &BBox::new(0, 0, 2, 2), 1, 1));
    assert_eq!(result, vec![10, 0, 0]);
}

#[test]
fn empty_image_gives_black() {
    let image = Image::new(0, 0, vec![]).unwrap();
    let (result, crop_sz) = pixels(crop_and_preprocess(&image, &BBox::new(0, 0, 4, 4), 2, 8));
    assert_eq!(crop_sz, 8);
    assert_eq!(result, vec![0; 8 * 8 * 3]);
}

#[test]
fn zero_area_box_gives_black() {
    let image = uniform_image(20, 20, 255);
    let (result, crop_sz) = pixels(crop_and_preprocess(&image, &BBox::new(5, 5, 0, 0), 2, 16));
    assert_eq!(crop_sz, 0);
    assert_eq!(result, vec![0; 16 * 16 * 3]);
}

#[test]
fn bbox_accessors() {
    let bbox = BBox::new(3, -4, 11, 6);
    assert_eq!(bbox.to_array(), [3, -4, 11, 6]);
    let back = BBox::from_array(&[3, -4, 11, 6]);
    assert_eq!((back.x, back.y, back.width, back.height), (3, -4, 11, 6));
    assert_eq!(bbox.center(), (8, -1));
    assert_eq!(BBox::new(0, 0, -3, -5).center(), (-1, -2));
    assert_eq!(bbox.area(), 66);
    let d = BBox::default();
    assert_eq!(d.to_array(), [0, 0, 0, 0]);
}
