use snappaste::image::{
    decode_png_rgba, downscale_rgba_nearest, encode_rgba_to_png, image_signature,
    normalize_image_for_storage, scaled_dimensions, MAX_IMAGE_DIMENSION,
};

#[test]
fn downscale_rgba_nearest_selects_top_left_pixel_for_one_by_one() {
    let rgba = vec![
        255, 0, 0, 255, 0, 255, 0, 255, // row 0
        0, 0, 255, 255, 255, 255, 255, 255, // row 1
    ];
    let out = downscale_rgba_nearest(2, 2, &rgba, 1, 1);
    assert_eq!(out, vec![255, 0, 0, 255]);
}

#[test]
fn normalize_image_for_storage_keeps_small_image() {
    let rgba = vec![42u8; 100 * 100 * 4];
    let (w, h, bytes, scaled) = normalize_image_for_storage(100, 100, &rgba);
    assert_eq!((w, h), (100, 100));
    assert!(!scaled);
    assert_eq!(bytes.as_slice(), rgba.as_slice());
}

#[test]
fn normalize_image_for_storage_scales_large_image() {
    let width = MAX_IMAGE_DIMENSION + 200;
    let height = MAX_IMAGE_DIMENSION + 100;
    let rgba = vec![7u8; width * height * 4];

    let (w, h, bytes, scaled) = normalize_image_for_storage(width, height, &rgba);
    assert!(scaled);
    assert!(w <= MAX_IMAGE_DIMENSION);
    assert!(h <= MAX_IMAGE_DIMENSION);
    assert_eq!(bytes.len(), w * h * 4);
}

#[test]
fn encode_decode_png_round_trip_dimensions() {
    let width = 3;
    let height = 2;
    let rgba = vec![
        1, 2, 3, 255, 4, 5, 6, 255, 7, 8, 9, 255, 10, 11, 12, 255, 13, 14, 15, 255, 16, 17, 18,
        255,
    ];

    let png = encode_rgba_to_png(width, height, &rgba).expect("encode png");
    let (decoded_w, decoded_h, decoded_rgba) = decode_png_rgba(&png).expect("decode png");
    assert_eq!((decoded_w, decoded_h), (width, height));
    assert_eq!(decoded_rgba, rgba);
}

#[test]
fn png_encoding_is_a_png_file_not_the_raw_pixels() {
    let rgba = vec![9u8; 2 * 2 * 4];
    let png = encode_rgba_to_png(2, 2, &rgba).unwrap();
    assert_ne!(png, rgba);
    assert_eq!(&png[1..4], b"PNG");
}

#[test]
fn bytes_that_are_not_png_do_not_decode() {
    assert!(decode_png_rgba(&[1, 2, 3, 4]).is_err());
}

#[test]
fn scaled_size_of_wide_image_keeps_aspect_ratio() {
    // 4400 x 1100 is limited by its width: 2200 x 550.
    assert_eq!(scaled_dimensions(4400, 1100), (2200, 550));
    // 1100 x 4400 is limited by its height.
    assert_eq!(scaled_dimensions(1100, 4400), (550, 2200));
    assert_eq!(scaled_dimensions(2300, 1), (2200, 1));
    assert_eq!(scaled_dimensions(1, 2300), (1, 2200));
    // 2000 x 2000 has too many pixels: sqrt(2600000) rounds to 1612.
    assert_eq!(scaled_dimensions(2000, 2000), (1612, 1612));
    // 2200 x 1182 rounds back to itself, 2,600,400 pixels: the longer side
    // gives way to stay within 2,600,000.
    assert_eq!(scaled_dimensions(2200, 1182), (2199, 1182));
}

#[test]
fn downscale_picks_proportional_pixels() {
    // A 4 x 1 image scaled to 2 x 1 keeps pixels 0 and 2.
    let rgba: Vec<u8> = (0u8..16).collect();
    let out = downscale_rgba_nearest(4, 1, &rgba, 2, 1);
    assert_eq!(out, vec![0, 1, 2, 3, 8, 9, 10, 11]);
}

#[test]
fn image_signature_names_size_and_depends_on_pixels() {
    let a = vec![1u8; 4 * 4 * 4];
    let mut b = a.clone();
    b[0] = 2;
    let sa = image_signature(4, 4, &a);
    let sb = image_signature(4, 4, &b);
    assert!(sa.starts_with("image:4:4:"));
    assert_eq!(sa, image_signature(4, 4, &a));
    assert_ne!(sa, sb);
}
