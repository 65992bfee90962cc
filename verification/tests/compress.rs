use sitekit::compress::{
    decode_canvas_data_url, image_data_url, is_compressible_image, mime_type_from_name,
    scale_dimensions,
};

#[test]
fn scale_no_change_when_within_limit() {
    assert_eq!(scale_dimensions(500, 300, 1000), (500, 300));
}

#[test]
fn scale_wide_image() {
    assert_eq!(scale_dimensions(2000, 1000, 1000), (1000, 500));
}

#[test]
fn scale_tall_image() {
    assert_eq!(scale_dimensions(1000, 2000, 1000), (500, 1000));
}

#[test]
fn scale_square_image() {
    assert_eq!(scale_dimensions(2000, 2000, 1000), (1000, 1000));
}

#[test]
fn scale_does_not_upscale() {
    assert_eq!(scale_dimensions(400, 300, 1000), (400, 300));
}

#[test]
fn scale_preserves_ratio() {
    let (w, h) = scale_dimensions(3000, 2000, 1000);
    assert_eq!(w, 1000);
    assert_eq!(h, 667);
    let orig_ratio = 3000.0 / 2000.0_f64;
    let new_ratio = w as f64 / h as f64;
    let diff = (orig_ratio - new_ratio).abs() / orig_ratio;
    assert!(diff < 0.005, "ratio diff {diff} >= 0.5%");
}

#[test]
fn scale_rounds_half_up_and_keeps_one_pixel() {
    // 1000 * 1 / 2000 = 0.5 rounds to 1; 1 * 1000 / 3000 rounds to 0, kept at 1.
    assert_eq!(scale_dimensions(2000, 1, 1000), (1000, 1));
    assert_eq!(scale_dimensions(3000, 1, 1000), (1000, 1));
    assert_eq!(scale_dimensions(1, 3000, 1000), (1, 1000));
}

#[test]
fn scale_matches_float_rounding_on_many_sizes() {
    for w in [1001u32, 1234, 1999, 2048, 3333, 4000, 4096, 7777] {
        for h in [1u32, 2, 3, 333, 500, 999, 1000, 1001, 2500] {
            let (sw, sh) = scale_dimensions(w, h, 1000);
            if w >= h {
                let expect = ((h as f64 * 1000.0 / w as f64).round() as u32).max(1);
                assert_eq!((sw, sh), (1000, expect), "{w}x{h}");
            } else {
                let expect = ((w as f64 * 1000.0 / h as f64).round() as u32).max(1);
                assert_eq!((sw, sh), (expect, 1000), "{w}x{h}");
            }
        }
    }
}

#[test]
fn is_compressible_image_jpg() {
    assert!(is_compressible_image("photo.jpg"));
}

#[test]
fn is_compressible_image_jpeg() {
    assert!(is_compressible_image("photo.jpeg"));
}

#[test]
fn is_compressible_image_png() {
    assert!(is_compressible_image("image.png"));
}

#[test]
fn is_compressible_image_webp() {
    assert!(is_compressible_image("image.webp"));
}

#[test]
fn is_compressible_image_svg_false() {
    assert!(!is_compressible_image("icon.svg"));
}

#[test]
fn is_compressible_image_gif_false() {
    assert!(!is_compressible_image("anim.gif"));
}

#[test]
fn is_compressible_image_mp4_false() {
    assert!(!is_compressible_image("video.mp4"));
}

#[test]
fn is_compressible_image_ignores_case() {
    assert!(is_compressible_image("PHOTO.JPG"));
}

#[test]
fn mime_type_from_name_png() {
    assert_eq!(mime_type_from_name("image.png"), "image/png");
}

#[test]
fn mime_type_from_name_jpeg() {
    assert_eq!(mime_type_from_name("photo.jpeg"), "image/jpeg");
}

#[test]
fn mime_type_from_name_jpg() {
    assert_eq!(mime_type_from_name("photo.jpg"), "image/jpeg");
}

#[test]
fn mime_type_from_name_webp_returns_jpeg() {
    assert_eq!(mime_type_from_name("image.webp"), "image/jpeg");
}

#[test]
fn canvas_data_url_round_trip() {
    let url = image_data_url(b"hello", "a.png");
    assert_eq!(url, "data:image/png;base64,aGVsbG8=");
    assert_eq!(decode_canvas_data_url(&url, "a.png"), Ok(b"hello".to_vec()));
}

#[test]
fn canvas_data_url_errors() {
    assert_eq!(
        decode_canvas_data_url("data:image/png;base64,aGVsbG8=", "a.jpg"),
        Err("Unexpected data URL format: missing prefix data:image/jpeg;base64,".to_string())
    );
    assert_eq!(
        decode_canvas_data_url("data:image/jpeg;base64,@@@", "a.jpg"),
        Err("Base64 decode error: Invalid symbol 64, offset 0.".to_string())
    );
}

#[test]
fn portrait_images_keep_their_ratio() {
    assert_eq!(scale_dimensions(1001, 3000, 600), (200, 600));
    assert_eq!(scale_dimensions(3000, 1001, 600), (600, 200));
}
