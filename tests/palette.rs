use top_colours::lab_color::{float_bits_eq, total_key_of};
use top_colours::merge::{compare_lightness, lightness_order, merge_similar};
use top_colours::palette::{palette_of_centroids, palette_of_pixels};
use top_colours::samples::{dedup_consecutive, distinct_colors, samples_of_pixels};
use top_colours::hex::hex_palette;
use top_colours::{
    top_colors_buffer, top_colors_hex_buffer, top_colours_buffer, top_colours_hex_buffer,
    ExtractError,
};

fn png_bytes(img: image::RgbImage) -> Vec<u8> {
    let mut out = std::io::Cursor::new(Vec::new());
    image::DynamicImage::ImageRgb8(img)
        .write_to(&mut out, image::ImageOutputFormat::Png)
        .unwrap();
    out.into_inner()
}

fn near(a: [u8; 3], b: [u8; 3], tolerance: i32) -> bool {
    (0..3).all(|i| (a[i] as i32 - b[i] as i32).abs() <= tolerance)
}

#[test]
fn solid_colour_gives_exactly_that_colour() {
    let img = image::RgbImage::from_pixel(10, 10, image::Rgb([255, 0, 0]));
    let palette = top_colours_buffer(&png_bytes(img)).unwrap();
    assert_eq!(palette.len(), 1);
    assert!(near(palette[0], [255, 0, 0], 2), "{:?}", palette);
}

#[test]
fn solid_colour_as_hex() {
    let img = image::RgbImage::from_pixel(10, 10, image::Rgb([255, 0, 0]));
    let bytes = png_bytes(img);
    let rgb = top_colours_buffer(&bytes).unwrap();
    let hex = top_colours_hex_buffer(&bytes).unwrap();
    assert_eq!(hex.len(), 1);
    assert_eq!(hex[0], format!("#{:02x}{:02x}{:02x}", rgb[0][0], rgb[0][1], rgb[0][2]));
    assert_eq!(hex[0].len(), 7);
    assert!(hex[0].starts_with("#f"));
}

#[test]
fn checkerboard_gives_black_and_white() {
    let img = image::RgbImage::from_fn(16, 16, |x, y| {
        if (x + y) % 2 == 0 { image::Rgb([0, 0, 0]) } else { image::Rgb([255, 255, 255]) }
    });
    let palette = top_colours_buffer(&png_bytes(img)).unwrap();
    assert_eq!(palette.len(), 2, "{:?}", palette);
    assert!(palette.iter().any(|c| near(*c, [0, 0, 0], 2)), "{:?}", palette);
    assert!(palette.iter().any(|c| near(*c, [255, 255, 255], 2)), "{:?}", palette);
}

#[test]
fn near_gradient_merges_below_cluster_count() {
    let img = image::RgbImage::from_fn(48, 48, |x, _| {
        let v = 100 + x as u8;
        image::Rgb([v, v, v])
    });
    let palette = top_colours_buffer(&png_bytes(img)).unwrap();
    assert!(!palette.is_empty());
    assert!(palette.len() < 16, "{:?}", palette);
    assert!(palette.len() <= 3, "{:?}", palette);
}

#[test]
fn corrupt_bytes_fail_to_decode() {
    let r = top_colours_buffer(b"this is not an image");
    assert!(matches!(r, Err(ExtractError::Decode(_))));
    let h = top_colours_hex_buffer(&[0x89, 0x50, 0x4e, 0x47, 0, 1, 2]);
    assert!(matches!(h, Err(ExtractError::Decode(_))));
    if let Err(e) = top_colors_buffer(&[]) {
        assert!(e.message().starts_with("failed to read file, "));
    } else {
        panic!("empty input decoded");
    }
}

#[test]
fn spelling_variants_agree_on_solid_colour() {
    let img = image::RgbImage::from_pixel(5, 7, image::Rgb([0, 128, 255]));
    let bytes = png_bytes(img);
    assert_eq!(top_colours_buffer(&bytes).unwrap(), top_colors_buffer(&bytes).unwrap());
    assert_eq!(top_colours_hex_buffer(&bytes).unwrap(), top_colors_hex_buffer(&bytes).unwrap());
}

#[test]
fn palette_length_is_between_one_and_sixteen() {
    let img = image::RgbImage::from_fn(64, 64, |x, y| {
        image::Rgb([(x * 4) as u8, (y * 4) as u8, ((x * y) % 256) as u8])
    });
    let palette = top_colours_buffer(&png_bytes(img)).unwrap();
    assert!(palette.len() >= 1 && palette.len() <= 16, "{:?}", palette);
}

#[test]
fn colour_survives_round_trip_through_lab() {
    for rgb in [[255u8, 0, 0], [12, 200, 90], [128, 128, 128], [250, 250, 10]] {
        let out = palette_of_pixels(&vec![rgb; 9]);
        assert_eq!(out.len(), 1);
        let before = lab::Lab::from_rgb(&rgb);
        let after = lab::Lab::from_rgb(&out[0]);
        let d = ((before.l - after.l).powi(2) + (before.a - after.a).powi(2)
            + (before.b - after.b).powi(2))
            .sqrt();
        assert!(d < 1.0f32, "{:?} -> {:?}", rgb, out);
    }
}

#[test]
fn output_keeps_original_order_not_lightness_order() {
    // white, black, red: in lightness order black, red, white
    let samples = samples_of_pixels(&vec![[255, 255, 255], [0, 0, 0], [255, 0, 0]]);
    let order = lightness_order(&samples);
    assert_eq!(order, vec![1, 2, 0]);
    let out = palette_of_centroids(&samples);
    assert_eq!(out.len(), 3);
    assert!(near(out[0], [255, 255, 255], 1));
    assert!(near(out[1], [0, 0, 0], 1));
    assert!(near(out[2], [255, 0, 0], 1));
}

#[test]
fn similar_neighbour_drops_the_darker() {
    // the two greys are within the similarity threshold; the darker one goes
    let samples = samples_of_pixels(&vec![[102, 102, 102], [0, 0, 0], [100, 100, 100]]);
    let kept = merge_similar(&samples);
    assert_eq!(kept.len(), 2);
    let out = palette_of_centroids(&samples);
    assert_eq!(out.len(), 2);
    assert!(near(out[0], [102, 102, 102], 1), "{:?}", out);
    assert!(near(out[1], [0, 0, 0], 1), "{:?}", out);
}

#[test]
fn lightest_centroid_is_always_kept() {
    let samples = samples_of_pixels(&vec![[200, 200, 200], [201, 201, 201], [202, 202, 202]]);
    let out = palette_of_centroids(&samples);
    assert_eq!(out.len(), 1);
    assert!(near(out[0], [202, 202, 202], 1), "{:?}", out);
}

#[test]
fn empty_pixels_give_empty_palette() {
    assert!(palette_of_pixels(&Vec::new()).is_empty());
    assert!(palette_of_centroids(&Vec::new()).is_empty());
}

#[test]
fn runs_collapse_but_repeats_do_not() {
    let samples = samples_of_pixels(&vec![[1, 2, 3], [1, 2, 3], [9, 9, 9], [1, 2, 3], [1, 2, 3]]);
    assert_eq!(samples.len(), 3);
    let again = dedup_consecutive(&samples);
    assert_eq!(again.len(), 3);
    assert_eq!(distinct_colors(&samples, 16).len(), 2);
    assert_eq!(distinct_colors(&samples, 1).len(), 1);
    assert_eq!(distinct_colors(&Vec::new(), 16).len(), 0);
}

#[test]
fn distinct_colours_stop_at_the_cap() {
    let pixels: Vec<[u8; 3]> = (0..40u8).map(|i| [i * 6, 0, 255 - i * 6]).collect();
    let samples = samples_of_pixels(&pixels);
    assert_eq!(samples.len(), 40);
    assert_eq!(distinct_colors(&samples, 16).len(), 16);
}

#[test]
fn hex_palette_formats_lowercase() {
    let h = hex_palette(&vec![[255, 0, 171], [0, 10, 9]]);
    assert_eq!(h, vec!["#ff00ab".to_string(), "#000a09".to_string()]);
}

#[test]
fn float_equality_on_bits() {
    assert!(float_bits_eq(0x3f80_0000, 0x3f80_0000));
    assert!(float_bits_eq(0, 0x8000_0000));
    assert!(!float_bits_eq(0x7fc0_0000, 0x7fc0_0000));
    assert!(!float_bits_eq(0x3f80_0000, 0x4000_0000));
    assert_eq!(f32::from_bits(0x3f80_0000), 1.0f32);
}

#[test]
fn total_order_key_matches_total_cmp() {
    let values = [-2.5f32, -0.0, 0.0, 1.0, 3.5];
    for w in values.windows(2) {
        let (a, b) = (w[0], w[1]);
        assert_eq!(
            a.total_cmp(&b),
            total_key_of(a.to_bits()).cmp(&total_key_of(b.to_bits()))
        );
    }
    assert_eq!(total_key_of(0), 0);
    assert_eq!(total_key_of(0x8000_0000), -1);
}

#[test]
fn hex_covers_every_digit() {
    let h = hex_palette(&vec![[0x01, 0x23, 0x45], [0x67, 0x89, 0xab], [0xcd, 0xef, 0x10]]);
    assert_eq!(h, vec!["#012345".to_string(), "#6789ab".to_string(), "#cdef10".to_string()]);
}

#[test]
fn equal_lightness_keeps_index_order() {
    let samples = samples_of_pixels(&vec![[90, 90, 90], [0, 0, 0], [90, 90, 90]]);
    assert_eq!(samples.len(), 3);
    assert_eq!(compare_lightness(&samples, 0, 2), std::cmp::Ordering::Equal);
    assert_eq!(compare_lightness(&samples, 1, 0), std::cmp::Ordering::Less);
    assert_eq!(compare_lightness(&samples, 0, 1), std::cmp::Ordering::Greater);
    assert_eq!(lightness_order(&samples), vec![1, 0, 2]);
}

#[test]
fn decode_error_message_has_prefix() {
    match top_colours_hex_buffer(b"GIF89a broken") {
        Err(e) => assert!(e.message().starts_with(top_colours::READ_FAILURE)),
        Ok(h) => panic!("decoded {:?}", h),
    }
}
