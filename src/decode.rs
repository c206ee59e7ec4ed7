use vstd::prelude::*;

verus! {

#[verifier::external_type_specification]
#[verifier::external_body]
pub struct ExImageError(image::ImageError);

/// The bytes decode as an image of a format that `image` recognises from
/// their content.
pub uninterp spec fn decodes(bytes: Seq<u8>) -> bool;

/// The pixels, in raster order and without alpha, of the image that the
/// bytes encode once reduced with the nearest-neighbour filter to fit within
/// `side` × `side`.
pub uninterp spec fn sampled_pixels(bytes: Seq<u8>, side: u32) -> Seq<[u8; 3]>;

/// Relies on `image::load_from_memory`, which decodes an image whose format
/// it guesses from the bytes, or reports why it cannot; on
/// `DynamicImage::resize` with the nearest-neighbour filter, which scales the
/// image, keeping its aspect ratio, to fit within `side` × `side` and never
/// gives a side of zero; and on `GenericImageView::pixels`, which lists every
/// pixel of the result in raster order. The alpha channel is dropped here.
#[verifier::external_body]
pub(crate) fn sample_encoded(bytes: &[u8], side: u32) -> (r: Result<Vec<[u8; 3]>, image::ImageError>)
    requires
        side >= 1,
    ensures
        r is Ok <==> decodes(bytes@),
        r matches Ok(px) ==> px@ == sampled_pixels(bytes@, side) && 1 <= px.len() <= side * side,
{
    let img = image::load_from_memory(bytes)?;
    let small = img.resize(side, side, image::imageops::FilterType::Nearest);
    Ok(image::GenericImageView::pixels(&small).map(|(_, _, p)| [p.0[0], p.0[1], p.0[2]]).collect())
}

/// Relies on the `Display` of `image::ImageError`: a description of the cause.
#[verifier::external_body]
pub(crate) fn describe_error(e: &image::ImageError) -> (r: String) {
    e.to_string()
}

} // verus!
