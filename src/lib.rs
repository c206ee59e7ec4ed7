pub mod clusters;
pub mod decode;
pub mod hex;
pub mod lab_color;
pub mod merge;
pub mod palette;
pub mod samples;

use vstd::prelude::*;
use crate::clusters::CLUSTER_COUNT;
use crate::decode::{decodes, describe_error, sample_encoded, sampled_pixels};
use crate::hex::{hex_palette, hex_string};
use crate::palette::{palette_fits, palette_of_pixels, rgbs};

verus! {

/// Side of the square grid that an image is reduced to before sampling.
pub const SAMPLE_SIZE: u32 = 48;

/// Start of the message of a decoding failure.
pub const READ_FAILURE: &'static str = "failed to read file, ";

/// Why no palette could be extracted.
#[derive(Debug)]
pub enum ExtractError {
    /// The bytes could not be read as an image; carries the cause.
    Decode(image::ImageError),
}

impl ExtractError {
    /// A message that starts with `READ_FAILURE` and goes on to name the cause.
    pub fn message(&self) -> (r: String)
        ensures
            r@.len() >= READ_FAILURE@.len(),
            r@.take(READ_FAILURE@.len() as int) == READ_FAILURE@,
    {
        match self {
            ExtractError::Decode(e) => {
                let mut r = String::from_str(READ_FAILURE);
                let cause = describe_error(e);
                r.append(cause.as_str());
                assert(r@.take(READ_FAILURE@.len() as int) =~= READ_FAILURE@);
                r
            },
        }
    }
}

/// `h` is `p` with each colour written as `#rrggbb`, in the same order.
pub open spec fn hex_of_palette(h: Seq<String>, p: Seq<Seq<u8>>) -> bool {
    h.len() == p.len() && forall|i: int| 0 <= i < h.len() ==> (#[trigger] h[i])@ == hex_string(p[i])
}

/// The dominant colours of an encoded image, as sRGB triples, most dominant
/// first; an error exactly where the bytes cannot be decoded. The format is
/// guessed from the bytes, the image is reduced with the nearest-neighbour
/// filter to fit a `SAMPLE_SIZE` square, and its pixels go through
/// `palette_of_pixels`.
pub fn top_colours_buffer(buffer: &[u8]) -> (r: Result<Vec<[u8; 3]>, ExtractError>)
    ensures
        r is Ok <==> decodes(buffer@),
        r matches Ok(p) ==> 1 <= p.len() <= CLUSTER_COUNT && palette_fits(sampled_pixels(buffer@, SAMPLE_SIZE), rgbs(p@)),
{
    match sample_encoded(buffer, SAMPLE_SIZE) {
        Ok(pixels) => Ok(palette_of_pixels(&pixels)),
        Err(e) => Err(ExtractError::Decode(e)),
    }
}

/// The same as `top_colours_buffer`.
pub fn top_colors_buffer(buffer: &[u8]) -> (r: Result<Vec<[u8; 3]>, ExtractError>)
    ensures
        r is Ok <==> decodes(buffer@),
        r matches Ok(p) ==> 1 <= p.len() <= CLUSTER_COUNT && palette_fits(sampled_pixels(buffer@, SAMPLE_SIZE), rgbs(p@)),
{
    top_colours_buffer(buffer)
}

/// The dominant colours of an encoded image, each as `#rrggbb`: the palette
/// of `top_colours_buffer` written out, or its error passed on.
pub fn top_colours_hex_buffer(buffer: &[u8]) -> (r: Result<Vec<String>, ExtractError>)
    ensures
        r is Ok <==> decodes(buffer@),
        r matches Ok(h) ==> 1 <= h.len() <= CLUSTER_COUNT && exists|p: Seq<Seq<u8>>|
            #[trigger] palette_fits(sampled_pixels(buffer@, SAMPLE_SIZE), p) && hex_of_palette(h@, p),
{
    match top_colours_buffer(buffer) {
        Ok(palette) => {
            let h = hex_palette(&palette);
            assert(hex_of_palette(h@, rgbs(palette@)));
            Ok(h)
        },
        Err(e) => Err(e),
    }
}

/// The same as `top_colours_hex_buffer`.
pub fn top_colors_hex_buffer(buffer: &[u8]) -> (r: Result<Vec<String>, ExtractError>)
    ensures
        r is Ok <==> decodes(buffer@),
        r matches Ok(h) ==> 1 <= h.len() <= CLUSTER_COUNT && exists|p: Seq<Seq<u8>>|
            #[trigger] palette_fits(sampled_pixels(buffer@, SAMPLE_SIZE), p) && hex_of_palette(h@, p),
{
    top_colours_hex_buffer(buffer)
}

} // verus!
