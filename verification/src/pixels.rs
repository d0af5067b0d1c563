//! Counting the red pixels of an image.

use image::io::Reader;
use std::io::Cursor;
use vstd::prelude::*;

verus! {

/// The pixels of the image that `data` encodes, row by row, each as its
/// red, green and blue, or `None` where `data` is no image that decodes to
/// eight bits for each of the three.
pub uninterp spec fn decoded_rgb8(data: Seq<u8>) -> Option<Seq<(u8, u8, u8)>>;

/// Calls `Reader::new`, `with_guessed_format` and `decode` of the `image`
/// crate, then `as_rgb8` and `pixels` on what was decoded.
///
/// Trusted: whether the bytes decode, and to which pixels, depends on the
/// bytes alone.
#[verifier::external_body]
fn decode_rgb8(data: &[u8]) -> (pixels: Option<Vec<(u8, u8, u8)>>)
    ensures
        match pixels {
            Some(p) => decoded_rgb8(data@) == Some(p@),
            None => decoded_rgb8(data@) is None,
        },
{
    let reader = match Reader::new(Cursor::new(data)).with_guessed_format() {
        Ok(reader) => reader,
        Err(_) => return None,
    };
    match reader.decode() {
        Ok(image) => image.as_rgb8().map(|rgb| rgb.pixels().map(|p| (p.0[0], p.0[1], p.0[2])).collect()),
        Err(_) => None,
    }
}

/// A pixel is red when its red is more than its green and blue together.
pub open spec fn is_red(pixel: (u8, u8, u8)) -> bool {
    pixel.0 > pixel.1 + pixel.2
}

/// The number of red pixels.
pub open spec fn red_pixels(pixels: Seq<(u8, u8, u8)>) -> nat
    decreases pixels.len(),
{
    if pixels.len() == 0 {
        0
    } else {
        red_pixels(pixels.drop_last()) + if is_red(pixels.last()) {
            1nat
        } else {
            0nat
        }
    }
}

/// The number of red pixels among `pixels`.
pub fn count_red(pixels: &Vec<(u8, u8, u8)>) -> (counter: u64)
    ensures
        counter == red_pixels(pixels@),
{
    let mut counter: u64 = 0;
    let mut i: usize = 0;
    while i < pixels.len()
        invariant
            i <= pixels.len(),
            counter <= i,
            counter == red_pixels(pixels@.take(i as int)),
        decreases pixels.len() - i,
    {
        proof {
            assert(pixels@.take(i + 1).drop_last() =~= pixels@.take(i as int));
        }
        let color = pixels[i];
        if color.0 as u16 > color.1 as u16 + color.2 as u16 {
            counter += 1;
        }
        i += 1;
    }
    proof {
        assert(pixels@.take(i as int) =~= pixels@);
    }
    counter
}

/// The number of red pixels of the image that `data` encodes, or `None`
/// where `data` decodes to no image of red, green and blue.
pub fn read_pixels(data: &[u8]) -> (counter: Option<u64>)
    ensures
        match counter {
            Some(n) => decoded_rgb8(data@) matches Some(pixels) && n == red_pixels(pixels),
            None => decoded_rgb8(data@) is None,
        },
{
    match decode_rgb8(data) {
        Some(pixels) => Some(count_red(&pixels)),
        None => None,
    }
}

} // verus!
