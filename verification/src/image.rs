//! Grey pixels as the colour image that a display takes.

use vstd::prelude::*;

verus! {

/// The colour image of a row of grey pixels: each pixel three times, as its
/// red, green and blue part.
pub open spec fn rgb_of(pixels: Seq<u8>) -> Seq<u8> {
    Seq::new(3 * pixels.len(), |k: int| pixels[k / 3])
}

/// Turns grey pixels into a colour image of the same look: three bytes for
/// each pixel, all equal to it.
pub fn gray_to_rgb(pixels: &[u8]) -> (image: Vec<u8>)
    ensures
        image@ == rgb_of(pixels@),
        image@.len() == 3 * pixels@.len(),
{
    let mut image: Vec<u8> = Vec::new();
    let mut i: usize = 0;
    while i < pixels.len()
        invariant
            i <= pixels@.len(),
            image@.len() == 3 * i,
            forall|k: int| 0 <= k < image@.len() ==> image@[k] == pixels@[k / 3],
        decreases pixels.len() - i,
    {
        let pixel: u8 = pixels[i];
        image.push(pixel);
        image.push(pixel);
        image.push(pixel);
        i += 1;
    }
    proof {
        assert(image@ =~= rgb_of(pixels@));
    }
    image
}

} // verus!
