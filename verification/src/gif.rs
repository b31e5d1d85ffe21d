//! The integer side of the animation made of a sequence: which frames it
//! shows and the palette in the form the GIF encoder takes.
use vstd::prelude::*;

verus! {

/// Whether frame `i` of a sequence is drawn into the animation: every other
/// frame, starting with the first.
pub fn drawn_in_animation(i: usize) -> (b: bool)
    ensures
        b == (i % 2 == 0),
{
    i % 2 == 0
}

/// The number of four-byte chunks of `n` bytes (the last may be short).
pub open spec fn chunk_count(n: int) -> int {
    (n + 3) / 4
}

/// Whether every four-byte chunk of `n` bytes has its first three bytes.
pub open spec fn chunks_have_rgb(n: int) -> bool {
    n % 4 == 0 || n % 4 == 3
}

/// A palette of RGBA colours as RGB colours: the first three bytes of each
/// four-byte chunk.
pub fn rgb_palette(rgba: &[u8]) -> (rgb: Vec<u8>)
    requires
        chunks_have_rgb(rgba@.len() as int),
        rgba@.len() <= isize::MAX,
    ensures
        rgb@.len() == 3 * chunk_count(rgba@.len() as int),
        forall|j: int, c: int|
            0 <= j < chunk_count(rgba@.len() as int) && 0 <= c < 3 ==> #[trigger] rgb@[3 * j + c]
                == rgba@[4 * j + c],
{
    let mut rgb: Vec<u8> = Vec::new();
    let mut k: usize = 0;
    while k < rgba.len()
        invariant
            chunks_have_rgb(rgba@.len() as int),
            rgba@.len() <= isize::MAX,
            k % 4 == 0,
            k <= rgba@.len() + 3,
            k < rgba@.len() ==> k + 3 <= rgba@.len(),
            rgb@.len() == 3 * (k / 4),
            forall|j: int, c: int|
                0 <= j < k / 4 && 0 <= c < 3 ==> #[trigger] rgb@[3 * j + c] == rgba@[4 * j + c],
        decreases rgba@.len() + 3 - k,
    {
        rgb.push(rgba[k]);
        rgb.push(rgba[k + 1]);
        rgb.push(rgba[k + 2]);
        assert forall|j: int, c: int| 0 <= j < (k + 4) / 4 && 0 <= c < 3 implies #[trigger] rgb@[3
            * j + c] == rgba@[4 * j + c] by {
            if j < k / 4 {
            } else {
                assert(j == k / 4);
            }
        }
        k = k + 4;
    }
    rgb
}

} // verus!
