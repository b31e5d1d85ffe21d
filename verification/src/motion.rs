//! Where the detector looks for motion between two frames: a centred strip
//! of the current frame is searched for in a wider centred region of the
//! previous one, and the match position is turned into an offset.
use vstd::prelude::*;

verus! {

/// The region of the previous frame that is searched (`x_sub`, `y_sub`,
/// `w_sub` by `h_sub`) and the strip of the current frame that is searched
/// for (`x_slice`, `y_sub`, `w_slice` by `h_sub`).
#[derive(Clone, Copy, Debug, PartialEq, Eq, Structural)]
pub struct SearchWindow {
    pub x_sub: u32,
    pub y_sub: u32,
    pub w_sub: u32,
    pub h_sub: u32,
    pub x_slice: u32,
    pub w_slice: u32,
}

/// The search region for frames `fw` by `fh` and a largest offset of
/// `max_dx`: three times as wide as the largest offset and half the frame
/// high (plus one row), both centred; the strip is as wide as the largest
/// offset and centred too.
pub open spec fn search_window_of(fw: u32, fh: u32, max_dx: u32) -> SearchWindow {
    let w_sub = 3 * max_dx;
    let h_sub = fh / 2 + 1;
    SearchWindow {
        x_sub: ((fw - w_sub) / 2) as u32,
        y_sub: ((fh - h_sub) / 2) as u32,
        w_sub: w_sub as u32,
        h_sub: h_sub as u32,
        x_slice: ((fw - max_dx) / 2) as u32,
        w_slice: max_dx,
    }
}

/// The search region and strip; the frame must be at least three largest
/// offsets wide and one row high.
pub fn search_window(fw: u32, fh: u32, max_dx: u32) -> (r: SearchWindow)
    requires
        3 * max_dx <= fw,
        fh >= 1,
    ensures
        r == search_window_of(fw, fh, max_dx),
{
    let w_sub = max_dx * 3;
    let h_sub = fh / 2 + 1;
    SearchWindow {
        x_sub: (fw - w_sub) / 2,
        y_sub: (fh - h_sub) / 2,
        w_sub,
        h_sub,
        x_slice: (fw - max_dx) / 2,
        w_slice: max_dx,
    }
}

/// Where the strip is found in the region when nothing moved.
pub open spec fn still_position(w: SearchWindow) -> int {
    w.x_slice - w.x_sub
}

/// The offset between the frames when the strip is best found at column
/// `x` of the region: positive when the picture moved left.
pub fn match_offset(x: u32, w: SearchWindow) -> (dx: i32)
    requires
        x <= i32::MAX,
        w.x_slice <= i32::MAX,
        w.x_sub <= i32::MAX,
        i32::MIN <= x - still_position(w) <= i32::MAX,
    ensures
        dx == x - still_position(w),
{
    let x_zero = w.x_slice as i32 - w.x_sub as i32;
    x as i32 - x_zero
}

} // verus!
