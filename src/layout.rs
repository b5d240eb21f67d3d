//! Where the art and the notice stand on a terminal of a given size.
use vstd::prelude::*;

verus! {

/// Number of colour bands that fit across the screen.
pub const BLOCKS: u16 = 9;

/// Boxes of the scene on a `width` x `height` terminal. Coordinates are
/// signed: content larger than the terminal gives boxes that reach past its
/// edges, which is drawn as far as it shows and never fails.
#[derive(Clone, Copy, Debug, PartialEq, Eq, Structural)]
pub struct Layout {
    pub width: u16,
    pub height: u16,
    /// Width of one colour stripe before the wave distorts it.
    pub block_width: u16,
    pub text_start_x: i128,
    pub text_end_x: i128,
    pub text_start_y: i128,
    pub text_end_y: i128,
    pub notice_start_x: i128,
    pub notice_end_x: i128,
    pub notice_y: i128,
}

/// The art box centred on the screen, the notice right-aligned on the last
/// row, and nine stripes across.
pub open spec fn layout_of(w: u16, h: u16, art_height: usize, art_width: usize, notice_len: usize) -> Layout {
    let start_y = h / 2 - art_height / 2;
    let start_x = w / 2 - art_width / 2;
    Layout {
        width: w,
        height: h,
        block_width: (w / 9) as u16,
        text_start_y: start_y as i128,
        text_end_y: (start_y + art_height) as i128,
        text_start_x: start_x as i128,
        text_end_x: (start_x + art_width) as i128,
        notice_start_x: (w - notice_len - 1) as i128,
        notice_end_x: (w - 1) as i128,
        notice_y: (h - 1) as i128,
    }
}

impl Layout {
    /// Lays out art of `art_height` rows by `art_width` columns and a notice of
    /// `notice_len` characters on a `w` x `h` terminal.
    pub fn new(w: u16, h: u16, art_height: usize, art_width: usize, notice_len: usize) -> (r: Layout)
        ensures
            r == layout_of(w, h, art_height, art_width, notice_len),
    {
        let w64: i128 = w as i128;
        let h64: i128 = h as i128;
        let start_y: i128 = h64 / 2 - (art_height as i128) / 2;
        let start_x: i128 = w64 / 2 - (art_width as i128) / 2;
        Layout {
            width: w,
            height: h,
            block_width: w / BLOCKS,
            text_start_y: start_y,
            text_end_y: start_y + art_height as i128,
            text_start_x: start_x,
            text_end_x: start_x + art_width as i128,
            notice_start_x: w64 - notice_len as i128 - 1,
            notice_end_x: w64 - 1,
            notice_y: h64 - 1,
        }
    }
}

/// When the art fits on the screen and the notice fits on its row, every box
/// is ordered (start no later than end) and lies inside the screen: the art's
/// columns in `[0, w)` and rows in `[0, h)`, the notice's columns in `[0, w)`
/// and its row the last one. A screen at least nine columns wide has stripes
/// at least one column wide.
pub proof fn lemma_layout_within_screen(
    w: u16,
    h: u16,
    art_height: usize,
    art_width: usize,
    notice_len: usize,
)
    requires
        art_height <= h,
        art_width <= w,
        notice_len + 1 <= w,
        h >= 1,
    ensures
        ({
            let l = layout_of(w, h, art_height, art_width, notice_len);
            &&& 0 <= l.text_start_x <= l.text_end_x <= w
            &&& 0 <= l.text_start_y <= l.text_end_y <= h
            &&& l.text_end_x - l.text_start_x == art_width
            &&& l.text_end_y - l.text_start_y == art_height
            &&& 0 <= l.notice_start_x <= l.notice_end_x < w
            &&& 0 <= l.notice_y < h
            &&& (w >= 9 ==> l.block_width >= 1)
        }),
{
}

} // verus!
