//! The frame compositor: for a frame index, every cell of the screen with
//! its character and the colour runs that paint it.
use vstd::prelude::*;
use vstd::arithmetic::div_mod::{lemma_fundamental_div_mod, lemma_fundamental_div_mod_converse, lemma_mod_bound};
use crate::art::{art_rows, join_rows, trim_newlines};
use crate::color::{assemble_cycle, cycle_of, foreground, spec_foreground, Rgb};
use crate::layout::{layout_of, Layout};

verus! {

/// How far the frame index moves on each tick.
pub const SPEED: u64 = 2;

/// One element of a rendered row.
#[derive(Clone, Copy, Debug, PartialEq, Eq, Structural)]
pub enum Piece {
    /// From here on the background is this stripe colour.
    Stripe(Rgb),
    /// From here on the background is this stripe colour under the overlay of
    /// half-transparent black, blended in linear light.
    Shaded(Rgb),
    /// From here on characters are drawn in this colour.
    Ink(Rgb),
    /// One character cell.
    Glyph(char),
    /// Reset the style and end the row.
    Break,
}

/// Everything a frame is drawn from; none of it changes while the scene runs.
pub struct Scene {
    pub layout: Layout,
    pub cycle: Vec<Rgb>,
    pub art: Vec<Vec<char>>,
    pub notice: Vec<char>,
    pub ink: Rgb,
}

pub open spec fn coordinate_fits(v: i128) -> bool {
    -0x1_0000_0000_0000_0000_0000 <= v <= 0x1_0000_0000_0000_0000_0000
}

impl Scene {
    /// Stripes at least one column wide, a non-empty colour cycle, and box
    /// coordinates far from the limits of their type.
    pub open spec fn wf(&self) -> bool {
        let l = self.layout;
        &&& l.block_width >= 1
        &&& self.cycle@.len() >= 1
        &&& coordinate_fits(l.text_start_x)
        &&& coordinate_fits(l.text_end_x)
        &&& coordinate_fits(l.text_start_y)
        &&& coordinate_fits(l.text_end_y)
        &&& coordinate_fits(l.notice_start_x)
        &&& coordinate_fits(l.notice_end_x)
        &&& coordinate_fits(l.notice_y)
    }
}

/// Why a scene cannot be drawn.
#[derive(Clone, Copy, Debug, PartialEq, Eq, Structural)]
pub enum SceneError {
    /// Fewer than nine columns: the stripes would be no column wide.
    TooNarrow,
    /// The presets hold no colour at all.
    NoColors,
}

impl Scene {
    /// Builds the scene for a `w` x `h` terminal: the colour cycle of
    /// `presets`, the rows of `art_text` (the first row's length is the art's
    /// width), the notice, and their layout.
    pub fn new(w: u16, h: u16, presets: &Vec<Vec<Rgb>>, art_text: &Vec<char>, notice: &Vec<char>) -> (r:
        Result<Scene, SceneError>)
        ensures
            w < 9 ==> r == Err::<Scene, SceneError>(SceneError::TooNarrow),
            w >= 9 && cycle_of(presets@).len() == 0 ==> r == Err::<Scene, SceneError>(
                SceneError::NoColors,
            ),
            w >= 9 && cycle_of(presets@).len() > 0 ==> r is Ok,
            r matches Ok(s) ==> {
                &&& s.wf()
                &&& s.layout == layout_of(
                    w,
                    h,
                    s.art@.len() as usize,
                    s.art@[0]@.len() as usize,
                    notice@.len() as usize,
                )
                &&& s.cycle@ == cycle_of(presets@)
                &&& join_rows(s.art@.map_values(|a: Vec<char>| a@)) == trim_newlines(art_text@)
                &&& forall|i: int| 0 <= i < s.art@.len() ==> !(#[trigger] s.art@[i])@.contains('\n')
                &&& s.notice@ == notice@
                &&& s.ink == spec_foreground()
            },
    {
        if w < 9 {
            return Err(SceneError::TooNarrow);
        }
        let cycle = assemble_cycle(presets);
        if cycle.len() == 0 {
            return Err(SceneError::NoColors);
        }
        let art = art_rows(art_text);
        let layout = Layout::new(w, h, art.len(), art[0].len(), notice.len());
        Ok(Scene { layout, cycle, art, notice: notice.clone(), ink: foreground() })
    }
}

/// `a / b`, rounded towards negative infinity.
fn floor_div(a: i128, b: i128) -> (q: i128)
    requires
        b > 0,
        a > i128::MIN,
    ensures
        q == a / b,
        a >= 0 ==> q >= 0,
        a < 0 ==> a <= q < 0,
{
    if a >= 0 {
        proof {
            lemma_fundamental_div_mod(a as int, b as int);
            lemma_mod_bound(a as int, b as int);
            assert(a / b >= 0) by (nonlinear_arith)
                requires
                    a == b * (a / b) + a % b,
                    0 <= a % b < b,
                    a >= 0,
                    b > 0,
            ;
        }
        a / b
    } else {
        let m: i128 = -(a + 1);
        let q: i128 = m / b;
        let r: i128 = m % b;
        proof {
            lemma_fundamental_div_mod(m as int, b as int);
            lemma_mod_bound(m as int, b as int);
            assert(a == (-q - 1) * b + (b - r - 1)) by (nonlinear_arith)
                requires
                    m == b * q + r,
                    a == -m - 1,
            ;
            lemma_fundamental_div_mod_converse(a as int, b as int, -q - 1, b - r - 1);
            assert(0 <= q <= m) by (nonlinear_arith)
                requires
                    m == b * q + r,
                    0 <= r < b,
                    m >= 0,
                    b >= 1,
            ;
        }
        -q - 1
    }
}

/// `a` modulo `b`, in `[0, b)`.
fn floor_mod(a: i128, b: i128) -> (r: i128)
    requires
        b > 0,
        a > i128::MIN,
    ensures
        r == a % b,
        0 <= r < b,
{
    proof {
        lemma_mod_bound(a as int, b as int);
    }
    if a >= 0 {
        a % b
    } else {
        let m: i128 = -(a + 1);
        let q: i128 = m / b;
        let r: i128 = m % b;
        proof {
            lemma_fundamental_div_mod(m as int, b as int);
            lemma_mod_bound(m as int, b as int);
            assert(a == (-q - 1) * b + (b - r - 1)) by (nonlinear_arith)
                requires
                    m == b * q + r,
                    a == -m - 1,
            ;
            lemma_fundamental_div_mod_converse(a as int, b as int, -q - 1, b - r - 1);
        }
        b - r - 1
    }
}

/// The diagonal wave index of cell `(x, y)`: the frame, the position, and the
/// row's ripple `floor(2 * sin(y + frame / 2))`.
pub open spec fn wave_index(frame: int, x: int, y: int, ripple: int) -> int {
    frame + x + y + ripple
}

/// The position in a colour cycle of `len` colours of the stripe that holds
/// wave index `idx`.
pub open spec fn stripe_of(idx: int, block_width: int, len: int) -> int {
    (idx / block_width) % len
}

/// How far beyond the art box, on row `y`, its overlay and its colour
/// boundaries reach: one column on its top and bottom rows, two elsewhere.
pub open spec fn border(l: Layout, y: int) -> int {
    if y == l.text_start_y || y == l.text_end_y - 1 {
        1
    } else {
        2
    }
}

/// A new background colour is emitted at cell `(x, y)`.
pub open spec fn is_switch(l: Layout, idx: int, x: int, y: int) -> bool {
    ||| idx % (l.block_width as int) == 0
    ||| x == l.text_start_x - border(l, y)
    ||| x == l.text_end_x + border(l, y)
    ||| x == l.notice_start_x - 1
    ||| x == l.notice_end_x + 1
}

/// Cell `(x, y)` lies under the darkening overlay of the art or the notice.
pub open spec fn in_overlay(l: Layout, x: int, y: int) -> bool {
    ||| (l.text_start_y <= y < l.text_end_y && l.text_start_x - border(l, y) <= x < l.text_end_x
        + border(l, y))
    ||| (y == l.notice_y && l.notice_start_x - 1 <= x < l.notice_end_x + 1)
}

/// The character of cell `(x, y)`: the art's where the cell is inside the art
/// box and its row has one there, else the notice's likewise, else a space.
pub open spec fn glyph_at(s: Scene, x: int, y: int) -> char {
    let l = s.layout;
    let ay = y - l.text_start_y;
    let ax = x - l.text_start_x;
    let nx = x - l.notice_start_x;
    if l.text_start_y <= y < l.text_end_y && l.text_start_x <= x < l.text_end_x && ay < s.art@.len()
        && ax < s.art@[ay]@.len() {
        s.art@[ay]@[ax]
    } else if y == l.notice_y && l.notice_start_x <= x < l.notice_end_x && nx < s.notice@.len() {
        s.notice@[nx]
    } else {
        ' '
    }
}

/// The colour of the stripe that holds wave index `idx`.
pub open spec fn stripe_color(s: Scene, idx: int) -> Rgb {
    s.cycle@[stripe_of(idx, s.layout.block_width as int, s.cycle@.len() as int)]
}

/// What cell `(x, y)` adds to its row: a background colour where one is
/// emitted there, then its character.
pub open spec fn cell_pieces(s: Scene, frame: int, ripple: int, x: int, y: int) -> Seq<Piece> {
    let idx = wave_index(frame, x, y, ripple);
    let g = Piece::Glyph(glyph_at(s, x, y));
    if is_switch(s.layout, idx, x, y) {
        if in_overlay(s.layout, x, y) {
            seq![Piece::Shaded(stripe_color(s, idx)), g]
        } else {
            seq![Piece::Stripe(stripe_color(s, idx)), g]
        }
    } else {
        seq![g]
    }
}

/// The pieces of the first `n` cells of row `y`.
pub open spec fn cells_upto(s: Scene, frame: int, ripple: int, y: int, n: int) -> Seq<Piece>
    decreases n,
{
    if n <= 0 {
        Seq::empty()
    } else {
        cells_upto(s, frame, ripple, y, n - 1) + cell_pieces(s, frame, ripple, n - 1, y)
    }
}

/// Row `y`: the background of its first cell's stripe and the ink colour,
/// its cells, and a break unless it is the last row.
pub open spec fn row_pieces(s: Scene, frame: int, ripple: int, y: int) -> Seq<Piece> {
    let head = seq![Piece::Stripe(stripe_color(s, wave_index(frame, 0, y, ripple))), Piece::Ink(s.ink)];
    let tail = if y != s.layout.height - 1 {
        seq![Piece::Break]
    } else {
        Seq::empty()
    };
    head + cells_upto(s, frame, ripple, y, s.layout.width as int) + tail
}

/// The whole frame, row by row; `ripples[y]` is row `y`'s ripple.
pub open spec fn frame_rows(s: Scene, frame: int, ripples: Seq<i64>) -> Seq<Seq<Piece>> {
    Seq::new(s.layout.height as nat, |y: int| row_pieces(s, frame, ripples[y] as int, y))
}

/// The colour of the stripe that holds wave index `idx`.
fn pick_stripe(s: &Scene, idx: i128) -> (c: Rgb)
    requires
        s.wf(),
        idx > i128::MIN,
    ensures
        c == stripe_color(*s, idx as int),
{
    let q = floor_div(idx, s.layout.block_width as i128);
    let k = floor_mod(q, s.cycle.len() as i128);
    s.cycle[k as usize]
}

/// The character of cell `(x, y)`.
fn pick_glyph(s: &Scene, x: u16, y: u16) -> (g: char)
    requires
        s.wf(),
    ensures
        g == glyph_at(*s, x as int, y as int),
{
    let l = &s.layout;
    let xi = x as i128;
    let yi = y as i128;
    if l.text_start_y <= yi && yi < l.text_end_y && l.text_start_x <= xi && xi < l.text_end_x
        && yi - l.text_start_y < s.art.len() as i128 {
        let ay = (yi - l.text_start_y) as usize;
        if xi - l.text_start_x < s.art[ay].len() as i128 {
            return s.art[ay][(xi - l.text_start_x) as usize];
        }
    }
    if yi == l.notice_y && l.notice_start_x <= xi && xi < l.notice_end_x && xi - l.notice_start_x
        < s.notice.len() as i128 {
        return s.notice[(xi - l.notice_start_x) as usize];
    }
    ' '
}

/// Appends the pieces of cell `(x, y)` to `out`.
fn push_cell(s: &Scene, frame: u64, ripple: i64, x: u16, y: u16, out: &mut Vec<Piece>)
    requires
        s.wf(),
    ensures
        final(out)@ == old(out)@ + cell_pieces(*s, frame as int, ripple as int, x as int, y as int),
{
    let l = &s.layout;
    let xi = x as i128;
    let yi = y as i128;
    let idx: i128 = frame as i128 + xi + yi + ripple as i128;
    let border: i128 = if yi == l.text_start_y || yi == l.text_end_y - 1 { 1 } else { 2 };
    let switch = floor_mod(idx, l.block_width as i128) == 0 || xi == l.text_start_x - border || xi
        == l.text_end_x + border || xi == l.notice_start_x - 1 || xi == l.notice_end_x + 1;
    if switch {
        let c = pick_stripe(s, idx);
        let shaded = (l.text_start_y <= yi && yi < l.text_end_y && l.text_start_x - border <= xi
            && xi < l.text_end_x + border) || (yi == l.notice_y && l.notice_start_x - 1 <= xi && xi
            < l.notice_end_x + 1);
        if shaded {
            out.push(Piece::Shaded(c));
        } else {
            out.push(Piece::Stripe(c));
        }
    }
    out.push(Piece::Glyph(pick_glyph(s, x, y)));
    proof {
        assert(out@ =~= old(out)@ + cell_pieces(*s, frame as int, ripple as int, x as int, y as int));
    }
}

/// Renders row `y` of frame `frame`, whose ripple is `ripple`.
pub fn render_row(s: &Scene, frame: u64, ripple: i64, y: u16) -> (row: Vec<Piece>)
    requires
        s.wf(),
    ensures
        row@ == row_pieces(*s, frame as int, ripple as int, y as int),
{
    let mut row: Vec<Piece> = Vec::new();
    row.push(Piece::Stripe(pick_stripe(s, frame as i128 + y as i128 + ripple as i128)));
    row.push(Piece::Ink(s.ink));
    let ghost head = row@;
    let mut x: u16 = 0;
    while x < s.layout.width
        invariant
            s.wf(),
            0 <= x <= s.layout.width,
            row@ == head + cells_upto(*s, frame as int, ripple as int, y as int, x as int),
        decreases s.layout.width - x,
    {
        push_cell(s, frame, ripple, x, y, &mut row);
        x += 1;
        proof {
            assert(row@ =~= head + cells_upto(*s, frame as int, ripple as int, y as int, x as int));
        }
    }
    if y as i128 != s.layout.height as i128 - 1 {
        row.push(Piece::Break);
    }
    proof {
        assert(row@ =~= row_pieces(*s, frame as int, ripple as int, y as int));
    }
    row
}

/// Renders frame `frame`: one row per line of the screen, `ripples[y]` being
/// row `y`'s ripple. Depends on nothing but its arguments.
pub fn render_frame(s: &Scene, frame: u64, ripples: &Vec<i64>) -> (rows: Vec<Vec<Piece>>)
    requires
        s.wf(),
        ripples@.len() == s.layout.height,
    ensures
        rows@.map_values(|r: Vec<Piece>| r@) == frame_rows(*s, frame as int, ripples@),
{
    let mut rows: Vec<Vec<Piece>> = Vec::new();
    let mut y: u16 = 0;
    while y < s.layout.height
        invariant
            s.wf(),
            ripples@.len() == s.layout.height,
            0 <= y <= s.layout.height,
            rows@.len() == y,
            forall|k: int|
                0 <= k < y ==> (#[trigger] rows@[k])@ == row_pieces(
                    *s,
                    frame as int,
                    ripples@[k] as int,
                    k,
                ),
        decreases s.layout.height - y,
    {
        let row = render_row(s, frame, ripples[y as usize], y);
        rows.push(row);
        y += 1;
    }
    proof {
        assert(rows@.map_values(|r: Vec<Piece>| r@) =~= frame_rows(*s, frame as int, ripples@));
    }
    rows
}

/// Every stripe index is a valid position in the colour cycle: for any
/// wave index `idx` (negative ones too, division and remainder rounding
/// towards negative infinity), stripe width at least one and a non-empty
/// cycle, `(idx / block_width) mod len` lies in `[0, len)`.
pub proof fn lemma_stripe_index_in_cycle(idx: int, block_width: int, len: int)
    requires
        block_width >= 1,
        len >= 1,
    ensures
        0 <= stripe_of(idx, block_width, len) < len,
{
    lemma_mod_bound(idx / block_width, len);
}

/// The background in force at cell `x` of row `y`, and whether it is shaded:
/// the last one emitted by the row's head or by cells `0..=x`.
pub open spec fn background_at(s: Scene, frame: int, ripple: int, y: int, x: int) -> (Rgb, bool)
    decreases x + 1,
{
    if x < 0 {
        (stripe_color(s, wave_index(frame, 0, y, ripple)), false)
    } else {
        match cell_pieces(s, frame, ripple, x, y)[0] {
            Piece::Stripe(c) => (c, false),
            Piece::Shaded(c) => (c, true),
            _ => background_at(s, frame, ripple, y, x - 1),
        }
    }
}

proof fn lemma_same_stripe_inside(i: int, bw: int)
    requires
        bw >= 1,
        (i + 1) % bw != 0,
    ensures
        (i + 1) / bw == i / bw,
{
    lemma_fundamental_div_mod(i, bw);
    lemma_mod_bound(i, bw);
    let q = i / bw;
    let r = i % bw;
    if r + 1 == bw {
        assert(i + 1 == (q + 1) * bw + 0) by (nonlinear_arith)
            requires
                i == bw * q + r,
                r + 1 == bw,
        ;
        lemma_fundamental_div_mod_converse(i + 1, bw, q + 1, 0);
    } else {
        assert(i + 1 == q * bw + (r + 1)) by (nonlinear_arith)
            requires
                i == bw * q + r,
        ;
        lemma_fundamental_div_mod_converse(i + 1, bw, q, r + 1);
    }
}

/// Every cell shows the colour of its own stripe, shaded exactly where it
/// lies under the overlay of the art or the notice, provided neither overlay
/// begins left of the screen on that row (content that overflows the screen
/// is drawn without this promise).
pub proof fn lemma_each_cell_shows_its_stripe(s: Scene, frame: int, ripple: int, y: int, x: int)
    requires
        s.wf(),
        0 <= x,
        s.layout.text_start_y <= y < s.layout.text_end_y ==> s.layout.text_start_x - border(
            s.layout,
            y,
        ) >= 0,
        y == s.layout.notice_y ==> s.layout.notice_start_x >= 1,
    ensures
        background_at(s, frame, ripple, y, x) == (
            stripe_color(s, wave_index(frame, x, y, ripple)),
            in_overlay(s.layout, x, y),
        ),
    decreases x,
{
    let l = s.layout;
    let idx = wave_index(frame, x, y, ripple);
    let cell = cell_pieces(s, frame, ripple, x, y);
    if is_switch(l, idx, x, y) {
        if in_overlay(l, x, y) {
            assert(cell[0] == Piece::Shaded(stripe_color(s, idx)));
        } else {
            assert(cell[0] == Piece::Stripe(stripe_color(s, idx)));
        }
    } else {
        assert(cell[0] == Piece::Glyph(glyph_at(s, x, y)));
        assert(background_at(s, frame, ripple, y, x) == background_at(s, frame, ripple, y, x - 1));
        if x > 0 {
            lemma_each_cell_shows_its_stripe(s, frame, ripple, y, x - 1);
            lemma_same_stripe_inside(wave_index(frame, x - 1, y, ripple), l.block_width as int);
            assert(in_overlay(l, x, y) == in_overlay(l, x - 1, y));
        } else {
            assert(!in_overlay(l, x, y));
        }
    }
}

/// Two scenes that agree on what they hold.
pub open spec fn same_scene(a: Scene, b: Scene) -> bool {
    &&& a.layout == b.layout
    &&& a.cycle@ == b.cycle@
    &&& a.art@.map_values(|r: Vec<char>| r@) == b.art@.map_values(|r: Vec<char>| r@)
    &&& a.notice@ == b.notice@
    &&& a.ink == b.ink
}

proof fn lemma_cells_same(a: Scene, b: Scene, frame: int, ripple: int, y: int, n: int)
    requires
        same_scene(a, b),
    ensures
        cells_upto(a, frame, ripple, y, n) == cells_upto(b, frame, ripple, y, n),
    decreases n,
{
    if n > 0 {
        lemma_cells_same(a, b, frame, ripple, y, n - 1);
        let x = n - 1;
        let ay = y - a.layout.text_start_y;
        assert(a.art@.len() == a.art@.map_values(|r: Vec<char>| r@).len());
        assert(b.art@.len() == b.art@.map_values(|r: Vec<char>| r@).len());
        if 0 <= ay < a.art@.len() {
            assert(a.art@.map_values(|r: Vec<char>| r@)[ay] == b.art@.map_values(|r: Vec<char>| r@)[ay]);
        }
        assert(glyph_at(a, x, y) == glyph_at(b, x, y));
        assert(cell_pieces(a, frame, ripple, x, y) == cell_pieces(b, frame, ripple, x, y));
    }
}

/// Rendering depends on nothing but its inputs: frames rendered from scenes
/// that hold the same layout, colours, art, notice and ink, at the same frame
/// index with the same ripples, are identical.
pub proof fn lemma_render_deterministic(a: Scene, b: Scene, frame: int, ripples: Seq<i64>)
    requires
        same_scene(a, b),
    ensures
        frame_rows(a, frame, ripples) == frame_rows(b, frame, ripples),
{
    assert forall|y: int| 0 <= y < a.layout.height implies row_pieces(a, frame, ripples[y] as int, y)
        == row_pieces(b, frame, ripples[y] as int, y) by {
        lemma_cells_same(a, b, frame, ripples[y] as int, y, a.layout.width as int);
    }
    assert(frame_rows(a, frame, ripples) =~= frame_rows(b, frame, ripples));
}

/// Advancing the frame by `SPEED` moves every stripe of row `y` by one
/// offset, the same at every column: with the row's ripple going from `r1`
/// to `r2`, cell `x` of the later frame has the wave index, the stripe colour
/// and the boundary status that cell `x + SPEED + r2 - r1` had before.
pub proof fn lemma_stripes_shift(s: Scene, frame: int, y: int, r1: int, r2: int)
    requires
        s.wf(),
        frame >= 0,
    ensures
        forall|x: int|
            {
                let d = SPEED + r2 - r1;
                let later = #[trigger] wave_index(frame + SPEED, x, y, r2);
                let earlier = wave_index(frame, x + d, y, r1);
                &&& later == earlier
                &&& stripe_color(s, later) == stripe_color(s, earlier)
                &&& (later % (s.layout.block_width as int) == 0) == (earlier % (
                s.layout.block_width as int) == 0)
            },
{
}

} // verus!
