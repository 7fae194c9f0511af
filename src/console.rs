use vstd::arithmetic::div_mod::lemma_fundamental_div_mod_converse;
use vstd::prelude::*;

use crate::color::{opaque_black, opaque_white, Rgba};
use crate::geometry::Rect;

verus! {

/// One grid position: a glyph drawn in a foreground color over a background color.
#[derive(Clone, Copy, Debug, PartialEq, Eq, Structural)]
pub struct Cell {
    pub glyph: u16,
    pub fg: Rgba,
    pub bg: Rgba,
}

/// The glyph of a space.
pub const SPACE: u16 = 32;

/// Glyphs of the box and bar primitives (code page 437).
pub const BOX_TOP_LEFT: u16 = 218;
pub const BOX_TOP_RIGHT: u16 = 191;
pub const BOX_BOTTOM_LEFT: u16 = 192;
pub const BOX_BOTTOM_RIGHT: u16 = 217;
pub const BOX_VERTICAL: u16 = 179;
pub const BOX_HORIZONTAL: u16 = 196;
pub const DOUBLE_TOP_LEFT: u16 = 201;
pub const DOUBLE_TOP_RIGHT: u16 = 187;
pub const DOUBLE_BOTTOM_LEFT: u16 = 200;
pub const DOUBLE_BOTTOM_RIGHT: u16 = 188;
pub const DOUBLE_VERTICAL: u16 = 186;
pub const DOUBLE_HORIZONTAL: u16 = 205;
pub const BAR_FULL: u16 = 178;
pub const BAR_EMPTY: u16 = 176;

/// The glyph that stands for a character: its code point where that fits in
/// 16 bits, else a question mark.
pub open spec fn glyph_of(c: char) -> u16 {
    if (c as u32) < 0x10000 {
        c as u16
    } else {
        63
    }
}

pub open spec fn glyphs_of(text: Seq<char>) -> Seq<u16> {
    text.map_values(|c: char| glyph_of(c))
}

pub open spec fn blank_cell(bg: Rgba) -> Cell {
    Cell { glyph: SPACE, fg: opaque_white(), bg }
}

/// `a - b`, or zero where `b` is larger.
pub open spec fn sat_sub(a: int, b: int) -> int {
    if a >= b {
        a - b
    } else {
        0
    }
}

/// How many cells of a bar of `len` cells stand for `n` out of `max`, at most
/// `len`; a bar whose maximum is zero is full.
pub open spec fn bar_fill(n: int, max: int, len: int) -> int {
    if max == 0 || n >= max {
        len
    } else {
        n * len / max
    }
}

/// A drawing primitive, as it acts on each cell.
pub enum Stroke {
    /// Every cell becomes a space in white over `bg`.
    Clear { bg: Rgba },
    /// Cell `(x, y)` takes the given parts; a part that is `None` is kept.
    Put { x: int, y: int, glyph: Option<u16>, fg: Option<Rgba>, bg: Rgba },
    /// A row of glyphs from `(x, y)` rightwards.
    Text { x: int, y: int, glyphs: Seq<u16>, fg: Rgba, bg: Rgba },
    /// A box border over columns `x..=x+w` and rows `y..=y+h`; when `filled`
    /// its interior becomes spaces.
    Frame { x: int, y: int, w: int, h: int, fg: Rgba, bg: Rgba, double: bool, filled: bool },
    /// Every cell inside `rect` takes the glyph.
    Fill { rect: Rect, glyph: u16, fg: Rgba, bg: Rgba },
    /// Cells `x..x+len` of row `y`; the first `fill + 1` of them full.
    BarH { x: int, y: int, len: int, fill: int, fg: Rgba, bg: Rgba },
    /// Cells `y+1..=y+len` of column `x`, counted from the bottom; the first
    /// `fill + 1` of them full.
    BarV { x: int, y: int, len: int, fill: int, fg: Rgba, bg: Rgba },
    /// Every cell's foreground and/or background alpha is replaced.
    Alpha { fg: Option<u8>, bg: Option<u8> },
}

pub open spec fn writable(clip: Option<Rect>, cx: int, cy: int) -> bool {
    match clip {
        Some(r) => r.contains(cx, cy),
        None => true,
    }
}

/// The border glyph at `(cx, cy)` of a box, or `None` inside it.
pub open spec fn frame_glyph(x: int, y: int, w: int, h: int, double: bool, cx: int, cy: int) -> Option<u16> {
    if cx == x + w && cy == y + h {
        Some(if double { DOUBLE_BOTTOM_RIGHT } else { BOX_BOTTOM_RIGHT })
    } else if cx == x && cy == y + h {
        Some(if double { DOUBLE_BOTTOM_LEFT } else { BOX_BOTTOM_LEFT })
    } else if cx == x + w && cy == y {
        Some(if double { DOUBLE_TOP_RIGHT } else { BOX_TOP_RIGHT })
    } else if cx == x && cy == y {
        Some(if double { DOUBLE_TOP_LEFT } else { BOX_TOP_LEFT })
    } else if cx == x || cx == x + w {
        Some(if double { DOUBLE_VERTICAL } else { BOX_VERTICAL })
    } else if cy == y || cy == y + h {
        Some(if double { DOUBLE_HORIZONTAL } else { BOX_HORIZONTAL })
    } else {
        None
    }
}

pub open spec fn bar_glyph(k: int, fill: int) -> u16 {
    if k <= fill {
        BAR_FULL
    } else {
        BAR_EMPTY
    }
}

/// What a drawing primitive (other than a clear or an alpha change) leaves in
/// cell `(cx, cy)` that held `c`.
pub open spec fn drawn_cell(s: Stroke, cx: int, cy: int, c: Cell) -> Cell {
    match s {
        Stroke::Put { x, y, glyph, fg, bg } => {
            if cx == x && cy == y {
                Cell {
                    glyph: match glyph { Some(g) => g, None => c.glyph },
                    fg: match fg { Some(f) => f, None => c.fg },
                    bg,
                }
            } else {
                c
            }
        },
        Stroke::Text { x, y, glyphs, fg, bg } => {
            if cy == y && x <= cx < x + glyphs.len() {
                Cell { glyph: glyphs[cx - x], fg, bg }
            } else {
                c
            }
        },
        Stroke::Frame { x, y, w, h, fg, bg, double, filled } => {
            if x <= cx <= x + w && y <= cy <= y + h {
                match frame_glyph(x, y, w, h, double, cx, cy) {
                    Some(g) => Cell { glyph: g, fg, bg },
                    None => if filled { Cell { glyph: SPACE, fg, bg } } else { c },
                }
            } else {
                c
            }
        },
        Stroke::Fill { rect, glyph, fg, bg } => {
            if rect.contains(cx, cy) {
                Cell { glyph, fg, bg }
            } else {
                c
            }
        },
        Stroke::BarH { x, y, len, fill, fg, bg } => {
            if cy == y && x <= cx < x + len {
                Cell { glyph: bar_glyph(cx - x, fill), fg, bg }
            } else {
                c
            }
        },
        Stroke::BarV { x, y, len, fill, fg, bg } => {
            if cx == x && y < cy <= y + len {
                Cell { glyph: bar_glyph(y + len - cy, fill), fg, bg }
            } else {
                c
            }
        },
        _ => c,
    }
}

/// What a primitive leaves in cell `(cx, cy)` that held `c`: clears and alpha
/// changes reach every cell, the others only cells that the clipping admits.
pub open spec fn stroke_cell(s: Stroke, clip: Option<Rect>, cx: int, cy: int, c: Cell) -> Cell {
    match s {
        Stroke::Clear { bg } => blank_cell(bg),
        Stroke::Alpha { fg, bg } => Cell {
            glyph: c.glyph,
            fg: match fg { Some(a) => Rgba { a, ..c.fg }, None => c.fg },
            bg: match bg { Some(a) => Rgba { a, ..c.bg }, None => c.bg },
        },
        _ => if writable(clip, cx, cy) { drawn_cell(s, cx, cy, c) } else { c },
    }
}

/// The mathematical state of a layer.
pub struct ConsoleView {
    pub width: nat,
    pub height: nat,
    /// Width and height of one cell in pixels.
    pub font: (nat, nat),
    /// The cells, row by row from the top.
    pub cells: Seq<Cell>,
    pub clipping: Option<Rect>,
    /// The cell under the mouse.
    pub mouse: (nat, nat),
}

impl ConsoleView {
    /// The font is at least one pixel each way and there is one cell for
    /// each column of each row.
    pub open spec fn well_formed(self) -> bool {
        &&& 0 < self.font.0 <= u32::MAX
        &&& 0 < self.font.1 <= u32::MAX
        &&& self.width <= u32::MAX
        &&& self.height <= u32::MAX
        &&& self.cells.len() == self.width * self.height
        &&& self.cells.len() <= usize::MAX
    }

    pub open spec fn in_grid(self, x: int, y: int) -> bool {
        0 <= x < self.width && 0 <= y < self.height
    }

    pub open spec fn index_of(self, x: int, y: int) -> int {
        y * self.width + x
    }

    pub open spec fn painted(self, s: Stroke) -> ConsoleView {
        ConsoleView {
            cells: Seq::new(
                self.cells.len(),
                |i: int| stroke_cell(s, self.clipping, i % (self.width as int), i / (self.width as int), self.cells[i]),
            ),
            ..self
        }
    }

    pub open spec fn text_at(self, x: int, y: int, text: Seq<char>, fg: Rgba, bg: Rgba) -> ConsoleView {
        self.painted(Stroke::Text { x, y, glyphs: glyphs_of(text), fg, bg })
    }

    /// First column of a text centered on the layer.
    pub open spec fn centered_start(self, len: nat) -> int {
        sat_sub(self.width as int / 2, len as int / 2)
    }

    pub open spec fn framed(self, x: int, y: int, w: int, h: int, fg: Rgba, bg: Rgba, double: bool, filled: bool) -> ConsoleView {
        self.painted(Stroke::Frame { x, y, w, h, fg, bg, double, filled })
    }

    pub open spec fn pixel_size(self) -> (nat, nat) {
        (self.width * self.font.0, self.height * self.font.1)
    }

    /// `resized`, where the new cell count fits in a `usize`; else the layer
    /// as it was.
    pub open spec fn fitted(self, pw: nat, ph: nat) -> ConsoleView {
        if (pw / self.font.0) * (ph / self.font.1) <= usize::MAX {
            self.resized(pw, ph)
        } else {
            self
        }
    }

    /// The layer after the drawing area became `pw` by `ph` pixels: as many
    /// whole cells as fit, all of them blank.
    pub open spec fn resized(self, pw: nat, ph: nat) -> ConsoleView {
        let w = pw / self.font.0;
        let h = ph / self.font.1;
        ConsoleView {
            width: w,
            height: h,
            cells: Seq::new(w * h, |i: int| blank_cell(opaque_black())),
            ..self
        }
    }
}

/// One layer: a grid of cells with a clipping rectangle and a mouse position.
pub struct Console {
    width: u32,
    height: u32,
    font_w: u32,
    font_h: u32,
    cells: Vec<Cell>,
    clipping: Option<Rect>,
    mouse: (u32, u32),
}

impl View for Console {
    type V = ConsoleView;

    closed spec fn view(&self) -> ConsoleView {
        ConsoleView {
            width: self.width as nat,
            height: self.height as nat,
            font: (self.font_w as nat, self.font_h as nat),
            cells: self.cells@,
            clipping: self.clipping,
            mouse: (self.mouse.0 as nat, self.mouse.1 as nat),
        }
    }
}

/// An executable drawing primitive; `stroke` is what it does.
enum Paint {
    Clear { bg: Rgba },
    Text { x: usize, y: usize, glyphs: Vec<u16>, fg: Rgba, bg: Rgba },
    Frame { x: usize, y: usize, w: usize, h: usize, fg: Rgba, bg: Rgba, double: bool, filled: bool },
    Fill { rect: Rect, glyph: u16, fg: Rgba, bg: Rgba },
    BarH { x: usize, y: usize, len: usize, fill: usize, fg: Rgba, bg: Rgba },
    BarV { x: usize, y: usize, len: usize, fill: usize, fg: Rgba, bg: Rgba },
    Alpha { fg: Option<u8>, bg: Option<u8> },
}

impl Paint {
    spec fn stroke(&self) -> Stroke {
        match self {
            Paint::Clear { bg } => Stroke::Clear { bg: *bg },
            Paint::Text { x, y, glyphs, fg, bg } => Stroke::Text { x: *x as int, y: *y as int, glyphs: glyphs@, fg: *fg, bg: *bg },
            Paint::Frame { x, y, w, h, fg, bg, double, filled } => Stroke::Frame {
                x: *x as int,
                y: *y as int,
                w: *w as int,
                h: *h as int,
                fg: *fg,
                bg: *bg,
                double: *double,
                filled: *filled,
            },
            Paint::Fill { rect, glyph, fg, bg } => Stroke::Fill { rect: *rect, glyph: *glyph, fg: *fg, bg: *bg },
            Paint::BarH { x, y, len, fill, fg, bg } => Stroke::BarH {
                x: *x as int,
                y: *y as int,
                len: *len as int,
                fill: *fill as int,
                fg: *fg,
                bg: *bg,
            },
            Paint::BarV { x, y, len, fill, fg, bg } => Stroke::BarV {
                x: *x as int,
                y: *y as int,
                len: *len as int,
                fill: *fill as int,
                fg: *fg,
                bg: *bg,
            },
            Paint::Alpha { fg, bg } => Stroke::Alpha { fg: *fg, bg: *bg },
        }
    }
}

fn is_writable(clip: &Option<Rect>, cx: usize, cy: usize) -> (r: bool)
    ensures
        r == writable(*clip, cx as int, cy as int),
{
    match clip {
        Some(rc) => {
            let x = cx as i128;
            let y = cy as i128;
            rc.x1 as i128 <= x && x < rc.x2 as i128 && rc.y1 as i128 <= y && y < rc.y2 as i128
        },
        None => true,
    }
}

fn frame_glyph_at(x: usize, y: usize, w: usize, h: usize, double: bool, cx: usize, cy: usize) -> (r: Option<u16>)
    requires
        x <= cx,
        cx - x <= w,
        y <= cy,
        cy - y <= h,
    ensures
        r == frame_glyph(x as int, y as int, w as int, h as int, double, cx as int, cy as int),
{
    let left = cx == x;
    let right = cx - x == w;
    let top = cy == y;
    let bottom = cy - y == h;
    if right && bottom {
        Some(if double { DOUBLE_BOTTOM_RIGHT } else { BOX_BOTTOM_RIGHT })
    } else if left && bottom {
        Some(if double { DOUBLE_BOTTOM_LEFT } else { BOX_BOTTOM_LEFT })
    } else if right && top {
        Some(if double { DOUBLE_TOP_RIGHT } else { BOX_TOP_RIGHT })
    } else if left && top {
        Some(if double { DOUBLE_TOP_LEFT } else { BOX_TOP_LEFT })
    } else if left || right {
        Some(if double { DOUBLE_VERTICAL } else { BOX_VERTICAL })
    } else if top || bottom {
        Some(if double { DOUBLE_HORIZONTAL } else { BOX_HORIZONTAL })
    } else {
        None
    }
}

fn bar_glyph_at(k: usize, fill: usize) -> (r: u16)
    ensures
        r == bar_glyph(k as int, fill as int),
{
    if k <= fill {
        BAR_FULL
    } else {
        BAR_EMPTY
    }
}

fn paint_cell(p: &Paint, clip: &Option<Rect>, cx: usize, cy: usize, c: Cell) -> (r: Cell)
    ensures
        r == stroke_cell(p.stroke(), *clip, cx as int, cy as int, c),
{
    match p {
        Paint::Clear { bg } => Cell { glyph: SPACE, fg: Rgba::white(), bg: *bg },
        Paint::Alpha { fg, bg } => {
            let f = match fg {
                Some(a) => c.fg.with_alpha(*a),
                None => c.fg,
            };
            let b = match bg {
                Some(a) => c.bg.with_alpha(*a),
                None => c.bg,
            };
            Cell { glyph: c.glyph, fg: f, bg: b }
        },
        _ => {
            if !is_writable(clip, cx, cy) {
                return c;
            }
            match p {
                Paint::Text { x, y, glyphs, fg, bg } => {
                    if cy == *y && cx >= *x && cx - *x < glyphs.len() {
                        Cell { glyph: glyphs[cx - *x], fg: *fg, bg: *bg }
                    } else {
                        c
                    }
                },
                Paint::Frame { x, y, w, h, fg, bg, double, filled } => {
                    if cx >= *x && cx - *x <= *w && cy >= *y && cy - *y <= *h {
                        match frame_glyph_at(*x, *y, *w, *h, *double, cx, cy) {
                            Some(g) => Cell { glyph: g, fg: *fg, bg: *bg },
                            None => if *filled { Cell { glyph: SPACE, fg: *fg, bg: *bg } } else { c },
                        }
                    } else {
                        c
                    }
                },
                Paint::Fill { rect, glyph, fg, bg } => {
                    if is_writable(&Some(*rect), cx, cy) {
                        Cell { glyph: *glyph, fg: *fg, bg: *bg }
                    } else {
                        c
                    }
                },
                Paint::BarH { x, y, len, fill, fg, bg } => {
                    if cy == *y && cx >= *x && cx - *x < *len {
                        Cell { glyph: bar_glyph_at(cx - *x, *fill), fg: *fg, bg: *bg }
                    } else {
                        c
                    }
                },
                Paint::BarV { x, y, len, fill, fg, bg } => {
                    if cx == *x && cy > *y && cy - *y <= *len {
                        Cell { glyph: bar_glyph_at(*len - (cy - *y), *fill), fg: *fg, bg: *bg }
                    } else {
                        c
                    }
                },
                _ => c,
            }
        },
    }
}

fn text_glyphs(text: &str) -> (r: Vec<u16>)
    ensures
        r@ == glyphs_of(text@),
{
    let n = text.unicode_len();
    let mut r: Vec<u16> = Vec::new();
    let mut i: usize = 0;
    while i < n
        invariant
            n == text@.len(),
            i <= n,
            r@ == glyphs_of(text@.subrange(0, i as int)),
        decreases n - i,
    {
        let c = text.get_char(i);
        let code = c as u32;
        let g: u16 = if code < 0x10000 { code as u16 } else { 63 };
        r.push(g);
        proof {
            assert(text@.subrange(0, i + 1) =~= text@.subrange(0, i as int).push(c));
            assert(glyphs_of(text@.subrange(0, i + 1)) =~= glyphs_of(text@.subrange(0, i as int)).push(g));
        }
        i = i + 1;
    }
    proof {
        assert(text@.subrange(0, n as int) =~= text@);
    }
    r
}

fn sat_sub_usize(a: usize, b: usize) -> (r: usize)
    ensures
        r == sat_sub(a as int, b as int),
{
    if a >= b {
        a - b
    } else {
        0
    }
}

fn bar_fill_usize(n: usize, max: usize, len: usize) -> (r: usize)
    ensures
        r == bar_fill(n as int, max as int, len as int),
{
    if max == 0 || n >= max {
        len
    } else {
        proof {
            assert(n as int * len as int <= u128::MAX) by (nonlinear_arith)
                requires n <= usize::MAX, len <= usize::MAX ;
        }
        let p: u128 = n as u128 * len as u128;
        proof {
            assert(p as int <= max as int * len as int) by (nonlinear_arith)
                requires p as int == n as int * len as int, n < max ;
            vstd::arithmetic::div_mod::lemma_div_is_ordered(p as int, max as int * len as int, max as int);
            assert((max as int * len as int) / (max as int) == len as int) by (nonlinear_arith)
                requires max > 0 ;
        }
        (p / max as u128) as usize
    }
}

impl Console {
    pub open spec fn wf(&self) -> bool {
        self@.well_formed()
    }

    /// A blank layer of `width` by `height` cells, each `font_w` by `font_h`
    /// pixels.
    pub fn new(width: u32, height: u32, font_w: u32, font_h: u32) -> (c: Console)
        requires
            font_w > 0,
            font_h > 0,
            width * height <= usize::MAX,
        ensures
            c.wf(),
            c@.width == width,
            c@.height == height,
            c@.font == (font_w as nat, font_h as nat),
            c@.cells == Seq::new(width as nat * height as nat, |i: int| blank_cell(opaque_black())),
            c@.clipping.is_none(),
            c@.mouse == (0nat, 0nat),
    {
        let n: usize = width as usize * height as usize;
        let mut cells: Vec<Cell> = Vec::new();
        let mut i: usize = 0;
        while i < n
            invariant
                i <= n,
                cells@ == Seq::new(i as nat, |j: int| blank_cell(opaque_black())),
            decreases n - i,
        {
            cells.push(Cell { glyph: SPACE, fg: Rgba::white(), bg: Rgba::black() });
            proof {
                assert(cells@ =~= Seq::new((i + 1) as nat, |j: int| blank_cell(opaque_black())));
            }
            i = i + 1;
        }
        Console { width, height, font_w, font_h, cells, clipping: None, mouse: (0, 0) }
    }

    fn paint(&mut self, p: &Paint)
        requires
            old(self).wf(),
        ensures
            final(self).wf(),
            final(self)@ == old(self)@.painted(p.stroke()),
    {
        let ghost old_v = self@;
        let ghost s = p.stroke();
        let n = self.cells.len();
        let w = self.width as usize;
        proof {
            if w == 0 {
                assert(n == 0) by (nonlinear_arith) requires n == w * (self.height as int), w == 0 ;
            }
        }
        let mut i: usize = 0;
        let mut cx: usize = 0;
        let mut cy: usize = 0;
        while i < n
            invariant
                self.width == old_v.width,
                self.height == old_v.height,
                self.font_w == old_v.font.0,
                self.font_h == old_v.font.1,
                self.clipping == old_v.clipping,
                self@.mouse == old_v.mouse,
                self.cells@.len() == n,
                n == old_v.cells.len(),
                w == self.width,
                s == p.stroke(),
                n > 0 ==> w > 0,
                i <= n,
                i < n ==> (i == cy * w + cx && cx < w),
                cy <= i,
                forall|j: int| 0 <= j < i ==> self.cells@[j] == stroke_cell(s, old_v.clipping, j % (w as int), j / (w as int), old_v.cells[j]),
                forall|j: int| i <= j < n ==> self.cells@[j] == old_v.cells[j],
            decreases n - i,
        {
            proof {
                lemma_fundamental_div_mod_converse(i as int, w as int, cy as int, cx as int);
            }
            let c = self.cells[i];
            let nc = paint_cell(p, &self.clipping, cx, cy, c);
            self.cells[i] = nc;
            proof {
                assert((cy + 1) * w == cy * w + w) by (nonlinear_arith);
                assert(cy <= cy * w) by (nonlinear_arith) requires w > 0 ;
            }
            i = i + 1;
            cx = cx + 1;
            if cx == w {
                cx = 0;
                cy = cy + 1;
            }
        }
        proof {
            assert(self@.cells =~= old_v.painted(s).cells);
        }
    }

    pub fn get_char_size(&self) -> (r: (usize, usize))
        ensures
            r == (self@.width as usize, self@.height as usize),
            r.0 as nat == self@.width,
            r.1 as nat == self@.height,
    {
        (self.width as usize, self.height as usize)
    }

    pub fn get_pixel_size(&self) -> (r: (u64, u64))
        ensures
            (r.0 as nat, r.1 as nat) == self@.pixel_size(),
    {
        proof {
            assert(self.width as nat * self.font_w as nat <= u64::MAX) by (nonlinear_arith)
                requires self.width <= u32::MAX, self.font_w <= u32::MAX ;
            assert(self.height as nat * self.font_h as nat <= u64::MAX) by (nonlinear_arith)
                requires self.height <= u32::MAX, self.font_h <= u32::MAX ;
        }
        (self.width as u64 * self.font_w as u64, self.height as u64 * self.font_h as u64)
    }

    /// Index of cell `(x, y)`; the cell must be on the grid.
    pub fn at(&self, x: usize, y: usize) -> (r: usize)
        requires
            self.wf(),
            self@.in_grid(x as int, y as int),
        ensures
            r == self@.index_of(x as int, y as int),
            r < self@.cells.len(),
    {
        proof {
            let (wi, hi, xi, yi) = (self.width as int, self.height as int, x as int, y as int);
            assert(yi * wi + xi < wi * hi) by (nonlinear_arith)
                requires 0 <= xi < wi, 0 <= yi < hi ;
            assert(0 <= yi * wi) by (nonlinear_arith)
                requires 0 <= yi, 0 <= wi ;
            assert(self@.cells.len() == wi * hi);
        }
        y * self.width as usize + x
    }

    /// Index of cell `(x, y)`, or `None` off the grid.
    pub fn try_at(&self, x: usize, y: usize) -> (r: Option<usize>)
        requires
            self.wf(),
        ensures
            r == (if self@.in_grid(x as int, y as int) {
                Some(self@.index_of(x as int, y as int) as usize)
            } else {
                None
            }),
    {
        if x < self.width as usize && y < self.height as usize {
            Some(self.at(x, y))
        } else {
            None
        }
    }

    /// Cell `(x, y)`, or `None` off the grid.
    pub fn cell(&self, x: usize, y: usize) -> (r: Option<Cell>)
        requires
            self.wf(),
        ensures
            r == (if self@.in_grid(x as int, y as int) {
                Some(self@.cells[self@.index_of(x as int, y as int)])
            } else {
                None
            }),
    {
        if x < self.width as usize && y < self.height as usize {
            let i = self.at(x, y);
            Some(self.cells[i])
        } else {
            None
        }
    }

    pub fn get_clipping(&self) -> (r: Option<Rect>)
        ensures
            r == self@.clipping,
    {
        self.clipping
    }

    pub fn set_clipping(&mut self, clipping: Option<Rect>)
        requires
            old(self).wf(),
        ensures
            final(self).wf(),
            final(self)@ == (ConsoleView { clipping, ..old(self)@ }),
    {
        self.clipping = clipping;
    }

    pub fn get_mouse_position(&self) -> (r: (u32, u32))
        ensures
            (r.0 as nat, r.1 as nat) == self@.mouse,
    {
        self.mouse
    }

    /// Takes the mouse position in pixels and keeps the cell under it.
    pub fn set_mouse_position(&mut self, px: u32, py: u32)
        requires
            old(self).wf(),
        ensures
            final(self).wf(),
            final(self)@ == (ConsoleView { mouse: (px as nat / old(self)@.font.0, py as nat / old(self)@.font.1), ..old(self)@ }),
    {
        self.mouse = (px / self.font_w, py / self.font_h);
    }

    /// Fits the grid to a drawing area of `pw` by `ph` pixels. The cells are
    /// cleared; a grid whose cells could not be counted in a `usize` leaves
    /// the layer as it was.
    pub fn resize(&mut self, pw: u32, ph: u32)
        requires
            old(self).wf(),
        ensures
            final(self).wf(),
            final(self)@ == old(self)@.fitted(pw as nat, ph as nat),
    {
        let w = pw / self.font_w;
        let h = ph / self.font_h;
        proof {
            assert(w as int * h as int <= u64::MAX) by (nonlinear_arith)
                requires w <= u32::MAX, h <= u32::MAX ;
        }
        let total: u64 = w as u64 * h as u64;
        if total > usize::MAX as u64 {
            return;
        }
        let fresh = Console::new(w, h, self.font_w, self.font_h);
        self.width = w;
        self.height = h;
        self.cells = fresh.cells;
        proof {
            assert(self@ == old(self)@.resized(pw as nat, ph as nat));
        }
    }

    pub fn cls(&mut self)
        requires
            old(self).wf(),
        ensures
            final(self).wf(),
            final(self)@ == old(self)@.painted(Stroke::Clear { bg: opaque_black() }),
    {
        self.paint(&Paint::Clear { bg: Rgba::black() });
    }

    pub fn cls_bg(&mut self, bg: Rgba)
        requires
            old(self).wf(),
        ensures
            final(self).wf(),
            final(self)@ == old(self)@.painted(Stroke::Clear { bg }),
    {
        self.paint(&Paint::Clear { bg });
    }

    /// Writes one cell, as `paint` would with `Paint::Put`, without a pass
    /// over the grid.
    fn put(&mut self, x: usize, y: usize, glyph: Option<u16>, fg: Option<Rgba>, bg: Rgba)
        requires
            old(self).wf(),
        ensures
            final(self).wf(),
            final(self)@ == old(self)@.painted(Stroke::Put { x: x as int, y: y as int, glyph, fg, bg }),
    {
        let ghost s = Stroke::Put { x: x as int, y: y as int, glyph, fg, bg };
        let ghost w = self.width as int;
        if x < self.width as usize && y < self.height as usize && is_writable(&self.clipping, x, y) {
            let i = self.at(x, y);
            let c = self.cells[i];
            let nc = Cell {
                glyph: match glyph {
                    Some(g) => g,
                    None => c.glyph,
                },
                fg: match fg {
                    Some(f) => f,
                    None => c.fg,
                },
                bg,
            };
            self.cells[i] = nc;
            proof {
                lemma_fundamental_div_mod_converse(i as int, w, y as int, x as int);
                assert forall|j: int| 0 <= j < self.cells@.len() && j != i implies
                    !(#[trigger] (j % w) == x && j / w == y) by {
                    vstd::arithmetic::div_mod::lemma_fundamental_div_mod(j, w);
                    if j % w == x && j / w == y {
                        assert(j == w * y + x);
                        assert(w * (y as int) == (y as int) * w) by (nonlinear_arith);
                    }
                }
                assert(self@.cells =~= old(self)@.painted(s).cells);
            }
        } else {
            proof {
                assert forall|j: int| 0 <= j < self.cells@.len() implies
                    stroke_cell(s, self.clipping, j % w, j / w, self.cells@[j]) == self.cells@[j] by {
                    if j % w == x && j / w == y {
                        vstd::arithmetic::div_mod::lemma_fundamental_div_mod(j, w);
                        assert(0 <= j % w < w) by {
                            vstd::arithmetic::div_mod::lemma_mod_bound(j, w);
                        }
                        if y >= self.height {
                            assert(w * (j / w) >= w * (self.height as int)) by (nonlinear_arith)
                                requires j / w >= self.height as int, w >= 0 ;
                            assert(w * (self.height as int) == (self.height as int) * w) by (nonlinear_arith);
                        }
                    }
                }
                assert(self@.cells =~= old(self)@.painted(s).cells);
            }
        }
    }

    pub fn set(&mut self, x: usize, y: usize, fg: Rgba, bg: Rgba, glyph: u16)
        requires
            old(self).wf(),
        ensures
            final(self).wf(),
            final(self)@ == old(self)@.painted(Stroke::Put { x: x as int, y: y as int, glyph: Some(glyph), fg: Some(fg), bg }),
    {
        self.put(x, y, Some(glyph), Some(fg), bg);
    }

    pub fn set_bg(&mut self, x: usize, y: usize, bg: Rgba)
        requires
            old(self).wf(),
        ensures
            final(self).wf(),
            final(self)@ == old(self)@.painted(Stroke::Put { x: x as int, y: y as int, glyph: None, fg: None, bg }),
    {
        self.put(x, y, None, None, bg);
    }
    pub fn print(&mut self, x: usize, y: usize, text: &str)
        requires
            old(self).wf(),
        ensures
            final(self).wf(),
            final(self)@ == old(self)@.text_at(x as int, y as int, text@, opaque_white(), opaque_black()),
    {
        self.print_color(x, y, text, Rgba::white(), Rgba::black());
    }

    pub fn print_color(&mut self, x: usize, y: usize, text: &str, fg: Rgba, bg: Rgba)
        requires
            old(self).wf(),
        ensures
            final(self).wf(),
            final(self)@ == old(self)@.text_at(x as int, y as int, text@, fg, bg),
    {
        let glyphs = text_glyphs(text);
        self.paint(&Paint::Text { x, y, glyphs, fg, bg });
    }

    /// Prints on row `y`, centered on the layer's width.
    pub fn print_centered(&mut self, y: usize, text: &str)
        requires
            old(self).wf(),
        ensures
            final(self).wf(),
            final(self)@ == old(self)@.text_at(
                old(self)@.centered_start(text@.len()),
                y as int,
                text@,
                opaque_white(),
                opaque_black(),
            ),
    {
        self.print_color_centered(y, Rgba::white(), Rgba::black(), text);
    }

    pub fn print_color_centered(&mut self, y: usize, fg: Rgba, bg: Rgba, text: &str)
        requires
            old(self).wf(),
        ensures
            final(self).wf(),
            final(self)@ == old(self)@.text_at(old(self)@.centered_start(text@.len()), y as int, text@, fg, bg),
    {
        let glyphs = text_glyphs(text);
        let x = sat_sub_usize(self.width as usize / 2, glyphs.len() / 2);
        self.paint(&Paint::Text { x, y, glyphs, fg, bg });
    }

    /// Prints on row `y`, centered on column `x`.
    pub fn print_centered_at(&mut self, x: usize, y: usize, text: &str)
        requires
            old(self).wf(),
        ensures
            final(self).wf(),
            final(self)@ == old(self)@.text_at(
                sat_sub(x as int, text@.len() as int / 2),
                y as int,
                text@,
                opaque_white(),
                opaque_black(),
            ),
    {
        self.print_color_centered_at(x, y, Rgba::white(), Rgba::black(), text);
    }

    pub fn print_color_centered_at(&mut self, x: usize, y: usize, fg: Rgba, bg: Rgba, text: &str)
        requires
            old(self).wf(),
        ensures
            final(self).wf(),
            final(self)@ == old(self)@.text_at(sat_sub(x as int, text@.len() as int / 2), y as int, text@, fg, bg),
    {
        let glyphs = text_glyphs(text);
        let sx = sat_sub_usize(x, glyphs.len() / 2);
        self.paint(&Paint::Text { x: sx, y, glyphs, fg, bg });
    }

    /// Prints on row `y` so that the text ends just before column `x`.
    pub fn print_right(&mut self, x: usize, y: usize, text: &str)
        requires
            old(self).wf(),
        ensures
            final(self).wf(),
            final(self)@ == old(self)@.text_at(
                sat_sub(x as int, text@.len() as int),
                y as int,
                text@,
                opaque_white(),
                opaque_black(),
            ),
    {
        self.print_color_right(x, y, Rgba::white(), Rgba::black(), text);
    }

    pub fn print_color_right(&mut self, x: usize, y: usize, fg: Rgba, bg: Rgba, text: &str)
        requires
            old(self).wf(),
        ensures
            final(self).wf(),
            final(self)@ == old(self)@.text_at(sat_sub(x as int, text@.len() as int), y as int, text@, fg, bg),
    {
        let glyphs = text_glyphs(text);
        let sx = sat_sub_usize(x, glyphs.len());
        self.paint(&Paint::Text { x: sx, y, glyphs, fg, bg });
    }

    /// A box with a single-line border, its interior blanked.
    pub fn draw_box(&mut self, x: usize, y: usize, width: usize, height: usize, fg: Rgba, bg: Rgba)
        requires
            old(self).wf(),
        ensures
            final(self).wf(),
            final(self)@ == old(self)@.framed(x as int, y as int, width as int, height as int, fg, bg, false, true),
    {
        self.paint(&Paint::Frame { x, y, w: width, h: height, fg, bg, double: false, filled: true });
    }

    /// A single-line border; the interior is kept.
    pub fn draw_hollow_box(&mut self, x: usize, y: usize, width: usize, height: usize, fg: Rgba, bg: Rgba)
        requires
            old(self).wf(),
        ensures
            final(self).wf(),
            final(self)@ == old(self)@.framed(x as int, y as int, width as int, height as int, fg, bg, false, false),
    {
        self.paint(&Paint::Frame { x, y, w: width, h: height, fg, bg, double: false, filled: false });
    }

    /// A box with a double-line border, its interior blanked.
    pub fn draw_box_double(&mut self, x: usize, y: usize, width: usize, height: usize, fg: Rgba, bg: Rgba)
        requires
            old(self).wf(),
        ensures
            final(self).wf(),
            final(self)@ == old(self)@.framed(x as int, y as int, width as int, height as int, fg, bg, true, true),
    {
        self.paint(&Paint::Frame { x, y, w: width, h: height, fg, bg, double: true, filled: true });
    }

    /// A double-line border; the interior is kept.
    pub fn draw_hollow_box_double(&mut self, x: usize, y: usize, width: usize, height: usize, fg: Rgba, bg: Rgba)
        requires
            old(self).wf(),
        ensures
            final(self).wf(),
            final(self)@ == old(self)@.framed(x as int, y as int, width as int, height as int, fg, bg, true, false),
    {
        self.paint(&Paint::Frame { x, y, w: width, h: height, fg, bg, double: true, filled: false });
    }

    pub fn fill_region(&mut self, target: Rect, glyph: u16, fg: Rgba, bg: Rgba)
        requires
            old(self).wf(),
        ensures
            final(self).wf(),
            final(self)@ == old(self)@.painted(Stroke::Fill { rect: target, glyph, fg, bg }),
    {
        self.paint(&Paint::Fill { rect: target, glyph, fg, bg });
    }

    /// A bar of `width` cells rightwards from `(x, y)` showing `n` out of `max`.
    pub fn draw_bar_horizontal(&mut self, x: usize, y: usize, width: usize, n: usize, max: usize, fg: Rgba, bg: Rgba)
        requires
            old(self).wf(),
        ensures
            final(self).wf(),
            final(self)@ == old(self)@.painted(Stroke::BarH {
                x: x as int,
                y: y as int,
                len: width as int,
                fill: bar_fill(n as int, max as int, width as int),
                fg,
                bg,
            }),
    {
        let fill = bar_fill_usize(n, max, width);
        self.paint(&Paint::BarH { x, y, len: width, fill, fg, bg });
    }

    /// A bar of `height` cells in column `x` below row `y`, filling from the
    /// bottom, showing `n` out of `max`.
    pub fn draw_bar_vertical(&mut self, x: usize, y: usize, height: usize, n: usize, max: usize, fg: Rgba, bg: Rgba)
        requires
            old(self).wf(),
        ensures
            final(self).wf(),
            final(self)@ == old(self)@.painted(Stroke::BarV {
                x: x as int,
                y: y as int,
                len: height as int,
                fill: bar_fill(n as int, max as int, height as int),
                fg,
                bg,
            }),
    {
        let fill = bar_fill_usize(n, max, height);
        self.paint(&Paint::BarV { x, y, len: height, fill, fg, bg });
    }

    pub fn set_all_fg_alpha(&mut self, alpha: u8)
        requires
            old(self).wf(),
        ensures
            final(self).wf(),
            final(self)@ == old(self)@.painted(Stroke::Alpha { fg: Some(alpha), bg: None }),
    {
        self.paint(&Paint::Alpha { fg: Some(alpha), bg: None });
    }

    pub fn set_all_bg_alpha(&mut self, alpha: u8)
        requires
            old(self).wf(),
        ensures
            final(self).wf(),
            final(self)@ == old(self)@.painted(Stroke::Alpha { fg: None, bg: Some(alpha) }),
    {
        self.paint(&Paint::Alpha { fg: None, bg: Some(alpha) });
    }

    pub fn set_all_alpha(&mut self, fg: u8, bg: u8)
        requires
            old(self).wf(),
        ensures
            final(self).wf(),
            final(self)@ == old(self)@.painted(Stroke::Alpha { fg: Some(fg), bg: Some(bg) }),
    {
        self.paint(&Paint::Alpha { fg: Some(fg), bg: Some(bg) });
    }
}

} // verus!
