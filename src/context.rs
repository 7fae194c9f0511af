//! The layer stack, its current layer, and the buffer of submitted batches
//! that is replayed once per frame.
use vstd::prelude::*;

use crate::batch::{BatchView, DrawBatch, DrawCommand};
use crate::color::{opaque_black, opaque_white, Rgba};
use crate::console::{bar_fill, sat_sub, Console, ConsoleView, Stroke};
use crate::geometry::Rect;
use crate::palette::ColorPalette;
use crate::sorting::{
    lemma_sort_by_key, lemma_sort_by_key_stable, sort_by_key, sorted_by_key, stable_sort_by_key, with_key,
};

verus! {

/// A command's cell coordinate; a negative one lies off every grid.
pub open spec fn position(v: i32) -> int {
    if v < 0 {
        usize::MAX as int
    } else {
        v as int
    }
}

/// A command's size or count; a negative one counts as zero.
pub open spec fn amount(v: i32) -> int {
    if v < 0 {
        0
    } else {
        v as int
    }
}

fn to_position(v: i32) -> (r: usize)
    ensures
        r == position(v),
{
    if v < 0 {
        usize::MAX
    } else {
        v as usize
    }
}

fn to_amount(v: i32) -> (r: usize)
    ensures
        r == amount(v),
{
    if v < 0 {
        0
    } else {
        v as usize
    }
}

/// What a command other than a layer selection does to the layer it reaches.
pub open spec fn command_effect(v: ConsoleView, cmd: DrawCommand) -> ConsoleView {
    match cmd {
        DrawCommand::ClearScreen => v.painted(Stroke::Clear { bg: opaque_black() }),
        DrawCommand::ClearToColor { color } => v.painted(Stroke::Clear { bg: color }),
        DrawCommand::SetTarget { .. } => v,
        DrawCommand::SetCell { pos, color, glyph } => v.painted(
            Stroke::Put { x: position(pos.x), y: position(pos.y), glyph: Some(glyph), fg: Some(color.fg), bg: color.bg },
        ),
        DrawCommand::SetBackground { pos, bg } => v.painted(
            Stroke::Put { x: position(pos.x), y: position(pos.y), glyph: None, fg: None, bg },
        ),
        DrawCommand::Print { pos, text } => v.text_at(position(pos.x), position(pos.y), text@, opaque_white(), opaque_black()),
        DrawCommand::PrintColor { pos, text, color } => v.text_at(position(pos.x), position(pos.y), text@, color.fg, color.bg),
        DrawCommand::PrintCentered { y, text } => v.text_at(
            v.centered_start(text@.len()),
            position(y),
            text@,
            opaque_white(),
            opaque_black(),
        ),
        DrawCommand::PrintColorCentered { y, text, color } => v.text_at(
            v.centered_start(text@.len()),
            position(y),
            text@,
            color.fg,
            color.bg,
        ),
        DrawCommand::PrintCenteredAt { pos, text } => v.text_at(
            sat_sub(position(pos.x), text@.len() as int / 2),
            position(pos.y),
            text@,
            opaque_white(),
            opaque_black(),
        ),
        DrawCommand::PrintColorCenteredAt { pos, text, color } => v.text_at(
            sat_sub(position(pos.x), text@.len() as int / 2),
            position(pos.y),
            text@,
            color.fg,
            color.bg,
        ),
        DrawCommand::PrintRight { pos, text } => v.text_at(
            sat_sub(position(pos.x), text@.len() as int),
            position(pos.y),
            text@,
            opaque_white(),
            opaque_black(),
        ),
        DrawCommand::PrintColorRight { pos, text, color } => v.text_at(
            sat_sub(position(pos.x), text@.len() as int),
            position(pos.y),
            text@,
            color.fg,
            color.bg,
        ),
        DrawCommand::Box { pos, color } => v.framed(
            position(pos.x1),
            position(pos.y1),
            pos.width_spec() as int,
            pos.height_spec() as int,
            color.fg,
            color.bg,
            false,
            true,
        ),
        DrawCommand::HollowBox { pos, color } => v.framed(
            position(pos.x1),
            position(pos.y1),
            pos.width_spec() as int,
            pos.height_spec() as int,
            color.fg,
            color.bg,
            false,
            false,
        ),
        DrawCommand::DoubleBox { pos, color } => v.framed(
            position(pos.x1),
            position(pos.y1),
            pos.width_spec() as int,
            pos.height_spec() as int,
            color.fg,
            color.bg,
            true,
            true,
        ),
        DrawCommand::HollowDoubleBox { pos, color } => v.framed(
            position(pos.x1),
            position(pos.y1),
            pos.width_spec() as int,
            pos.height_spec() as int,
            color.fg,
            color.bg,
            true,
            false,
        ),
        DrawCommand::FillRegion { pos, color, glyph } => v.painted(
            Stroke::Fill { rect: pos, glyph, fg: color.fg, bg: color.bg },
        ),
        DrawCommand::BarHorizontal { pos, width, n, max, color } => v.painted(
            Stroke::BarH {
                x: position(pos.x),
                y: position(pos.y),
                len: amount(width),
                fill: bar_fill(amount(n), amount(max), amount(width)),
                fg: color.fg,
                bg: color.bg,
            },
        ),
        DrawCommand::BarVertical { pos, height, n, max, color } => v.painted(
            Stroke::BarV {
                x: position(pos.x),
                y: position(pos.y),
                len: amount(height),
                fill: bar_fill(amount(n), amount(max), amount(height)),
                fg: color.fg,
                bg: color.bg,
            },
        ),
        DrawCommand::SetClipping { clip } => ConsoleView { clipping: clip, ..v },
        DrawCommand::SetFgAlpha { alpha } => v.painted(Stroke::Alpha { fg: Some(alpha), bg: None }),
        DrawCommand::SetBgAlpha { alpha } => v.painted(Stroke::Alpha { fg: None, bg: Some(alpha) }),
        DrawCommand::SetAllAlpha { fg, bg } => v.painted(Stroke::Alpha { fg: Some(fg), bg: Some(bg) }),
    }
}

/// The layers and the current layer after one command: a selection changes
/// the current layer, any other command changes the current layer's cells.
pub open spec fn apply_command(layers: Seq<ConsoleView>, cur: nat, cmd: DrawCommand) -> (Seq<ConsoleView>, nat) {
    match cmd {
        DrawCommand::SetTarget { console } => (layers, console as nat),
        _ => (layers.update(cur as int, command_effect(layers[cur as int], cmd)), cur),
    }
}

/// The layers and the current layer after the commands, in order.
pub open spec fn replay(layers: Seq<ConsoleView>, cur: nat, cmds: Seq<DrawCommand>) -> (Seq<ConsoleView>, nat)
    decreases cmds.len(),
{
    if cmds.len() == 0 {
        (layers, cur)
    } else {
        let before = replay(layers, cur, cmds.drop_last());
        apply_command(before.0, before.1, cmds.last())
    }
}

/// Every command other than a selection meets a current layer that exists.
pub open spec fn replayable(layers: Seq<ConsoleView>, cur: nat, cmds: Seq<DrawCommand>) -> bool
    decreases cmds.len(),
{
    if cmds.len() == 0 {
        true
    } else {
        &&& replayable(layers, cur, cmds.drop_last())
        &&& (cmds.last() is SetTarget || replay(layers, cur, cmds.drop_last()).1 < layers.len())
    }
}

pub open spec fn batch_commands(b: BatchView) -> Seq<DrawCommand> {
    b.commands.map_values(|e: (usize, DrawCommand)| e.1)
}

/// The commands of the batches, batch after batch.
pub open spec fn commands_of(batches: Seq<(usize, DrawBatch)>) -> Seq<DrawCommand>
    decreases batches.len(),
{
    if batches.len() == 0 {
        Seq::empty()
    } else {
        batch_commands(batches[0].1@) + commands_of(batches.drop_first())
    }
}

/// A batch as it stands in the buffer once submitted: ordered by key if it
/// asked for that.
pub open spec fn submitted(b: BatchView) -> BatchView {
    if b.needs_sort {
        BatchView { commands: sort_by_key(b.commands), ..b }
    } else {
        b
    }
}

pub open spec fn max_nat(a: nat, b: nat) -> nat {
    if a >= b {
        a
    } else {
        b
    }
}

/// Component-wise maximum of the layers' pixel sizes; `(0, 0)` for none.
pub open spec fn max_pixel_size(layers: Seq<ConsoleView>) -> (nat, nat)
    decreases layers.len(),
{
    if layers.len() == 0 {
        (0, 0)
    } else {
        let m = max_pixel_size(layers.drop_last());
        let p = layers.last().pixel_size();
        (max_nat(m.0, p.0), max_nat(m.1, p.1))
    }
}

/// Component-wise maximum of the font sizes and `(1, 1)`.
pub open spec fn largest_font_size(fonts: Seq<(u32, u32)>) -> (nat, nat)
    decreases fonts.len(),
{
    if fonts.len() == 0 {
        (1, 1)
    } else {
        let m = largest_font_size(fonts.drop_last());
        (max_nat(m.0, fonts.last().0 as nat), max_nat(m.1, fonts.last().1 as nat))
    }
}

/// The state of a context.
pub struct ContextView {
    pub layers: Seq<ConsoleView>,
    pub current: nat,
    /// Submitted batches with their z-orders, in submission order.
    pub buffer: Seq<(usize, DrawBatch)>,
    pub palette: Map<Seq<char>, Rgba>,
    /// Pixel sizes of the registered fonts.
    pub fonts: Seq<(u32, u32)>,
    pub mouse_pixels: (u32, u32),
}

impl ContextView {
    pub open spec fn current_view(self) -> ConsoleView {
        self.layers[self.current as int]
    }

    /// The context with the current layer replaced.
    pub open spec fn on_current(self, v: ConsoleView) -> ContextView {
        ContextView { layers: self.layers.update(self.current as int, v), ..self }
    }

    /// The commands that the next replay runs, in order.
    pub open spec fn pending(self) -> Seq<DrawCommand> {
        commands_of(sort_by_key(self.buffer))
    }
}

/// Layers of character grids, a current layer, named colors, and the
/// batches waiting to be replayed.
pub struct BracketContext {
    fonts: Vec<(u32, u32)>,
    terminals: Vec<Console>,
    current_layer: usize,
    color_palette: ColorPalette,
    command_buffers: Vec<(usize, DrawBatch)>,
    mouse_pixels: (u32, u32),
}

impl View for BracketContext {
    type V = ContextView;

    closed spec fn view(&self) -> ContextView {
        ContextView {
            layers: self.terminals@.map_values(|t: Console| t@),
            current: self.current_layer as nat,
            buffer: self.command_buffers@,
            palette: self.color_palette.view(),
            fonts: self.fonts@,
            mouse_pixels: self.mouse_pixels,
        }
    }
}

impl BracketContext {
    /// Every layer is well formed and no color name occurs twice.
    pub closed spec fn wf(&self) -> bool {
        &&& self.color_palette.wf()
        &&& forall|i: int| 0 <= i < self.terminals@.len() ==> #[trigger] self.terminals@[i].wf()
    }

    proof fn lemma_current_updated(self, before: Self)
        requires
            before.wf(),
            before.current_layer < before.terminals@.len(),
            self.terminals@ == before.terminals@.update(before.current_layer as int, self.terminals@[before.current_layer as int]),
            self.terminals@[before.current_layer as int].wf(),
            self.current_layer == before.current_layer,
            self.color_palette == before.color_palette,
            self.command_buffers == before.command_buffers,
            self.fonts == before.fonts,
            self.mouse_pixels == before.mouse_pixels,
        ensures
            self.wf(),
            self@ == before@.on_current(self.terminals@[self.current_layer as int]@),
    {
        assert(self@.layers =~= before@.layers.update(self.current_layer as int, self.terminals@[self.current_layer as int]@));
    }

    /// A context with no layers, no fonts, and the given palette.
    pub fn new(color_palette: ColorPalette) -> (c: BracketContext)
        requires
            color_palette.wf(),
        ensures
            c.wf(),
            c@.layers.len() == 0,
            c@.current == 0,
            c@.buffer.len() == 0,
            c@.palette == color_palette.view(),
            c@.fonts.len() == 0,
            c@.mouse_pixels == (0u32, 0u32),
    {
        BracketContext {
            fonts: Vec::new(),
            terminals: Vec::new(),
            current_layer: 0,
            color_palette,
            command_buffers: Vec::new(),
            mouse_pixels: (0, 0),
        }
    }

    /// Puts `layer` on top of the stack, under the next index.
    pub fn add_layer(&mut self, layer: Console)
        requires
            old(self).wf(),
            layer.wf(),
        ensures
            final(self).wf(),
            final(self)@ == (ContextView { layers: old(self)@.layers.push(layer@), ..old(self)@ }),
    {
        self.terminals.push(layer);
        proof {
            assert(self@.layers =~= old(self)@.layers.push(layer@));
        }
    }

    /// Registers a font of `w` by `h` pixels per cell.
    pub fn add_font(&mut self, w: u32, h: u32)
        requires
            old(self).wf(),
        ensures
            final(self).wf(),
            final(self)@ == (ContextView { fonts: old(self)@.fonts.push((w, h)), ..old(self)@ }),
    {
        self.fonts.push((w, h));
    }

    pub fn layer_count(&self) -> (r: usize)
        ensures
            r == self@.layers.len(),
    {
        self.terminals.len()
    }

    /// Layer `i` of the stack.
    pub fn layer(&self, i: usize) -> (r: &Console)
        requires
            i < self@.layers.len(),
        ensures
            r@ == self@.layers[i as int],
            self.wf() ==> r.wf(),
    {
        &self.terminals[i]
    }

    pub fn current_layer(&self) -> (r: usize)
        ensures
            r == self@.current,
    {
        self.current_layer
    }

    /// How many batches wait for the next replay.
    pub fn pending_batches(&self) -> (r: usize)
        ensures
            r == self@.buffer.len(),
    {
        self.command_buffers.len()
    }

    pub fn set_layer(&mut self, layer: usize)
        requires
            old(self).wf(),
        ensures
            final(self).wf(),
            final(self)@ == (ContextView { current: layer as nat, ..old(self)@ }),
    {
        self.current_layer = layer;
    }

    /// Clears the current layer to spaces, white on black.
    pub fn cls(&mut self)
        requires
            old(self).wf(),
            old(self)@.current < old(self)@.layers.len(),
        ensures
            final(self).wf(),
            final(self)@ == old(self)@.on_current(old(self)@.current_view().painted(Stroke::Clear { bg: opaque_black() })),
    {
        let cur = self.current_layer;
        self.terminals[cur].cls();
        proof {
            self.lemma_current_updated(*old(self));
        }
    }

    /// Clears the current layer to spaces over `color`.
    pub fn cls_bg(&mut self, color: Rgba)
        requires
            old(self).wf(),
            old(self)@.current < old(self)@.layers.len(),
        ensures
            final(self).wf(),
            final(self)@ == old(self)@.on_current(old(self)@.current_view().painted(Stroke::Clear { bg: color })),
    {
        let cur = self.current_layer;
        self.terminals[cur].cls_bg(color);
        proof {
            self.lemma_current_updated(*old(self));
        }
    }

    pub fn set(&mut self, x: usize, y: usize, fg: Rgba, bg: Rgba, glyph: u16)
        requires
            old(self).wf(),
            old(self)@.current < old(self)@.layers.len(),
        ensures
            final(self).wf(),
            final(self)@ == old(self)@.on_current(old(self)@.current_view().painted(Stroke::Put { x: x as int, y: y as int, glyph: Some(glyph), fg: Some(fg), bg })),
    {
        let cur = self.current_layer;
        self.terminals[cur].set(x, y, fg, bg, glyph);
        proof {
            self.lemma_current_updated(*old(self));
        }
    }

    pub fn set_bg(&mut self, x: usize, y: usize, bg: Rgba)
        requires
            old(self).wf(),
            old(self)@.current < old(self)@.layers.len(),
        ensures
            final(self).wf(),
            final(self)@ == old(self)@.on_current(old(self)@.current_view().painted(Stroke::Put { x: x as int, y: y as int, glyph: None, fg: None, bg })),
    {
        let cur = self.current_layer;
        self.terminals[cur].set_bg(x, y, bg);
        proof {
            self.lemma_current_updated(*old(self));
        }
    }

    pub fn print(&mut self, x: usize, y: usize, text: &str)
        requires
            old(self).wf(),
            old(self)@.current < old(self)@.layers.len(),
        ensures
            final(self).wf(),
            final(self)@ == old(self)@.on_current(old(self)@.current_view().text_at(x as int, y as int, text@, opaque_white(), opaque_black())),
    {
        let cur = self.current_layer;
        self.terminals[cur].print(x, y, text);
        proof {
            self.lemma_current_updated(*old(self));
        }
    }

    pub fn print_centered(&mut self, y: usize, text: &str)
        requires
            old(self).wf(),
            old(self)@.current < old(self)@.layers.len(),
        ensures
            final(self).wf(),
            final(self)@ == old(self)@.on_current(old(self)@.current_view().text_at(old(self)@.current_view().centered_start(text@.len()), y as int, text@, opaque_white(), opaque_black())),
    {
        let cur = self.current_layer;
        self.terminals[cur].print_centered(y, text);
        proof {
            self.lemma_current_updated(*old(self));
        }
    }

    pub fn print_color_centered(&mut self, y: usize, fg: Rgba, bg: Rgba, text: &str)
        requires
            old(self).wf(),
            old(self)@.current < old(self)@.layers.len(),
        ensures
            final(self).wf(),
            final(self)@ == old(self)@.on_current(old(self)@.current_view().text_at(old(self)@.current_view().centered_start(text@.len()), y as int, text@, fg, bg)),
    {
        let cur = self.current_layer;
        self.terminals[cur].print_color_centered(y, fg, bg, text);
        proof {
            self.lemma_current_updated(*old(self));
        }
    }

    pub fn print_centered_at(&mut self, x: usize, y: usize, text: &str)
        requires
            old(self).wf(),
            old(self)@.current < old(self)@.layers.len(),
        ensures
            final(self).wf(),
            final(self)@ == old(self)@.on_current(old(self)@.current_view().text_at(sat_sub(x as int, text@.len() as int / 2), y as int, text@, opaque_white(), opaque_black())),
    {
        let cur = self.current_layer;
        self.terminals[cur].print_centered_at(x, y, text);
        proof {
            self.lemma_current_updated(*old(self));
        }
    }

    pub fn print_color_centered_at(&mut self, x: usize, y: usize, fg: Rgba, bg: Rgba, text: &str)
        requires
            old(self).wf(),
            old(self)@.current < old(self)@.layers.len(),
        ensures
            final(self).wf(),
            final(self)@ == old(self)@.on_current(old(self)@.current_view().text_at(sat_sub(x as int, text@.len() as int / 2), y as int, text@, fg, bg)),
    {
        let cur = self.current_layer;
        self.terminals[cur].print_color_centered_at(x, y, fg, bg, text);
        proof {
            self.lemma_current_updated(*old(self));
        }
    }

    pub fn print_right(&mut self, x: usize, y: usize, text: &str)
        requires
            old(self).wf(),
            old(self)@.current < old(self)@.layers.len(),
        ensures
            final(self).wf(),
            final(self)@ == old(self)@.on_current(old(self)@.current_view().text_at(sat_sub(x as int, text@.len() as int), y as int, text@, opaque_white(), opaque_black())),
    {
        let cur = self.current_layer;
        self.terminals[cur].print_right(x, y, text);
        proof {
            self.lemma_current_updated(*old(self));
        }
    }

    pub fn print_color_right(&mut self, x: usize, y: usize, fg: Rgba, bg: Rgba, text: &str)
        requires
            old(self).wf(),
            old(self)@.current < old(self)@.layers.len(),
        ensures
            final(self).wf(),
            final(self)@ == old(self)@.on_current(old(self)@.current_view().text_at(sat_sub(x as int, text@.len() as int), y as int, text@, fg, bg)),
    {
        let cur = self.current_layer;
        self.terminals[cur].print_color_right(x, y, fg, bg, text);
        proof {
            self.lemma_current_updated(*old(self));
        }
    }

    pub fn print_color(&mut self, x: usize, y: usize, text: &str, foreground: Rgba, background: Rgba)
        requires
            old(self).wf(),
            old(self)@.current < old(self)@.layers.len(),
        ensures
            final(self).wf(),
            final(self)@ == old(self)@.on_current(old(self)@.current_view().text_at(x as int, y as int, text@, foreground, background)),
    {
        let cur = self.current_layer;
        self.terminals[cur].print_color(x, y, text, foreground, background);
        proof {
            self.lemma_current_updated(*old(self));
        }
    }

    pub fn draw_box(&mut self, x: usize, y: usize, width: usize, height: usize, fg: Rgba, bg: Rgba)
        requires
            old(self).wf(),
            old(self)@.current < old(self)@.layers.len(),
        ensures
            final(self).wf(),
            final(self)@ == old(self)@.on_current(old(self)@.current_view().framed(x as int, y as int, width as int, height as int, fg, bg, false, true)),
    {
        let cur = self.current_layer;
        self.terminals[cur].draw_box(x, y, width, height, fg, bg);
        proof {
            self.lemma_current_updated(*old(self));
        }
    }

    pub fn draw_hollow_box(&mut self, x: usize, y: usize, width: usize, height: usize, fg: Rgba, bg: Rgba)
        requires
            old(self).wf(),
            old(self)@.current < old(self)@.layers.len(),
        ensures
            final(self).wf(),
            final(self)@ == old(self)@.on_current(old(self)@.current_view().framed(x as int, y as int, width as int, height as int, fg, bg, false, false)),
    {
        let cur = self.current_layer;
        self.terminals[cur].draw_hollow_box(x, y, width, height, fg, bg);
        proof {
            self.lemma_current_updated(*old(self));
        }
    }

    pub fn draw_box_double(&mut self, x: usize, y: usize, width: usize, height: usize, fg: Rgba, bg: Rgba)
        requires
            old(self).wf(),
            old(self)@.current < old(self)@.layers.len(),
        ensures
            final(self).wf(),
            final(self)@ == old(self)@.on_current(old(self)@.current_view().framed(x as int, y as int, width as int, height as int, fg, bg, true, true)),
    {
        let cur = self.current_layer;
        self.terminals[cur].draw_box_double(x, y, width, height, fg, bg);
        proof {
            self.lemma_current_updated(*old(self));
        }
    }

    pub fn draw_hollow_box_double(&mut self, x: usize, y: usize, width: usize, height: usize, fg: Rgba, bg: Rgba)
        requires
            old(self).wf(),
            old(self)@.current < old(self)@.layers.len(),
        ensures
            final(self).wf(),
            final(self)@ == old(self)@.on_current(old(self)@.current_view().framed(x as int, y as int, width as int, height as int, fg, bg, true, false)),
    {
        let cur = self.current_layer;
        self.terminals[cur].draw_hollow_box_double(x, y, width, height, fg, bg);
        proof {
            self.lemma_current_updated(*old(self));
        }
    }

    pub fn fill_region(&mut self, target: Rect, glyph: u16, fg: Rgba, bg: Rgba)
        requires
            old(self).wf(),
            old(self)@.current < old(self)@.layers.len(),
        ensures
            final(self).wf(),
            final(self)@ == old(self)@.on_current(old(self)@.current_view().painted(Stroke::Fill { rect: target, glyph, fg, bg })),
    {
        let cur = self.current_layer;
        self.terminals[cur].fill_region(target, glyph, fg, bg);
        proof {
            self.lemma_current_updated(*old(self));
        }
    }

    pub fn draw_bar_horizontal(&mut self, x: usize, y: usize, width: usize, n: usize, max: usize, fg: Rgba, bg: Rgba)
        requires
            old(self).wf(),
            old(self)@.current < old(self)@.layers.len(),
        ensures
            final(self).wf(),
            final(self)@ == old(self)@.on_current(old(self)@.current_view().painted(Stroke::BarH { x: x as int, y: y as int, len: width as int, fill: bar_fill(n as int, max as int, width as int), fg, bg })),
    {
        let cur = self.current_layer;
        self.terminals[cur].draw_bar_horizontal(x, y, width, n, max, fg, bg);
        proof {
            self.lemma_current_updated(*old(self));
        }
    }

    pub fn draw_bar_vertical(&mut self, x: usize, y: usize, height: usize, n: usize, max: usize, fg: Rgba, bg: Rgba)
        requires
            old(self).wf(),
            old(self)@.current < old(self)@.layers.len(),
        ensures
            final(self).wf(),
            final(self)@ == old(self)@.on_current(old(self)@.current_view().painted(Stroke::BarV { x: x as int, y: y as int, len: height as int, fill: bar_fill(n as int, max as int, height as int), fg, bg })),
    {
        let cur = self.current_layer;
        self.terminals[cur].draw_bar_vertical(x, y, height, n, max, fg, bg);
        proof {
            self.lemma_current_updated(*old(self));
        }
    }

    pub fn set_clipping(&mut self, clipping: Option<Rect>)
        requires
            old(self).wf(),
            old(self)@.current < old(self)@.layers.len(),
        ensures
            final(self).wf(),
            final(self)@ == old(self)@.on_current(ConsoleView { clipping, ..old(self)@.current_view() }),
    {
        let cur = self.current_layer;
        self.terminals[cur].set_clipping(clipping);
        proof {
            self.lemma_current_updated(*old(self));
        }
    }

    pub fn set_all_fg_alpha(&mut self, alpha: u8)
        requires
            old(self).wf(),
            old(self)@.current < old(self)@.layers.len(),
        ensures
            final(self).wf(),
            final(self)@ == old(self)@.on_current(old(self)@.current_view().painted(Stroke::Alpha { fg: Some(alpha), bg: None })),
    {
        let cur = self.current_layer;
        self.terminals[cur].set_all_fg_alpha(alpha);
        proof {
            self.lemma_current_updated(*old(self));
        }
    }

    pub fn set_all_bg_alpha(&mut self, alpha: u8)
        requires
            old(self).wf(),
            old(self)@.current < old(self)@.layers.len(),
        ensures
            final(self).wf(),
            final(self)@ == old(self)@.on_current(old(self)@.current_view().painted(Stroke::Alpha { fg: None, bg: Some(alpha) })),
    {
        let cur = self.current_layer;
        self.terminals[cur].set_all_bg_alpha(alpha);
        proof {
            self.lemma_current_updated(*old(self));
        }
    }

    pub fn set_all_alpha(&mut self, fg: u8, bg: u8)
        requires
            old(self).wf(),
            old(self)@.current < old(self)@.layers.len(),
        ensures
            final(self).wf(),
            final(self)@ == old(self)@.on_current(old(self)@.current_view().painted(Stroke::Alpha { fg: Some(fg), bg: Some(bg) })),
    {
        let cur = self.current_layer;
        self.terminals[cur].set_all_alpha(fg, bg);
        proof {
            self.lemma_current_updated(*old(self));
        }
    }

    pub fn get_char_size(&self) -> (r: (usize, usize))
        requires
            self.wf(),
            self@.current < self@.layers.len(),
        ensures
            r.0 as nat == self@.current_view().width,
            r.1 as nat == self@.current_view().height,
    {
        self.terminals[self.current_layer].get_char_size()
    }

    /// Index of cell `(x, y)` of the current layer, which must be on its grid.
    pub fn at(&self, x: usize, y: usize) -> (r: usize)
        requires
            self.wf(),
            self@.current < self@.layers.len(),
            self@.current_view().in_grid(x as int, y as int),
        ensures
            r == self@.current_view().index_of(x as int, y as int),
    {
        self.terminals[self.current_layer].at(x, y)
    }

    /// Index of cell `(x, y)` of the current layer, or `None` off its grid.
    pub fn try_at(&self, x: usize, y: usize) -> (r: Option<usize>)
        requires
            self.wf(),
            self@.current < self@.layers.len(),
        ensures
            r == (if self@.current_view().in_grid(x as int, y as int) {
                Some(self@.current_view().index_of(x as int, y as int) as usize)
            } else {
                None
            }),
    {
        self.terminals[self.current_layer].try_at(x, y)
    }

    pub fn get_clipping(&self) -> (r: Option<Rect>)
        requires
            self@.current < self@.layers.len(),
        ensures
            r == self@.current_view().clipping,
    {
        self.terminals[self.current_layer].get_clipping()
    }

    /// The component-wise maximum of the layers' pixel sizes; `(0, 0)` when
    /// there is no layer.
    pub fn get_pixel_size(&self) -> (r: (u64, u64))
        requires
            self.wf(),
        ensures
            (r.0 as nat, r.1 as nat) == max_pixel_size(self@.layers),
    {
        let mut w: u64 = 0;
        let mut h: u64 = 0;
        let mut i: usize = 0;
        while i < self.terminals.len()
            invariant
                self.wf(),
                i <= self.terminals@.len(),
                (w as nat, h as nat) == max_pixel_size(self@.layers.subrange(0, i as int)),
            decreases self.terminals@.len() - i,
        {
            let p = self.terminals[i].get_pixel_size();
            if p.0 > w {
                w = p.0;
            }
            if p.1 > h {
                h = p.1;
            }
            proof {
                let s = self@.layers.subrange(0, i + 1);
                assert(s.drop_last() =~= self@.layers.subrange(0, i as int));
                assert(s.last() == self.terminals@[i as int]@);
            }
            i = i + 1;
        }
        proof {
            assert(self@.layers.subrange(0, i as int) =~= self@.layers);
        }
        (w, h)
    }

    /// The component-wise maximum of the fonts' pixel sizes, and at least
    /// `(1, 1)`.
    pub fn largest_font(&self) -> (r: (u32, u32))
        ensures
            (r.0 as nat, r.1 as nat) == largest_font_size(self@.fonts),
    {
        let mut w: u32 = 1;
        let mut h: u32 = 1;
        let mut i: usize = 0;
        while i < self.fonts.len()
            invariant
                i <= self.fonts@.len(),
                (w as nat, h as nat) == largest_font_size(self@.fonts.subrange(0, i as int)),
            decreases self.fonts@.len() - i,
        {
            let f = self.fonts[i];
            if f.0 > w {
                w = f.0;
            }
            if f.1 > h {
                h = f.1;
            }
            proof {
                let s = self@.fonts.subrange(0, i + 1);
                assert(s.drop_last() =~= self@.fonts.subrange(0, i as int));
            }
            i = i + 1;
        }
        proof {
            assert(self@.fonts.subrange(0, i as int) =~= self@.fonts);
        }
        (w, h)
    }

    /// The color registered under `color`, if one is.
    pub fn get_named_color(&self, color: &str) -> (r: Option<Rgba>)
        requires
            self.wf(),
        ensures
            r == (if self@.palette.contains_key(color@) {
                Some(self@.palette[color@])
            } else {
                None
            }),
    {
        self.color_palette.get(color)
    }

    /// Fits every layer to a drawing area of `pw` by `ph` pixels.
    pub fn resize_terminals(&mut self, pw: u32, ph: u32)
        requires
            old(self).wf(),
        ensures
            final(self).wf(),
            final(self)@ == (ContextView {
                layers: old(self)@.layers.map_values(|v: ConsoleView| v.fitted(pw as nat, ph as nat)),
                ..old(self)@
            }),
    {
        let n = self.terminals.len();
        let mut i: usize = 0;
        while i < n
            invariant
                n == self.terminals@.len(),
                n == old(self).terminals@.len(),
                i <= n,
                self.wf(),
                self.current_layer == old(self).current_layer,
                self.color_palette == old(self).color_palette,
                self.command_buffers == old(self).command_buffers,
                self.fonts == old(self).fonts,
                self.mouse_pixels == old(self).mouse_pixels,
                forall|j: int| 0 <= j < i ==> #[trigger] self.terminals@[j]@ == old(self).terminals@[j]@.fitted(pw as nat, ph as nat),
                forall|j: int| i <= j < n ==> #[trigger] self.terminals@[j] == old(self).terminals@[j],
            decreases n - i,
        {
            self.terminals[i].resize(pw, ph);
            i = i + 1;
        }
        proof {
            assert(self@.layers =~= old(self)@.layers.map_values(|v: ConsoleView| v.fitted(pw as nat, ph as nat)));
        }
    }

    /// Keeps the mouse position in pixels and hands it to every layer.
    pub fn set_mouse_pixel_position(&mut self, px: u32, py: u32)
        requires
            old(self).wf(),
        ensures
            final(self).wf(),
            final(self)@.mouse_pixels == (px, py),
            final(self)@.layers.len() == old(self)@.layers.len(),
            forall|j: int| 0 <= j < old(self)@.layers.len() ==> #[trigger] final(self)@.layers[j] == (ConsoleView {
                mouse: (px as nat / old(self)@.layers[j].font.0, py as nat / old(self)@.layers[j].font.1),
                ..old(self)@.layers[j]
            }),
            final(self)@.current == old(self)@.current,
            final(self)@.buffer == old(self)@.buffer,
            final(self)@.palette == old(self)@.palette,
            final(self)@.fonts == old(self)@.fonts,
    {
        self.mouse_pixels = (px, py);
        let n = self.terminals.len();
        let mut i: usize = 0;
        while i < n
            invariant
                n == self.terminals@.len(),
                n == old(self).terminals@.len(),
                i <= n,
                self.wf(),
                self.mouse_pixels == (px, py),
                self.current_layer == old(self).current_layer,
                self.color_palette == old(self).color_palette,
                self.command_buffers == old(self).command_buffers,
                self.fonts == old(self).fonts,
                forall|j: int| 0 <= j < i ==> #[trigger] self.terminals@[j]@ == (ConsoleView {
                    mouse: (px as nat / old(self).terminals@[j]@.font.0, py as nat / old(self).terminals@[j]@.font.1),
                    ..old(self).terminals@[j]@
                }),
                forall|j: int| i <= j < n ==> #[trigger] self.terminals@[j] == old(self).terminals@[j],
            decreases n - i,
        {
            self.terminals[i].set_mouse_position(px, py);
            i = i + 1;
        }
    }

    pub fn get_mouse_position_in_pixels(&self) -> (r: (u32, u32))
        ensures
            r == self@.mouse_pixels,
    {
        self.mouse_pixels
    }

    /// The cell under the mouse on the current layer.
    pub fn get_mouse_position_for_current_layer(&self) -> (r: (u32, u32))
        requires
            self@.current < self@.layers.len(),
        ensures
            (r.0 as nat, r.1 as nat) == self@.current_view().mouse,
    {
        self.terminals[self.current_layer].get_mouse_position()
    }

    pub fn new_draw_batch(&self) -> (b: DrawBatch)
        ensures
            b@.commands.len() == 0,
            !b@.needs_sort,
    {
        DrawBatch::new()
    }

    /// Queues `batch` under `z_order`, its commands first ordered by key if
    /// it asked for that.
    pub fn submit_batch(&mut self, z_order: usize, batch: DrawBatch)
        requires
            old(self).wf(),
        ensures
            final(self).wf(),
            final(self)@.buffer.len() == old(self)@.buffer.len() + 1,
            final(self)@.buffer.drop_last() == old(self)@.buffer,
            final(self)@.buffer.last().0 == z_order,
            final(self)@.buffer.last().1@ == submitted(batch@),
            final(self)@ == (ContextView { buffer: final(self)@.buffer, ..old(self)@ }),
    {
        let b = if batch.needs_sort() {
            batch.sorted()
        } else {
            batch
        };
        self.command_buffers.push((z_order, b));
        proof {
            assert(self@.buffer.drop_last() =~= old(self)@.buffer);
        }
    }

    /// Runs one command against the layer stack.
    fn dispatch(&mut self, cmd: &DrawCommand)
        requires
            old(self).wf(),
            cmd is SetTarget || old(self)@.current < old(self)@.layers.len(),
        ensures
            final(self).wf(),
            final(self)@ == (ContextView {
                layers: apply_command(old(self)@.layers, old(self)@.current, *cmd).0,
                current: apply_command(old(self)@.layers, old(self)@.current, *cmd).1,
                ..old(self)@
            }),
    {
        match cmd {
            DrawCommand::ClearScreen => self.cls(),
            DrawCommand::ClearToColor { color } => self.cls_bg(*color),
            DrawCommand::SetTarget { console } => self.set_layer(*console),
            DrawCommand::SetCell { pos, color, glyph } => {
                self.set(to_position(pos.x), to_position(pos.y), color.fg, color.bg, *glyph)
            },
            DrawCommand::SetBackground { pos, bg } => self.set_bg(to_position(pos.x), to_position(pos.y), *bg),
            DrawCommand::Print { pos, text } => self.print(to_position(pos.x), to_position(pos.y), text.as_str()),
            DrawCommand::PrintColor { pos, text, color } => {
                self.print_color(to_position(pos.x), to_position(pos.y), text.as_str(), color.fg, color.bg)
            },
            DrawCommand::PrintCentered { y, text } => self.print_centered(to_position(*y), text.as_str()),
            DrawCommand::PrintColorCentered { y, text, color } => {
                self.print_color_centered(to_position(*y), color.fg, color.bg, text.as_str())
            },
            DrawCommand::PrintCenteredAt { pos, text } => {
                self.print_centered_at(to_position(pos.x), to_position(pos.y), text.as_str())
            },
            DrawCommand::PrintColorCenteredAt { pos, text, color } => self.print_color_centered_at(
                to_position(pos.x),
                to_position(pos.y),
                color.fg,
                color.bg,
                text.as_str(),
            ),
            DrawCommand::PrintRight { pos, text } => {
                self.print_right(to_position(pos.x), to_position(pos.y), text.as_str())
            },
            DrawCommand::PrintColorRight { pos, text, color } => self.print_color_right(
                to_position(pos.x),
                to_position(pos.y),
                color.fg,
                color.bg,
                text.as_str(),
            ),
            DrawCommand::Box { pos, color } => self.draw_box(
                to_position(pos.x1),
                to_position(pos.y1),
                pos.width() as usize,
                pos.height() as usize,
                color.fg,
                color.bg,
            ),
            DrawCommand::HollowBox { pos, color } => self.draw_hollow_box(
                to_position(pos.x1),
                to_position(pos.y1),
                pos.width() as usize,
                pos.height() as usize,
                color.fg,
                color.bg,
            ),
            DrawCommand::DoubleBox { pos, color } => self.draw_box_double(
                to_position(pos.x1),
                to_position(pos.y1),
                pos.width() as usize,
                pos.height() as usize,
                color.fg,
                color.bg,
            ),
            DrawCommand::HollowDoubleBox { pos, color } => self.draw_hollow_box_double(
                to_position(pos.x1),
                to_position(pos.y1),
                pos.width() as usize,
                pos.height() as usize,
                color.fg,
                color.bg,
            ),
            DrawCommand::FillRegion { pos, color, glyph } => self.fill_region(*pos, *glyph, color.fg, color.bg),
            DrawCommand::BarHorizontal { pos, width, n, max, color } => self.draw_bar_horizontal(
                to_position(pos.x),
                to_position(pos.y),
                to_amount(*width),
                to_amount(*n),
                to_amount(*max),
                color.fg,
                color.bg,
            ),
            DrawCommand::BarVertical { pos, height, n, max, color } => self.draw_bar_vertical(
                to_position(pos.x),
                to_position(pos.y),
                to_amount(*height),
                to_amount(*n),
                to_amount(*max),
                color.fg,
                color.bg,
            ),
            DrawCommand::SetClipping { clip } => self.set_clipping(*clip),
            DrawCommand::SetFgAlpha { alpha } => self.set_all_fg_alpha(*alpha),
            DrawCommand::SetBgAlpha { alpha } => self.set_all_bg_alpha(*alpha),
            DrawCommand::SetAllAlpha { fg, bg } => self.set_all_alpha(*fg, *bg),
        }
    }

    /// Replays every submitted batch, in ascending z-order (batches with
    /// equal z-orders in the order they were submitted), each batch's
    /// commands in their order, then empties the buffer. A layer selection
    /// holds for the commands after it, in its batch and the later ones.
    pub fn render_all_batches(&mut self)
        requires
            old(self).wf(),
            replayable(old(self)@.layers, old(self)@.current, old(self)@.pending()),
        ensures
            final(self).wf(),
            final(self)@ == (ContextView {
                layers: replay(old(self)@.layers, old(self)@.current, old(self)@.pending()).0,
                current: replay(old(self)@.layers, old(self)@.current, old(self)@.pending()).1,
                buffer: Seq::empty(),
                ..old(self)@
            }),
    {
        let mut pending: Vec<(usize, DrawBatch)> = Vec::new();
        std::mem::swap(&mut pending, &mut self.command_buffers);
        let sorted = stable_sort_by_key(pending);
        self.replay_batches(&sorted);
    }

    /// `render_all_batches` where every command meets a layer; otherwise
    /// nothing is drawn, `false` comes back, and the buffer keeps the
    /// batches in replay order.
    pub fn try_render_all_batches(&mut self) -> (ok: bool)
        requires
            old(self).wf(),
        ensures
            final(self).wf(),
            ok == replayable(old(self)@.layers, old(self)@.current, old(self)@.pending()),
            ok ==> final(self)@ == (ContextView {
                layers: replay(old(self)@.layers, old(self)@.current, old(self)@.pending()).0,
                current: replay(old(self)@.layers, old(self)@.current, old(self)@.pending()).1,
                buffer: Seq::empty(),
                ..old(self)@
            }),
            !ok ==> final(self)@ == (ContextView { buffer: sort_by_key(old(self)@.buffer), ..old(self)@ }),
    {
        let mut pending: Vec<(usize, DrawBatch)> = Vec::new();
        std::mem::swap(&mut pending, &mut self.command_buffers);
        let sorted = stable_sort_by_key(pending);
        if self.all_layers_exist(&sorted) {
            self.replay_batches(&sorted);
            true
        } else {
            self.command_buffers = sorted;
            false
        }
    }

    /// Whether every command of the batches, replayed in order, meets a
    /// current layer that exists.
    fn all_layers_exist(&self, sorted: &Vec<(usize, DrawBatch)>) -> (ok: bool)
        ensures
            ok == replayable(self@.layers, self@.current, commands_of(sorted@)),
    {
        let ghost full = commands_of(sorted@);
        let ghost l0 = self@.layers;
        let ghost c0 = self@.current;
        let ghost mut done: Seq<DrawCommand> = Seq::empty();
        let count = self.terminals.len();
        let mut cur = self.current_layer;
        let n = sorted.len();
        let mut i: usize = 0;
        proof {
            assert(sorted@.subrange(0, n as int) =~= sorted@);
            assert(done + full =~= full);
        }
        while i < n
            invariant
                n == sorted@.len(),
                i <= n,
                count == l0.len(),
                full == commands_of(sorted@),
                l0 == self@.layers,
                c0 == self@.current,
                replayable(l0, c0, done),
                done + commands_of(sorted@.subrange(i as int, n as int)) == full,
                cur == replay(l0, c0, done).1,
            decreases n - i,
        {
            let cmds = sorted[i].1.commands();
            let m = cmds.len();
            let ghost rest = commands_of(sorted@.subrange(i + 1, n as int));
            proof {
                assert(sorted@.subrange(i as int, n as int).drop_first() =~= sorted@.subrange(i + 1, n as int));
                assert(batch_commands(sorted@[i as int].1@).subrange(0, m as int) =~= batch_commands(sorted@[i as int].1@));
            }
            let mut j: usize = 0;
            while j < m
                invariant
                    n == sorted@.len(),
                    i < n,
                    j <= m,
                    m == cmds@.len(),
                    cmds@ == sorted@[i as int].1@.commands,
                    count == l0.len(),
                    l0 == self@.layers,
                    c0 == self@.current,
                    full == commands_of(sorted@),
                    replayable(l0, c0, done),
                    rest == commands_of(sorted@.subrange(i + 1, n as int)),
                    done + batch_commands(sorted@[i as int].1@).subrange(j as int, m as int) + rest == full,
                    cur == replay(l0, c0, done).1,
                decreases m - j,
            {
                let cmd = &cmds[j].1;
                let ghost tail = batch_commands(sorted@[i as int].1@).subrange(j + 1, m as int) + rest;
                let ghost next = done.push(*cmd);
                proof {
                    assert(batch_commands(sorted@[i as int].1@).subrange(j as int, m as int) =~= seq![*cmd] + batch_commands(sorted@[i as int].1@).subrange(j + 1, m as int));
                    assert(next + tail =~= full);
                    assert(next.drop_last() =~= done);
                }
                match cmd {
                    DrawCommand::SetTarget { console } => {
                        cur = *console;
                    },
                    _ => {
                        if cur >= count {
                            proof {
                                assert(next.last() == *cmd);
                                assert(!(*cmd is SetTarget));
                                if replayable(l0, c0, full) {
                                    lemma_replayable_prefix(l0, c0, next, tail);
                                    assert(replay(l0, c0, next.drop_last()).1 < l0.len());
                                }
                            }
                            return false;
                        }
                    },
                }
                proof {
                    done = next;
                }
                j = j + 1;
            }
            proof {
                assert(batch_commands(sorted@[i as int].1@).subrange(m as int, m as int) =~= Seq::<DrawCommand>::empty());
                assert(done + Seq::<DrawCommand>::empty() + rest =~= done + rest);
            }
            i = i + 1;
        }
        proof {
            assert(sorted@.subrange(n as int, n as int) =~= Seq::<(usize, DrawBatch)>::empty());
            assert(done + Seq::<DrawCommand>::empty() =~= done);
        }
        true
    }

    /// Runs the commands of the batches, batch after batch.
    fn replay_batches(&mut self, sorted: &Vec<(usize, DrawBatch)>)
        requires
            old(self).wf(),
            replayable(old(self)@.layers, old(self)@.current, commands_of(sorted@)),
        ensures
            final(self).wf(),
            final(self)@ == (ContextView {
                layers: replay(old(self)@.layers, old(self)@.current, commands_of(sorted@)).0,
                current: replay(old(self)@.layers, old(self)@.current, commands_of(sorted@)).1,
                ..old(self)@
            }),
    {
        let ghost full = commands_of(sorted@);
        let ghost l0 = old(self)@.layers;
        let ghost c0 = old(self)@.current;
        let ghost mut done: Seq<DrawCommand> = Seq::empty();
        let n = sorted.len();
        let mut i: usize = 0;
        proof {
            assert(sorted@.subrange(0, n as int) =~= sorted@);
            assert(done + full =~= full);
        }
        while i < n
            invariant
                self.wf(),
                n == sorted@.len(),
                i <= n,
                full == commands_of(sorted@),
                replayable(l0, c0, full),
                done + commands_of(sorted@.subrange(i as int, n as int)) == full,
                self@.layers == replay(l0, c0, done).0,
                self@.current == replay(l0, c0, done).1,
                self@.layers.len() == l0.len(),
                self@ == (ContextView { layers: self@.layers, current: self@.current, ..old(self)@ }),
            decreases n - i,
        {
            let cmds = sorted[i].1.commands();
            let m = cmds.len();
            let ghost rest = commands_of(sorted@.subrange(i + 1, n as int));
            proof {
                assert(sorted@.subrange(i as int, n as int).drop_first() =~= sorted@.subrange(i + 1, n as int));
                assert(batch_commands(sorted@[i as int].1@).subrange(0, m as int) =~= batch_commands(sorted@[i as int].1@));
            }
            let mut j: usize = 0;
            while j < m
                invariant
                    self.wf(),
                    n == sorted@.len(),
                    i < n,
                    j <= m,
                    m == cmds@.len(),
                    cmds@ == sorted@[i as int].1@.commands,
                    full == commands_of(sorted@),
                    replayable(l0, c0, full),
                    rest == commands_of(sorted@.subrange(i + 1, n as int)),
                    done + batch_commands(sorted@[i as int].1@).subrange(j as int, m as int) + rest == full,
                    self@.layers == replay(l0, c0, done).0,
                    self@.current == replay(l0, c0, done).1,
                    self@.layers.len() == l0.len(),
                    self@ == (ContextView { layers: self@.layers, current: self@.current, ..old(self)@ }),
                decreases m - j,
            {
                let cmd = &cmds[j].1;
                let ghost tail = batch_commands(sorted@[i as int].1@).subrange(j + 1, m as int) + rest;
                proof {
                    let next = done.push(*cmd);
                    assert(batch_commands(sorted@[i as int].1@).subrange(j as int, m as int) =~= seq![*cmd] + batch_commands(sorted@[i as int].1@).subrange(j + 1, m as int));
                    assert(next + tail =~= full);
                    lemma_replayable_prefix(l0, c0, next, tail);
                    assert(next.drop_last() =~= done);
                    lemma_replay_keeps_count(l0, c0, next);
                }
                self.dispatch(cmd);
                proof {
                    let next = done.push(*cmd);
                    assert(next.drop_last() =~= done);
                    done = next;
                }
                j = j + 1;
            }
            proof {
                assert(batch_commands(sorted@[i as int].1@).subrange(m as int, m as int) =~= Seq::<DrawCommand>::empty());
                assert(done + Seq::<DrawCommand>::empty() + rest =~= done + rest);
            }
            i = i + 1;
        }
        proof {
            assert(sorted@.subrange(n as int, n as int) =~= Seq::<(usize, DrawBatch)>::empty());
            assert(done + Seq::<DrawCommand>::empty() =~= done);
        }
    }
}

/// A replayable sequence of commands stays replayable when cut short.
pub proof fn lemma_replayable_prefix(layers: Seq<ConsoleView>, cur: nat, a: Seq<DrawCommand>, b: Seq<DrawCommand>)
    requires
        replayable(layers, cur, a + b),
    ensures
        replayable(layers, cur, a),
    decreases b.len(),
{
    if b.len() > 0 {
        assert((a + b).drop_last() =~= a + b.drop_last());
        lemma_replayable_prefix(layers, cur, a, b.drop_last());
    } else {
        assert(a + b =~= a);
    }
}

/// Replaying a replayable sequence keeps the number of layers.
pub proof fn lemma_replay_keeps_count(layers: Seq<ConsoleView>, cur: nat, cmds: Seq<DrawCommand>)
    requires
        replayable(layers, cur, cmds),
    ensures
        replay(layers, cur, cmds).0.len() == layers.len(),
    decreases cmds.len(),
{
    if cmds.len() > 0 {
        lemma_replay_keeps_count(layers, cur, cmds.drop_last());
    }
}

/// Batches are replayed in non-decreasing z-order, each submitted batch
/// exactly once, and batches with equal z-orders in submission order.
pub proof fn lemma_batches_in_z_order(buffer: Seq<(usize, DrawBatch)>)
    ensures
        sorted_by_key(sort_by_key(buffer)),
        sort_by_key(buffer).to_multiset() == buffer.to_multiset(),
        forall|z: usize| #[trigger] with_key(sort_by_key(buffer), z) == with_key(buffer, z),
{
    lemma_sort_by_key(buffer);
    assert forall|z: usize| #[trigger] with_key(sort_by_key(buffer), z) == with_key(buffer, z) by {
        lemma_sort_by_key_stable(buffer, z);
    }
}

/// A submitted batch that asked to be sorted holds its commands in ascending
/// key order, all of them, commands with equal keys in insertion order; one
/// that did not ask keeps its insertion order whatever the keys.
pub proof fn lemma_submitted_order(b: BatchView)
    ensures
        b.needs_sort ==> sorted_by_key(submitted(b).commands),
        submitted(b).commands.to_multiset() == b.commands.to_multiset(),
        forall|k: usize| #[trigger] with_key(submitted(b).commands, k) == with_key(b.commands, k),
        !b.needs_sort ==> submitted(b).commands == b.commands,
{
    lemma_sort_by_key(b.commands);
    assert forall|k: usize| #[trigger] with_key(submitted(b).commands, k) == with_key(b.commands, k) by {
        lemma_sort_by_key_stable(b.commands, k);
    }
}

/// Replaying `a` then `b` is replaying `b` from where `a` left off.
pub proof fn lemma_replay_concat(layers: Seq<ConsoleView>, cur: nat, a: Seq<DrawCommand>, b: Seq<DrawCommand>)
    ensures
        replay(layers, cur, a + b) == replay(replay(layers, cur, a).0, replay(layers, cur, a).1, b),
    decreases b.len(),
{
    if b.len() == 0 {
        assert(a + b =~= a);
    } else {
        assert((a + b).drop_last() =~= a + b.drop_last());
        lemma_replay_concat(layers, cur, a, b.drop_last());
    }
}

proof fn lemma_no_selection_keeps_current(layers: Seq<ConsoleView>, cur: nat, cmds: Seq<DrawCommand>)
    requires
        forall|i: int| 0 <= i < cmds.len() ==> !(#[trigger] cmds[i] is SetTarget),
    ensures
        replay(layers, cur, cmds).1 == cur,
    decreases cmds.len(),
{
    if cmds.len() > 0 {
        assert(!(cmds[cmds.len() - 1] is SetTarget));
        lemma_no_selection_keeps_current(layers, cur, cmds.drop_last());
    }
}

/// After a selection of layer `k`, every later command without a selection
/// of its own reaches layer `k`, and `k` is still current at the end.
pub proof fn lemma_selection_persists(
    layers: Seq<ConsoleView>,
    cur: nat,
    before: Seq<DrawCommand>,
    k: usize,
    after: Seq<DrawCommand>,
)
    requires
        forall|i: int| 0 <= i < after.len() ==> !(#[trigger] after[i] is SetTarget),
    ensures
        replay(layers, cur, before.push(DrawCommand::SetTarget { console: k }) + after)
            == replay(replay(layers, cur, before).0, k as nat, after),
        replay(layers, cur, before.push(DrawCommand::SetTarget { console: k }) + after).1 == k,
{
    let sel = before.push(DrawCommand::SetTarget { console: k });
    assert(sel.drop_last() =~= before);
    lemma_replay_concat(layers, cur, sel, after);
    lemma_no_selection_keeps_current(replay(layers, cur, before).0, k as nat, after);
}

} // verus!
