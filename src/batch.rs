//! Draw commands and the batches that hold them until they are replayed.
use vstd::prelude::*;

use crate::color::{ColorPair, Rgba};
use crate::geometry::{Point, Rect};
use crate::sorting::{sort_by_key, stable_sort_by_key};

verus! {

/// One deferred drawing operation, carrying what it needs to be replayed.
pub enum DrawCommand {
    ClearScreen,
    ClearToColor { color: Rgba },
    /// Makes layer `console` the current layer for the commands after it.
    SetTarget { console: usize },
    SetCell { pos: Point, color: ColorPair, glyph: u16 },
    SetBackground { pos: Point, bg: Rgba },
    Print { pos: Point, text: String },
    PrintColor { pos: Point, text: String, color: ColorPair },
    PrintCentered { y: i32, text: String },
    PrintColorCentered { y: i32, text: String, color: ColorPair },
    PrintCenteredAt { pos: Point, text: String },
    PrintColorCenteredAt { pos: Point, text: String, color: ColorPair },
    PrintRight { pos: Point, text: String },
    PrintColorRight { pos: Point, text: String, color: ColorPair },
    Box { pos: Rect, color: ColorPair },
    HollowBox { pos: Rect, color: ColorPair },
    DoubleBox { pos: Rect, color: ColorPair },
    HollowDoubleBox { pos: Rect, color: ColorPair },
    FillRegion { pos: Rect, color: ColorPair, glyph: u16 },
    BarHorizontal { pos: Point, width: i32, n: i32, max: i32, color: ColorPair },
    BarVertical { pos: Point, height: i32, n: i32, max: i32, color: ColorPair },
    SetClipping { clip: Option<Rect> },
    SetFgAlpha { alpha: u8 },
    SetBgAlpha { alpha: u8 },
    SetAllAlpha { fg: u8, bg: u8 },
}

/// What a batch holds: its commands with their priority keys, and whether
/// they are to be ordered by key before replay.
pub struct BatchView {
    pub commands: Seq<(usize, DrawCommand)>,
    pub needs_sort: bool,
}

/// Commands recorded now and replayed later, once the batch is submitted.
pub struct DrawBatch {
    batch: Vec<(usize, DrawCommand)>,
    needs_sort: bool,
}

impl View for DrawBatch {
    type V = BatchView;

    closed spec fn view(&self) -> BatchView {
        BatchView { commands: self.batch@, needs_sort: self.needs_sort }
    }
}

impl DrawBatch {
    /// An empty batch that keeps its commands in the order they are added.
    pub fn new() -> (b: DrawBatch)
        ensures
            b@.commands.len() == 0,
            !b@.needs_sort,
    {
        DrawBatch { batch: Vec::new(), needs_sort: false }
    }

    /// Adds a command whose key is its position in the batch.
    pub fn push(&mut self, cmd: DrawCommand)
        ensures
            final(self)@.commands == old(self)@.commands.push((old(self)@.commands.len() as usize, cmd)),
            final(self)@.needs_sort == old(self)@.needs_sort,
    {
        let key = self.batch.len();
        self.batch.push((key, cmd));
    }

    /// Adds a command under priority key `z`; the batch will be ordered by
    /// key before it is replayed.
    pub fn push_with_z(&mut self, z: usize, cmd: DrawCommand)
        ensures
            final(self)@.commands == old(self)@.commands.push((z, cmd)),
            final(self)@.needs_sort,
    {
        self.batch.push((z, cmd));
        self.needs_sort = true;
    }

    pub fn needs_sort(&self) -> (r: bool)
        ensures
            r == self@.needs_sort,
    {
        self.needs_sort
    }

    pub fn commands(&self) -> (r: &Vec<(usize, DrawCommand)>)
        ensures
            r@ == self@.commands,
    {
        &self.batch
    }

    /// The batch with its commands in ascending key order; commands with
    /// equal keys keep their order.
    pub fn sorted(self) -> (r: DrawBatch)
        ensures
            r@ == (BatchView { commands: sort_by_key(self@.commands), ..self@ }),
    {
        DrawBatch { batch: stable_sort_by_key(self.batch), needs_sort: self.needs_sort }
    }

    /// Clears the current layer.
    pub fn cls(&mut self)
        ensures
            final(self)@.commands == old(self)@.commands.push((old(self)@.commands.len() as usize, DrawCommand::ClearScreen)),
            final(self)@.needs_sort == old(self)@.needs_sort,
    {
        self.push(DrawCommand::ClearScreen);
    }

    /// Makes `console` the current layer for the commands that follow.
    pub fn target(&mut self, console: usize)
        ensures
            final(self)@.commands == old(self)@.commands.push(
                (old(self)@.commands.len() as usize, DrawCommand::SetTarget { console }),
            ),
            final(self)@.needs_sort == old(self)@.needs_sort,
    {
        self.push(DrawCommand::SetTarget { console });
    }

    /// Sets one cell of the current layer.
    pub fn set(&mut self, pos: Point, color: ColorPair, glyph: u16)
        ensures
            final(self)@.commands == old(self)@.commands.push(
                (old(self)@.commands.len() as usize, DrawCommand::SetCell { pos, color, glyph }),
            ),
            final(self)@.needs_sort == old(self)@.needs_sort,
    {
        self.push(DrawCommand::SetCell { pos, color, glyph });
    }

    /// Prints white on black from `pos`.
    pub fn print(&mut self, pos: Point, text: String)
        ensures
            final(self)@.commands == old(self)@.commands.push(
                (old(self)@.commands.len() as usize, DrawCommand::Print { pos, text }),
            ),
            final(self)@.needs_sort == old(self)@.needs_sort,
    {
        self.push(DrawCommand::Print { pos, text });
    }
}

} // verus!
