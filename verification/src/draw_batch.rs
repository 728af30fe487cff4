//! Deferred drawing: an ordered list of operations that a renderer carries
//! out later on its own surface.

use crate::color::ColorPair;
use crate::cp437::FontCharType;
use crate::geometry::Point;
use vstd::prelude::*;

verus! {

/// One operation on a render surface.
#[derive(Clone, Copy, Debug, PartialEq, Eq, Structural)]
pub enum DrawCommand {
    /// Clear the selected layer.
    ClearScreen,
    /// Select the layer that the following operations address.
    SetTarget { console: usize },
    /// Put a glyph with its colors at an absolute grid position.
    SetGlyph { pos: Point, color: ColorPair, glyph: FontCharType },
}

/// Draw operations in the order in which they were asked for.
///
/// Its view is the sequence of those operations.
pub struct DrawBatch {
    batch: Vec<DrawCommand>,
}

impl View for DrawBatch {
    type V = Seq<DrawCommand>;

    closed spec fn view(&self) -> Seq<DrawCommand> {
        self.batch@
    }
}

impl DrawBatch {
    /// A batch without operations.
    pub fn new() -> (batch: DrawBatch)
        ensures
            batch@ == Seq::<DrawCommand>::empty(),
    {
        DrawBatch { batch: Vec::new() }
    }

    /// Appends the clearing of the selected layer.
    pub fn cls(&mut self) -> (batch: &mut Self)
        ensures
            batch@ == old(self)@.push(DrawCommand::ClearScreen),
            *final(self) == *final(batch),
    {
        self.batch.push(DrawCommand::ClearScreen);
        self
    }

    /// Appends the selection of the layer `console`.
    pub fn target(&mut self, console: usize) -> (batch: &mut Self)
        ensures
            batch@ == old(self)@.push(DrawCommand::SetTarget { console }),
            *final(self) == *final(batch),
    {
        self.batch.push(DrawCommand::SetTarget { console });
        self
    }

    /// Appends the drawing of `glyph` in the colors `color` at `pos`.
    pub fn set(&mut self, pos: Point, color: ColorPair, glyph: FontCharType) -> (batch: &mut Self)
        ensures
            batch@ == old(self)@.push(DrawCommand::SetGlyph { pos, color, glyph }),
            *final(self) == *final(batch),
    {
        self.batch.push(DrawCommand::SetGlyph { pos, color, glyph });
        self
    }

    /// The number of operations in the batch.
    pub fn len(&self) -> (n: usize)
        ensures
            n == self@.len(),
    {
        self.batch.len()
    }

    /// The operations of the batch, oldest first.
    pub fn commands(&self) -> (ops: &Vec<DrawCommand>)
        ensures
            ops@ == self@,
    {
        &self.batch
    }
}


} // verus!
