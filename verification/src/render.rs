//! What a text block looks like as draw operations.

use crate::color::ColorPair;
use crate::draw_batch::DrawCommand;
use crate::geometry::{Point, Rect};
use crate::layout::BlockView;
use vstd::prelude::*;

verus! {

impl BlockView {
    /// The draw operation for the cell in column `x` of row `y`: its glyph
    /// in its colors, at the cell's position counted from the block's
    /// origin.
    pub open spec fn cell_command(self, x: int, y: int) -> DrawCommand {
        let cell = self.cells[y * self.width + x];
        DrawCommand::SetGlyph {
            pos: Point { x: (x + self.x) as i32, y: (y + self.y) as i32 },
            color: ColorPair { fg: cell.foreground, bg: cell.background },
            glyph: cell.glyph,
        }
    }

    /// The draw operations for the columns `x1..x2` of row `y`, from left to
    /// right.
    pub open spec fn row_commands(self, y: int, x1: int, x2: int) -> Seq<DrawCommand> {
        Seq::new(
            if x1 <= x2 {
                (x2 - x1) as nat
            } else {
                0
            },
            |k: int| self.cell_command(x1 + k, y),
        )
    }

    /// The draw operations for the columns `x1..x2` of the rows `y1..y2`, row
    /// after row from the top.
    pub open spec fn area_commands(self, x1: int, x2: int, y1: int, y2: int) -> Seq<DrawCommand>
        decreases y2 - y1,
    {
        if y2 <= y1 {
            Seq::<DrawCommand>::empty()
        } else {
            self.area_commands(x1, x2, y1, y2 - 1) + self.row_commands(y2 - 1, x1, x2)
        }
    }

    /// The part of `clip` that lies in the block: its columns clamped to
    /// `0..width`, its rows to `0..height`.
    pub open spec fn clipped(self, clip: Rect) -> Rect {
        Rect {
            x1: if clip.x1 > 0 {
                clip.x1
            } else {
                0
            },
            x2: if clip.x2 < self.width {
                clip.x2
            } else {
                self.width as i32
            },
            y1: if clip.y1 > 0 {
                clip.y1
            } else {
                0
            },
            y2: if clip.y2 < self.height {
                clip.y2
            } else {
                self.height as i32
            },
        }
    }

    /// The whole block as a rectangle.
    pub open spec fn bounds(self) -> Rect {
        Rect { x1: 0, x2: self.width as i32, y1: 0, y2: self.height as i32 }
    }

    /// Whether the cells of `area`, if it has any, have positions on the
    /// render surface that are `i32` coordinates.
    pub open spec fn reaches(self, area: Rect) -> bool {
        area.x1 < area.x2 && area.y1 < area.y2 ==> {
            &&& i32::MIN <= self.x + area.x1
            &&& self.x + area.x2 - 1 <= i32::MAX
            &&& i32::MIN <= self.y + area.y1
            &&& self.y + area.y2 - 1 <= i32::MAX
        }
    }

    /// The draw operations for the cells of `area`.
    pub open spec fn rect_commands(self, area: Rect) -> Seq<DrawCommand> {
        self.area_commands(area.x1 as int, area.x2 as int, area.y1 as int, area.y2 as int)
    }

    /// The draw operations of rendering clipped to `clip`.
    pub open spec fn clip_commands(self, clip: Rect) -> Seq<DrawCommand> {
        self.rect_commands(self.clipped(clip))
    }

    /// Whether the cell in column `x` of row `y` is a cell of the block that
    /// lies in `clip`.
    pub open spec fn shares(self, clip: Rect, x: int, y: int) -> bool {
        self.bounds().contains(x, y) && clip.contains(x, y)
    }

    /// Where, among the operations of rendering clipped to `clip`, the one
    /// for the cell in column `x` of row `y` stands.
    pub open spec fn clip_index(self, clip: Rect, x: int, y: int) -> int {
        let area = self.clipped(clip);
        (y - area.y1) * (area.x2 - area.x1) + (x - area.x1)
    }

    /// The column of the cell that the `k`th operation of rendering clipped
    /// to `clip` is for.
    pub open spec fn clip_column(self, clip: Rect, k: int) -> int {
        let area = self.clipped(clip);
        area.x1 + k % (area.x2 - area.x1)
    }

    /// The row of the cell that the `k`th operation of rendering clipped to
    /// `clip` is for.
    pub open spec fn clip_row(self, clip: Rect, k: int) -> int {
        let area = self.clipped(clip);
        area.y1 + k / (area.x2 - area.x1)
    }
}

/// The draw operations for an area are one per cell, row after row: the
/// operation for the cell in column `x` of row `y` stands at the index
/// `(y - y1) * (x2 - x1) + (x - x1)`.
pub proof fn lemma_area_commands(block: BlockView, x1: int, x2: int, y1: int, y2: int)
    requires
        x1 <= x2,
        y1 <= y2,
    ensures
        block.area_commands(x1, x2, y1, y2).len() == (y2 - y1) * (x2 - x1),
        forall|x: int, y: int|
            x1 <= x < x2 && y1 <= y < y2 ==> {
                &&& 0 <= (y - y1) * (x2 - x1) + (x - x1) < (y2 - y1) * (x2 - x1)
                &&& block.area_commands(x1, x2, y1, y2)[(y - y1) * (x2 - x1) + (x - x1)]
                    == #[trigger] block.cell_command(x, y)
            },
    decreases y2 - y1,
{
    let cols = x2 - x1;
    if y2 > y1 {
        lemma_area_commands(block, x1, x2, y1, y2 - 1);
        let above = block.area_commands(x1, x2, y1, y2 - 1);
        let row = block.row_commands(y2 - 1, x1, x2);
        assert((y2 - y1) * cols == (y2 - 1 - y1) * cols + cols) by (nonlinear_arith);
        assert forall|x: int, y: int| x1 <= x < x2 && y1 <= y < y2 implies {
            &&& 0 <= (y - y1) * cols + (x - x1) < (y2 - y1) * cols
            &&& block.area_commands(x1, x2, y1, y2)[(y - y1) * cols + (x - x1)]
                == #[trigger] block.cell_command(x, y)
        } by {
            assert(0 <= (y - y1) * cols <= (y2 - 1 - y1) * cols) by (nonlinear_arith)
                requires
                    0 <= y - y1 <= y2 - 1 - y1,
                    0 <= cols,
            ;
            if y == y2 - 1 {
                assert((above + row)[above.len() + (x - x1)] == row[x - x1]);
            } else {
                assert((y - y1) * cols + cols <= (y2 - 1 - y1) * cols) by (nonlinear_arith)
                    requires
                        0 <= y - y1 < y2 - 1 - y1,
                        0 <= cols,
                ;
                assert((above + row)[(y - y1) * cols + (x - x1)] == above[(y - y1) * cols + (x
                    - x1)]);
            }
        }
    } else {
        assert((y2 - y1) * cols == 0) by (nonlinear_arith)
            requires
                y2 - y1 == 0,
        ;
    }
}

/// Where an index into `rows` rows of `cols` cells lies.
proof fn lemma_index_to_cell(k: int, cols: int, rows: int)
    by (nonlinear_arith)
    requires
        0 < cols,
        0 <= k < rows * cols,
    ensures
        0 <= k % cols < cols,
        0 <= k / cols < rows,
        (k / cols) * cols + k % cols == k,
{
}

/// The `k`th draw operation for an area with columns is the one for the
/// cell in column `x1 + k % (x2 - x1)` of row `y1 + k / (x2 - x1)`.
pub proof fn lemma_area_commands_by_index(block: BlockView, x1: int, x2: int, y1: int, y2: int)
    requires
        x1 < x2,
        y1 <= y2,
    ensures
        forall|k: int|
            0 <= k < block.area_commands(x1, x2, y1, y2).len() ==> {
                &&& x1 <= x1 + k % (x2 - x1) < x2
                &&& y1 <= y1 + k / (x2 - x1) < y2
                &&& #[trigger] block.area_commands(x1, x2, y1, y2)[k] == block.cell_command(
                    x1 + k % (x2 - x1),
                    y1 + k / (x2 - x1),
                )
            },
{
    let cols = x2 - x1;
    let ops = block.area_commands(x1, x2, y1, y2);
    lemma_area_commands(block, x1, x2, y1, y2);
    assert forall|k: int| 0 <= k < ops.len() implies {
        &&& x1 <= x1 + k % cols < x2
        &&& y1 <= y1 + k / cols < y2
        &&& #[trigger] ops[k] == block.cell_command(x1 + k % cols, y1 + k / cols)
    } by {
        lemma_index_to_cell(k, cols, y2 - y1);
        let x = x1 + k % cols;
        let y = y1 + k / cols;
        assert(ops[(y - y1) * cols + (x - x1)] == block.cell_command(x, y));
    }
}

/// Clipped rendering visits exactly the cells that the block and the clip
/// rectangle have in common, each of them once, row after row: each such
/// cell has its draw operation at an index of its own, and every operation
/// is the one for such a cell.
pub proof fn lemma_clip_visits_intersection(block: BlockView, clip: Rect)
    requires
        block.wf(),
    ensures
        forall|x: int, y: int|
            block.shares(clip, x, y) ==> {
                &&& 0 <= block.clip_index(clip, x, y) < block.clip_commands(clip).len()
                &&& block.clip_commands(clip)[block.clip_index(clip, x, y)]
                    == #[trigger] block.cell_command(x, y)
            },
        forall|k: int|
            0 <= k < block.clip_commands(clip).len() ==> {
                &&& block.shares(clip, block.clip_column(clip, k), block.clip_row(clip, k))
                &&& block.clip_index(clip, block.clip_column(clip, k), block.clip_row(clip, k))
                    == k
                &&& #[trigger] block.clip_commands(clip)[k] == block.cell_command(
                    block.clip_column(clip, k),
                    block.clip_row(clip, k),
                )
            },
{
    let area = block.clipped(clip);
    let x1 = area.x1 as int;
    let x2 = area.x2 as int;
    let y1 = area.y1 as int;
    let y2 = area.y2 as int;
    if x1 < x2 && y1 < y2 {
        lemma_area_commands(block, x1, x2, y1, y2);
        lemma_area_commands_by_index(block, x1, x2, y1, y2);
        assert forall|k: int| 0 <= k < block.clip_commands(clip).len() implies block.clip_index(
            clip,
            block.clip_column(clip, k),
            block.clip_row(clip, k),
        ) == k by {
            lemma_index_to_cell(k, x2 - x1, y2 - y1);
        }
    } else if x1 < x2 {
    } else {
        lemma_empty_columns(block, x1, x2, y1, y2);
    }
}

/// The number of draw operations of clipped rendering: the number of cells
/// that the block and the clip rectangle have in common.
pub proof fn lemma_clip_count(block: BlockView, clip: Rect)
    requires
        block.wf(),
    ensures
        ({
            let area = block.clipped(clip);
            block.rect_commands(area).len() == if area.x1 < area.x2 && area.y1 < area.y2 {
                (area.y2 - area.y1) * (area.x2 - area.x1)
            } else {
                0
            }
        }),
{
    let area = block.clipped(clip);
    let x1 = area.x1 as int;
    let x2 = area.x2 as int;
    let y1 = area.y1 as int;
    let y2 = area.y2 as int;
    if x1 < x2 && y1 < y2 {
        lemma_area_commands(block, x1, x2, y1, y2);
    } else if x1 < x2 {
    } else {
        lemma_empty_columns(block, x1, x2, y1, y2);
    }
}

/// An area without columns has no draw operations.
pub proof fn lemma_empty_columns(block: BlockView, x1: int, x2: int, y1: int, y2: int)
    requires
        x2 <= x1,
    ensures
        block.area_commands(x1, x2, y1, y2) == Seq::<DrawCommand>::empty(),
    decreases y2 - y1,
{
    if y2 > y1 {
        lemma_empty_columns(block, x1, x2, y1, y2 - 1);
        assert(block.row_commands(y2 - 1, x1, x2) == Seq::<DrawCommand>::empty());
    }
}

} // verus!
