//! The layout rules of a text block, as mathematics.
//!
//! A program is a sequence of [`LayoutCommand`]s. Each command stands for a
//! sequence of elementary [`Step`]s, and a text block carries out the steps
//! one after the other until a glyph finds no room in its buffer. What was
//! written before that moment stays written.

use crate::color::Rgba;
use crate::cp437::encode;
use crate::glyph::TerminalGlyph;
use vstd::prelude::*;

verus! {

/// A command of a layout program, its text given as character codes.
pub enum LayoutCommand {
    /// Write the codes from the cursor on.
    AppendText { block: Seq<u16> },
    /// Move the cursor so that the codes are centered in the row, then
    /// write them.
    AppendCentered { block: Seq<u16> },
    /// Go to the start of the next row.
    NewLine,
    /// Write in this foreground color from now on.
    SetForeground { col: Rgba },
    /// Write on this background color from now on.
    SetBackground { col: Rgba },
    /// Cursor to the top left corner, colors back to white on black.
    Reset,
    /// Write the words of the text, each followed by a space, and start a
    /// new row before a word that would reach the right edge.
    WordWrap { text: Seq<char> },
}

/// The elementary operations that the commands are made of.
pub enum Step {
    /// Write one glyph at the cursor and advance the cursor.
    Put { glyph: u16 },
    /// Go to the start of the next row.
    LineFeed,
    /// Move the cursor to the column where a text of `len` glyphs is
    /// centered.
    Center { len: nat },
    /// Go to the start of the next row if `len` more glyphs would reach the
    /// right edge.
    WrapAhead { len: nat },
    Foreground { col: Rgba },
    Background { col: Rgba },
    /// Cursor to the top left corner, colors back to white on black.
    Home,
}

/// How far a block came with a sequence of steps.
pub enum Status {
    /// Every step was carried out.
    Complete,
    /// A glyph was due at a cursor position outside the buffer. The steps
    /// before it were carried out, that one and those after it were not.
    OutOfSpace,
    /// A step would have taken a cursor coordinate outside the range of
    /// `i32`. No block can carry out such a sequence.
    OutOfRange,
}

/// A block after some steps, and whether those were all the steps.
pub struct Progress {
    pub state: BlockView,
    pub status: Status,
}

/// A text block as the layout rules see it.
pub struct BlockView {
    /// Column of the block's top left corner on the render surface.
    pub x: int,
    /// Row of the block's top left corner on the render surface.
    pub y: int,
    pub width: int,
    pub height: int,
    /// The color that glyphs are written in.
    pub fg: Rgba,
    /// The color that glyphs are written on.
    pub bg: Rgba,
    /// The buffer, row after row.
    pub cells: Seq<TerminalGlyph>,
    /// Column and row of the cursor.
    pub cursor: (int, int),
}

/// The space code that follows each wrapped word.
pub open spec fn space_code() -> u16 {
    32
}

/// The parts of `s` between the occurrences of `sep`: each `sep` starts a new,
/// empty part, and every other character extends the last part.
pub open spec fn split_on(s: Seq<char>, sep: char) -> Seq<Seq<char>>
    decreases s.len(),
{
    if s.len() == 0 {
        seq![Seq::<char>::empty()]
    } else {
        let before = split_on(s.drop_last(), sep);
        if s.last() == sep {
            before.push(Seq::<char>::empty())
        } else {
            before.update(before.len() - 1, before.last().push(s.last()))
        }
    }
}

/// The blocks of glyphs that a wrapped text is written as: the codes of each
/// word between single spaces, followed by a space.
pub open spec fn word_blocks(text: Seq<char>) -> Seq<Seq<u16>> {
    split_on(text, ' ').map_values(|word: Seq<char>| encode(word).push(space_code()))
}

/// One `Put` for each glyph.
pub open spec fn put_steps(glyphs: Seq<u16>) -> Seq<Step> {
    glyphs.map_values(|glyph: u16| Step::Put { glyph })
}

/// The steps that write one wrapped word.
pub open spec fn word_steps(block: Seq<u16>) -> Seq<Step> {
    seq![Step::WrapAhead { len: block.len() }] + put_steps(block)
}

/// The steps that write wrapped words one after the other.
pub open spec fn wrap_steps(blocks: Seq<Seq<u16>>) -> Seq<Step>
    decreases blocks.len(),
{
    if blocks.len() == 0 {
        Seq::<Step>::empty()
    } else {
        word_steps(blocks[0]) + wrap_steps(blocks.drop_first())
    }
}

impl LayoutCommand {
    /// The steps that the command stands for.
    pub open spec fn steps(self) -> Seq<Step> {
        match self {
            LayoutCommand::AppendText { block } => put_steps(block),
            LayoutCommand::AppendCentered { block } => seq![Step::Center { len: block.len() }]
                + put_steps(block),
            LayoutCommand::NewLine => seq![Step::LineFeed],
            LayoutCommand::SetForeground { col } => seq![Step::Foreground { col }],
            LayoutCommand::SetBackground { col } => seq![Step::Background { col }],
            LayoutCommand::Reset => seq![Step::Home],
            LayoutCommand::WordWrap { text } => wrap_steps(word_blocks(text)),
        }
    }
}

/// The steps of a program: those of its commands, in order.
pub open spec fn program_steps(program: Seq<LayoutCommand>) -> Seq<Step>
    decreases program.len(),
{
    if program.len() == 0 {
        Seq::<Step>::empty()
    } else {
        program[0].steps() + program_steps(program.drop_first())
    }
}

impl Progress {
    pub open spec fn complete(state: BlockView) -> Progress {
        Progress { state, status: Status::Complete }
    }

    pub open spec fn out_of_space(state: BlockView) -> Progress {
        Progress { state, status: Status::OutOfSpace }
    }

    pub open spec fn out_of_range(state: BlockView) -> Progress {
        Progress { state, status: Status::OutOfRange }
    }
}

impl BlockView {
    /// The buffer has one cell for each position of the grid, and every
    /// coordinate is in the range of `i32`.
    pub open spec fn wf(self) -> bool {
        &&& 0 <= self.width <= i32::MAX
        &&& 0 <= self.height <= i32::MAX
        &&& self.cells.len() == self.width * self.height
        &&& i32::MIN <= self.x <= i32::MAX
        &&& i32::MIN <= self.y <= i32::MAX
        &&& i32::MIN <= self.cursor.0 <= i32::MAX
        &&& i32::MIN <= self.cursor.1 <= i32::MAX
    }

    /// The buffer index that the cursor stands for.
    pub open spec fn index(self) -> int {
        self.cursor.1 * self.width + self.cursor.0
    }

    /// Whether the cursor stands for a cell of the buffer.
    pub open spec fn has_room(self) -> bool {
        0 <= self.index() < self.cells.len()
    }

    /// The cell that a glyph is written as in the current colors.
    pub open spec fn inked(self, glyph: u16) -> TerminalGlyph {
        TerminalGlyph { glyph, foreground: self.fg, background: self.bg }
    }

    /// The block with its cursor at `cursor`.
    pub open spec fn moved(self, cursor: (int, int)) -> BlockView {
        BlockView { cursor, ..self }
    }

    /// The block after writing `glyph` at the cursor, which stands for a
    /// cell: the cursor goes one column to the right, and from the right
    /// edge to the start of the next row.
    pub open spec fn put(self, glyph: u16) -> BlockView {
        let cells = self.cells.update(self.index(), self.inked(glyph));
        let cursor = if self.cursor.0 + 1 >= self.width {
            (0int, self.cursor.1 + 1)
        } else {
            (self.cursor.0 + 1, self.cursor.1)
        };
        BlockView { cells, cursor, ..self }
    }

    /// The column from which a text of `len` glyphs is written centered.
    pub open spec fn centered_column(self, len: nat) -> int {
        self.width / 2 - (len / 2) as int
    }

    /// The block with its cursor at the start of the next row, if that row
    /// has a number.
    pub open spec fn line_feed(self) -> Progress {
        if self.cursor.1 < i32::MAX {
            Progress::complete(self.moved((0, self.cursor.1 + 1)))
        } else {
            Progress::out_of_range(self)
        }
    }

    /// The block after one step, if the step can be carried out.
    pub open spec fn apply(self, step: Step) -> Progress {
        match step {
            Step::Put { glyph } => if self.has_room() {
                Progress::complete(self.put(glyph))
            } else {
                Progress::out_of_space(self)
            },
            Step::LineFeed => self.line_feed(),
            Step::Center { len } => if self.centered_column(len) >= i32::MIN {
                Progress::complete(self.moved((self.centered_column(len), self.cursor.1)))
            } else {
                Progress::out_of_range(self)
            },
            Step::WrapAhead { len } => if self.cursor.0 + len >= self.width {
                self.line_feed()
            } else {
                Progress::complete(self)
            },
            Step::Foreground { col } => Progress::complete(BlockView { fg: col, ..self }),
            Step::Background { col } => Progress::complete(BlockView { bg: col, ..self }),
            Step::Home => Progress::complete(
                BlockView { cursor: (0, 0), fg: Rgba::white(), bg: Rgba::black(), ..self },
            ),
        }
    }

    /// The block after the steps, carried out in order up to the first that
    /// cannot be.
    pub open spec fn run_steps(self, steps: Seq<Step>) -> Progress
        decreases steps.len(),
    {
        if steps.len() == 0 {
            Progress::complete(self)
        } else {
            let first = self.apply(steps[0]);
            if first.status is Complete {
                first.state.run_steps(steps.drop_first())
            } else {
                first
            }
        }
    }

    /// The block after a program.
    pub open spec fn run(self, program: Seq<LayoutCommand>) -> Progress {
        self.run_steps(program_steps(program))
    }
}

/// Steps carried out one sequence after the other are the steps of the
/// concatenation: the second sequence starts where the first one ended, and
/// is not started where the first one stopped early.
pub proof fn lemma_run_steps_concat(state: BlockView, first: Seq<Step>, second: Seq<Step>)
    ensures
        state.run_steps(first + second) == if state.run_steps(first).status is Complete {
            state.run_steps(first).state.run_steps(second)
        } else {
            state.run_steps(first)
        },
    decreases first.len(),
{
    if first.len() == 0 {
        assert(first + second == second);
    } else {
        assert((first + second)[0] == first[0]);
        assert((first + second).drop_first() == first.drop_first() + second);
        let head = state.apply(first[0]);
        if head.status is Complete {
            lemma_run_steps_concat(head.state, first.drop_first(), second);
        }
    }
}

/// Running the steps from the `i`th on is carrying out the `i`th and, where
/// that was possible, running those after it.
pub proof fn lemma_run_steps_from(state: BlockView, steps: Seq<Step>, i: int)
    requires
        0 <= i < steps.len(),
    ensures
        state.run_steps(steps.skip(i)) == if state.apply(steps[i]).status is Complete {
            state.apply(steps[i]).state.run_steps(steps.skip(i + 1))
        } else {
            state.apply(steps[i])
        },
{
    assert(steps.skip(i)[0] == steps[i]);
    assert(steps.skip(i).drop_first() == steps.skip(i + 1));
}

/// Running a single step is carrying it out.
pub proof fn lemma_run_single_step(state: BlockView, step: Step)
    ensures
        state.run_steps(seq![step]) == state.apply(step),
{
    let steps = seq![step];
    assert(steps[0] == step);
    assert(steps.drop_first() == Seq::<Step>::empty());
    let first = state.apply(step);
    if first.status is Complete {
        assert(first.state.run_steps(steps.drop_first()) == Progress::complete(first.state));
    }
}

/// The steps of a program from its `i`th command on.
pub proof fn lemma_program_steps_from(program: Seq<LayoutCommand>, i: int)
    requires
        0 <= i < program.len(),
    ensures
        program_steps(program.skip(i)) == program[i].steps() + program_steps(program.skip(i + 1)),
{
    assert(program.skip(i)[0] == program[i]);
    assert(program.skip(i).drop_first() == program.skip(i + 1));
}

/// The steps that write the wrapped words from the `i`th on.
pub proof fn lemma_wrap_steps_from(blocks: Seq<Seq<u16>>, i: int)
    requires
        0 <= i < blocks.len(),
    ensures
        wrap_steps(blocks.skip(i)) == word_steps(blocks[i]) + wrap_steps(blocks.skip(i + 1)),
{
    assert(blocks.skip(i)[0] == blocks[i]);
    assert(blocks.skip(i).drop_first() == blocks.skip(i + 1));
}

/// The steps of a program with one more command at its end.
pub proof fn lemma_program_steps_push(program: Seq<LayoutCommand>, last: LayoutCommand)
    ensures
        program_steps(program.push(last)) == program_steps(program) + last.steps(),
    decreases program.len(),
{
    if program.len() == 0 {
        let single = program.push(last);
        assert(single[0] == last);
        assert(single.drop_first() == Seq::<LayoutCommand>::empty());
        assert(program_steps(single.drop_first()) == Seq::<Step>::empty());
        assert(program_steps(program) == Seq::<Step>::empty());
        assert(last.steps() + Seq::<Step>::empty() == Seq::<Step>::empty() + last.steps());
    } else {
        assert(program.push(last)[0] == program[0]);
        assert(program.push(last).drop_first() == program.drop_first().push(last));
        lemma_program_steps_push(program.drop_first(), last);
    }
}

} // verus!
