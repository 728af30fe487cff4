//! What holds of every layout program, proved from the layout rules.

use crate::color::Rgba;
use crate::layout::{
    lemma_program_steps_push, lemma_run_single_step, lemma_run_steps_concat, program_steps,
    put_steps, split_on, word_blocks, word_steps, wrap_steps, BlockView, LayoutCommand, Progress,
    Step,
};
use vstd::prelude::*;

verus! {

/// The number of glyphs that the steps write.
pub open spec fn count_puts(steps: Seq<Step>) -> nat
    decreases steps.len(),
{
    if steps.len() == 0 {
        0
    } else if steps[0] is Put {
        1 + count_puts(steps.drop_first())
    } else {
        count_puts(steps.drop_first())
    }
}

/// The number of glyphs that a program writes: its total character count.
pub open spec fn glyph_count(program: Seq<LayoutCommand>) -> nat {
    count_puts(program_steps(program))
}

/// Steps that never take the cursor back: none of them centers a text or
/// goes to the top left corner.
pub open spec fn steps_go_forward(steps: Seq<Step>) -> bool {
    forall|i: int| 0 <= i < steps.len() ==> !(#[trigger] steps[i] is Home) && !(steps[i] is Center)
}

/// A program that never takes the cursor back: it has no `Reset` and no
/// `AppendCentered`.
pub open spec fn goes_forward(program: Seq<LayoutCommand>) -> bool {
    forall|i: int|
        0 <= i < program.len() ==> !(#[trigger] program[i] is Reset) && !(program[i]
            is AppendCentered)
}

/// The number of steps that are carried out, counted from the first.
pub open spec fn carried_out(block: BlockView, steps: Seq<Step>) -> nat
    decreases steps.len(),
{
    if steps.len() == 0 {
        0
    } else if block.apply(steps[0]).status is Complete {
        1 + carried_out(block.apply(steps[0]).state, steps.drop_first())
    } else {
        0
    }
}

impl BlockView {
    /// The cursor stands left of the right edge.
    pub open spec fn cursor_in_row(self) -> bool {
        self.width == 0 || self.cursor.0 < self.width
    }

    /// The number of cells from the cursor to the end of the buffer.
    pub open spec fn cells_ahead(self) -> nat {
        let from = if self.index() > 0 {
            self.index()
        } else {
            0
        };
        if from < self.cells.len() {
            (self.cells.len() - from) as nat
        } else {
            0
        }
    }
}

/// The parts with `sep` between each two of them.
pub open spec fn join(parts: Seq<Seq<char>>, sep: char) -> Seq<char>
    decreases parts.len(),
{
    if parts.len() == 0 {
        Seq::<char>::empty()
    } else if parts.len() == 1 {
        parts[0]
    } else {
        join(parts.drop_last(), sep).push(sep) + parts.last()
    }
}

/// Splitting undoes joining: a text falls into at least one part, no part
/// holds the separator, and the parts with the separator between them are
/// the text again.
pub proof fn lemma_split_then_join(s: Seq<char>, sep: char)
    ensures
        split_on(s, sep).len() >= 1,
        forall|i: int| 0 <= i < split_on(s, sep).len() ==> !(#[trigger] split_on(s, sep)[i]).contains(sep),
        join(split_on(s, sep), sep) == s,
    decreases s.len(),
{
    let parts = split_on(s, sep);
    if s.len() == 0 {
        assert(parts[0] == Seq::<char>::empty());
    } else {
        let before = split_on(s.drop_last(), sep);
        lemma_split_then_join(s.drop_last(), sep);
        let last = s.last();
        assert(s.drop_last().push(last) == s);
        if last == sep {
            assert(parts.drop_last() == before);
            assert(join(before, sep).push(sep) + Seq::<char>::empty() == s);
        } else {
            let word = before.last();
            assert(parts.drop_last() == before.drop_last());
            assert(parts.last() == word.push(last));
            if word.push(last).contains(sep) {
                let at = choose|at: int| 0 <= at < word.len() + 1 && word.push(last)[at] == sep;
                assert(word[at] == sep);
            }
            if before.len() > 1 {
                assert(join(before.drop_last(), sep).push(sep) + word.push(last) == (join(
                    before.drop_last(),
                    sep,
                ).push(sep) + word).push(last));
            }
            assert forall|i: int| 0 <= i < parts.len() implies !(#[trigger] parts[i]).contains(
                sep,
            ) by {
                if i < parts.len() - 1 {
                    assert(parts[i] == before[i]);
                }
            }
        }
    }
}

/// Steps change the cursor, the colors and the contents of cells, and
/// nothing else: the block keeps its origin, its dimensions and the number
/// of its cells, and a well-formed block stays well formed.
pub proof fn lemma_steps_keep_shape(block: BlockView, steps: Seq<Step>)
    ensures
        block.run_steps(steps).state.x == block.x,
        block.run_steps(steps).state.y == block.y,
        block.run_steps(steps).state.width == block.width,
        block.run_steps(steps).state.height == block.height,
        block.run_steps(steps).state.cells.len() == block.cells.len(),
        block.wf() ==> block.run_steps(steps).state.wf(),
    decreases steps.len(),
{
    if steps.len() > 0 {
        let first = block.apply(steps[0]);
        if first.status is Complete {
            if block.wf() {
                lemma_step_keeps_range(block, steps[0]);
            }
            lemma_steps_keep_shape(first.state, steps.drop_first());
        }
    }
}

/// `Reset` restores the cursor to the top left corner and the colors to
/// white on black, whatever they were; it touches nothing else and cannot
/// fail.
pub proof fn lemma_reset_restores_defaults(block: BlockView)
    ensures
        block.run(seq![LayoutCommand::Reset]) == Progress::complete(
            BlockView { cursor: (0, 0), fg: Rgba::white(), bg: Rgba::black(), ..block },
        ),
{
    let program = seq![LayoutCommand::Reset];
    assert(program[0] == LayoutCommand::Reset);
    assert(program.drop_first() == Seq::<LayoutCommand>::empty());
    assert(program_steps(program.drop_first()) == Seq::<Step>::empty());
    assert(program_steps(program) == seq![Step::Home] + Seq::<Step>::empty());
    assert(seq![Step::Home] + Seq::<Step>::empty() == seq![Step::Home]);
    lemma_run_single_step(block, Step::Home);
}

/// A program that ends with `Reset` and is carried out to its end leaves
/// the cursor in the top left corner and the colors white on black.
pub proof fn lemma_reset_at_the_end(block: BlockView, program: Seq<LayoutCommand>)
    requires
        block.run(program.push(LayoutCommand::Reset)).status is Complete,
    ensures
        block.run(program.push(LayoutCommand::Reset)).state.cursor == (0int, 0int),
        block.run(program.push(LayoutCommand::Reset)).state.fg == Rgba::white(),
        block.run(program.push(LayoutCommand::Reset)).state.bg == Rgba::black(),
{
    lemma_program_steps_push(program, LayoutCommand::Reset);
    lemma_run_steps_concat(block, program_steps(program), seq![Step::Home]);
    lemma_run_single_step(block.run(program).state, Step::Home);
}

/// Printing does not roll back. A run that stops for want of space stops at
/// a glyph that finds no cell, and leaves the block exactly as the steps
/// before that glyph made it: those steps were all carried out, and what
/// they wrote stays written.
pub proof fn lemma_no_rollback(block: BlockView, steps: Seq<Step>)
    ensures
        carried_out(block, steps) <= steps.len(),
        block.run_steps(steps.take(carried_out(block, steps) as int)) == Progress::complete(
            block.run_steps(steps).state,
        ),
        block.run_steps(steps).status is Complete <==> carried_out(block, steps) == steps.len(),
        block.run_steps(steps).status is OutOfSpace ==> {
            &&& steps[carried_out(block, steps) as int] is Put
            &&& !block.run_steps(steps).state.has_room()
        },
    decreases steps.len(),
{
    if steps.len() == 0 {
        assert(steps.take(0) == steps);
    } else {
        let first = block.apply(steps[0]);
        if first.status is Complete {
            let rest = steps.drop_first();
            lemma_no_rollback(first.state, rest);
            let k = carried_out(first.state, rest) as int;
            assert(steps.take(k + 1)[0] == steps[0]);
            assert(steps.take(k + 1).drop_first() == rest.take(k));
            if k < rest.len() {
                assert(rest[k] == steps[k + 1]);
            }
        } else {
            assert(steps.take(0) == Seq::<Step>::empty());
        }
    }
}

/// A step that is carried out and is not a move back leaves no more cells
/// ahead of the cursor than there were, and a written glyph leaves one
/// less.
proof fn lemma_step_uses_cells(block: BlockView, step: Step)
    requires
        block.wf(),
        block.cursor_in_row(),
        !(step is Home),
        !(step is Center),
        block.apply(step).status is Complete,
    ensures
        block.apply(step).state.cursor_in_row(),
        block.apply(step).state.width == block.width,
        block.apply(step).state.height == block.height,
        block.apply(step).state.cells.len() == block.cells.len(),
        block.apply(step).state.cells_ahead() + (if step is Put {
            1nat
        } else {
            0nat
        }) <= block.cells_ahead(),
{
    let w = block.width;
    let row = block.cursor.1;
    let col = block.cursor.0;
    assert((row + 1) * w == row * w + w) by (nonlinear_arith);
    if w == 0 {
        assert(block.cells.len() == 0) by (nonlinear_arith)
            requires
                block.cells.len() == w * block.height,
                w == 0,
        ;
    }
}

/// Steps that never take the cursor back and are all carried out write no
/// more glyphs than there are cells ahead of the cursor.
pub proof fn lemma_forward_steps_fit(block: BlockView, steps: Seq<Step>)
    requires
        block.wf(),
        block.cursor_in_row(),
        steps_go_forward(steps),
        block.run_steps(steps).status is Complete,
    ensures
        count_puts(steps) <= block.cells_ahead(),
    decreases steps.len(),
{
    if steps.len() > 0 {
        let first = block.apply(steps[0]);
        let rest = steps.drop_first();
        lemma_step_uses_cells(block, steps[0]);
        assert forall|i: int| 0 <= i < rest.len() implies !(#[trigger] rest[i] is Home) && !(rest[i]
            is Center) by {
            assert(rest[i] == steps[i + 1]);
        }
        assert(first.state.wf()) by {
            lemma_step_keeps_range(block, steps[0]);
        }
        lemma_forward_steps_fit(first.state, rest);
    }
}

/// A step that is carried out leaves a block as well formed as it was.
pub proof fn lemma_step_keeps_range(block: BlockView, step: Step)
    requires
        block.wf(),
        block.apply(step).status is Complete,
    ensures
        block.apply(step).state.wf(),
{
    if step is Put {
        let w = block.width;
        let h = block.height;
        let row = block.cursor.1;
        let col = block.cursor.0;
        if col + 1 >= w {
            assert(w >= 1) by (nonlinear_arith)
                requires
                    0 <= w,
                    0 < w * h,
            ;
            assert(row < h) by (nonlinear_arith)
                requires
                    row * w + col < w * h,
                    0 <= w - 1 <= col,
            ;
        }
    }
}

/// The steps that write wrapped words never take the cursor back.
proof fn lemma_wrap_steps_go_forward(blocks: Seq<Seq<u16>>)
    ensures
        steps_go_forward(wrap_steps(blocks)),
    decreases blocks.len(),
{
    if blocks.len() > 0 {
        lemma_wrap_steps_go_forward(blocks.drop_first());
        let head = word_steps(blocks[0]);
        let tail = wrap_steps(blocks.drop_first());
        assert forall|i: int| 0 <= i < (head + tail).len() implies !(#[trigger] (head + tail)[i]
            is Home) && !((head + tail)[i] is Center) by {
            if i < head.len() {
                assert((head + tail)[i] == head[i]);
                if i > 0 {
                    assert(head[i] == put_steps(blocks[0])[i - 1]);
                }
            } else {
                assert((head + tail)[i] == tail[i - head.len()]);
            }
        }
    }
}

/// The steps of a program that never takes the cursor back never do.
pub proof fn lemma_program_goes_forward(program: Seq<LayoutCommand>)
    requires
        goes_forward(program),
    ensures
        steps_go_forward(program_steps(program)),
    decreases program.len(),
{
    if program.len() > 0 {
        let rest = program.drop_first();
        assert forall|i: int| 0 <= i < rest.len() implies !(#[trigger] rest[i] is Reset) && !(rest[i]
            is AppendCentered) by {
            assert(rest[i] == program[i + 1]);
        }
        lemma_program_goes_forward(rest);
        let head = program[0].steps();
        let tail = program_steps(rest);
        if program[0] is WordWrap {
            lemma_wrap_steps_go_forward(word_blocks(program[0]->text));
        }
        assert(steps_go_forward(head));
        assert forall|i: int| 0 <= i < (head + tail).len() implies !(#[trigger] (head + tail)[i]
            is Home) && !((head + tail)[i] is Center) by {
            if i < head.len() {
                assert((head + tail)[i] == head[i]);
            } else {
                assert((head + tail)[i] == tail[i - head.len()]);
            }
        }
    }
}

/// A program that never takes the cursor back and writes more glyphs than
/// there are cells ahead of the cursor runs out of space.
pub proof fn lemma_too_long_runs_out(block: BlockView, program: Seq<LayoutCommand>)
    requires
        block.wf(),
        block.cursor_in_row(),
        goes_forward(program),
        glyph_count(program) > block.cells_ahead(),
        !(block.run(program).status is OutOfRange),
    ensures
        block.run(program).status is OutOfSpace,
{
    lemma_program_goes_forward(program);
    if block.run(program).status is Complete {
        lemma_forward_steps_fit(block, program_steps(program));
    }
}

/// A program that never takes the cursor back and has more characters than
/// the block has cells runs out of space.
pub proof fn lemma_overfull_runs_out(block: BlockView, program: Seq<LayoutCommand>)
    requires
        block.wf(),
        block.cursor_in_row(),
        goes_forward(program),
        glyph_count(program) > block.width * block.height,
        !(block.run(program).status is OutOfRange),
    ensures
        block.run(program).status is OutOfSpace,
{
    lemma_too_long_runs_out(block, program);
}

/// Whether `after` is `block` with `glyphs` written side by side from the
/// cursor on, in the colors of `block`, and with nothing else changed but
/// the cursor, which stands behind them.
pub open spec fn written_from_cursor(block: BlockView, glyphs: Seq<u16>, after: BlockView) -> bool {
    &&& after.cells.len() == block.cells.len()
    &&& glyphs.len() > 0 ==> 0 <= block.index() && block.index() + glyphs.len()
        <= block.cells.len()
    &&& forall|j: int|
        0 <= j < glyphs.len() ==> #[trigger] after.cells[block.index() + j] == block.inked(
            glyphs[j],
        )
    &&& forall|k: int|
        0 <= k < block.cells.len() && !(block.index() <= k < block.index() + glyphs.len())
            ==> #[trigger] after.cells[k] == block.cells[k]
    &&& after.index() == block.index() + glyphs.len()
    &&& after == BlockView { cells: after.cells, cursor: after.cursor, ..block }
}

/// Glyphs that fit between the cursor and the right edge are written side
/// by side in the row of the cursor.
pub proof fn lemma_put_in_row(block: BlockView, glyphs: Seq<u16>)
    requires
        block.wf(),
        0 <= block.cursor.0,
        block.cursor.0 + glyphs.len() <= block.width,
        block.run_steps(put_steps(glyphs)).status is Complete,
    ensures
        written_from_cursor(block, glyphs, block.run_steps(put_steps(glyphs)).state),
    decreases glyphs.len(),
{
    let steps = put_steps(glyphs);
    let w = block.width;
    let row = block.cursor.1;
    let col = block.cursor.0;
    let at = block.index();
    if glyphs.len() == 0 {
    } else {
        let first = block.apply(steps[0]);
        let rest = glyphs.drop_first();
        assert(steps[0] == Step::Put { glyph: glyphs[0] });
        assert(steps.drop_first() == put_steps(rest));
        assert((row + 1) * w == row * w + w) by (nonlinear_arith);
        assert(first.status is Complete);
        assert(first.state.index() == at + 1);
        lemma_step_keeps_range(block, steps[0]);
        if rest.len() > 0 {
            lemma_put_in_row(first.state, rest);
            let after = first.state.run_steps(put_steps(rest)).state;
            assert(after == block.run_steps(steps).state);
            assert forall|j: int| 0 <= j < glyphs.len() implies #[trigger] after.cells[at + j]
                == block.inked(glyphs[j]) by {
                if j > 0 {
                    assert(after.cells[first.state.index() + (j - 1)] == first.state.inked(
                        rest[j - 1],
                    ));
                } else {
                    assert(after.cells[at] == first.state.cells[at]);
                }
            }
            assert forall|k: int|
                0 <= k < block.cells.len() && !(at <= k < at + glyphs.len()) implies #[trigger] after.cells[k]
                == block.cells[k] by {
                assert(after.cells[k] == first.state.cells[k]);
            }
        } else {
            assert(put_steps(rest) == Seq::<Step>::empty());
            let after = first.state;
            assert(after == block.run_steps(steps).state);
        }
    }
}

impl BlockView {
    /// Whether a word of `len` glyphs is wrapped to the next row.
    pub open spec fn wraps(self, len: nat) -> bool {
        self.cursor.0 + len >= self.width
    }

    /// The buffer index at which a wrapped word of `len` glyphs begins: that
    /// of the cursor where the word ends before the right edge, and else
    /// that of the start of the next row.
    pub open spec fn word_index(self, len: nat) -> int {
        if self.wraps(len) {
            (self.cursor.1 + 1) * self.width
        } else {
            self.index()
        }
    }

    /// The column in which a wrapped word of `len` glyphs begins.
    pub open spec fn word_column(self, len: nat) -> int {
        if self.wraps(len) {
            0
        } else {
            self.cursor.0
        }
    }
}

/// Wrapping never splits a word across rows. A word that is no longer than
/// the block is wide, written from a cursor that is not left of the block,
/// is written side by side in one row: from the cursor on where it ends
/// before the right edge, and else from the start of the next row. Either
/// way it ends at the right edge at the latest.
pub proof fn lemma_word_stays_in_one_row(block: BlockView, word: Seq<u16>)
    requires
        block.wf(),
        0 <= block.cursor.0,
        word.len() <= block.width,
        block.run_steps(word_steps(word)).status is Complete,
    ensures
        0 <= block.word_column(word.len()),
        block.word_column(word.len()) + word.len() <= block.width,
        block.run_steps(word_steps(word)).state.cells.len() == block.cells.len(),
        word.len() > 0 ==> 0 <= block.word_index(word.len()) && block.word_index(word.len())
            + word.len() <= block.cells.len(),
        forall|j: int|
            0 <= j < word.len() ==> #[trigger] block.run_steps(
                word_steps(word),
            ).state.cells[block.word_index(word.len()) + j] == block.inked(word[j]),
{
    let ahead = Step::WrapAhead { len: word.len() };
    lemma_run_steps_concat(block, seq![ahead], put_steps(word));
    lemma_run_single_step(block, ahead);
    let placed = block.apply(ahead).state;
    lemma_put_in_row(placed, word);
}

} // verus!
