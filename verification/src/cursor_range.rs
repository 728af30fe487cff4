//! Programs that keep the cursor within the range of `i32`.
//!
//! Only a line feed can take the row out of range, and only the centering
//! of a very long text the column. A program with few enough of the first
//! and none of the second can be printed from any cursor.

use crate::layout::{
    program_steps, put_steps, split_on, word_blocks, word_steps, wrap_steps, BlockView,
    LayoutCommand, Step,
};
use crate::layout_laws::lemma_step_keeps_range;
use vstd::prelude::*;

verus! {

/// The number of steps that can take the cursor to the next row without
/// writing a glyph.
pub open spec fn count_feeds(steps: Seq<Step>) -> nat
    decreases steps.len(),
{
    if steps.len() == 0 {
        0
    } else if steps[0] is LineFeed || steps[0] is WrapAhead {
        1 + count_feeds(steps.drop_first())
    } else {
        count_feeds(steps.drop_first())
    }
}

/// Whether every text that the steps center has a length in the range of
/// `u32`.
pub open spec fn centers_fit(steps: Seq<Step>) -> bool {
    forall|i: int|
        0 <= i < steps.len() ==> (#[trigger] steps[i] matches Step::Center { len } ==> len
            <= u32::MAX)
}

impl LayoutCommand {
    /// The number of times that the command can take the cursor to the next
    /// row without writing a glyph: once for a new line, once for each word
    /// of a wrapped text.
    pub open spec fn feeds(self) -> nat {
        match self {
            LayoutCommand::NewLine => 1,
            LayoutCommand::WordWrap { text } => split_on(text, ' ').len(),
            _ => 0,
        }
    }

    /// Whether the command centers no text longer than `u32::MAX` glyphs.
    pub open spec fn center_fits(self) -> bool {
        self matches LayoutCommand::AppendCentered { block } ==> block.len() <= u32::MAX
    }
}

/// The number of times that the commands can take the cursor to the next
/// row without writing a glyph.
pub open spec fn program_feeds(program: Seq<LayoutCommand>) -> nat
    decreases program.len(),
{
    if program.len() == 0 {
        0
    } else {
        program[0].feeds() + program_feeds(program.drop_first())
    }
}

/// Whether no command centers a text longer than `u32::MAX` glyphs.
pub open spec fn program_centers_fit(program: Seq<LayoutCommand>) -> bool {
    forall|i: int| 0 <= i < program.len() ==> (#[trigger] program[i]).center_fits()
}

impl BlockView {
    /// The last row that the cursor can be in after a written glyph or a
    /// return to the top: its own row or the row below the block, whichever
    /// is lower.
    pub open spec fn row_bound(self) -> int {
        if self.cursor.1 > self.height {
            self.cursor.1
        } else {
            self.height
        }
    }

    /// Whether the block has the rows in the range of `i32` that `program`
    /// can ask for, and `program` centers no text too long for the column to
    /// stay in that range.
    pub open spec fn has_range_for(self, program: Seq<LayoutCommand>) -> bool {
        &&& self.row_bound() + program_feeds(program) <= i32::MAX
        &&& program_centers_fit(program)
    }
}

/// The feeds of steps one after the other are the feeds of both.
pub proof fn lemma_count_feeds_concat(first: Seq<Step>, second: Seq<Step>)
    ensures
        count_feeds(first + second) == count_feeds(first) + count_feeds(second),
    decreases first.len(),
{
    if first.len() == 0 {
        assert(first + second == second);
    } else {
        assert((first + second)[0] == first[0]);
        assert((first + second).drop_first() == first.drop_first() + second);
        lemma_count_feeds_concat(first.drop_first(), second);
    }
}

/// Writing glyphs feeds no line.
proof fn lemma_put_steps_feed_nothing(glyphs: Seq<u16>)
    ensures
        count_feeds(put_steps(glyphs)) == 0,
        centers_fit(put_steps(glyphs)),
    decreases glyphs.len(),
{
    if glyphs.len() > 0 {
        assert(put_steps(glyphs).drop_first() == put_steps(glyphs.drop_first()));
        lemma_put_steps_feed_nothing(glyphs.drop_first());
    }
}

/// Centering fits in steps one after the other where it fits in both.
proof fn lemma_centers_fit_concat(first: Seq<Step>, second: Seq<Step>)
    requires
        centers_fit(first),
        centers_fit(second),
    ensures
        centers_fit(first + second),
{
    assert forall|i: int| 0 <= i < (first + second).len() implies (#[trigger] (first + second)[i]
        matches Step::Center { len } ==> len <= u32::MAX) by {
        if i < first.len() {
            assert((first + second)[i] == first[i]);
        } else {
            assert((first + second)[i] == second[i - first.len()]);
        }
    }
}

/// Wrapped words feed one line each at most, and center nothing.
proof fn lemma_wrap_steps_feeds(blocks: Seq<Seq<u16>>)
    ensures
        count_feeds(wrap_steps(blocks)) == blocks.len(),
        centers_fit(wrap_steps(blocks)),
    decreases blocks.len(),
{
    if blocks.len() > 0 {
        let ahead = seq![Step::WrapAhead { len: blocks[0].len() }];
        lemma_wrap_steps_feeds(blocks.drop_first());
        lemma_put_steps_feed_nothing(blocks[0]);
        lemma_count_feeds_concat(ahead, put_steps(blocks[0]));
        lemma_count_feeds_concat(word_steps(blocks[0]), wrap_steps(blocks.drop_first()));
        assert(ahead.drop_first() == Seq::<Step>::empty());
        assert(count_feeds(ahead) == 1 + count_feeds(ahead.drop_first()));
        lemma_centers_fit_concat(ahead, put_steps(blocks[0]));
        lemma_centers_fit_concat(word_steps(blocks[0]), wrap_steps(blocks.drop_first()));
    }
}

/// The steps of a command feed as many lines as the command, and center
/// what it centers.
pub proof fn lemma_command_feeds(command: LayoutCommand)
    requires
        command.center_fits(),
    ensures
        count_feeds(command.steps()) == command.feeds(),
        centers_fit(command.steps()),
{
    let steps = command.steps();
    match command {
        LayoutCommand::AppendText { block } => {
            lemma_put_steps_feed_nothing(block);
        },
        LayoutCommand::AppendCentered { block } => {
            let center = seq![Step::Center { len: block.len() }];
            lemma_put_steps_feed_nothing(block);
            lemma_count_feeds_concat(center, put_steps(block));
            assert(center.drop_first() == Seq::<Step>::empty());
            assert(count_feeds(center) == count_feeds(center.drop_first()));
            lemma_centers_fit_concat(center, put_steps(block));
        },
        LayoutCommand::WordWrap { text } => {
            lemma_wrap_steps_feeds(word_blocks(text));
        },
        _ => {
            assert(steps.drop_first() == Seq::<Step>::empty());
            assert(count_feeds(steps) == (if steps[0] is LineFeed {
                1nat
            } else {
                0nat
            }) + count_feeds(steps.drop_first()));
        },
    }
}

/// The steps of a program feed as many lines as its commands, and center
/// what they center.
pub proof fn lemma_program_feeds(program: Seq<LayoutCommand>)
    requires
        program_centers_fit(program),
    ensures
        count_feeds(program_steps(program)) == program_feeds(program),
        centers_fit(program_steps(program)),
    decreases program.len(),
{
    if program.len() > 0 {
        let rest = program.drop_first();
        assert forall|i: int| 0 <= i < rest.len() implies (#[trigger] rest[i]).center_fits() by {
            assert(rest[i] == program[i + 1]);
        }
        lemma_program_feeds(rest);
        lemma_command_feeds(program[0]);
        lemma_count_feeds_concat(program[0].steps(), program_steps(rest));
        lemma_centers_fit_concat(program[0].steps(), program_steps(rest));
    }
}

/// A step that is carried out takes the cursor at most one row beyond its
/// own row or the row below the block, and only a feed takes it there.
proof fn lemma_step_row_bound(block: BlockView, step: Step)
    requires
        block.wf(),
        block.apply(step).status is Complete,
    ensures
        block.apply(step).state.height == block.height,
        block.apply(step).state.row_bound() <= block.row_bound() + if step is LineFeed || step
            is WrapAhead {
            1int
        } else {
            0int
        },
{
    if step is Put {
        let w = block.width;
        let h = block.height;
        let row = block.cursor.1;
        let col = block.cursor.0;
        if col + 1 >= w {
            assert(w >= 1) by (nonlinear_arith)
                requires
                    0 <= w,
                    0 < w * h,
            ;
            assert(row < h) by (nonlinear_arith)
                requires
                    row * w + col < w * h,
                    0 <= w - 1 <= col,
            ;
        }
    }
}

/// Steps that feed no more lines than there are rows left in the range of
/// `i32`, and center no text too long, keep the cursor in that range.
pub proof fn lemma_steps_stay_in_range(block: BlockView, steps: Seq<Step>)
    requires
        block.wf(),
        block.row_bound() + count_feeds(steps) <= i32::MAX,
        centers_fit(steps),
    ensures
        !(block.run_steps(steps).status is OutOfRange),
    decreases steps.len(),
{
    if steps.len() > 0 {
        let first = block.apply(steps[0]);
        let rest = steps.drop_first();
        assert(steps[0] matches Step::Center { len } ==> len <= u32::MAX);
        if first.status is Complete {
            lemma_step_keeps_range(block, steps[0]);
            lemma_step_row_bound(block, steps[0]);
            assert forall|i: int| 0 <= i < rest.len() implies (#[trigger] rest[i] matches Step::Center {
                len,
            } ==> len <= u32::MAX) by {
                assert(rest[i] == steps[i + 1]);
            }
            lemma_steps_stay_in_range(first.state, rest);
        }
    }
}

/// A block with the range for a program can print it: no cursor coordinate
/// leaves the range of `i32`.
pub proof fn lemma_program_stays_in_range(block: BlockView, program: Seq<LayoutCommand>)
    requires
        block.wf(),
        block.has_range_for(program),
    ensures
        !(block.run(program).status is OutOfRange),
{
    lemma_program_feeds(program);
    lemma_steps_stay_in_range(block, program_steps(program));
}

/// A text has at least as many words as any of its beginnings, and each of
/// them has at least one.
pub proof fn lemma_split_grows(s: Seq<char>, k: int)
    requires
        0 <= k <= s.len(),
    ensures
        1 <= split_on(s.take(k), ' ').len() <= split_on(s, ' ').len(),
    decreases s.len() - k,
{
    if k < s.len() {
        lemma_split_grows(s, k + 1);
        let longer = s.take(k + 1);
        assert(longer.drop_last() == s.take(k));
        assert(split_on(longer, ' ').len() >= split_on(longer.drop_last(), ' ').len());
        lemma_split_nonempty(s.take(k));
    } else {
        assert(s.take(k) == s);
        lemma_split_nonempty(s);
    }
}

/// A text has at least one word.
pub proof fn lemma_split_nonempty(s: Seq<char>)
    ensures
        1 <= split_on(s, ' ').len(),
    decreases s.len(),
{
    if s.len() > 0 {
        lemma_split_nonempty(s.drop_last());
    }
}

} // verus!
