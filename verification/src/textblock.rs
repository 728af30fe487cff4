//! A rectangular buffer of glyphs that layout programs are printed into and
//! that is rendered as draw operations.

use crate::color::{ColorPair, Rgba};
use crate::cp437::{encode, to_cp437, FontCharType};
use crate::cursor_range::{lemma_program_stays_in_range, lemma_split_grows, program_feeds};
use crate::draw_batch::{DrawBatch, DrawCommand};
use crate::geometry::{Point, Rect};
use crate::glyph::TerminalGlyph;
use crate::layout::{
    lemma_program_steps_from, lemma_run_single_step, lemma_run_steps_concat,
    lemma_run_steps_from, lemma_wrap_steps_from, program_steps, put_steps, space_code, split_on,
    word_blocks, word_steps, wrap_steps, BlockView, LayoutCommand, Step,
};
use crate::text_builder::{CommandType, TextBuilder};
use vstd::prelude::*;
use vstd::string::StringExecFns;

verus! {

/// A glyph was due at a cursor position outside the buffer.
#[derive(Debug, Clone, Copy)]
pub struct OutOfSpace;

impl OutOfSpace {
    /// The text of the error.
    pub fn to_string(&self) -> (text: String)
        ensures
            text@ == "Out of text-buffer space."@,
    {
        String::from_str("Out of text-buffer space.")
    }
}

/// A block of `width` by `height` glyph cells with a cursor and the colors
/// to write in, placed at an origin on the render surface.
///
/// Its view is the [`BlockView`] that the layout rules are stated on.
pub struct TextBlock {
    x: i32,
    y: i32,
    width: i32,
    height: i32,
    fg: Rgba,
    bg: Rgba,
    buffer: Vec<TerminalGlyph>,
    cursor: (i32, i32),
}

impl View for TextBlock {
    type V = BlockView;

    closed spec fn view(&self) -> BlockView {
        BlockView {
            x: self.x as int,
            y: self.y as int,
            width: self.width as int,
            height: self.height as int,
            fg: self.fg,
            bg: self.bg,
            cells: self.buffer@,
            cursor: (self.cursor.0 as int, self.cursor.1 as int),
        }
    }
}

/// The blocks of glyphs that `text` is wrapped as.
fn split_words(text: &str) -> (blocks: Vec<Vec<FontCharType>>)
    ensures
        blocks@.len() == word_blocks(text@).len(),
        forall|i: int| 0 <= i < blocks@.len() ==> (#[trigger] blocks@[i])@ == word_blocks(text@)[i],
{
    let mut blocks: Vec<Vec<FontCharType>> = Vec::new();
    let mut word: Vec<FontCharType> = Vec::new();
    for c in it: text.chars()
        invariant
            it.seq() == text@,
            split_on(it.seq().take(it.index() as int), ' ').len() == blocks@.len() + 1,
            word@ == encode(split_on(it.seq().take(it.index() as int), ' ').last()),
            forall|i: int|
                0 <= i < blocks@.len() ==> (#[trigger] blocks@[i])@ == encode(
                    split_on(it.seq().take(it.index() as int), ' ')[i],
                ).push(space_code()),
    {
        let ghost read = it.seq().take(it.index() as int);
        let ghost next = it.seq().take(it.index() as int + 1);
        proof {
            assert(next.drop_last() == read);
            assert(next.last() == c);
        }
        if c == ' ' {
            word.push(32);
            blocks.push(word);
            word = Vec::new();
            proof {
                assert(word@ == encode(Seq::<char>::empty()));
                assert(split_on(read, ' ').last() == split_on(read, ' ')[blocks@.len() - 1]);
            }
        } else {
            let ghost letters = split_on(read, ' ').last();
            word.push(to_cp437(c));
            proof {
                assert(encode(letters.push(c)) == encode(letters).push(crate::cp437::glyph_of(c)));
            }
        }
    }
    proof {
        assert(text@.take(text@.len() as int) == text@);
    }
    word.push(32);
    blocks.push(word);
    blocks
}

/// The number of words of `text`, if it has no more than `limit`.
fn words_within(text: &str, limit: u32) -> (words: Option<u32>)
    ensures
        words == if split_on(text@, ' ').len() <= limit {
            Some(split_on(text@, ' ').len() as u32)
        } else {
            None::<u32>
        },
{
    if limit == 0 {
        proof {
            lemma_split_grows(text@, 0);
        }
        return None;
    }
    let mut words: u32 = 1;
    for c in it: text.chars()
        invariant
            it.seq() == text@,
            words == split_on(it.seq().take(it.index() as int), ' ').len(),
            1 <= words <= limit,
    {
        proof {
            let next = it.seq().take(it.index() as int + 1);
            assert(next.drop_last() == it.seq().take(it.index() as int));
            assert(next.last() == c);
        }
        if c == ' ' {
            if words == limit {
                proof {
                    lemma_split_grows(text@, it.index() as int + 1);
                }
                return None;
            }
            words += 1;
        }
    }
    proof {
        assert(text@.take(text@.len() as int) == text@);
    }
    Some(words)
}

impl TextBlock {
    #[verifier::type_invariant]
    spec fn inv(&self) -> bool {
        &&& 0 <= self.width
        &&& 0 <= self.height
        &&& self.buffer@.len() == self.width * self.height
    }

    /// A block of `width` by `height` cells at the origin `(x, y)`: every
    /// cell blank, the cursor in the top left corner, white on black.
    pub fn new(x: i32, y: i32, width: i32, height: i32) -> (block: TextBlock)
        requires
            0 <= width,
            0 <= height,
            width * height <= usize::MAX,
        ensures
            block@.wf(),
            block@ == (BlockView {
                x: x as int,
                y: y as int,
                width: width as int,
                height: height as int,
                fg: Rgba::white(),
                bg: Rgba::black(),
                cells: Seq::new((width * height) as nat, |i: int| TerminalGlyph::blank()),
                cursor: (0, 0),
            }),
    {
        assert(0 <= width * height) by (nonlinear_arith)
            requires
                0 <= width,
                0 <= height,
        ;
        let size: usize = width as usize * height as usize;
        let mut buffer: Vec<TerminalGlyph> = Vec::new();
        let mut filled: usize = 0;
        while filled < size
            invariant
                filled <= size,
                buffer@ == Seq::new(filled as nat, |i: int| TerminalGlyph::blank()),
            decreases size - filled,
        {
            buffer.push(
                TerminalGlyph { glyph: 0, foreground: Rgba::white(), background: Rgba::black() },
            );
            filled += 1;
        }
        TextBlock { x, y, width, height, fg: Rgba::white(), bg: Rgba::black(), buffer, cursor: (0, 0) }
    }

    /// Sets the color that glyphs are written in.
    pub fn fg(&mut self, fg: Rgba)
        ensures
            final(self)@ == (BlockView { fg, ..old(self)@ }),
    {
        proof {
            use_type_invariant(&*self);
        }
        self.fg = fg;
    }

    /// Sets the color that glyphs are written on.
    pub fn bg(&mut self, bg: Rgba)
        ensures
            final(self)@ == (BlockView { bg, ..old(self)@ }),
    {
        proof {
            use_type_invariant(&*self);
        }
        self.bg = bg;
    }

    /// Puts the cursor at column `x` of row `y`.
    pub fn move_to(&mut self, x: i32, y: i32)
        ensures
            final(self)@ == old(self)@.moved((x as int, y as int)),
    {
        proof {
            use_type_invariant(&*self);
        }
        self.cursor = (x, y);
    }

    /// The column and the row of the cursor.
    pub fn get_cursor(&self) -> (cursor: Point)
        ensures
            cursor.x == self@.cursor.0,
            cursor.y == self@.cursor.1,
    {
        Point::from_tuple(self.cursor)
    }

    /// The position of the block's top left corner on the render surface.
    pub fn get_origin(&self) -> (origin: Point)
        ensures
            origin.x == self@.x,
            origin.y == self@.y,
    {
        Point::new(self.x, self.y)
    }

    /// Places the block's top left corner at `origin`.
    pub fn set_origin(&mut self, origin: Point)
        ensures
            final(self)@ == (BlockView { x: origin.x as int, y: origin.y as int, ..old(self)@ }),
    {
        proof {
            use_type_invariant(&*self);
        }
        self.x = origin.x;
        self.y = origin.y;
    }

    /// The buffer index of the cell in column `x` of row `y`.
    fn at(&self, x: i32, y: i32) -> (idx: usize)
        requires
            0 <= x < self@.width,
            0 <= y < self@.height,
        ensures
            idx == y * self@.width + x,
            idx < self@.cells.len(),
    {
        proof {
            use_type_invariant(self);
            assert(0 <= y * self.width && y * self.width + self.width <= self.width * self.height)
                by (nonlinear_arith)
                requires
                    0 <= y < self.height,
                    0 <= self.width,
            ;
            assert(self.buffer@.len() == self.buffer.len());
        }
        y as usize * self.width as usize + x as usize
    }

    /// Appends the draw operations for the cells of `area`, which lies in the
    /// block.
    fn render_area(&self, draw_batch: &mut DrawBatch, area: Rect)
        requires
            0 <= area.x1,
            area.x2 <= self@.width,
            0 <= area.y1,
            area.y2 <= self@.height,
            self@.reaches(area),
        ensures
            final(draw_batch)@ == old(draw_batch)@ + self@.rect_commands(area),
    {
        let ghost view = self@;
        let ghost x1 = area.x1 as int;
        let ghost x2 = area.x2 as int;
        let ghost y1 = area.y1 as int;
        let mut y: i32 = area.y1;
        while y < area.y2
            invariant
                view == self@,
                x1 == area.x1,
                x2 == area.x2,
                y1 == area.y1 <= y,
                y <= area.y2 || y == area.y1,
                0 <= area.x1,
                area.x2 <= view.width,
                0 <= area.y1,
                area.y2 <= view.height,
                view.reaches(area),
                draw_batch@ == old(draw_batch)@ + view.area_commands(x1, x2, y1, y as int),
            decreases area.y2 - y,
        {
            let ghost above = draw_batch@;
            let mut x: i32 = area.x1;
            while x < area.x2
                invariant
                    view == self@,
                    x1 == area.x1 <= x,
                    x2 == area.x2,
                    x <= area.x2 || x == area.x1,
                    0 <= area.x1,
                    area.x2 <= view.width,
                    0 <= area.y1 <= y < area.y2 <= view.height,
                    view.reaches(area),
                    draw_batch@ == above + view.row_commands(y as int, x1, x as int),
                decreases area.x2 - x,
            {
                let cell = self.buffer[self.at(x, y)];
                draw_batch.set(
                    Point::new(x + self.x, y + self.y),
                    ColorPair::new(cell.foreground, cell.background),
                    cell.glyph,
                );
                proof {
                    assert(view.row_commands(y as int, x1, x + 1) == view.row_commands(
                        y as int,
                        x1,
                        x as int,
                    ).push(view.cell_command(x as int, y as int)));
                }
                x += 1;
            }
            proof {
                if area.x2 < area.x1 {
                    assert(view.row_commands(y as int, x1, x as int) == view.row_commands(
                        y as int,
                        x1,
                        x2,
                    ));
                }
                assert(above + view.row_commands(y as int, x1, x2) == old(draw_batch)@
                    + (view.area_commands(x1, x2, y1, y as int) + view.row_commands(
                    y as int,
                    x1,
                    x2,
                )));
            }
            y += 1;
        }
    }

    /// Renders the block on the layer `target_layer` of a live surface: the
    /// selection of that layer, then one draw operation for each cell, row
    /// after row, at the cell's position counted from the block's origin.
    pub fn render(&self, target_layer: usize, surface: &mut DrawBatch)
        requires
            self@.reaches(self@.bounds()),
        ensures
            final(surface)@ == old(surface)@.push(DrawCommand::SetTarget { console: target_layer })
                + self@.rect_commands(self@.bounds()),
    {
        proof {
            use_type_invariant(self);
        }
        surface.target(target_layer);
        self.render_area(surface, Rect::with_exact(0, 0, self.width, self.height));
    }

    /// Appends one draw operation for each cell to `draw_batch`, row after
    /// row, at the cell's position counted from the block's origin.
    pub fn render_to_draw_batch(&self, draw_batch: &mut DrawBatch)
        requires
            self@.reaches(self@.bounds()),
        ensures
            final(draw_batch)@ == old(draw_batch)@ + self@.rect_commands(self@.bounds()),
    {
        proof {
            use_type_invariant(self);
        }
        self.render_area(draw_batch, Rect::with_exact(0, 0, self.width, self.height));
    }

    /// The part of `clip` that lies in the block.
    fn clamp(&self, clip: &Rect) -> (area: Rect)
        ensures
            area == self@.clipped(*clip),
            0 <= area.x1,
            area.x2 <= self@.width,
            0 <= area.y1,
            area.y2 <= self@.height,
    {
        proof {
            use_type_invariant(self);
        }
        let x1 = if clip.x1 > 0 {
            clip.x1
        } else {
            0
        };
        let x2 = if clip.x2 < self.width {
            clip.x2
        } else {
            self.width
        };
        let y1 = if clip.y1 > 0 {
            clip.y1
        } else {
            0
        };
        let y2 = if clip.y2 < self.height {
            clip.y2
        } else {
            self.height
        };
        Rect::with_exact(x1, y1, x2, y2)
    }

    /// Whether the cells of `area`, if it has any, have positions on the
    /// render surface that are `i32` coordinates.
    fn reaches(&self, area: Rect) -> (fits: bool)
        ensures
            fits == self@.reaches(area),
    {
        if area.x1 < area.x2 && area.y1 < area.y2 {
            let left = self.x as i64 + area.x1 as i64;
            let right = self.x as i64 + area.x2 as i64 - 1;
            let top = self.y as i64 + area.y1 as i64;
            let bottom = self.y as i64 + area.y2 as i64 - 1;
            -0x8000_0000 <= left && right <= 0x7fff_ffff && -0x8000_0000 <= top && bottom
                <= 0x7fff_ffff
        } else {
            true
        }
    }

    /// Whether the block can be rendered: whether each of its cells has a
    /// position on the render surface that is an `i32` coordinate.
    pub fn can_render(&self) -> (fits: bool)
        ensures
            fits == self@.reaches(self@.bounds()),
    {
        proof {
            use_type_invariant(self);
        }
        self.reaches(Rect::with_exact(0, 0, self.width, self.height))
    }

    /// Whether the part of the block that lies in `clip` can be rendered.
    pub fn can_render_clip(&self, clip: &Rect) -> (fits: bool)
        ensures
            fits == self@.reaches(self@.clipped(*clip)),
    {
        let area = self.clamp(clip);
        self.reaches(area)
    }

    /// Appends one draw operation to `draw_batch` for each cell of the block
    /// that lies in `clip`, row after row.
    pub fn render_to_draw_batch_clip(&self, draw_batch: &mut DrawBatch, clip: &Rect)
        requires
            self@.reaches(self@.clipped(*clip)),
        ensures
            final(draw_batch)@ == old(draw_batch)@ + self@.clip_commands(*clip),
    {
        let area = self.clamp(clip);
        self.render_area(draw_batch, area);
    }

    /// Whether the block has the range to print `text`: whether the rows that
    /// `text` can ask for have numbers in the range of `i32`, and `text`
    /// centers nothing longer than `u32::MAX` glyphs. Such a text can be
    /// printed.
    pub fn can_print(&self, text: &TextBuilder) -> (fits: bool)
        ensures
            fits == self@.has_range_for(text@),
            fits ==> !(self@.run(text@).status is OutOfRange),
    {
        proof {
            use_type_invariant(self);
        }
        let commands = text.commands();
        let ghost program = text@;
        let bound: i32 = if self.cursor.1 > self.height {
            self.cursor.1
        } else {
            self.height
        };
        let mut room: u32 = (i32::MAX - bound) as u32;
        let mut i: usize = 0;
        proof {
            assert(program.skip(0) == program);
        }
        while i < commands.len()
            invariant
                program == text@,
                bound == self@.row_bound(),
                i <= commands@.len() == program.len(),
                forall|k: int| 0 <= k < commands@.len() ==> (#[trigger] commands@[k])@ == program[k],
                forall|k: int| 0 <= k < i ==> (#[trigger] program[k]).center_fits(),
                room + program_feeds(program) == i32::MAX - bound + program_feeds(
                    program.skip(i as int),
                ),
            decreases commands.len() - i,
        {
            proof {
                assert(program.skip(i as int)[0] == program[i as int]);
                assert(program.skip(i as int).drop_first() == program.skip(i + 1));
            }
            match &commands[i] {
                CommandType::NewLine {  } => {
                    if room == 0 {
                        return false;
                    }
                    room -= 1;
                },
                CommandType::TextWrapper { block } => {
                    match words_within(block.as_str(), room) {
                        Some(words) => {
                            room -= words;
                        },
                        None => {
                            return false;
                        },
                    }
                },
                CommandType::Centered { block } => {
                    if block.len() > 0xffff_ffff {
                        return false;
                    }
                },
                _ => {},
            }
            i += 1;
        }
        proof {
            assert(program.skip(i as int) == Seq::<LayoutCommand>::empty());
            lemma_program_stays_in_range(self@, program);
        }
        true
    }

    /// The buffer index that the cursor stands for, if it stands for a cell.
    fn cursor_index(&self) -> (idx: Option<usize>)
        ensures
            idx is Some <==> self@.has_room(),
            idx matches Some(i) ==> i == self@.index(),
    {
        let row = self.cursor.1 as i64;
        let col = self.cursor.0 as i64;
        let width = self.width as i64;
        assert(-0x4000_0000_0000_0000 <= row * width <= 0x4000_0000_0000_0000)
            by (nonlinear_arith)
            requires
                -0x8000_0000 <= row <= 0x7fff_ffff,
                -0x8000_0000 <= width <= 0x7fff_ffff,
        ;
        let idx = row * width + col;
        if idx < 0 {
            None
        } else if (idx as u64) < (self.buffer.len() as u64) {
            Some(idx as usize)
        } else {
            None
        }
    }

    /// Writes `glyph` at the cursor and advances the cursor, if the cursor
    /// stands for a cell.
    fn put_glyph(&mut self, glyph: FontCharType) -> (written: bool)
        ensures
            final(self)@ == old(self)@.apply(Step::Put { glyph }).state,
            written == (old(self)@.apply(Step::Put { glyph }).status is Complete),
    {
        proof {
            use_type_invariant(&*self);
        }
        match self.cursor_index() {
            Some(idx) => {
                let next = self.cursor.0 as i64 + 1;
                if next >= self.width as i64 {
                    assert(self.width >= 1) by (nonlinear_arith)
                        requires
                            0 <= self.width,
                            0 < self.width * self.height,
                    ;
                    assert(self.cursor.1 < self.height) by (nonlinear_arith)
                        requires
                            self.cursor.1 * self.width + self.cursor.0 < self.width * self.height,
                            0 <= self.width - 1 <= self.cursor.0,
                    ;
                    self.buffer[idx] =
                        TerminalGlyph { glyph, foreground: self.fg, background: self.bg };
                    self.cursor = (0, self.cursor.1 + 1);
                } else {
                    self.buffer[idx] =
                        TerminalGlyph { glyph, foreground: self.fg, background: self.bg };
                    self.cursor = (next as i32, self.cursor.1);
                }
                true
            },
            None => false,
        }
    }

    /// Writes the glyphs from the cursor on, up to the first that finds no
    /// cell.
    fn put_glyphs(&mut self, glyphs: &Vec<FontCharType>) -> (written: bool)
        ensures
            final(self)@ == old(self)@.run_steps(put_steps(glyphs@)).state,
            written == (old(self)@.run_steps(put_steps(glyphs@)).status is Complete),
            !(old(self)@.run_steps(put_steps(glyphs@)).status is OutOfRange),
    {
        let ghost start = self@;
        let ghost steps = put_steps(glyphs@);
        let mut i: usize = 0;
        proof {
            assert(steps.skip(0) == steps);
        }
        while i < glyphs.len()
            invariant
                i <= glyphs@.len(),
                start == old(self)@,
                steps == put_steps(glyphs@),
                self@.run_steps(steps.skip(i as int)) == start.run_steps(steps),
            decreases glyphs.len() - i,
        {
            proof {
                lemma_run_steps_from(self@, steps, i as int);
            }
            if !self.put_glyph(glyphs[i]) {
                return false;
            }
            i += 1;
        }
        proof {
            assert(steps.skip(i as int) == Seq::<Step>::empty());
        }
        true
    }

    /// Moves the cursor to the start of the next row.
    fn line_feed(&mut self)
        requires
            old(self)@.cursor.1 < i32::MAX,
        ensures
            final(self)@ == old(self)@.moved((0, old(self)@.cursor.1 + 1)),
    {
        proof {
            use_type_invariant(&*self);
        }
        self.cursor = (0, self.cursor.1 + 1);
    }

    /// Moves the cursor to the next row if `len` more glyphs would reach the
    /// right edge.
    fn wrap_ahead(&mut self, len: usize)
        requires
            !(old(self)@.apply(Step::WrapAhead { len: len as nat }).status is OutOfRange),
        ensures
            final(self)@ == old(self)@.apply(Step::WrapAhead { len: len as nat }).state,
    {
        if self.cursor.0 as i128 + len as i128 >= self.width as i128 {
            self.line_feed();
        }
    }

    /// Moves the cursor to the column where `len` glyphs are centered.
    fn center(&mut self, len: usize)
        requires
            !(old(self)@.apply(Step::Center { len: len as nat }).status is OutOfRange),
        ensures
            final(self)@ == old(self)@.apply(Step::Center { len: len as nat }).state,
    {
        proof {
            use_type_invariant(&*self);
        }
        let column = (self.width / 2) as i64 - (len / 2) as i64;
        self.cursor = (column as i32, self.cursor.1);
    }

    /// Writes `text` word by word, wrapped at the right edge.
    fn wrap(&mut self, text: &str) -> (written: bool)
        requires
            !(old(self)@.run_steps(wrap_steps(word_blocks(text@))).status is OutOfRange),
        ensures
            final(self)@ == old(self)@.run_steps(wrap_steps(word_blocks(text@))).state,
            written == (old(self)@.run_steps(wrap_steps(word_blocks(text@))).status is Complete),
    {
        let blocks = split_words(text);
        let ghost start = self@;
        let ghost words = word_blocks(text@);
        let mut i: usize = 0;
        proof {
            assert(words.skip(0) == words);
        }
        while i < blocks.len()
            invariant
                start == old(self)@,
                words == word_blocks(text@),
                i <= blocks@.len() == words.len(),
                forall|k: int| 0 <= k < blocks@.len() ==> (#[trigger] blocks@[k])@ == words[k],
                self@.run_steps(wrap_steps(words.skip(i as int))) == start.run_steps(
                    wrap_steps(words),
                ),
                !(start.run_steps(wrap_steps(words)).status is OutOfRange),
            decreases blocks.len() - i,
        {
            let ghost before = self@;
            let ghost block = words[i as int];
            let ghost rest = wrap_steps(words.skip(i + 1));
            proof {
                lemma_wrap_steps_from(words, i as int);
                lemma_run_steps_concat(before, word_steps(block), rest);
                let ahead = Step::WrapAhead { len: block.len() };
                lemma_run_steps_concat(before, seq![ahead], put_steps(block));
                lemma_run_single_step(before, ahead);
            }
            self.wrap_ahead(blocks[i].len());
            if !self.put_glyphs(&blocks[i]) {
                return false;
            }
            i += 1;
        }
        proof {
            assert(words.skip(i as int) == Seq::<Seq<u16>>::empty());
        }
        true
    }

    /// Carries out one command.
    fn carry_out(&mut self, command: &CommandType) -> (done: bool)
        requires
            !(old(self)@.run_steps(command@.steps()).status is OutOfRange),
        ensures
            final(self)@ == old(self)@.run_steps(command@.steps()).state,
            done == (old(self)@.run_steps(command@.steps()).status is Complete),
    {
        let ghost before = self@;
        let ghost steps = command@.steps();
        proof {
            use_type_invariant(&*self);
            if steps.len() == 1 {
                assert(steps == seq![steps[0]]);
                lemma_run_single_step(before, steps[0]);
            }
        }
        match command {
            CommandType::Text { block } => self.put_glyphs(block),
            CommandType::Centered { block } => {
                proof {
                    let center = Step::Center { len: block@.len() };
                    lemma_run_steps_concat(before, seq![center], put_steps(block@));
                    lemma_run_single_step(before, center);
                }
                self.center(block.len());
                self.put_glyphs(block)
            },
            CommandType::NewLine {  } => {
                self.line_feed();
                true
            },
            CommandType::Foreground { col } => {
                self.fg = *col;
                true
            },
            CommandType::Background { col } => {
                self.bg = *col;
                true
            },
            CommandType::Reset {  } => {
                self.cursor = (0, 0);
                self.fg = Rgba::white();
                self.bg = Rgba::black();
                true
            },
            CommandType::TextWrapper { block } => self.wrap(block.as_str()),
        }
    }

    /// Prints a layout program into the block.
    ///
    /// The commands are carried out in order. When a glyph is due at a
    /// cursor position outside the buffer, printing stops there with
    /// `OutOfSpace`: what was written before stays written, nothing after
    /// it is carried out.
    ///
    /// The program must not take a cursor coordinate outside the range of
    /// `i32`.
    pub fn print(&mut self, text: &TextBuilder) -> (result: Result<(), OutOfSpace>)
        requires
            !(old(self)@.run(text@).status is OutOfRange),
        ensures
            final(self)@ == old(self)@.run(text@).state,
            result is Ok <==> old(self)@.run(text@).status is Complete,
            result is Err <==> old(self)@.run(text@).status is OutOfSpace,
    {
        let commands = text.commands();
        let ghost start = self@;
        let ghost program = text@;
        let mut i: usize = 0;
        proof {
            assert(program.skip(0) == program);
        }
        while i < commands.len()
            invariant
                start == old(self)@,
                program == text@,
                i <= commands@.len() == program.len(),
                forall|k: int| 0 <= k < commands@.len() ==> (#[trigger] commands@[k])@ == program[k],
                self@.run(program.skip(i as int)) == start.run(program),
                !(start.run(program).status is OutOfRange),
            decreases commands.len() - i,
        {
            proof {
                lemma_program_steps_from(program, i as int);
                lemma_run_steps_concat(
                    self@,
                    program[i as int].steps(),
                    program_steps(program.skip(i + 1)),
                );
            }
            if !self.carry_out(&commands[i]) {
                return Err(OutOfSpace);
            }
            i += 1;
        }
        proof {
            assert(program.skip(i as int) == Seq::<LayoutCommand>::empty());
        }
        Ok(())
    }
}

} // verus!
