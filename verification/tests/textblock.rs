use bracket_bevy::color::{ColorPair, Rgba};
use bracket_bevy::draw_batch::{DrawBatch, DrawCommand};
use bracket_bevy::geometry::Point;
use bracket_bevy::glyph::TerminalGlyph;
use bracket_bevy::text_builder::{CommandType, TextBuilder};
use bracket_bevy::textblock::{OutOfSpace, TextBlock};

/// The cells of a block, row after row, as rendering shows them.
fn cells_of(block: &TextBlock) -> Vec<TerminalGlyph> {
    let mut batch = DrawBatch::new();
    assert!(block.can_render());
    block.render_to_draw_batch(&mut batch);
    batch
        .commands()
        .iter()
        .map(|command| match command {
            DrawCommand::SetGlyph { color, glyph, .. } => TerminalGlyph {
                glyph: *glyph,
                foreground: color.fg,
                background: color.bg,
            },
            other => panic!("unexpected draw operation {:?}", other),
        })
        .collect()
}

fn codes_of(block: &TextBlock) -> Vec<u16> {
    cells_of(block).iter().map(|cell| cell.glyph).collect()
}

#[test]
fn textblock_ok() {
    let mut block = TextBlock::new(0, 0, 80, 25);

    let mut buf = TextBuilder::empty();
    buf.ln()
        .centered("Hello World")
        .line_wrap("The quick brown fox jumped over the lazy dog, and just kept on running in an attempt to exceed the console width.")
        .reset();

    assert!(block.print(&buf).is_ok());
}

#[test]
fn textblock_wrap_error() {
    let mut block = TextBlock::new(0, 0, 80, 2);

    let mut buf = TextBuilder::empty();
    buf.ln()
        .centered("Hello World")
        .line_wrap("The quick brown fox jumped over the lazy dog, and just kept on running in an attempt to exceed the console width.")
        .line_wrap("The quick brown fox jumped over the lazy dog, and just kept on running in an attempt to exceed the console width.")
        .reset();

    assert!(block.print(&buf).is_err());
}

#[test]
fn new_block_is_blank() {
    let block = TextBlock::new(3, 4, 5, 2);
    assert_eq!(block.get_origin(), Point::new(3, 4));
    assert_eq!(block.get_cursor(), Point::new(0, 0));
    let cells = cells_of(&block);
    assert_eq!(cells.len(), 10);
    for cell in cells {
        assert_eq!(
            cell,
            TerminalGlyph { glyph: 0, foreground: Rgba::white(), background: Rgba::black() }
        );
    }
}

#[test]
fn empty_block_has_no_cells() {
    let mut block = TextBlock::new(0, 0, 0, 7);
    assert_eq!(cells_of(&block).len(), 0);
    let mut buf = TextBuilder::empty();
    buf.append("x");
    assert!(block.print(&buf).is_err());
}

#[test]
fn append_writes_from_the_cursor_and_wraps_at_the_edge() {
    let mut block = TextBlock::new(0, 0, 4, 2);
    let mut buf = TextBuilder::empty();
    buf.append("abcdef");
    assert!(block.can_print(&buf));
    assert!(block.print(&buf).is_ok());
    assert_eq!(codes_of(&block), vec![97, 98, 99, 100, 101, 102, 0, 0]);
    assert_eq!(block.get_cursor(), Point::new(2, 1));
}

#[test]
fn append_to_the_last_cell_moves_the_cursor_out() {
    let mut block = TextBlock::new(0, 0, 2, 2);
    let mut buf = TextBuilder::empty();
    buf.append("abcd");
    assert!(block.print(&buf).is_ok());
    assert_eq!(block.get_cursor(), Point::new(0, 2));
    let mut more = TextBuilder::empty();
    more.append("e");
    assert!(block.print(&more).is_err());
    assert_eq!(codes_of(&block), vec![97, 98, 99, 100]);
}

#[test]
fn overflow_keeps_what_was_written() {
    let mut block = TextBlock::new(0, 0, 4, 1);
    let mut buf = TextBuilder::empty();
    buf.fg(Rgba::rgb(255, 0, 0)).append("abcdef").append("zz").ln();
    assert!(block.print(&buf).is_err());
    assert_eq!(codes_of(&block), vec![97, 98, 99, 100]);
    for cell in cells_of(&block) {
        assert_eq!(cell.foreground, Rgba::rgb(255, 0, 0));
        assert_eq!(cell.background, Rgba::black());
    }
    assert_eq!(block.get_cursor(), Point::new(0, 1));
}

#[test]
fn more_characters_than_cells_fail() {
    let mut block = TextBlock::new(0, 0, 3, 3);
    let mut buf = TextBuilder::empty();
    buf.append("12345").append("6789").append("0");
    assert!(block.print(&buf).is_err());
    assert_eq!(codes_of(&block), vec![49, 50, 51, 52, 53, 54, 55, 56, 57]);
}

#[test]
fn as_many_characters_as_cells_fit() {
    let mut block = TextBlock::new(0, 0, 3, 3);
    let mut buf = TextBuilder::empty();
    buf.append("12345").append("6789");
    assert!(block.print(&buf).is_ok());
}

#[test]
fn reset_lets_a_long_program_start_over() {
    let mut block = TextBlock::new(0, 0, 4, 1);
    let mut buf = TextBuilder::empty();
    buf.append("abcd").reset().append("wxyz");
    assert!(block.print(&buf).is_ok());
    assert_eq!(codes_of(&block), vec![119, 120, 121, 122]);
}

#[test]
fn centered_hi_starts_in_column_four() {
    let mut block = TextBlock::new(0, 0, 10, 1);
    let mut buf = TextBuilder::empty();
    buf.centered("Hi");
    assert!(block.print(&buf).is_ok());
    assert_eq!(codes_of(&block), vec![0, 0, 0, 0, 72, 105, 0, 0, 0, 0]);
    assert_eq!(block.get_cursor(), Point::new(6, 0));
}

#[test]
fn centered_odd_length_uses_integer_halves() {
    let mut block = TextBlock::new(0, 0, 9, 1);
    let mut buf = TextBuilder::empty();
    buf.centered("abc");
    assert!(block.print(&buf).is_ok());
    assert_eq!(codes_of(&block), vec![0, 0, 0, 97, 98, 99, 0, 0, 0]);
}

#[test]
fn centered_text_wider_than_the_block_is_out_of_space() {
    let mut block = TextBlock::new(0, 0, 4, 2);
    let mut buf = TextBuilder::empty();
    buf.centered("abcdefghij");
    assert!(block.print(&buf).is_err());
    assert_eq!(block.get_cursor(), Point::new(-3, 0));
    assert_eq!(codes_of(&block), vec![0; 8]);
}

#[test]
fn centered_empty_text_only_moves_the_cursor() {
    let mut block = TextBlock::new(0, 0, 10, 1);
    let mut buf = TextBuilder::empty();
    buf.centered("");
    assert!(block.print(&buf).is_ok());
    assert_eq!(block.get_cursor(), Point::new(5, 0));
}

#[test]
fn new_line_is_not_checked_against_the_height() {
    let mut block = TextBlock::new(0, 0, 4, 1);
    let mut buf = TextBuilder::empty();
    buf.ln().ln().ln();
    assert!(block.print(&buf).is_ok());
    assert_eq!(block.get_cursor(), Point::new(0, 3));
    let mut more = TextBuilder::empty();
    more.append("a");
    assert!(block.print(&more).is_err());
}

#[test]
fn new_line_goes_to_the_start_of_the_next_row() {
    let mut block = TextBlock::new(0, 0, 4, 2);
    let mut buf = TextBuilder::empty();
    buf.append("ab").ln().append("c");
    assert!(block.print(&buf).is_ok());
    assert_eq!(codes_of(&block), vec![97, 98, 0, 0, 99, 0, 0, 0]);
}

#[test]
fn colors_apply_to_later_writes_only() {
    let red = Rgba::rgb(255, 0, 0);
    let blue = Rgba::rgb(0, 0, 255);
    let mut block = TextBlock::new(0, 0, 3, 1);
    let mut buf = TextBuilder::empty();
    buf.append("a").fg(red).append("b").bg(blue).append("c");
    assert!(block.print(&buf).is_ok());
    assert_eq!(
        cells_of(&block),
        vec![
            TerminalGlyph { glyph: 97, foreground: Rgba::white(), background: Rgba::black() },
            TerminalGlyph { glyph: 98, foreground: red, background: Rgba::black() },
            TerminalGlyph { glyph: 99, foreground: red, background: blue },
        ]
    );
}

#[test]
fn block_colors_are_used_by_print() {
    let green = Rgba::rgb(0, 255, 0);
    let grey = Rgba { r: 9, g: 9, b: 9, a: 128 };
    let mut block = TextBlock::new(0, 0, 2, 1);
    block.fg(green);
    block.bg(grey);
    let mut buf = TextBuilder::empty();
    buf.append("a");
    assert!(block.print(&buf).is_ok());
    assert_eq!(
        cells_of(&block)[0],
        TerminalGlyph { glyph: 97, foreground: green, background: grey }
    );
}

#[test]
fn reset_restores_cursor_and_colors() {
    let mut block = TextBlock::new(0, 0, 5, 5);
    block.move_to(3, 4);
    block.fg(Rgba::rgb(1, 2, 3));
    block.bg(Rgba::rgb(4, 5, 6));
    let mut buf = TextBuilder::empty();
    buf.reset().append("a");
    assert!(block.print(&buf).is_ok());
    assert_eq!(block.get_cursor(), Point::new(1, 0));
    assert_eq!(
        cells_of(&block)[0],
        TerminalGlyph { glyph: 97, foreground: Rgba::white(), background: Rgba::black() }
    );
}

#[test]
fn reset_alone_goes_to_the_corner() {
    let mut block = TextBlock::new(0, 0, 5, 5);
    block.move_to(-7, 900);
    let mut buf = TextBuilder::empty();
    buf.reset();
    assert!(block.print(&buf).is_ok());
    assert_eq!(block.get_cursor(), Point::new(0, 0));
}

#[test]
fn word_wrap_writes_words_with_a_space_each() {
    let mut block = TextBlock::new(0, 0, 10, 2);
    let mut buf = TextBuilder::empty();
    buf.line_wrap("ab cd");
    assert!(block.print(&buf).is_ok());
    let mut expected = vec![97, 98, 32, 99, 100, 32, 0, 0, 0, 0];
    expected.extend(vec![0; 10]);
    assert_eq!(codes_of(&block), expected);
    assert_eq!(block.get_cursor(), Point::new(6, 0));
}

#[test]
fn word_wrap_moves_a_word_that_reaches_the_edge_to_the_next_row() {
    let mut block = TextBlock::new(0, 0, 10, 2);
    block.move_to(7, 0);
    let mut buf = TextBuilder::empty();
    buf.line_wrap("hello");
    assert!(block.print(&buf).is_ok());
    let mut expected = vec![0; 10];
    expected.extend(vec![104, 101, 108, 108, 111, 32, 0, 0, 0, 0]);
    assert_eq!(codes_of(&block), expected);
    assert_eq!(block.get_cursor(), Point::new(6, 1));
}

#[test]
fn word_wrap_counts_the_space_of_the_word() {
    // "abc" and its space are four glyphs: 6 + 4 reaches the width of 10.
    let mut block = TextBlock::new(0, 0, 10, 2);
    block.move_to(6, 0);
    let mut buf = TextBuilder::empty();
    buf.line_wrap("abc");
    assert!(block.print(&buf).is_ok());
    assert_eq!(block.get_cursor(), Point::new(4, 1));

    // Three glyphs from column 6 end before the edge.
    let mut block = TextBlock::new(0, 0, 10, 2);
    block.move_to(6, 0);
    let mut buf = TextBuilder::empty();
    buf.line_wrap("ab");
    assert!(block.print(&buf).is_ok());
    assert_eq!(block.get_cursor(), Point::new(9, 0));
}

#[test]
fn word_wrap_of_a_word_as_wide_as_the_block_fills_a_row() {
    let mut block = TextBlock::new(0, 0, 4, 3);
    let mut buf = TextBuilder::empty();
    buf.line_wrap("abc");
    assert!(block.print(&buf).is_ok());
    assert_eq!(codes_of(&block), vec![0, 0, 0, 0, 97, 98, 99, 32, 0, 0, 0, 0]);
    assert_eq!(block.get_cursor(), Point::new(0, 2));
}

#[test]
fn word_wrap_keeps_empty_words() {
    let mut block = TextBlock::new(0, 0, 10, 1);
    let mut buf = TextBuilder::empty();
    buf.line_wrap("a  b");
    assert!(block.print(&buf).is_ok());
    assert_eq!(codes_of(&block), vec![97, 32, 32, 98, 32, 0, 0, 0, 0, 0]);
}

#[test]
fn word_wrap_of_nothing_writes_one_space() {
    let mut block = TextBlock::new(0, 0, 10, 1);
    let mut buf = TextBuilder::empty();
    buf.line_wrap("");
    assert!(block.print(&buf).is_ok());
    assert_eq!(codes_of(&block)[0], 32);
    assert_eq!(block.get_cursor(), Point::new(1, 0));
}

#[test]
fn word_wrap_fails_fast_when_rows_run_out() {
    let mut block = TextBlock::new(0, 0, 6, 1);
    let mut buf = TextBuilder::empty();
    buf.line_wrap("ab cdef gh").append("zz");
    assert!(block.print(&buf).is_err());
    assert_eq!(codes_of(&block), vec![97, 98, 32, 0, 0, 0]);
    assert_eq!(block.get_cursor(), Point::new(0, 1));
}

#[test]
fn move_to_a_negative_column_is_out_of_space() {
    let mut block = TextBlock::new(0, 0, 4, 4);
    block.move_to(-1, 0);
    let mut buf = TextBuilder::empty();
    buf.append("a");
    assert!(block.print(&buf).is_err());
}

#[test]
fn cursor_index_is_row_times_width_plus_column() {
    let mut block = TextBlock::new(0, 0, 4, 3);
    block.move_to(2, 1);
    let mut buf = TextBuilder::empty();
    buf.append("q");
    assert!(block.print(&buf).is_ok());
    let codes = codes_of(&block);
    assert_eq!(codes[6], 113);
    assert_eq!(codes.iter().filter(|code| **code != 0).count(), 1);
}

#[test]
fn origin_can_be_moved() {
    let mut block = TextBlock::new(1, 2, 2, 2);
    block.set_origin(Point::new(-5, 9));
    assert_eq!(block.get_origin(), Point::new(-5, 9));
    assert_eq!(block.get_origin().x, -5);
    assert_eq!(block.get_origin().y, 9);
}

#[test]
fn empty_program_changes_nothing() {
    let mut block = TextBlock::new(0, 0, 2, 2);
    block.move_to(1, 1);
    assert!(block.print(&TextBuilder::empty()).is_ok());
    assert_eq!(block.get_cursor(), Point::new(1, 1));
    assert_eq!(codes_of(&block), vec![0; 4]);
}

#[test]
fn builder_keeps_the_order_of_its_commands() {
    let mut buf = TextBuilder::empty();
    buf.append("a")
        .centered("b")
        .reset()
        .ln()
        .fg(Rgba::rgb(1, 1, 1))
        .bg(Rgba::rgb(2, 2, 2))
        .line_wrap("c d");
    let commands = buf.commands();
    assert_eq!(commands.len(), 7);
    assert!(matches!(&commands[0], CommandType::Text { block } if *block == vec![97]));
    assert!(matches!(&commands[1], CommandType::Centered { block } if *block == vec![98]));
    assert!(matches!(&commands[2], CommandType::Reset {}));
    assert!(matches!(&commands[3], CommandType::NewLine {}));
    assert!(matches!(&commands[4], CommandType::Foreground { col } if *col == Rgba::rgb(1, 1, 1)));
    assert!(matches!(&commands[5], CommandType::Background { col } if *col == Rgba::rgb(2, 2, 2)));
    assert!(matches!(&commands[6], CommandType::TextWrapper { block } if block == "c d"));
}

#[test]
fn out_of_space_has_its_text() {
    assert_eq!(OutOfSpace.to_string(), "Out of text-buffer space.");
    let again = OutOfSpace.clone();
    assert_eq!(format!("{:?}", again), "OutOfSpace");
}

#[test]
fn can_print_refuses_rows_beyond_the_range() {
    let mut block = TextBlock::new(0, 0, 2, 2);
    block.move_to(0, i32::MAX);
    let mut feed = TextBuilder::empty();
    feed.ln();
    assert!(!block.can_print(&feed));
    let mut wrap = TextBuilder::empty();
    wrap.line_wrap("a");
    assert!(!block.can_print(&wrap));
    let mut plain = TextBuilder::empty();
    plain.append("a").reset().fg(Rgba::white());
    assert!(block.can_print(&plain));
    block.move_to(0, i32::MAX - 2);
    let mut three = TextBuilder::empty();
    three.line_wrap("a b").ln();
    assert!(!block.can_print(&three));
    let mut two = TextBuilder::empty();
    two.line_wrap("a b");
    assert!(block.can_print(&two));
}

#[test]
fn color_pair_of_a_cell_is_its_foreground_and_background() {
    let pair = ColorPair::new(Rgba::rgb(1, 2, 3), Rgba::rgb(4, 5, 6));
    assert_eq!(pair.fg, Rgba { r: 1, g: 2, b: 3, a: 255 });
    assert_eq!(pair.bg, Rgba { r: 4, g: 5, b: 6, a: 255 });
}
