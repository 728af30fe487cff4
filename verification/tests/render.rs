use bracket_bevy::color::{ColorPair, Rgba};
use bracket_bevy::draw_batch::{DrawBatch, DrawCommand};
use bracket_bevy::geometry::{Point, Rect};
use bracket_bevy::text_builder::TextBuilder;
use bracket_bevy::textblock::TextBlock;

fn lettered_block(x: i32, y: i32, width: i32, height: i32) -> TextBlock {
    let mut block = TextBlock::new(x, y, width, height);
    let mut text = String::new();
    for i in 0..(width * height) {
        text.push((b'a' + (i % 26) as u8) as char);
    }
    let mut buf = TextBuilder::empty();
    buf.append(&text);
    assert!(block.print(&buf).is_ok());
    block
}

fn positions_of(batch: &DrawBatch) -> Vec<(i32, i32, u16)> {
    batch
        .commands()
        .iter()
        .map(|command| match command {
            DrawCommand::SetGlyph { pos, glyph, .. } => (pos.x, pos.y, *glyph),
            other => panic!("unexpected draw operation {:?}", other),
        })
        .collect()
}

#[test]
fn batch_rendering_visits_every_cell_at_its_surface_position() {
    let block = lettered_block(10, 20, 3, 2);
    let mut batch = DrawBatch::new();
    block.render_to_draw_batch(&mut batch);
    assert_eq!(
        positions_of(&batch),
        vec![
            (10, 20, 97),
            (11, 20, 98),
            (12, 20, 99),
            (10, 21, 100),
            (11, 21, 101),
            (12, 21, 102),
        ]
    );
}

#[test]
fn batch_rendering_appends_to_what_the_batch_holds() {
    let block = lettered_block(0, 0, 1, 1);
    let mut batch = DrawBatch::new();
    batch.cls();
    block.render_to_draw_batch(&mut batch);
    assert_eq!(batch.len(), 2);
    assert_eq!(batch.commands()[0], DrawCommand::ClearScreen);
    assert_eq!(
        batch.commands()[1],
        DrawCommand::SetGlyph {
            pos: Point::new(0, 0),
            color: ColorPair::new(Rgba::white(), Rgba::black()),
            glyph: 97,
        }
    );
}

#[test]
fn live_rendering_selects_the_layer_first() {
    let block = lettered_block(1, 1, 2, 1);
    let mut surface = DrawBatch::new();
    block.render(3, &mut surface);
    assert_eq!(surface.len(), 3);
    assert_eq!(surface.commands()[0], DrawCommand::SetTarget { console: 3 });
    assert_eq!(
        surface.commands()[1],
        DrawCommand::SetGlyph {
            pos: Point::new(1, 1),
            color: ColorPair::default(),
            glyph: 97,
        }
    );
    assert_eq!(
        surface.commands()[2],
        DrawCommand::SetGlyph {
            pos: Point::new(2, 1),
            color: ColorPair::default(),
            glyph: 98,
        }
    );
}

#[test]
fn clipped_rendering_visits_the_intersection() {
    // A block of 5 by 4 cells and a clip rectangle that hangs over its left
    // and bottom edges: they share the columns 0..3 of the rows 2..4.
    let block = lettered_block(100, 200, 5, 4);
    let clip = Rect::with_exact(-2, 2, 3, 9);
    assert!(block.can_render_clip(&clip));
    let mut batch = DrawBatch::new();
    block.render_to_draw_batch_clip(&mut batch, &clip);
    let visited = positions_of(&batch);
    assert_eq!(visited.len(), 6);
    let mut expected = Vec::new();
    for y in 2..4 {
        for x in 0..3 {
            expected.push((100 + x, 200 + y, 97 + (y * 5 + x) as u16));
        }
    }
    assert_eq!(visited, expected);
    let mut coordinates: Vec<(i32, i32)> = visited.iter().map(|cell| (cell.0, cell.1)).collect();
    coordinates.sort();
    coordinates.dedup();
    assert_eq!(coordinates.len(), 6);
}

#[test]
fn clip_inside_the_block_is_rendered_whole() {
    let block = lettered_block(0, 0, 4, 4);
    let mut batch = DrawBatch::new();
    block.render_to_draw_batch_clip(&mut batch, &Rect::with_exact(1, 1, 3, 2));
    assert_eq!(positions_of(&batch), vec![(1, 1, 102), (2, 1, 103)]);
}

#[test]
fn clip_around_the_block_renders_the_block() {
    let block = lettered_block(0, 0, 2, 2);
    let mut clipped = DrawBatch::new();
    block.render_to_draw_batch_clip(&mut clipped, &Rect::with_exact(-10, -10, 10, 10));
    let mut whole = DrawBatch::new();
    block.render_to_draw_batch(&mut whole);
    assert_eq!(clipped.commands(), whole.commands());
    assert_eq!(clipped.len(), 4);
}

#[test]
fn clip_beside_the_block_renders_nothing() {
    let block = lettered_block(0, 0, 3, 3);
    for clip in [
        Rect::with_exact(3, 0, 8, 3),
        Rect::with_exact(-4, 0, 0, 3),
        Rect::with_exact(0, 3, 3, 5),
        Rect::with_exact(0, -5, 3, 0),
        Rect::with_exact(2, 2, 1, 1),
        Rect::with_exact(1, 1, 1, 3),
    ] {
        let mut batch = DrawBatch::new();
        block.render_to_draw_batch_clip(&mut batch, &clip);
        assert_eq!(batch.len(), 0);
    }
}

#[test]
fn rendering_needs_positions_within_the_coordinate_range() {
    let mut block = lettered_block(0, 0, 3, 3);
    assert!(block.can_render());
    block.set_origin(Point::new(i32::MAX - 1, 0));
    assert!(!block.can_render());
    assert!(block.can_render_clip(&Rect::with_exact(0, 0, 2, 3)));
    assert!(!block.can_render_clip(&Rect::with_exact(0, 0, 3, 3)));
    let mut batch = DrawBatch::new();
    block.render_to_draw_batch_clip(&mut batch, &Rect::with_exact(0, 0, 2, 1));
    assert_eq!(positions_of(&batch), vec![(i32::MAX - 1, 0, 97), (i32::MAX, 0, 98)]);
    block.set_origin(Point::new(0, i32::MAX));
    assert!(!block.can_render());
    let empty = TextBlock::new(i32::MAX, i32::MAX, 0, 0);
    assert!(empty.can_render());
}

#[test]
fn draw_batch_keeps_operations_in_order() {
    let mut batch = DrawBatch::new();
    assert_eq!(batch.len(), 0);
    batch
        .target(1)
        .cls()
        .set(Point::new(2, 3), ColorPair::new(Rgba::rgb(9, 8, 7), Rgba::black()), 64);
    assert_eq!(
        batch.commands(),
        &vec![
            DrawCommand::SetTarget { console: 1 },
            DrawCommand::ClearScreen,
            DrawCommand::SetGlyph {
                pos: Point::new(2, 3),
                color: ColorPair::new(Rgba::rgb(9, 8, 7), Rgba::black()),
                glyph: 64,
            },
        ]
    );
}
