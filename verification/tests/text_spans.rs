use bracket_bevy::color::{Palette, Rgba};
use bracket_bevy::text_spans::ColoredTextSpans;

const RED: Rgba = Rgba { r: 255, g: 0, b: 0, a: 255 };
const BLUE: Rgba = Rgba { r: 0, g: 0, b: 255, a: 255 };

fn palette() -> Palette {
    let mut palette = Palette::new();
    palette.register("red", RED);
    palette.register("blue", BLUE);
    palette.register("a", RED);
    palette.register("b", BLUE);
    palette
}

fn spans_of(text: &str) -> Vec<(Rgba, String)> {
    ColoredTextSpans::new(&palette(), text).spans
}

fn span(color: Rgba, text: &str) -> (Rgba, String) {
    (color, text.to_string())
}

#[test]
fn span_lengths_add_up_to_the_plain_characters() {
    let text = "#[red]Hello #[blue]World#[]!#[] done";
    let parsed = ColoredTextSpans::new(&palette(), text);
    assert_eq!(parsed.length, 17);
    let sum: usize = parsed.spans.iter().map(|span| span.1.chars().count()).sum();
    assert_eq!(sum, parsed.length);
    let markup = "#[red]".len() + "#[blue]".len() + 2 * "#[]".len();
    assert_eq!(parsed.length, text.chars().count() - markup);
}

#[test]
fn length_counts_characters_not_bytes() {
    let parsed = ColoredTextSpans::new(&palette(), "#[red]\u{263b}\u{2665}\u{e9}");
    assert_eq!(parsed.length, 3);
    assert_eq!(parsed.spans, vec![span(RED, "\u{263b}\u{2665}\u{e9}")]);
}

#[test]
fn named_colors_are_looked_up() {
    assert_eq!(
        spans_of("#[red]Hello #[blue]World"),
        vec![span(RED, "Hello "), span(BLUE, "World")]
    );
}

#[test]
fn unknown_name_is_black() {
    let parsed = ColoredTextSpans::new(&palette(), "#[unknown]text#[]");
    assert_eq!(parsed.spans, vec![span(Rgba::black(), "text"), span(Rgba::white(), "")]);
    assert_eq!(parsed.length, 4);
}

#[test]
fn nested_colors_are_left_in_turn() {
    assert_eq!(
        spans_of("#[a]X#[b]Y#[]Z#[]"),
        vec![span(RED, "X"), span(BLUE, "Y"), span(RED, "Z"), span(Rgba::white(), "")]
    );
}

#[test]
fn after_the_last_pop_text_is_white() {
    assert_eq!(
        spans_of("#[a]X#[]after"),
        vec![span(RED, "X"), span(Rgba::white(), "after")]
    );
}

#[test]
fn pop_without_a_color_is_white() {
    assert_eq!(spans_of("#[]plain"), vec![span(Rgba::white(), "plain")]);
    assert_eq!(
        spans_of("#[]#[]#[a]x"),
        vec![span(Rgba::white(), ""), span(Rgba::white(), ""), span(RED, "x")]
    );
}

#[test]
fn text_before_the_first_token_is_dropped() {
    let parsed = ColoredTextSpans::new(&palette(), "hello");
    assert_eq!(parsed.spans, Vec::new());
    assert_eq!(parsed.length, 0);
    assert_eq!(spans_of("lead #[red]x"), vec![span(RED, "x")]);
}

#[test]
fn text_before_the_first_token_with_a_bracket_names_a_color() {
    assert_eq!(spans_of("red]x"), vec![span(RED, "x")]);
    assert_eq!(spans_of("]x"), vec![span(Rgba::white(), "x")]);
}

#[test]
fn token_without_its_end_is_dropped() {
    assert_eq!(spans_of("#[red]x#[blue"), vec![span(RED, "x")]);
    assert_eq!(spans_of("#[red"), Vec::new());
    assert_eq!(spans_of("#[a#[b]x"), vec![span(BLUE, "x")]);
}

#[test]
fn dropped_token_switches_no_color() {
    assert_eq!(
        spans_of("#[red]x#[blue#[]y"),
        vec![span(RED, "x"), span(Rgba::white(), "y")]
    );
}

#[test]
fn later_brackets_are_text() {
    assert_eq!(spans_of("#[red]a]b]"), vec![span(RED, "a]b]")]);
    assert_eq!(spans_of("#[red]a#b[c"), vec![span(RED, "a#b[c")]);
}

#[test]
fn empty_markup_has_no_spans() {
    let parsed = ColoredTextSpans::new(&palette(), "");
    assert_eq!(parsed.spans, Vec::new());
    assert_eq!(parsed.length, 0);
}

#[test]
fn adjacent_tokens_give_empty_spans() {
    assert_eq!(
        spans_of("#[red]#[blue]x"),
        vec![span(RED, ""), span(BLUE, "x")]
    );
    assert_eq!(spans_of("#[#[red]x"), vec![span(RED, "x")]);
    assert_eq!(spans_of("##[red]x"), vec![span(RED, "x")]);
}

#[test]
fn palette_finds_what_was_registered_last() {
    let mut palette = Palette::new();
    assert_eq!(palette.lookup("red"), None);
    palette.register("red", RED);
    assert_eq!(palette.lookup("red"), Some(RED));
    assert_eq!(palette.lookup("Red"), None);
    palette.register("red", BLUE);
    assert_eq!(palette.lookup("red"), Some(BLUE));
    assert_eq!(palette.lookup(""), None);
}
