//! Reading inline color markup into colored spans.

use crate::color::{Palette, Rgba};
use crate::markup::{
    lemma_read_segment_length, opens_at, parse, segments_from, shown_len, visible_length, Markup,
    Span,
};
use vstd::prelude::*;
use vstd::string::{StrSliceExecFns, StringExecFns};

verus! {

/// The spans that a markup text comes to, and the number of characters in
/// them.
#[derive(Debug)]
pub struct ColoredTextSpans {
    pub length: usize,
    pub spans: Vec<(Rgba, String)>,
}

/// The characters of `text`.
fn chars_of(text: &str) -> (chars: Vec<char>)
    ensures
        chars@ == text@,
{
    let mut chars: Vec<char> = Vec::new();
    for c in it: text.chars()
        invariant
            chars@ == it.seq().take(it.index() as int),
    {
        chars.push(c);
    }
    chars
}

impl ColoredTextSpans {
    /// The spans, each as its color and its characters.
    pub open spec fn spans_view(&self) -> Seq<Span> {
        self.spans@.map_values(|span: (Rgba, String)| (span.0, span.1@))
    }

    /// Reads the piece `from..to` of `text`: switches or leaves a color as
    /// its name says and appends the span that it shows.
    fn read_piece(
        &mut self,
        context: &Palette,
        text: &str,
        chars: &Vec<char>,
        from: usize,
        to: usize,
        color_stack: &mut Vec<Rgba>,
    )
        requires
            chars@ == text@,
            from <= to <= chars@.len(),
            old(self).length + (to - from) <= usize::MAX,
        ensures
            ({
                let piece = text@.subrange(from as int, to as int);
                let before = Markup { stack: old(color_stack)@, spans: old(self).spans_view() };
                let after = before.read_segment(context@, piece);
                &&& final(color_stack)@ == after.stack
                &&& final(self).spans_view() == after.spans
                &&& final(self).length == old(self).length + shown_len(piece)
            }),
    {
        let ghost piece = text@.subrange(from as int, to as int);
        let mut close: usize = from;
        while close < to && chars[close] != ']'
            invariant
                from <= close <= to <= chars@.len(),
                chars@ == text@,
                forall|j: int| from <= j < close ==> chars@[j] != ']',
            decreases to - close,
        {
            close += 1;
        }
        proof {
            piece.index_of_first_ensures(']');
            if close < to {
                assert(piece[close - from] == ']');
                assert(piece.contains(']'));
                let first = piece.index_of_first(']').unwrap();
                if first < close - from {
                    assert(chars@[from + first] == piece[first]);
                }
            } else {
                if piece.contains(']') {
                    let first = piece.index_of_first(']').unwrap();
                    assert(chars@[from + first] == piece[first]);
                }
            }
        }
        if close < to {
            let name = text.substring_char(from, close);
            let shown = text.substring_char(close + 1, to);
            proof {
                assert(name@ == piece.subrange(0, close - from));
                assert(shown@ == piece.subrange(close - from + 1, piece.len() as int));
            }
            if close > from {
                let color = match context.lookup(name) {
                    Some(color) => color,
                    None => Rgba::black(),
                };
                color_stack.push(color);
            } else if color_stack.len() > 0 {
                color_stack.pop();
            }
            let color = if color_stack.len() > 0 {
                color_stack[color_stack.len() - 1]
            } else {
                Rgba::white()
            };
            let ghost spans_before = self.spans_view();
            self.spans.push((color, String::from_str(shown)));
            self.length = self.length + (to - close - 1);
            proof {
                assert(self.spans_view() == spans_before.push((color, shown@)));
            }
        }
    }

    /// Reads the markup `text`, with `context` for the colors that its names
    /// stand for.
    pub fn new(context: &Palette, text: &str) -> (result: Self)
        ensures
            result.spans_view() == parse(context@, text@).spans,
            result.length == visible_length(result.spans_view()),
    {
        let chars = chars_of(text);
        let n = chars.len();
        let mut result = ColoredTextSpans { length: 0, spans: Vec::new() };
        let mut color_stack: Vec<Rgba> = Vec::new();
        let ghost mut state = Markup::start();
        let mut start: usize = 0;
        let mut i: usize = 0;
        proof {
            assert(result.spans_view() == state.spans);
        }
        while i < n
            invariant
                chars@ == text@,
                n == chars@.len(),
                start <= i <= n,
                color_stack@ == state.stack,
                result.spans_view() == state.spans,
                result.length == visible_length(state.spans),
                result.length <= start,
                state.read_segments(context@, segments_from(text@, start as int, i as int))
                    == parse(context@, text@),
            decreases n - i,
        {
            if chars[i] == '#' && i + 1 < n && chars[i + 1] == '[' {
                proof {
                    assert(opens_at(text@, i as int));
                    let piece = text@.subrange(start as int, i as int);
                    let rest = segments_from(text@, i + 2, i + 2);
                    assert((seq![piece] + rest)[0] == piece);
                    assert((seq![piece] + rest).drop_first() == rest);
                    lemma_read_segment_length(state, context@, piece);
                    piece.index_of_first_ensures(']');
                    state = state.read_segment(context@, piece);
                }
                result.read_piece(context, text, &chars, start, i, &mut color_stack);
                start = i + 2;
                i = i + 2;
            } else {
                proof {
                    assert(!opens_at(text@, i as int));
                }
                i += 1;
            }
        }
        proof {
            let piece = text@.subrange(start as int, n as int);
            let pieces = seq![piece];
            assert(pieces[0] == piece);
            assert(pieces.drop_first() == Seq::<Seq<char>>::empty());
            assert(state.read_segment(context@, piece).read_segments(context@, pieces.drop_first())
                == state.read_segment(context@, piece));
            lemma_read_segment_length(state, context@, piece);
            piece.index_of_first_ensures(']');
        }
        result.read_piece(context, text, &chars, start, n, &mut color_stack);
        result
    }
}

} // verus!
