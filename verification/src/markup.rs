//! Inline color markup, as mathematics.
//!
//! `#[name]` switches to the color of that name and `#[]` goes back to the
//! color before the last switch. The text is cut at every `#[`; of each
//! piece, what stands before the first `]` names a color and what follows
//! it is shown in the color then in force. A piece without `]` shows
//! nothing.

use crate::color::{Palette, Rgba};
use vstd::prelude::*;

verus! {

/// A run of text in one color.
pub type Span = (Rgba, Seq<char>);

/// The colors switched to and not yet left, and the spans read so far.
pub struct Markup {
    pub stack: Seq<Rgba>,
    pub spans: Seq<Span>,
}

/// Whether the opening delimiter `#[` stands at index `i` of `s`.
pub open spec fn opens_at(s: Seq<char>, i: int) -> bool {
    0 <= i && i + 1 < s.len() && s[i] == '#' && s[i + 1] == '['
}

/// The pieces of `s` from `start` on, cut at each `#[` found from `i` on.
pub open spec fn segments_from(s: Seq<char>, start: int, i: int) -> Seq<Seq<char>>
    decreases s.len() - i,
{
    if i >= s.len() {
        seq![s.subrange(start, s.len() as int)]
    } else if opens_at(s, i) {
        seq![s.subrange(start, i)] + segments_from(s, i + 2, i + 2)
    } else {
        segments_from(s, start, i + 1)
    }
}

/// The pieces that `s` falls into when it is cut at each `#[`, taken from
/// left to right.
pub open spec fn segments(s: Seq<char>) -> Seq<Seq<char>> {
    segments_from(s, 0, 0)
}

/// The color that text is shown in: the last one switched to, white if
/// there is none.
pub open spec fn shown_color(stack: Seq<Rgba>) -> Rgba {
    if stack.len() > 0 {
        stack.last()
    } else {
        Rgba::white()
    }
}

/// The color that a name stands for: black where the palette does not know
/// the name.
pub open spec fn resolve(colors: Map<Seq<char>, Rgba>, name: Seq<char>) -> Rgba {
    match Palette::spec_lookup(colors, name) {
        Some(color) => color,
        None => Rgba::black(),
    }
}

/// The number of characters that a piece shows: those after its first `]`.
pub open spec fn shown_len(segment: Seq<char>) -> nat {
    match segment.index_of_first(']') {
        Some(close) => (segment.len() - close - 1) as nat,
        None => 0,
    }
}

impl Markup {
    /// Nothing switched to, nothing read.
    pub open spec fn start() -> Markup {
        Markup { stack: Seq::<Rgba>::empty(), spans: Seq::<Span>::empty() }
    }

    /// The state after one piece. A name before the `]` switches to its
    /// color, an empty name leaves the last color switched to, and the text
    /// after the `]` becomes a span in the color then in force.
    pub open spec fn read_segment(self, colors: Map<Seq<char>, Rgba>, segment: Seq<char>) -> Markup {
        match segment.index_of_first(']') {
            Some(close) => {
                let name = segment.subrange(0, close);
                let text = segment.subrange(close + 1, segment.len() as int);
                let stack = if name.len() > 0 {
                    self.stack.push(resolve(colors, name))
                } else if self.stack.len() > 0 {
                    self.stack.drop_last()
                } else {
                    self.stack
                };
                Markup { stack, spans: self.spans.push((shown_color(stack), text)) }
            },
            None => self,
        }
    }

    /// The state after the pieces, read in order.
    pub open spec fn read_segments(
        self,
        colors: Map<Seq<char>, Rgba>,
        pieces: Seq<Seq<char>>,
    ) -> Markup
        decreases pieces.len(),
    {
        if pieces.len() == 0 {
            self
        } else {
            self.read_segment(colors, pieces[0]).read_segments(colors, pieces.drop_first())
        }
    }
}

/// What the markup `text` comes to with the named colors `colors`.
pub open spec fn parse(colors: Map<Seq<char>, Rgba>, text: Seq<char>) -> Markup {
    Markup::start().read_segments(colors, segments(text))
}

/// The number of characters in the spans.
pub open spec fn visible_length(spans: Seq<Span>) -> nat
    decreases spans.len(),
{
    if spans.len() == 0 {
        0
    } else {
        visible_length(spans.drop_last()) + spans.last().1.len()
    }
}

/// The number of characters of `s` from index `i` on that belong to no
/// markup token. A token reaches from a `#[` to the next `]`, and a `#[`
/// inside a token starts the token anew. `in_token` says whether index `i`
/// lies inside a token.
pub open spec fn plain_count(s: Seq<char>, i: int, in_token: bool) -> nat
    decreases s.len() - i,
{
    if i >= s.len() {
        0
    } else if opens_at(s, i) {
        plain_count(s, i + 2, true)
    } else if in_token {
        plain_count(s, i + 1, s[i] != ']')
    } else {
        1 + plain_count(s, i + 1, false)
    }
}

/// The number of characters of `s` that belong to no markup token.
pub open spec fn plain_length(s: Seq<char>) -> nat {
    plain_count(s, 0, false)
}

/// Markup that shows all of its plain text: it is empty or begins with a
/// token. Text before the first `#[` is not shown.
pub open spec fn well_formed(s: Seq<char>) -> bool {
    s.len() == 0 || opens_at(s, 0)
}

/// The pieces with `#[` between each two of them.
pub open spec fn join_pieces(pieces: Seq<Seq<char>>) -> Seq<char>
    decreases pieces.len(),
{
    if pieces.len() == 0 {
        Seq::<char>::empty()
    } else if pieces.len() == 1 {
        pieces[0]
    } else {
        pieces[0] + seq!['#', '['] + join_pieces(pieces.drop_first())
    }
}

/// Whether no `#[` stands in `piece`.
pub open spec fn holds_no_opening(piece: Seq<char>) -> bool {
    forall|j: int| !opens_at(piece, j)
}

/// The pieces cut from `start` on, where no `#[` stands between `start` and
/// `i`, hold no `#[` and give the text from `start` on when they are joined
/// with `#[`.
proof fn lemma_segments_from_join(s: Seq<char>, start: int, i: int)
    requires
        0 <= start <= i <= s.len(),
        forall|j: int| start <= j < i ==> !opens_at(s, j),
    ensures
        segments_from(s, start, i).len() >= 1,
        forall|k: int|
            0 <= k < segments_from(s, start, i).len() ==> holds_no_opening(
                #[trigger] segments_from(s, start, i)[k],
            ),
        join_pieces(segments_from(s, start, i)) == s.subrange(start, s.len() as int),
    decreases s.len() - i,
{
    let pieces = segments_from(s, start, i);
    if i >= s.len() {
        let piece = s.subrange(start, s.len() as int);
        assert(pieces[0] == piece);
        assert forall|j: int| !opens_at(piece, j) by {
            if opens_at(piece, j) {
                assert(opens_at(s, start + j));
            }
        }
    } else if opens_at(s, i) {
        let piece = s.subrange(start, i);
        let rest = segments_from(s, i + 2, i + 2);
        lemma_segments_from_join(s, i + 2, i + 2);
        assert(pieces[0] == piece);
        assert(pieces.drop_first() == rest);
        assert(piece + seq!['#', '['] + s.subrange(i + 2, s.len() as int) == s.subrange(
            start,
            s.len() as int,
        ));
        assert forall|j: int| !opens_at(piece, j) by {
            if opens_at(piece, j) {
                assert(opens_at(s, start + j));
            }
        }
        assert forall|k: int| 0 <= k < pieces.len() implies holds_no_opening(
            #[trigger] pieces[k],
        ) by {
            if k > 0 {
                assert(pieces[k] == rest[k - 1]);
            }
        }
    } else {
        lemma_segments_from_join(s, start, i + 1);
    }
}

/// Cutting undoes joining: a text falls into at least one piece, no piece
/// holds a `#[`, and the pieces with `#[` between them are the text again.
pub proof fn lemma_segments_then_join(s: Seq<char>)
    ensures
        segments(s).len() >= 1,
        forall|k: int| 0 <= k < segments(s).len() ==> holds_no_opening(#[trigger] segments(s)[k]),
        join_pieces(segments(s)) == s,
{
    lemma_segments_from_join(s, 0, 0);
    assert(s.subrange(0, s.len() as int) == s);
}

/// Reading a piece adds the characters that it shows to those of the spans.
pub proof fn lemma_read_segment_length(
    state: Markup,
    colors: Map<Seq<char>, Rgba>,
    segment: Seq<char>,
)
    ensures
        visible_length(state.read_segment(colors, segment).spans) == visible_length(state.spans)
            + shown_len(segment),
{
    segment.index_of_first_ensures(']');
    match segment.index_of_first(']') {
        Some(close) => {
            let after = state.read_segment(colors, segment).spans;
            assert(after.drop_last() == state.spans);
        },
        None => {},
    }
}

/// The characters shown by the piece that begins at `start`, as far as they
/// stand before index `i`.
pub open spec fn shown_before(s: Seq<char>, start: int, i: int) -> nat {
    shown_len(s.subrange(start, i))
}

/// Whether index `i` still lies in the name of the piece that begins at
/// `start`: no `]` stands between them.
pub open spec fn in_name(s: Seq<char>, start: int, i: int) -> bool {
    !s.subrange(start, i).contains(']')
}

/// One more character of a piece: a `]` ends the name, a character after
/// the name is shown, and a character of the name is not.
proof fn lemma_shown_before_step(s: Seq<char>, start: int, i: int)
    requires
        0 <= start <= i < s.len(),
    ensures
        in_name(s, start, i + 1) == (in_name(s, start, i) && s[i] != ']'),
        in_name(s, start, i) ==> shown_before(s, start, i) == 0,
        shown_before(s, start, i + 1) == if in_name(s, start, i) {
            0
        } else {
            shown_before(s, start, i) + 1
        },
{
    let short = s.subrange(start, i);
    let long = s.subrange(start, i + 1);
    short.index_of_first_ensures(']');
    long.index_of_first_ensures(']');
    assert(long.drop_last() == short);
    assert(long.last() == s[i]);
    assert forall|j: int| 0 <= j < short.len() implies short[j] == long[j] by {}
    if short.contains(']') {
        let k = short.index_of_first(']').unwrap();
        assert(long[k] == ']');
        assert(long.contains(']'));
        let m = long.index_of_first(']').unwrap();
        if m < k {
            assert(short[m] == ']');
        }
        if k < m {
            assert(long[k] != ']');
        }
    } else if s[i] == ']' {
        assert(long[i - start] == ']');
        assert(long.contains(']'));
        let m = long.index_of_first(']').unwrap();
        if m < i - start {
            assert(short[m] == ']');
            assert(short.contains(']'));
        }
    } else {
        if long.contains(']') {
            let m = long.index_of_first(']').unwrap();
            assert(short[m] == ']');
            assert(short.contains(']'));
        }
    }
}

/// The characters in the spans after reading the pieces from `start` on,
/// scanned from `i` on: those of the spans read before, those that the
/// piece at `start` shows before `i`, and the plain characters from `i` on.
proof fn lemma_scan_length(
    state: Markup,
    colors: Map<Seq<char>, Rgba>,
    s: Seq<char>,
    start: int,
    i: int,
)
    requires
        0 <= start <= i <= s.len(),
    ensures
        visible_length(state.read_segments(colors, segments_from(s, start, i)).spans)
            == visible_length(state.spans) + shown_before(s, start, i) + plain_count(
            s,
            i,
            in_name(s, start, i),
        ),
    decreases s.len() - i,
{
    if i >= s.len() {
        let piece = s.subrange(start, s.len() as int);
        let pieces = seq![piece];
        assert(pieces[0] == piece);
        assert(pieces.drop_first() == Seq::<Seq<char>>::empty());
        let after = state.read_segment(colors, piece);
        assert(after.read_segments(colors, pieces.drop_first()) == after);
        lemma_read_segment_length(state, colors, piece);
    } else if opens_at(s, i) {
        let piece = s.subrange(start, i);
        let rest = segments_from(s, i + 2, i + 2);
        let pieces = seq![piece] + rest;
        assert(pieces[0] == piece);
        assert(pieces.drop_first() == rest);
        let after = state.read_segment(colors, piece);
        lemma_read_segment_length(state, colors, piece);
        lemma_scan_length(after, colors, s, i + 2, i + 2);
        let none = s.subrange(i + 2, i + 2);
        none.index_of_first_ensures(']');
        assert(!none.contains(']'));
    } else {
        lemma_scan_length(state, colors, s, start, i + 1);
        lemma_shown_before_step(s, start, i);
    }
}

/// The spans of well-formed markup hold as many characters as the markup
/// has outside its tokens.
pub proof fn lemma_spans_hold_plain_text(colors: Map<Seq<char>, Rgba>, text: Seq<char>)
    requires
        well_formed(text),
    ensures
        visible_length(parse(colors, text).spans) == plain_length(text),
{
    lemma_scan_length(Markup::start(), colors, text, 0, 0);
    let none = text.subrange(0, 0);
    none.index_of_first_ensures(']');
    assert(!none.contains(']'));
}

} // verus!
