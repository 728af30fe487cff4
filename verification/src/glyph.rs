//! The cell of a character grid.

use crate::color::Rgba;
use vstd::prelude::*;

verus! {

/// One cell: a character code with its foreground and background color.
#[derive(Clone, Copy, Debug, PartialEq, Eq, Structural)]
pub struct TerminalGlyph {
    pub glyph: u16,
    pub foreground: Rgba,
    pub background: Rgba,
}

impl TerminalGlyph {
    /// The cell a block is filled with before anything is printed: code 0,
    /// white on black.
    pub open spec fn blank() -> TerminalGlyph {
        TerminalGlyph { glyph: 0, foreground: Rgba::white(), background: Rgba::black() }
    }
}

impl Default for TerminalGlyph {
    /// A space, white on black.
    fn default() -> (cell: TerminalGlyph)
        ensures
            cell == (TerminalGlyph {
                glyph: 32,
                foreground: Rgba::white(),
                background: Rgba::black(),
            }),
    {
        TerminalGlyph { glyph: 32, foreground: Rgba::white(), background: Rgba::black() }
    }
}

} // verus!
