//! Colors as plain 8-bit channel values, foreground/background pairs and
//! the table of named colors that markup refers to.

use vstd::hash_map::StringHashMap;
use vstd::prelude::*;

verus! {

/// A color with red, green, blue and alpha channels.
#[derive(Clone, Copy, Debug, PartialEq, Eq, Structural)]
pub struct Rgba {
    pub r: u8,
    pub g: u8,
    pub b: u8,
    pub a: u8,
}

impl Rgba {
    /// Opaque white, as a specification value.
    pub open spec fn spec_white() -> Rgba {
        Rgba { r: 255, g: 255, b: 255, a: 255 }
    }

    /// Opaque black, as a specification value.
    pub open spec fn spec_black() -> Rgba {
        Rgba { r: 0, g: 0, b: 0, a: 255 }
    }

    /// Opaque white: the default foreground.
    #[verifier::when_used_as_spec(spec_white)]
    pub fn white() -> (c: Rgba)
        ensures
            c == Rgba::spec_white(),
    {
        Rgba { r: 255, g: 255, b: 255, a: 255 }
    }

    /// Opaque black: the default background.
    #[verifier::when_used_as_spec(spec_black)]
    pub fn black() -> (c: Rgba)
        ensures
            c == Rgba::spec_black(),
    {
        Rgba { r: 0, g: 0, b: 0, a: 255 }
    }

    /// An opaque color from its red, green and blue channels.
    pub fn rgb(r: u8, g: u8, b: u8) -> (c: Rgba)
        ensures
            c == (Rgba { r, g, b, a: 255 }),
    {
        Rgba { r, g, b, a: 255 }
    }
}

/// A foreground color together with a background color.
#[derive(Clone, Copy, Debug, PartialEq, Eq, Structural)]
pub struct ColorPair {
    pub fg: Rgba,
    pub bg: Rgba,
}

impl ColorPair {
    pub fn new(fg: Rgba, bg: Rgba) -> (pair: ColorPair)
        ensures
            pair == (ColorPair { fg, bg }),
    {
        ColorPair { fg, bg }
    }
}

impl Default for ColorPair {
    /// White on black.
    fn default() -> (pair: ColorPair)
        ensures
            pair == (ColorPair { fg: Rgba::white(), bg: Rgba::black() }),
    {
        ColorPair::new(Rgba::white(), Rgba::black())
    }
}

/// The named colors that markup can refer to.
///
/// Its view is the map from a name's characters to the color registered
/// under that name.
pub struct Palette {
    colors: StringHashMap<Rgba>,
}

impl View for Palette {
    type V = Map<Seq<char>, Rgba>;

    closed spec fn view(&self) -> Map<Seq<char>, Rgba> {
        self.colors@
    }
}

impl Palette {
    /// A palette without any name.
    pub fn new() -> (palette: Palette)
        ensures
            palette@ == Map::<Seq<char>, Rgba>::empty(),
    {
        Palette { colors: StringHashMap::new() }
    }

    /// Registers `color` under `name`, replacing what the name stood for.
    pub fn register(&mut self, name: &str, color: Rgba)
        ensures
            final(self)@ == old(self)@.insert(name@, color),
    {
        self.colors.insert(name.to_owned(), color);
    }

    /// The color registered under `name`, if there is one.
    pub fn lookup(&self, name: &str) -> (found: Option<Rgba>)
        ensures
            found == Palette::spec_lookup(self@, name@),
    {
        match self.colors.get(name) {
            Some(color) => Some(*color),
            None => None,
        }
    }

    /// What `lookup` finds for `name` in a palette with the view `colors`.
    pub open spec fn spec_lookup(colors: Map<Seq<char>, Rgba>, name: Seq<char>) -> Option<Rgba> {
        if colors.contains_key(name) {
            Some(colors[name])
        } else {
            None
        }
    }
}

} // verus!
