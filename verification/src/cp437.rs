//! Code page 437: the character codes of the terminal fonts.

use vstd::prelude::*;

verus! {

/// The code of one cell of a font sheet.
pub type FontCharType = u16;

/// The code page 437 code of a character. Printable ASCII keeps its code,
/// the symbols of the code page have the codes 1 to 31 and 127 to 254, and
/// every other character has the code 0.
pub open spec fn glyph_of(c: char) -> u16 {
    if 32 <= c as u32 && c as u32 <= 126 {
        c as u16
    } else {
        match c {
            '☺' => 1, '☻' => 2, '♥' => 3, '♦' => 4, '♣' => 5, '♠' => 6, '•' => 7, '◘' => 8,
            '○' => 9, '◙' => 10, '♂' => 11, '♀' => 12, '♪' => 13, '♫' => 14, '☼' => 15, '►' => 16,
            '◄' => 17, '↕' => 18, '‼' => 19, '¶' => 20, '§' => 21, '▬' => 22, '↨' => 23, '↑' => 24,
            '↓' => 25, '→' => 26, '←' => 27, '∟' => 28, '↔' => 29, '▲' => 30, '▼' => 31, '⌂' => 127,
            'Ç' => 128, 'ü' => 129, 'é' => 130, 'â' => 131, 'ä' => 132, 'à' => 133, 'å' => 134, 'ç' => 135,
            'ê' => 136, 'ë' => 137, 'è' => 138, 'ï' => 139, 'î' => 140, 'ì' => 141, 'Ä' => 142, 'Å' => 143,
            'É' => 144, 'æ' => 145, 'Æ' => 146, 'ô' => 147, 'ö' => 148, 'ò' => 149, 'û' => 150, 'ù' => 151,
            'ÿ' => 152, 'Ö' => 153, 'Ü' => 154, '¢' => 155, '£' => 156, '¥' => 157, '₧' => 158, 'ƒ' => 159,
            'á' => 160, 'í' => 161, 'ó' => 162, 'ú' => 163, 'ñ' => 164, 'Ñ' => 165, 'ª' => 166, 'º' => 167,
            '¿' => 168, '⌐' => 169, '¬' => 170, '½' => 171, '¼' => 172, '¡' => 173, '«' => 174, '»' => 175,
            '░' => 176, '▒' => 177, '▓' => 178, '│' => 179, '┤' => 180, '╡' => 181, '╢' => 182, '╖' => 183,
            '╕' => 184, '╣' => 185, '║' => 186, '╗' => 187, '╝' => 188, '╜' => 189, '╛' => 190, '┐' => 191,
            '└' => 192, '┴' => 193, '┬' => 194, '├' => 195, '─' => 196, '┼' => 197, '╞' => 198, '╟' => 199,
            '╚' => 200, '╔' => 201, '╩' => 202, '╦' => 203, '╠' => 204, '═' => 205, '╬' => 206, '╧' => 207,
            '╨' => 208, '╤' => 209, '╥' => 210, '╙' => 211, '╘' => 212, '╒' => 213, '╓' => 214, '╫' => 215,
            '╪' => 216, '┘' => 217, '┌' => 218, '█' => 219, '▄' => 220, '▌' => 221, '▐' => 222, '▀' => 223,
            'α' => 224, 'ß' => 225, 'Γ' => 226, 'π' => 227, 'Σ' => 228, 'σ' => 229, 'µ' => 230, 'τ' => 231,
            'Φ' => 232, 'Θ' => 233, 'Ω' => 234, 'δ' => 235, '∞' => 236, 'φ' => 237, 'ε' => 238, '∩' => 239,
            '≡' => 240, '±' => 241, '≥' => 242, '≤' => 243, '⌠' => 244, '⌡' => 245, '÷' => 246, '≈' => 247,
            '°' => 248, '∙' => 249, '·' => 250, '√' => 251, 'ⁿ' => 252, '²' => 253, '■' => 254,
            _ => 0,
        }
    }
}

/// The codes of the characters of `s`, in order.
pub open spec fn encode(s: Seq<char>) -> Seq<u16> {
    s.map_values(|c: char| glyph_of(c))
}

/// The code page 437 code of `c`.
pub fn to_cp437(c: char) -> (code: FontCharType)
    ensures
        code == glyph_of(c),
        code <= 254,
{
    if 32 <= c as u32 && c as u32 <= 126 {
        c as u16
    } else {
        match c {
            '☺' => 1, '☻' => 2, '♥' => 3, '♦' => 4, '♣' => 5, '♠' => 6, '•' => 7, '◘' => 8,
            '○' => 9, '◙' => 10, '♂' => 11, '♀' => 12, '♪' => 13, '♫' => 14, '☼' => 15, '►' => 16,
            '◄' => 17, '↕' => 18, '‼' => 19, '¶' => 20, '§' => 21, '▬' => 22, '↨' => 23, '↑' => 24,
            '↓' => 25, '→' => 26, '←' => 27, '∟' => 28, '↔' => 29, '▲' => 30, '▼' => 31, '⌂' => 127,
            'Ç' => 128, 'ü' => 129, 'é' => 130, 'â' => 131, 'ä' => 132, 'à' => 133, 'å' => 134, 'ç' => 135,
            'ê' => 136, 'ë' => 137, 'è' => 138, 'ï' => 139, 'î' => 140, 'ì' => 141, 'Ä' => 142, 'Å' => 143,
            'É' => 144, 'æ' => 145, 'Æ' => 146, 'ô' => 147, 'ö' => 148, 'ò' => 149, 'û' => 150, 'ù' => 151,
            'ÿ' => 152, 'Ö' => 153, 'Ü' => 154, '¢' => 155, '£' => 156, '¥' => 157, '₧' => 158, 'ƒ' => 159,
            'á' => 160, 'í' => 161, 'ó' => 162, 'ú' => 163, 'ñ' => 164, 'Ñ' => 165, 'ª' => 166, 'º' => 167,
            '¿' => 168, '⌐' => 169, '¬' => 170, '½' => 171, '¼' => 172, '¡' => 173, '«' => 174, '»' => 175,
            '░' => 176, '▒' => 177, '▓' => 178, '│' => 179, '┤' => 180, '╡' => 181, '╢' => 182, '╖' => 183,
            '╕' => 184, '╣' => 185, '║' => 186, '╗' => 187, '╝' => 188, '╜' => 189, '╛' => 190, '┐' => 191,
            '└' => 192, '┴' => 193, '┬' => 194, '├' => 195, '─' => 196, '┼' => 197, '╞' => 198, '╟' => 199,
            '╚' => 200, '╔' => 201, '╩' => 202, '╦' => 203, '╠' => 204, '═' => 205, '╬' => 206, '╧' => 207,
            '╨' => 208, '╤' => 209, '╥' => 210, '╙' => 211, '╘' => 212, '╒' => 213, '╓' => 214, '╫' => 215,
            '╪' => 216, '┘' => 217, '┌' => 218, '█' => 219, '▄' => 220, '▌' => 221, '▐' => 222, '▀' => 223,
            'α' => 224, 'ß' => 225, 'Γ' => 226, 'π' => 227, 'Σ' => 228, 'σ' => 229, 'µ' => 230, 'τ' => 231,
            'Φ' => 232, 'Θ' => 233, 'Ω' => 234, 'δ' => 235, '∞' => 236, 'φ' => 237, 'ε' => 238, '∩' => 239,
            '≡' => 240, '±' => 241, '≥' => 242, '≤' => 243, '⌠' => 244, '⌡' => 245, '÷' => 246, '≈' => 247,
            '°' => 248, '∙' => 249, '·' => 250, '√' => 251, 'ⁿ' => 252, '²' => 253, '■' => 254,
            _ => 0,
        }
    }
}

/// The code page 437 codes of the characters of `input`, in order.
pub fn string_to_cp437(input: &str) -> (codes: Vec<FontCharType>)
    ensures
        codes@ == encode(input@),
{
    let mut codes: Vec<FontCharType> = Vec::new();
    for c in it: input.chars()
        invariant
            codes@ == encode(it.seq().take(it.index() as int)),
    {
        proof {
            let done = it.seq().take(it.index() as int);
            let next = it.seq().take(it.index() as int + 1);
            assert(next == done.push(c));
            assert(encode(next) == encode(done).push(glyph_of(c)));
        }
        codes.push(to_cp437(c));
    }
    codes
}

} // verus!
