//! The 5x7 panel font: one entry per character of `FONT_CHARS`, five columns
//! each, bit `r` of a column being row `r` (top row first).
use vstd::prelude::*;

verus! {

pub const FONT_N: usize = 50;

pub const FONT_CHARS: [char; 50] = [
    ' ', '!', '%', '\'', '+', ',', '-', '.', '/',
    '0', '1', '2', '3', '4', '5', '6', '7', '8', '9',
    ':', '<', '=', '>', '?',
    'A', 'B', 'C', 'D', 'E', 'F', 'G', 'H', 'I', 'J', 'K', 'L', 'M',
    'N', 'O', 'P', 'Q', 'R', 'S', 'T', 'U', 'V', 'W', 'X', 'Y', 'Z',
];

pub const FONT: [[u8; 5]; 50] = [
    [0x00, 0x00, 0x00, 0x00, 0x00], // ' '
    [0x00, 0x00, 0x5F, 0x00, 0x00], // '!'
    [0x23, 0x13, 0x08, 0x64, 0x62], // '%'
    [0x00, 0x05, 0x03, 0x00, 0x00], // '\''
    [0x08, 0x08, 0x3E, 0x08, 0x08], // '+'
    [0x00, 0x50, 0x30, 0x00, 0x00], // ','
    [0x08, 0x08, 0x08, 0x08, 0x08], // '-'
    [0x00, 0x60, 0x60, 0x00, 0x00], // '.'
    [0x20, 0x10, 0x08, 0x04, 0x02], // '/'
    [0x3E, 0x51, 0x49, 0x45, 0x3E], // '0'
    [0x00, 0x42, 0x7F, 0x40, 0x00], // '1'
    [0x72, 0x49, 0x49, 0x49, 0x46], // '2'
    [0x21, 0x41, 0x49, 0x4D, 0x33], // '3'
    [0x18, 0x14, 0x12, 0x7F, 0x10], // '4'
    [0x27, 0x45, 0x45, 0x45, 0x39], // '5'
    [0x3C, 0x4A, 0x49, 0x49, 0x31], // '6'
    [0x41, 0x21, 0x11, 0x09, 0x07], // '7'
    [0x36, 0x49, 0x49, 0x49, 0x36], // '8'
    [0x46, 0x49, 0x49, 0x29, 0x1E], // '9'
    [0x00, 0x00, 0x14, 0x00, 0x00], // ':'
    [0x00, 0x08, 0x14, 0x22, 0x41], // '<'
    [0x14, 0x14, 0x14, 0x14, 0x14], // '='
    [0x00, 0x41, 0x22, 0x14, 0x08], // '>'
    [0x02, 0x01, 0x59, 0x09, 0x06], // '?'
    [0x7C, 0x12, 0x11, 0x12, 0x7C], // 'A'
    [0x7F, 0x49, 0x49, 0x49, 0x36], // 'B'
    [0x3E, 0x41, 0x41, 0x41, 0x22], // 'C'
    [0x7F, 0x41, 0x41, 0x41, 0x3E], // 'D'
    [0x7F, 0x49, 0x49, 0x49, 0x41], // 'E'
    [0x7F, 0x09, 0x09, 0x09, 0x01], // 'F'
    [0x3E, 0x41, 0x41, 0x51, 0x73], // 'G'
    [0x7F, 0x08, 0x08, 0x08, 0x7F], // 'H'
    [0x00, 0x41, 0x7F, 0x41, 0x00], // 'I'
    [0x20, 0x40, 0x41, 0x3F, 0x01], // 'J'
    [0x7F, 0x08, 0x14, 0x22, 0x41], // 'K'
    [0x7F, 0x40, 0x40, 0x40, 0x40], // 'L'
    [0x7F, 0x02, 0x1C, 0x02, 0x7F], // 'M'
    [0x7F, 0x04, 0x08, 0x10, 0x7F], // 'N'
    [0x3E, 0x41, 0x41, 0x41, 0x3E], // 'O'
    [0x7F, 0x09, 0x09, 0x09, 0x06], // 'P'
    [0x3E, 0x41, 0x51, 0x21, 0x5E], // 'Q'
    [0x7F, 0x09, 0x19, 0x29, 0x46], // 'R'
    [0x26, 0x49, 0x49, 0x49, 0x32], // 'S'
    [0x03, 0x01, 0x7F, 0x01, 0x03], // 'T'
    [0x3F, 0x40, 0x40, 0x40, 0x3F], // 'U'
    [0x1F, 0x20, 0x40, 0x20, 0x1F], // 'V'
    [0x3F, 0x40, 0x38, 0x40, 0x3F], // 'W'
    [0x63, 0x14, 0x08, 0x14, 0x63], // 'X'
    [0x03, 0x04, 0x78, 0x04, 0x03], // 'Y'
    [0x61, 0x59, 0x49, 0x4D, 0x43], // 'Z'
];

/// The code of `c` with ASCII lower case letters taken to upper case.
pub open spec fn upper_code(c: u32) -> u32 {
    if 97 <= c <= 122 { (c - 32) as u32 } else { c }
}

/// The first position at or after `i` of the font character whose code is `code`.
pub open spec fn font_index_from(code: u32, i: int) -> Option<int>
    decreases 50 - i,
{
    if i < 0 || i >= 50 {
        None
    } else if FONT_CHARS@[i] as u32 == code {
        Some(i)
    } else {
        font_index_from(code, i + 1)
    }
}

/// The font entry that draws `ch`, lower case letters taken as upper case.
pub open spec fn font_index(ch: char) -> Option<int> {
    font_index_from(upper_code(ch as u32), 0)
}

/// The font entry of `ch`, as `font_index` states it.
pub(crate) fn find_glyph(ch: char) -> (r: Option<usize>)
    ensures
        r matches Some(i) ==> font_index(ch) == Some(i as int) && i < 50,
        r is None ==> font_index(ch) is None,
{
    let c = ch as u32;
    let up = if 97 <= c && c <= 122 { c - 32 } else { c };
    let mut i: usize = 0;
    while i < FONT_N
        invariant
            i <= 50,
            up == upper_code(ch as u32),
            font_index(ch) == font_index_from(up, i as int),
        decreases 50 - i,
    {
        if FONT_CHARS[i] as u32 == up {
            return Some(i);
        }
        i += 1;
    }
    None
}

} // verus!
