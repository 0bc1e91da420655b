//! A small bitmap font and strings of its glyphs.

use vstd::prelude::*;
use vstd::string::StringSliceAdditionalSpecFns;

verus! {

/// A glyph: `LETTER_HEIGHT` rows of `LETTER_WIDTH` cells from the top, one
/// byte per cell, 1 where the cell is drawn.
pub type Letter = [u8; 35];

/// The number of rows of a glyph.
pub const LETTER_HEIGHT: usize = 7;

/// The number of cells in a row of a glyph.
pub const LETTER_WIDTH: usize = 5;

/// The letter A.
pub const A: Letter = [
    0, 0, 1, 0, 0,
    0, 1, 0, 1, 0,
    0, 1, 0, 1, 0,
    1, 0, 0, 0, 1,
    1, 1, 1, 1, 1,
    1, 0, 0, 0, 1,
    0, 0, 0, 0, 0,
];

/// The letter B.
pub const B: Letter = [
    1, 1, 1, 0, 0,
    1, 0, 0, 1, 0,
    1, 0, 0, 1, 0,
    1, 1, 1, 0, 0,
    1, 0, 0, 1, 0,
    1, 0, 0, 1, 0,
    1, 1, 1, 0, 0,
];

/// The letter C.
pub const C: Letter = [
    0, 1, 1, 1, 0,
    1, 0, 0, 0, 1,
    1, 0, 0, 0, 0,
    1, 0, 0, 0, 0,
    1, 0, 0, 0, 0,
    1, 0, 0, 0, 1,
    0, 1, 1, 1, 0,
];

/// The letter D.
pub const D: Letter = [
    1, 1, 1, 0, 0,
    1, 0, 0, 1, 0,
    1, 0, 0, 0, 1,
    1, 0, 0, 0, 1,
    1, 0, 0, 0, 1,
    1, 0, 0, 1, 0,
    1, 1, 1, 0, 0,
];

/// The letter E.
pub const E: Letter = [
    1, 1, 1, 1, 1,
    1, 0, 0, 0, 0,
    1, 0, 0, 0, 0,
    1, 1, 1, 1, 0,
    1, 0, 0, 0, 0,
    1, 0, 0, 0, 0,
    1, 1, 1, 1, 1,
];

/// The letter G.
pub const G: Letter = [
    0, 1, 1, 1, 0,
    1, 0, 0, 0, 1,
    1, 0, 0, 0, 0,
    1, 0, 1, 1, 1,
    1, 0, 0, 0, 1,
    1, 0, 0, 0, 1,
    0, 1, 1, 1, 0,
];

/// The letter H.
pub const H: Letter = [
    1, 0, 0, 0, 1,
    1, 0, 0, 0, 1,
    1, 0, 0, 0, 1,
    1, 1, 1, 1, 1,
    1, 0, 0, 0, 1,
    1, 0, 0, 0, 1,
    1, 0, 0, 0, 1,
];

/// The letter L.
pub const L: Letter = [
    1, 0, 0, 0, 0,
    1, 0, 0, 0, 0,
    1, 0, 0, 0, 0,
    1, 0, 0, 0, 0,
    1, 0, 0, 0, 0,
    1, 0, 0, 0, 0,
    1, 1, 1, 1, 1,
];

/// The letter M.
pub const M: Letter = [
    1, 0, 0, 0, 1,
    1, 1, 0, 1, 1,
    1, 0, 1, 0, 1,
    1, 0, 1, 0, 1,
    1, 0, 0, 0, 1,
    1, 0, 0, 0, 1,
    1, 0, 0, 0, 1,
];

/// The letter N.
pub const N: Letter = [
    1, 0, 0, 0, 1,
    1, 1, 0, 0, 1,
    1, 0, 1, 0, 1,
    1, 0, 1, 0, 1,
    1, 0, 0, 1, 1,
    1, 0, 0, 0, 1,
    1, 0, 0, 0, 1,
];

/// The letter U.
pub const U: Letter = [
    1, 0, 0, 0, 1,
    1, 0, 0, 0, 1,
    1, 0, 0, 0, 1,
    1, 0, 0, 0, 1,
    1, 0, 0, 0, 1,
    1, 0, 0, 0, 1,
    0, 1, 1, 1, 0,
];

/// A blank cell.
pub const SPACE: Letter = [
    0, 0, 0, 0, 0,
    0, 0, 0, 0, 0,
    0, 0, 0, 0, 0,
    0, 0, 0, 0, 0,
    0, 0, 0, 0, 0,
    0, 0, 0, 0, 0,
    0, 0, 0, 0, 0,
];

/// The box drawn for a character that has no glyph.
pub const UNKNOWN: Letter = [
    1, 1, 1, 1, 1,
    1, 0, 0, 0, 1,
    1, 0, 0, 0, 1,
    1, 0, 0, 0, 1,
    1, 0, 0, 0, 1,
    1, 0, 0, 0, 1,
    1, 1, 1, 1, 1,
];

/// A string of glyphs.
pub struct LetterString {
    pub letters: Vec<Letter>,
}

/// Whether a byte of UTF-8 text begins a character.
pub open spec fn starts_char(b: u8) -> bool {
    b < 0x80 || b >= 0xC0
}

/// The glyph for the character that begins with byte `b`: letters in either
/// case, the space, and the box for everything else.
pub open spec fn glyph_of(b: u8) -> Letter {
    if b == 0x61 || b == 0x41 {
        A
    } else if b == 0x62 || b == 0x42 {
        B
    } else if b == 0x63 || b == 0x43 {
        C
    } else if b == 0x64 || b == 0x44 {
        D
    } else if b == 0x65 || b == 0x45 {
        E
    } else if b == 0x67 || b == 0x47 {
        G
    } else if b == 0x68 || b == 0x48 {
        H
    } else if b == 0x6C || b == 0x4C {
        L
    } else if b == 0x6D || b == 0x4D {
        M
    } else if b == 0x6E || b == 0x4E {
        N
    } else if b == 0x75 || b == 0x55 {
        U
    } else if b == 0x20 {
        SPACE
    } else {
        UNKNOWN
    }
}

/// The glyphs of UTF-8 text: one for each character, in order.
pub open spec fn glyphs_of(text: Seq<u8>) -> Seq<Letter>
    decreases text.len(),
{
    if text.len() == 0 {
        Seq::<Letter>::empty()
    } else if starts_char(text.last()) {
        glyphs_of(text.drop_last()).push(glyph_of(text.last()))
    } else {
        glyphs_of(text.drop_last())
    }
}

fn glyph(b: u8) -> (letter: Letter)
    ensures
        letter == glyph_of(b),
{
    if b == 0x61 || b == 0x41 {
        A
    } else if b == 0x62 || b == 0x42 {
        B
    } else if b == 0x63 || b == 0x43 {
        C
    } else if b == 0x64 || b == 0x44 {
        D
    } else if b == 0x65 || b == 0x45 {
        E
    } else if b == 0x67 || b == 0x47 {
        G
    } else if b == 0x68 || b == 0x48 {
        H
    } else if b == 0x6C || b == 0x4C {
        L
    } else if b == 0x6D || b == 0x4D {
        M
    } else if b == 0x6E || b == 0x4E {
        N
    } else if b == 0x75 || b == 0x55 {
        U
    } else if b == 0x20 {
        SPACE
    } else {
        UNKNOWN
    }
}

impl LetterString {
    /// The glyphs of `string`, one for each of its characters.
    pub fn from_text(string: &str) -> (s: LetterString)
        ensures
            s.letters@ == glyphs_of(string.spec_bytes()),
    {
        let bytes: &[u8] = string.as_bytes();
        let mut letters: Vec<Letter> = Vec::new();
        let n: usize = bytes.len();
        let mut i: usize = 0;
        while i < n
            invariant
                0 <= i <= n == bytes@.len(),
                letters@ == glyphs_of(bytes@.subrange(0, i as int)),
            decreases n - i,
        {
            let b: u8 = bytes[i];
            proof {
                let next = bytes@.subrange(0, i + 1);
                assert(next.drop_last() =~= bytes@.subrange(0, i as int));
                assert(next.last() == b);
            }
            if b < 0x80 || b >= 0xC0 {
                letters.push(glyph(b));
            }
            i += 1;
        }
        assert(bytes@.subrange(0, n as int) =~= bytes@);
        LetterString { letters }
    }

    /// The number of glyphs.
    pub fn len(&self) -> (n: usize)
        ensures
            n == self.letters@.len(),
    {
        self.letters.len()
    }

    /// The glyphs, in order.
    pub fn iter(&self) -> (it: std::slice::Iter<'_, Letter>)
        ensures
            vstd::std_specs::slice::into_iter_elts(it) == self.letters@,
    {
        broadcast use vstd::std_specs::slice::axiom_spec_slice_iter;

        let it = self.letters.as_slice().iter();
        assert(vstd::std_specs::slice::into_iter_elts(it) =~= self.letters@);
        it
    }
}

} // verus!
