//! Colours with an optional alpha channel, and their textual form.

use vstd::prelude::*;
use vstd::string::{StrSliceExecFns, StringSliceAdditionalSpecFns};

verus! {

/// An RGB colour with an optional alpha channel.
///
/// A colour without alpha, or with alpha zero, is transparent: pixels of such a
/// colour are never transmitted.
#[derive(Clone, Copy, Debug, PartialEq, Eq, PartialOrd, Ord, Structural)]
pub struct Color {
    pub r: u8,
    pub g: u8,
    pub b: u8,
    pub a: Option<u8>,
}

/// Why a textual colour was rejected.
#[derive(Clone, Copy, Debug, PartialEq, Eq, Structural)]
pub enum ColorParseError {
    /// The text is neither six nor eight bytes long.
    Length,
    /// The text holds this byte, which is no hexadecimal digit.
    Digit(u8),
}

/// The value of a hexadecimal digit given as an ASCII byte, in either case.
pub open spec fn hex_value(c: u8) -> Option<u8> {
    if 48 <= c <= 57 {
        Some((c - 48) as u8)
    } else if 97 <= c <= 102 {
        Some((c - 87) as u8)
    } else if 65 <= c <= 70 {
        Some((c - 55) as u8)
    } else {
        None
    }
}

/// Whether every byte of `s` is a hexadecimal digit.
pub open spec fn all_hex(s: Seq<u8>) -> bool {
    forall|i: int| 0 <= i < s.len() ==> (#[trigger] hex_value(s[i])) is Some
}

/// The channel value written as the digit pair at `i` and `i + 1`: the first
/// digit of a pair counts units, the second counts sixteens.
pub open spec fn channel_at(s: Seq<u8>, i: int) -> u8 {
    (hex_value(s[i]).unwrap() + 16 * hex_value(s[i + 1]).unwrap()) as u8
}

/// The colour that a string of six or eight hexadecimal digits denotes.
/// Six digits give an opaque colour.
pub open spec fn parsed_color(s: Seq<u8>) -> Color {
    Color {
        r: channel_at(s, 0),
        g: channel_at(s, 2),
        b: channel_at(s, 4),
        a: if s.len() == 8 {
            Some(channel_at(s, 6))
        } else {
            Some(0xFFu8)
        },
    }
}

/// The lower-case hexadecimal digit for a value below sixteen, as an ASCII
/// byte.
pub open spec fn hex_digit_lower(d: int) -> u8 {
    if d < 10 {
        (48 + d) as u8
    } else {
        (87 + d) as u8
    }
}

/// A byte as two lower-case hexadecimal digits, high digit first.
pub open spec fn lower_hex_pair(b: u8) -> Seq<u8> {
    seq![hex_digit_lower(b as int / 16), hex_digit_lower(b as int % 16)]
}

/// A colour in lower-case hexadecimal: red, green and blue, and the alpha
/// where there is one.
pub open spec fn lower_hex_text(c: Color) -> Seq<u8> {
    lower_hex_pair(c.r) + lower_hex_pair(c.g) + lower_hex_pair(c.b) + match c.a {
        Some(alpha) => lower_hex_pair(alpha),
        None => Seq::<u8>::empty(),
    }
}

/// Whether the text is the single letter `r`, which asks for a random colour.
pub open spec fn asks_random(s: Seq<u8>) -> bool {
    s.len() == 1 && s[0] == 114
}

/// The colour whose channels, alpha included, are the low bytes of four
/// words.
pub open spec fn color_of_words(r: u32, g: u32, b: u32, a: u32) -> Color {
    Color {
        r: (r % 256) as u8,
        g: (g % 256) as u8,
        b: (b % 256) as u8,
        a: Some((a % 256) as u8),
    }
}

/// Draws 32 random bits from the thread-local generator of `rand`
/// (`rand::thread_rng` and `RngCore::next_u32`). Nothing is claimed of the
/// value.
#[verifier::external_body]
fn random_u32() -> (n: u32) {
    rand::RngCore::next_u32(&mut rand::thread_rng())
}

fn low_byte(n: u32) -> (b: u8)
    ensures
        b == n % 256,
{
    (n % 256) as u8
}

fn hex_digit(c: u8) -> (v: Option<u8>)
    ensures
        v == hex_value(c),
{
    if 48 <= c && c <= 57 {
        Some(c - 48)
    } else if 97 <= c && c <= 102 {
        Some(c - 87)
    } else if 65 <= c && c <= 70 {
        Some(c - 55)
    } else {
        None
    }
}

fn lower_hex_digit(d: u8) -> (c: u8)
    requires
        d < 16,
    ensures
        c == hex_digit_lower(d as int),
{
    if d < 10 {
        48 + d
    } else {
        87 + d
    }
}

fn push_lower_hex_pair(out: &mut Vec<u8>, b: u8)
    ensures
        final(out)@ == old(out)@ + lower_hex_pair(b),
{
    out.push(lower_hex_digit(b / 16));
    out.push(lower_hex_digit(b % 16));
    assert(final(out)@ =~= old(out)@ + lower_hex_pair(b));
}

impl Default for Color {
    /// Opaque black.
    fn default() -> (c: Color)
        ensures
            c == (Color { r: 0, g: 0, b: 0, a: Some(0xFFu8) }),
    {
        Color { r: 0, g: 0, b: 0, a: Some(0xFF) }
    }
}

impl Color {
    /// Whether a pixel of this colour is drawn at all: it has an alpha
    /// channel and the alpha is not zero.
    pub open spec fn visible(self) -> bool {
        self.a matches Some(alpha) && alpha != 0
    }

    /// The alpha byte that goes on the wire: a missing alpha counts as opaque.
    pub open spec fn wire_alpha(self) -> u8 {
        match self.a {
            Some(alpha) => alpha,
            None => 0xFFu8,
        }
    }

    /// The position of this colour in the order that frames are sorted by:
    /// red first, then green, blue and alpha, a missing alpha before any value.
    pub open spec fn rank(self) -> int {
        ((self.r * 256 + self.g) * 256 + self.b) * 257 + match self.a {
            Some(alpha) => alpha + 1,
            None => 0int,
        }
    }

    /// A colour from its four channels.
    pub fn from_rgba(r: u8, g: u8, b: u8, a: Option<u8>) -> (c: Color)
        ensures
            c == (Color { r, g, b, a }),
    {
        Color { r, g, b, a }
    }

    /// Executable form of [`Color::visible`].
    pub fn is_visible(&self) -> (v: bool)
        ensures
            v == self.visible(),
    {
        match self.a {
            Some(alpha) => alpha != 0,
            None => false,
        }
    }

    /// Executable form of [`Color::wire_alpha`].
    pub fn alpha_or_opaque(&self) -> (alpha: u8)
        ensures
            alpha == self.wire_alpha(),
    {
        match self.a {
            Some(alpha) => alpha,
            None => 0xFF,
        }
    }

    /// Executable form of [`Color::rank`].
    pub fn sort_key(&self) -> (k: u64)
        ensures
            k == self.rank(),
    {
        let r: u64 = self.r as u64;
        let g: u64 = self.g as u64;
        let b: u64 = self.b as u64;
        let alpha: u64 = match self.a {
            Some(alpha) => alpha as u64 + 1,
            None => 0,
        };
        ((r * 256 + g) * 256 + b) * 257 + alpha
    }

    /// The colour in lower-case hexadecimal, as ASCII bytes: six digits, or
    /// eight where the colour has an alpha channel.
    pub fn lower_hex(&self) -> (text: Vec<u8>)
        ensures
            text@ == lower_hex_text(*self),
    {
        let mut text: Vec<u8> = Vec::new();
        push_lower_hex_pair(&mut text, self.r);
        push_lower_hex_pair(&mut text, self.g);
        push_lower_hex_pair(&mut text, self.b);
        match self.a {
            Some(alpha) => {
                push_lower_hex_pair(&mut text, alpha);
            },
            None => {
                assert(text@ =~= lower_hex_text(*self));
            },
        }
        text
    }

    /// The colour whose channels, alpha included, are the low bytes of four
    /// words.
    pub fn from_words(r: u32, g: u32, b: u32, a: u32) -> (c: Color)
        ensures
            c == color_of_words(r, g, b, a),
    {
        Color { r: low_byte(r), g: low_byte(g), b: low_byte(b), a: Some(low_byte(a)) }
    }

    /// A colour with every channel, alpha included, drawn at random: four
    /// random words, turned into a colour by [`Color::from_words`].
    pub fn random() -> (c: Color)
        ensures
            c.a is Some,
    {
        let r: u32 = random_u32();
        let g: u32 = random_u32();
        let b: u32 = random_u32();
        let a: u32 = random_u32();
        Color::from_words(r, g, b, a)
    }

    /// Reads a colour written as six or eight hexadecimal digits.
    ///
    /// Text of another length is rejected first; otherwise the first byte that
    /// is no hexadecimal digit is reported.
    pub fn parse_hex(s: &[u8]) -> (res: Result<Color, ColorParseError>)
        ensures
            res is Ok <==> (s@.len() == 6 || s@.len() == 8) && all_hex(s@),
            res matches Ok(c) ==> c == parsed_color(s@),
            res == Err::<Color, ColorParseError>(ColorParseError::Length) <==> s@.len() != 6
                && s@.len() != 8,
            res matches Err(ColorParseError::Digit(d)) ==> exists|i: int|
                0 <= i < s@.len() && s@[i] == d && hex_value(d) is None && all_hex(
                    s@.subrange(0, i),
                ),
    {
        let len: usize = s.len();
        if len != 6 && len != 8 {
            return Err(ColorParseError::Length);
        }
        let mut digits: Vec<u8> = Vec::new();
        let mut i: usize = 0;
        while i < len
            invariant
                len == s@.len(),
                len == 6 || len == 8,
                0 <= i <= len,
                digits@.len() == i,
                forall|j: int| 0 <= j < i ==> hex_value(s@[j]) == Some(#[trigger] digits@[j]),
            decreases len - i,
        {
            match hex_digit(s[i]) {
                Some(v) => digits.push(v),
                None => {
                    proof {
                        assert(all_hex(s@.subrange(0, i as int))) by {
                            assert forall|j: int| 0 <= j < i implies (#[trigger] hex_value(
                                s@.subrange(0, i as int)[j],
                            )) is Some by {
                                assert(hex_value(s@[j]) == Some(digits@[j]));
                            }
                        }
                        assert(!all_hex(s@));
                    }
                    return Err(ColorParseError::Digit(s[i]));
                },
            }
            i += 1;
        }
        proof {
            assert(all_hex(s@)) by {
                assert forall|j: int| 0 <= j < s@.len() implies (#[trigger] hex_value(
                    s@[j],
                )) is Some by {
                    assert(hex_value(s@[j]) == Some(digits@[j]));
                }
            }
            assert forall|j: int| 0 <= j < len implies digits@[j] < 16 by {
                assert(hex_value(s@[j]) == Some(digits@[j]));
            }
        }
        let r: u8 = digits[0] + digits[1] * 16;
        let g: u8 = digits[2] + digits[3] * 16;
        let b: u8 = digits[4] + digits[5] * 16;
        let a: u8 = if len == 8 {
            digits[6] + digits[7] * 16
        } else {
            0xFF
        };
        proof {
            assert(hex_value(s@[0]) == Some(digits@[0]));
            assert(hex_value(s@[1]) == Some(digits@[1]));
            assert(hex_value(s@[2]) == Some(digits@[2]));
            assert(hex_value(s@[3]) == Some(digits@[3]));
            assert(hex_value(s@[4]) == Some(digits@[4]));
            assert(hex_value(s@[5]) == Some(digits@[5]));
            if len == 8 {
                assert(hex_value(s@[6]) == Some(digits@[6]));
                assert(hex_value(s@[7]) == Some(digits@[7]));
            }
        }
        Ok(Color { r, g, b, a: Some(a) })
    }
}

impl ColorParseError {
    /// A short description of the error.
    pub fn message(&self) -> (m: &'static str)
        ensures
            m@ == match *self {
                ColorParseError::Length => "Color must be 6 or 8 characters in length"@,
                ColorParseError::Digit(_) => "Invalid hex digit"@,
            },
    {
        match self {
            ColorParseError::Length => "Color must be 6 or 8 characters in length",
            ColorParseError::Digit(_) => "Invalid hex digit",
        }
    }
}

/// Whether a character is a hexadecimal digit, in either case.
pub open spec fn is_hex_char(c: char) -> bool {
    ('0' <= c <= '9') || ('a' <= c <= 'f') || ('A' <= c <= 'F')
}

/// The first character of `s` that is no hexadecimal digit, if there is one.
pub open spec fn first_bad_char(s: Seq<char>) -> Option<char>
    decreases s.len(),
{
    if s.len() == 0 {
        None
    } else if !is_hex_char(s[0]) {
        Some(s[0])
    } else {
        first_bad_char(s.skip(1))
    }
}

/// The message for text that holds the character `c`, which is no
/// hexadecimal digit.
pub open spec fn bad_digit_text(c: char) -> Seq<char> {
    "Invalid hex digit "@.push(c)
}

/// Joins a text and a character with `format!`, which writes each of them by
/// its `Display` form: the text as it is, then the character.
#[verifier::external_body]
fn text_with_char(text: &str, c: char) -> (joined: String)
    ensures
        joined@ == text@.push(c),
{
    format!("{}{}", text, c)
}

fn hex_char(c: char) -> (b: bool)
    ensures
        b == is_hex_char(c),
{
    ('0' <= c && c <= '9') || ('a' <= c && c <= 'f') || ('A' <= c && c <= 'F')
}

fn first_non_hex(s: &str) -> (found: Option<char>)
    ensures
        found == first_bad_char(s@),
{
    let n: usize = s.unicode_len();
    let mut i: usize = 0;
    assert(s@.skip(0) =~= s@);
    while i < n
        invariant
            0 <= i <= n == s@.len(),
            first_bad_char(s@) == first_bad_char(s@.skip(i as int)),
        decreases n - i,
    {
        let c: char = s.get_char(i);
        proof {
            assert(s@.skip(i as int)[0] == c);
            assert(s@.skip(i as int).skip(1) =~= s@.skip(i + 1));
        }
        if !hex_char(c) {
            return Some(c);
        }
        i += 1;
    }
    assert(s@.skip(n as int).len() == 0);
    None
}

proof fn lemma_no_bad_char(s: Seq<char>)
    requires
        first_bad_char(s) is None,
    ensures
        forall|i: int| 0 <= i < s.len() ==> is_hex_char(#[trigger] s[i]),
    decreases s.len(),
{
    if s.len() > 0 {
        lemma_no_bad_char(s.skip(1));
        assert forall|i: int| 0 <= i < s.len() implies is_hex_char(#[trigger] s[i]) by {
            if i > 0 {
                assert(s.skip(1)[i - 1] == s[i]);
            }
        }
    }
}

proof fn lemma_hex_chars_are_hex_bytes(s: &str)
    requires
        first_bad_char(s@) is None,
    ensures
        all_hex(s.spec_bytes()),
{
    lemma_no_bad_char(s@);
    assert(vstd::utf8::is_ascii_chars(s@)) by {
        assert forall|i: int| 0 <= i < s@.len() implies '\0' <= #[trigger] s@[i] <= '\u{7f}' by {
            assert(is_hex_char(s@[i]));
        }
    }
    vstd::utf8::is_ascii_chars_encode_utf8(s@);
    let bytes = s.spec_bytes();
    assert forall|i: int| 0 <= i < bytes.len() implies (#[trigger] hex_value(bytes[i])) is Some by {
        assert(is_hex_char(s@[i]));
        assert(s@[i] as u8 == bytes[i]);
    }
}

impl std::str::FromStr for Color {
    type Err = String;

    /// Reads a colour from text: the single letter `r` asks for a random
    /// colour, anything else is read by [`Color::parse_hex`]. Text of a wrong
    /// length is rejected first; otherwise the message names the first
    /// character that is no hexadecimal digit.
    fn from_str(s: &str) -> (res: Result<Color, String>)
        ensures
            asks_random(s.spec_bytes()) ==> (res matches Ok(c) && c.a is Some),
            !asks_random(s.spec_bytes()) ==> {
                &&& res is Ok <==> (s.spec_bytes().len() == 6 || s.spec_bytes().len() == 8)
                    && all_hex(s.spec_bytes())
                &&& res matches Ok(c) ==> c == parsed_color(s.spec_bytes())
                &&& res matches Err(m) ==> if s.spec_bytes().len() != 6 && s.spec_bytes().len()
                    != 8 {
                    m@ == "Color must be 6 or 8 characters in length"@
                } else {
                    first_bad_char(s@) matches Some(c) && m@ == bad_digit_text(c)
                }
            },
    {
        let bytes: &[u8] = s.as_bytes();
        if bytes.len() == 1 && bytes[0] == 114 {
            return Ok(Color::random());
        }
        match Color::parse_hex(bytes) {
            Ok(c) => Ok(c),
            Err(ColorParseError::Length) => Err(ColorParseError::Length.message().to_string()),
            Err(ColorParseError::Digit(_)) => match first_non_hex(s) {
                Some(c) => Err(text_with_char("Invalid hex digit ", c)),
                None => {
                    proof {
                        lemma_hex_chars_are_hex_bytes(s);
                    }
                    vstd::pervasive::unreached()
                },
            },
        }
    }
}

} // verus!
