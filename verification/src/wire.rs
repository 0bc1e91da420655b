//! The wire form of pixel commands: one record per pixel, in a text and a
//! binary variant, and frames as runs of records.

use vstd::prelude::*;
use crate::color::Color;

verus! {

/// A pixel before serialization: a position on the canvas and a colour.
#[derive(Clone, Copy, Debug, PartialEq, Eq, Structural)]
pub struct LogicalPixel {
    pub x: u16,
    pub y: u16,
    pub color: Color,
}

/// Which of the two record forms a frame is written in.
#[derive(Clone, Copy, Debug, PartialEq, Eq, Structural)]
pub enum PixelCollectorKind {
    Binary,
    Text,
}

/// The decimal digits of `n` as ASCII bytes, without leading zeros.
pub open spec fn decimal_digits(n: nat) -> Seq<u8>
    decreases n,
{
    if n < 10 {
        seq![(48 + n) as u8]
    } else {
        decimal_digits(n / 10).push((48 + n % 10) as u8)
    }
}

/// The upper-case hexadecimal digit for a value below sixteen, as an ASCII byte.
pub open spec fn hex_digit_upper(d: int) -> u8 {
    if d < 10 {
        (48 + d) as u8
    } else {
        (55 + d) as u8
    }
}

/// A byte as two upper-case hexadecimal digits, high digit first.
pub open spec fn hex_pair(b: u8) -> Seq<u8> {
    seq![hex_digit_upper(b as int / 16), hex_digit_upper(b as int % 16)]
}

/// The ten bytes of a binary record: the magic `PB`, then x and y as
/// little-endian 16-bit numbers, then red, green, blue and alpha.
pub open spec fn binary_record(p: LogicalPixel) -> Seq<u8> {
    seq![
        0x50u8,
        0x42u8,
        (p.x % 256) as u8,
        (p.x / 256) as u8,
        (p.y % 256) as u8,
        (p.y / 256) as u8,
        p.color.r,
        p.color.g,
        p.color.b,
        p.color.wire_alpha(),
    ]
}

/// The line of a text record: `PX`, the decimal coordinates and the colour as
/// eight upper-case hexadecimal digits, separated by single spaces and closed
/// by a line feed.
pub open spec fn text_record(p: LogicalPixel) -> Seq<u8> {
    seq![0x50u8, 0x58u8, 0x20u8] + decimal_digits(p.x as nat) + seq![0x20u8] + decimal_digits(
        p.y as nat,
    ) + seq![0x20u8] + hex_pair(p.color.r) + hex_pair(p.color.g) + hex_pair(p.color.b)
        + hex_pair(p.color.wire_alpha()) + seq![0x0Au8]
}

/// The record of one pixel in the given form.
pub open spec fn record_bytes(p: LogicalPixel, kind: PixelCollectorKind) -> Seq<u8> {
    match kind {
        PixelCollectorKind::Binary => binary_record(p),
        PixelCollectorKind::Text => text_record(p),
    }
}

/// The records of `pixels`, in their order, one after the other.
pub open spec fn frame_bytes(pixels: Seq<LogicalPixel>, kind: PixelCollectorKind) -> Seq<u8>
    decreases pixels.len(),
{
    if pixels.len() == 0 {
        Seq::<u8>::empty()
    } else {
        frame_bytes(pixels.drop_last(), kind) + record_bytes(pixels.last(), kind)
    }
}

/// What a reader recovers from a binary record by fixed byte offsets.
pub open spec fn decode_binary_record(rec: Seq<u8>) -> LogicalPixel {
    LogicalPixel {
        x: (rec[2] + 256 * rec[3]) as u16,
        y: (rec[4] + 256 * rec[5]) as u16,
        color: Color { r: rec[6], g: rec[7], b: rec[8], a: Some(rec[9]) },
    }
}

/// Appends the decimal digits of `n`.
pub fn push_decimal(out: &mut Vec<u8>, n: u16)
    ensures
        final(out)@ == old(out)@ + decimal_digits(n as nat),
    decreases n,
{
    if n < 10 {
        out.push(48 + (n % 256) as u8);
        assert(final(out)@ =~= old(out)@ + decimal_digits(n as nat));
    } else {
        push_decimal(out, n / 10);
        let d: u16 = n % 10;
        out.push(48 + (d % 256) as u8);
        assert(final(out)@ =~= old(out)@ + decimal_digits(n as nat));
    }
}

fn upper_hex_digit(d: u8) -> (c: u8)
    requires
        d < 16,
    ensures
        c == hex_digit_upper(d as int),
{
    if d < 10 {
        48 + d
    } else {
        55 + d
    }
}

/// Appends a byte as two upper-case hexadecimal digits.
pub fn push_hex_pair(out: &mut Vec<u8>, b: u8)
    ensures
        final(out)@ == old(out)@ + hex_pair(b),
{
    out.push(upper_hex_digit(b / 16));
    out.push(upper_hex_digit(b % 16));
    assert(final(out)@ =~= old(out)@ + hex_pair(b));
}

/// Appends the binary record of `p`.
pub fn push_binary_record(out: &mut Vec<u8>, p: &LogicalPixel)
    ensures
        final(out)@ == old(out)@ + binary_record(*p),
{
    out.push(0x50);
    out.push(0x42);
    out.push((p.x % 256) as u8);
    out.push((p.x / 256) as u8);
    out.push((p.y % 256) as u8);
    out.push((p.y / 256) as u8);
    out.push(p.color.r);
    out.push(p.color.g);
    out.push(p.color.b);
    out.push(p.color.alpha_or_opaque());
    assert(final(out)@ =~= old(out)@ + binary_record(*p));
}

/// Appends the text record of `p`.
pub fn push_text_record(out: &mut Vec<u8>, p: &LogicalPixel)
    ensures
        final(out)@ == old(out)@ + text_record(*p),
{
    out.push(0x50);
    out.push(0x58);
    out.push(0x20);
    push_decimal(out, p.x);
    out.push(0x20);
    push_decimal(out, p.y);
    out.push(0x20);
    push_hex_pair(out, p.color.r);
    push_hex_pair(out, p.color.g);
    push_hex_pair(out, p.color.b);
    push_hex_pair(out, p.color.alpha_or_opaque());
    out.push(0x0A);
    assert(final(out)@ =~= old(out)@ + text_record(*p));
}

/// Writes the records of `pixels`, in their order, into a fresh buffer.
pub fn serialize_frame(pixels: &Vec<LogicalPixel>, kind: PixelCollectorKind) -> (out: Vec<u8>)
    ensures
        out@ == frame_bytes(pixels@, kind),
{
    let mut out: Vec<u8> = Vec::new();
    let n: usize = pixels.len();
    let mut i: usize = 0;
    while i < n
        invariant
            n == pixels@.len(),
            0 <= i <= n,
            out@ == frame_bytes(pixels@.subrange(0, i as int), kind),
        decreases n - i,
    {
        let p: &LogicalPixel = &pixels[i];
        match kind {
            PixelCollectorKind::Binary => push_binary_record(&mut out, p),
            PixelCollectorKind::Text => push_text_record(&mut out, p),
        }
        proof {
            let next = pixels@.subrange(0, i + 1);
            assert(next.drop_last() =~= pixels@.subrange(0, i as int));
            assert(next.last() == pixels@[i as int]);
        }
        i += 1;
    }
    assert(pixels@.subrange(0, n as int) =~= pixels@);
    out
}

/// A binary record is ten bytes long, starts with the
/// magic `PB`, and reading it back by fixed offsets recovers the coordinates
/// and the four colour bytes that were written.
pub proof fn lemma_binary_round_trip(p: LogicalPixel)
    ensures
        binary_record(p).len() == 10,
        binary_record(p)[0] == 0x50,
        binary_record(p)[1] == 0x42,
        decode_binary_record(binary_record(p)) == (LogicalPixel {
            x: p.x,
            y: p.y,
            color: Color {
                r: p.color.r,
                g: p.color.g,
                b: p.color.b,
                a: Some(p.color.wire_alpha()),
            },
        }),
{
}

/// In a binary frame every record is ten bytes long, so the record of the
/// pixel with index `i` stands at byte offset `10 * i`.
pub proof fn lemma_binary_frame_records(pixels: Seq<LogicalPixel>, i: int)
    requires
        0 <= i < pixels.len(),
    ensures
        frame_bytes(pixels, PixelCollectorKind::Binary).len() == 10 * pixels.len(),
        frame_bytes(pixels, PixelCollectorKind::Binary).subrange(10 * i, 10 * i + 10)
            == binary_record(pixels[i]),
    decreases pixels.len(),
{
    let kind = PixelCollectorKind::Binary;
    let rest = pixels.drop_last();
    let whole = frame_bytes(pixels, kind);
    assert(whole == frame_bytes(rest, kind) + binary_record(pixels.last()));
    if rest.len() > 0 {
        lemma_binary_frame_records(rest, if i < rest.len() {
            i
        } else {
            0
        });
    }
    assert(frame_bytes(rest, kind).len() == 10 * rest.len());
    if i < rest.len() {
        assert(whole.subrange(10 * i, 10 * i + 10) =~= frame_bytes(rest, kind).subrange(
            10 * i,
            10 * i + 10,
        ));
    } else {
        assert(whole.subrange(10 * i, 10 * i + 10) =~= binary_record(pixels.last()));
    }
}

} // verus!
