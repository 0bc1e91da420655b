//! The batch collector: it gathers the logical pixels of one frame, drops what
//! cannot be drawn, and turns the rest into the bytes of a frame.

use vstd::prelude::*;
use vstd::string::StringSliceAdditionalSpecFns;
use crate::codec::CodecData;
use crate::color::Color;
use crate::sorting::sort_by_color;
use crate::wire::{frame_bytes, serialize_frame, LogicalPixel, PixelCollectorKind};

verus! {

/// The largest canvas extent that the 16-bit coordinates of a record can
/// address.
pub const COORDINATE_LIMIT: i32 = 65536;

/// The compression level that frames are compressed at.
pub const ZSTD_LEVEL: i32 = 1;

/// A named compression codec for whole frames.
#[derive(Debug, Clone, Copy, PartialEq, Eq, Structural)]
pub enum CompressionKind {
    Zstd,
}

/// An ASCII letter in lower case; any other byte unchanged.
pub open spec fn ascii_lower(c: u8) -> u8 {
    if 65 <= c <= 90 {
        (c + 32) as u8
    } else {
        c
    }
}

/// Whether `s` spells `zstd`, in any mix of upper and lower case.
pub open spec fn names_zstd(s: Seq<u8>) -> bool {
    &&& s.len() == 4
    &&& ascii_lower(s[0]) == 0x7A
    &&& ascii_lower(s[1]) == 0x73
    &&& ascii_lower(s[2]) == 0x74
    &&& ascii_lower(s[3]) == 0x64
}

fn to_ascii_lower(c: u8) -> (l: u8)
    ensures
        l == ascii_lower(c),
{
    if 65 <= c && c <= 90 {
        c + 32
    } else {
        c
    }
}

impl CompressionKind {
    /// The codec that `s` names, if it names one.
    pub fn parse(s: &[u8]) -> (res: Option<CompressionKind>)
        ensures
            res == if names_zstd(s@) {
                Some(CompressionKind::Zstd)
            } else {
                None
            },
    {
        if s.len() == 4 && to_ascii_lower(s[0]) == 0x7A && to_ascii_lower(s[1]) == 0x73
            && to_ascii_lower(s[2]) == 0x74 && to_ascii_lower(s[3]) == 0x64 {
            Some(CompressionKind::Zstd)
        } else {
            None
        }
    }

    /// The codec's name.
    pub fn name(&self) -> (s: &'static str)
        ensures
            s@ == "zstd"@,
    {
        match self {
            CompressionKind::Zstd => "zstd",
        }
    }

    /// The codec's name as an owned string.
    pub fn to_string(&self) -> (s: String)
        ensures
            s@ == "zstd"@,
    {
        self.name().to_string()
    }

    /// The request that asks the server to accept compressed frames:
    /// `COMPRESS` and a line feed.
    pub fn compression_string(&self) -> (req: Vec<u8>)
        ensures
            req@ == compress_request(),
    {
        let mut req: Vec<u8> = Vec::new();
        req.push(0x43);
        req.push(0x4F);
        req.push(0x4D);
        req.push(0x50);
        req.push(0x52);
        req.push(0x45);
        req.push(0x53);
        req.push(0x53);
        req.push(0x0A);
        assert(req@ =~= compress_request());
        req
    }
}

/// The bytes of `COMPRESS` followed by a line feed.
pub open spec fn compress_request() -> Seq<u8> {
    seq![0x43u8, 0x4Fu8, 0x4Du8, 0x50u8, 0x52u8, 0x45u8, 0x53u8, 0x53u8, 0x0Au8]
}

impl std::str::FromStr for CompressionKind {
    type Err = &'static str;

    /// Reads a codec name, ignoring case.
    fn from_str(s: &str) -> (res: Result<CompressionKind, &'static str>)
        ensures
            names_zstd(s.spec_bytes()) ==> res == Ok::<CompressionKind, &'static str>(
                CompressionKind::Zstd,
            ),
            !names_zstd(s.spec_bytes()) ==> (res matches Err(m) && m@
                == "unknown compression type"@),
    {
        match CompressionKind::parse(s.as_bytes()) {
            Some(kind) => Ok(kind),
            None => Err("unknown compression type"),
        }
    }
}

/// Where content of a given size is placed on the canvas.
///
/// A non-negative offset is measured from the near edge (left or top). A
/// negative offset is measured from the far edge: the content's far edge lies
/// that many pixels before the canvas's far edge.
#[derive(Debug, Clone, Copy)]
pub struct PixOffset {
    pub x_max: i32,
    pub x_offset: i32,
    pub y_max: i32,
    pub y_offset: i32,
    pub width: i32,
    pub height: i32,
}

/// The canvas coordinate of the content's origin along one axis, for content
/// of extent `d`, requested offset `o` and canvas extent `bound`.
pub open spec fn resolved_origin(d: int, o: int, bound: int) -> int {
    if o >= 0 {
        o
    } else {
        bound + o - d
    }
}

/// `v` where it is a 32-bit signed number, else the nearest one.
pub open spec fn clamp_i32(v: int) -> int {
    if v < i32::MIN {
        i32::MIN as int
    } else if v > i32::MAX {
        i32::MAX as int
    } else {
        v
    }
}

fn origin(d: i32, o: i32, bound: i32) -> (r: i64)
    ensures
        r == resolved_origin(d as int, o as int, bound as int),
{
    if o >= 0 {
        o as i64
    } else {
        bound as i64 + o as i64 - d as i64
    }
}

fn saturate(v: i64) -> (r: i32)
    ensures
        r == clamp_i32(v as int),
{
    if v < -2147483648 {
        -2147483648
    } else if v > 2147483647 {
        2147483647
    } else {
        v as i32
    }
}

impl PixOffset {
    /// The canvas position of the content pixel at `(x, y)`.
    ///
    /// Each coordinate is the content coordinate plus the resolved origin of
    /// its axis. A position beyond the 32-bit range, which no canvas reaches,
    /// is reported as the nearest 32-bit number.
    pub fn do_offset(&self, x: i32, y: i32) -> (pos: (i32, i32))
        ensures
            pos.0 == clamp_i32(
                x + resolved_origin(self.width as int, self.x_offset as int, self.x_max as int),
            ),
            pos.1 == clamp_i32(
                y + resolved_origin(self.height as int, self.y_offset as int, self.y_max as int),
            ),
    {
        let x_origin: i64 = origin(self.width, self.x_offset, self.x_max);
        let y_origin: i64 = origin(self.height, self.y_offset, self.y_max);
        (saturate(x as i64 + x_origin), saturate(y as i64 + y_origin))
    }
}

/// Whether the collector of a canvas of `max_x` by `max_y` keeps a pixel:
/// its colour is visible and its position lies on the canvas.
pub open spec fn keeps(x: int, y: int, color: Color, max_x: int, max_y: int) -> bool {
    color.visible() && 0 <= x < max_x && 0 <= y < max_y
}

/// What a collector of a canvas of `max_x` by `max_y` holds after a pixel is
/// offered to it: the pixel is appended if it is kept, and dropped otherwise.
pub open spec fn collected(
    stored: Seq<LogicalPixel>,
    x: int,
    y: int,
    color: Color,
    max_x: int,
    max_y: int,
) -> Seq<LogicalPixel> {
    if keeps(x, y, color, max_x, max_y) {
        stored.push(LogicalPixel { x: x as u16, y: y as u16, color })
    } else {
        stored
    }
}

/// What a collector holds after every pixel of `offers`, each given by its
/// position and colour, was offered to it in order.
pub open spec fn collected_all(offers: Seq<(int, int, Color)>, max_x: int, max_y: int) -> Seq<
    LogicalPixel,
>
    decreases offers.len(),
{
    if offers.len() == 0 {
        Seq::<LogicalPixel>::empty()
    } else {
        collected(
            collected_all(offers.drop_last(), max_x, max_y),
            offers.last().0,
            offers.last().1,
            offers.last().2,
            max_x,
            max_y,
        )
    }
}

/// Whether the colours of `s` never descend.
pub open spec fn color_sorted(s: Seq<LogicalPixel>) -> bool {
    forall|i: int, j: int|
        0 <= i <= j < s.len() ==> (#[trigger] s[i]).color.rank() <= (#[trigger] s[j]).color.rank()
}

/// Whether `order` holds exactly the pixels of `stored`, each as often as
/// `stored` does, arranged so that colours never descend.
pub open spec fn is_color_ordering(order: Seq<LogicalPixel>, stored: Seq<LogicalPixel>) -> bool {
    order.to_multiset() == stored.to_multiset() && color_sorted(order)
}

/// The test whether a pixel's colour has the given rank.
pub open spec fn of_rank(r: int) -> spec_fn(LogicalPixel) -> bool {
    |p: LogicalPixel| p.color.rank() == r
}

/// Whether, for every colour, the pixels of that colour come in `order` as
/// they come in `stored`.
pub open spec fn keeps_order_within_colors(
    order: Seq<LogicalPixel>,
    stored: Seq<LogicalPixel>,
) -> bool {
    forall|r: int| #[trigger] order.filter(of_rank(r)) == stored.filter(of_rank(r))
}

/// Whether `order` is the arrangement of `stored` by ascending colour in
/// which pixels of one colour keep the order they have in `stored`.
pub open spec fn is_stable_ordering(order: Seq<LogicalPixel>, stored: Seq<LogicalPixel>) -> bool {
    is_color_ordering(order, stored) && keeps_order_within_colors(order, stored)
}

/// Whether `out`, with logical length `len`, is what goes on the wire for the
/// pixels of `order` written in exactly that order.
pub open spec fn encodes(
    out: Seq<u8>,
    len: int,
    order: Seq<LogicalPixel>,
    kind: PixelCollectorKind,
    compression: Option<CompressionKind>,
) -> bool {
    len == frame_bytes(order, kind).len() && out == wire_bytes(frame_bytes(order, kind), compression)
}

/// Whether `out`, with logical length `len`, is the frame of the pixels
/// `stored`, taken in the order in which they were added: the wire form of
/// their arrangement by ascending colour, pixels of one colour in the order
/// of their adding.
pub open spec fn is_sized_frame_of(
    out: Seq<u8>,
    len: int,
    stored: Seq<LogicalPixel>,
    kind: PixelCollectorKind,
    compression: Option<CompressionKind>,
) -> bool {
    exists|order: Seq<LogicalPixel>|
        #![trigger is_stable_ordering(order, stored)]
        is_stable_ordering(order, stored) && encodes(out, len, order, kind, compression)
}

/// Whether `out` is the frame of the pixels `stored`, taken in the order in
/// which they were added, whatever its logical length.
pub open spec fn is_ordered_frame_of(
    out: Seq<u8>,
    stored: Seq<LogicalPixel>,
    kind: PixelCollectorKind,
    compression: Option<CompressionKind>,
) -> bool {
    exists|order: Seq<LogicalPixel>|
        #![trigger is_stable_ordering(order, stored)]
        is_stable_ordering(order, stored) && out == wire_bytes(
            frame_bytes(order, kind),
            compression,
        )
}

/// Whether `out` is a frame of the pixels `stored`, in whatever order they
/// were added and whatever its logical length: the wire form of some
/// arrangement of them by ascending colour.
pub open spec fn is_frame_of(
    out: Seq<u8>,
    stored: Seq<LogicalPixel>,
    kind: PixelCollectorKind,
    compression: Option<CompressionKind>,
) -> bool {
    exists|order: Seq<LogicalPixel>|
        #![trigger is_color_ordering(order, stored)]
        is_color_ordering(order, stored) && out == wire_bytes(
            frame_bytes(order, kind),
            compression,
        )
}

/// The zstd frame that `zstd::encode_all` produces for `data` at `level`.
pub uninterp spec fn zstd_frame(data: Seq<u8>, level: int) -> Seq<u8>;

/// What goes on the wire for serialized bytes `plain` under the given
/// compression choice.
pub open spec fn wire_bytes(plain: Seq<u8>, compression: Option<CompressionKind>) -> Seq<u8> {
    match compression {
        None => plain,
        Some(CompressionKind::Zstd) => zstd_frame(plain, ZSTD_LEVEL as int),
    }
}

/// `std::io::Error`, the error of the compressor and of the connection. It
/// is carried through as it is; nothing is known of what it holds.
#[verifier::external_type_specification]
#[verifier::external_body]
pub struct ExIoError(std::io::Error);

/// Renders an error of `std::io` as text, by its `Debug` form. Nothing is
/// claimed of the text.
#[verifier::external_body]
pub(crate) fn io_error_text(e: &std::io::Error) -> (text: String) {
    format!("{:?}", e)
}

/// Calls `zstd::encode_all` on the bytes of `data`. The compressor's output
/// depends on the input and the level alone; when the call succeeds, its
/// result is the frame named by [`zstd_frame`]. Nothing is claimed of when it
/// fails.
#[verifier::external_body]
fn zstd_encode_all(data: &Vec<u8>, level: i32) -> (res: Result<Vec<u8>, std::io::Error>)
    ensures
        res matches Ok(out) ==> out@ == zstd_frame(data@, level as int),
{
    zstd::encode_all(data.as_slice(), level)
}

/// Shuffles with `rand::seq::SliceRandom::shuffle`, driven by the thread-local
/// generator of `rand`. The shuffle only exchanges elements: afterwards the
/// vector holds the same pixels as before, each as often.
#[verifier::external_body]
fn shuffle_pixels(pixels: &mut Vec<LogicalPixel>)
    ensures
        final(pixels)@.to_multiset() == old(pixels)@.to_multiset(),
{
    rand::seq::SliceRandom::shuffle(pixels.as_mut_slice(), &mut rand::thread_rng());
}

/// Pairs the serialized length of a frame with the bytes to transmit: the
/// serialized bytes themselves when no compression was attempted, the
/// compressor's output when it succeeded, and its error when it failed.
pub fn finish_frame(plain: Vec<u8>, compressed: Option<Result<Vec<u8>, std::io::Error>>) -> (res:
    Result<(usize, Vec<u8>), std::io::Error>)
    ensures
        res == match compressed {
            None => Ok::<(usize, Vec<u8>), std::io::Error>((plain.len(), plain)),
            Some(Ok(packed)) => Ok((plain.len(), packed)),
            Some(Err(e)) => Err(e),
        },
{
    let len: usize = plain.len();
    match compressed {
        None => Ok((len, plain)),
        Some(Ok(packed)) => Ok((len, packed)),
        Some(Err(e)) => Err(e),
    }
}

/// Gathers the pixels of one frame.
pub struct PixelCollector {
    kind: PixelCollectorKind,
    compression_kind: Option<CompressionKind>,
    pixels: Vec<LogicalPixel>,
    max_x: i32,
    max_y: i32,
}

/// The extent that a collector holds positions to, for a canvas extent `n`:
/// `n` itself as far as 16-bit coordinates reach.
pub fn clip_extent(n: usize) -> (e: i32)
    ensures
        e == session_extent(n),
{
    if n < 65536 {
        n as i32
    } else {
        65536
    }
}

impl PixelCollector {
    /// What every collector satisfies: its bounds are within the reach of
    /// 16-bit coordinates, and it holds nothing that [`keeps`] would refuse.
    pub closed spec fn wf(self) -> bool {
        &&& 0 <= self.max_x <= COORDINATE_LIMIT
        &&& 0 <= self.max_y <= COORDINATE_LIMIT
        &&& forall|i: int|
            0 <= i < self.pixels@.len() ==> keeps(
                (#[trigger] self.pixels@[i]).x as int,
                self.pixels@[i].y as int,
                self.pixels@[i].color,
                self.max_x as int,
                self.max_y as int,
            )
    }

    /// The pixels kept so far, in the order they were added.
    pub closed spec fn pixels(self) -> Seq<LogicalPixel> {
        self.pixels@
    }

    /// The record form that the frame will be written in.
    pub closed spec fn kind(self) -> PixelCollectorKind {
        self.kind
    }

    /// The compression that the frame will be passed through, if any.
    pub closed spec fn compression(self) -> Option<CompressionKind> {
        self.compression_kind
    }

    /// The canvas width that positions are held to.
    pub closed spec fn max_x(self) -> int {
        self.max_x as int
    }

    /// The canvas height that positions are held to.
    pub closed spec fn max_y(self) -> int {
        self.max_y as int
    }

    /// An empty collector for binary records that accepts every position a
    /// record can address.
    pub fn new_binary(compression_kind: Option<CompressionKind>) -> (c: PixelCollector)
        ensures
            c.wf(),
            c.pixels() == Seq::<LogicalPixel>::empty(),
            c.kind() == PixelCollectorKind::Binary,
            c.compression() == compression_kind,
            c.max_x() == COORDINATE_LIMIT,
            c.max_y() == COORDINATE_LIMIT,
    {
        PixelCollector {
            kind: PixelCollectorKind::Binary,
            compression_kind,
            pixels: Vec::new(),
            max_x: COORDINATE_LIMIT,
            max_y: COORDINATE_LIMIT,
        }
    }

    /// An empty collector for text records that accepts every position a
    /// record can address.
    pub fn new_text(compression_kind: Option<CompressionKind>) -> (c: PixelCollector)
        ensures
            c.wf(),
            c.pixels() == Seq::<LogicalPixel>::empty(),
            c.kind() == PixelCollectorKind::Text,
            c.compression() == compression_kind,
            c.max_x() == COORDINATE_LIMIT,
            c.max_y() == COORDINATE_LIMIT,
    {
        PixelCollector {
            kind: PixelCollectorKind::Text,
            compression_kind,
            pixels: Vec::new(),
            max_x: COORDINATE_LIMIT,
            max_y: COORDINATE_LIMIT,
        }
    }

    /// An empty collector for a session: its record form and compression are
    /// the session's, and positions are held to the session's canvas, as far
    /// as 16-bit coordinates reach.
    pub fn for_session(codec: &CodecData) -> (c: PixelCollector)
        ensures
            c.wf(),
            c.pixels() == Seq::<LogicalPixel>::empty(),
            c.kind() == session_kind(*codec),
            c.compression() == codec.options.compression_kind,
            c.max_x() == session_extent(codec.window.x_width),
            c.max_y() == session_extent(codec.window.y_height),
    {
        PixelCollector {
            kind: if codec.options.binary_px {
                PixelCollectorKind::Binary
            } else {
                PixelCollectorKind::Text
            },
            compression_kind: codec.options.compression_kind,
            pixels: Vec::new(),
            max_x: clip_extent(codec.window.get_x()),
            max_y: clip_extent(codec.window.get_y()),
        }
    }

    /// Adds a pixel, unless its colour is transparent or its position lies
    /// off the canvas: such a pixel is dropped without a trace.
    pub fn add_pixel_colored(&mut self, x: i32, y: i32, color: &Color)
        requires
            old(self).wf(),
        ensures
            final(self).wf(),
            final(self).kind() == old(self).kind(),
            final(self).compression() == old(self).compression(),
            final(self).max_x() == old(self).max_x(),
            final(self).max_y() == old(self).max_y(),
            final(self).pixels() == collected(
                old(self).pixels(),
                x as int,
                y as int,
                *color,
                old(self).max_x(),
                old(self).max_y(),
            ),
    {
        if !color.is_visible() {
            return ;
        }
        if x >= 0 && x < self.max_x && y >= 0 && y < self.max_y {
            self.pixels.push(LogicalPixel { x: x as u16, y: y as u16, color: *color });
        }
    }

    /// Adds a pixel given by its position and raw channels.
    pub fn add_pixel_raw(&mut self, x: u16, y: u16, color_data: (u8, u8, u8, Option<u8>))
        requires
            old(self).wf(),
        ensures
            final(self).wf(),
            final(self).kind() == old(self).kind(),
            final(self).compression() == old(self).compression(),
            final(self).max_x() == old(self).max_x(),
            final(self).max_y() == old(self).max_y(),
            final(self).pixels() == collected(
                old(self).pixels(),
                x as int,
                y as int,
                raw_color(color_data),
                old(self).max_x(),
                old(self).max_y(),
            ),
    {
        let (r, g, b, a) = color_data;
        self.add_pixel_colored(x as i32, y as i32, &Color::from_rgba(r, g, b, a))
    }

    /// Puts the pixels kept so far into a random order. A frame is arranged
    /// by colour only, so the order shows within the runs of one colour.
    pub fn shuffle(&mut self)
        requires
            old(self).wf(),
        ensures
            final(self).wf(),
            final(self).kind() == old(self).kind(),
            final(self).compression() == old(self).compression(),
            final(self).max_x() == old(self).max_x(),
            final(self).max_y() == old(self).max_y(),
            final(self).pixels().to_multiset() == old(self).pixels().to_multiset(),
    {
        shuffle_pixels(&mut self.pixels);
        proof {
            broadcast use vstd::seq_lib::to_multiset_contains;

            let before = old(self).pixels@;
            let after = self.pixels@;
            assert forall|i: int| 0 <= i < after.len() implies keeps(
                (#[trigger] after[i]).x as int,
                after[i].y as int,
                after[i].color,
                self.max_x as int,
                self.max_y as int,
            ) by {
                assert(after.contains(after[i]));
                assert(after.to_multiset().count(after[i]) > 0);
                assert(before.contains(after[i]));
                let j = choose|j: int| 0 <= j < before.len() && before[j] == after[i];
                assert(before[j] == after[i]);
            }
        }
    }

    /// Turns the collected pixels into a frame.
    ///
    /// The pixels are arranged by ascending colour, those of one colour in
    /// the order in which they were added, and written record by record. The result pairs the length of that serialization with the
    /// bytes to transmit: the serialization itself, or its compressed form
    /// where compression was asked for. Without compression this cannot fail.
    pub fn into_bytes(self) -> (res: Result<(usize, Vec<u8>), std::io::Error>)
        ensures
            res matches Ok((len, out)) ==> is_sized_frame_of(
                out@,
                len as int,
                self.pixels(),
                self.kind(),
                self.compression(),
            ) && is_ordered_frame_of(out@, self.pixels(), self.kind(), self.compression())
                && is_frame_of(out@, self.pixels(), self.kind(), self.compression()),
            self.compression() is None ==> res is Ok,
    {
        let kind: PixelCollectorKind = self.kind;
        let compression_kind: Option<CompressionKind> = self.compression_kind;
        let pixels: Vec<LogicalPixel> = sort_by_color(self.pixels);
        let plain: Vec<u8> = serialize_frame(&pixels, kind);
        let compressed: Option<Result<Vec<u8>, std::io::Error>> = match compression_kind {
            Some(CompressionKind::Zstd) => Some(zstd_encode_all(&plain, ZSTD_LEVEL)),
            None => None,
        };
        let res = finish_frame(plain, compressed);
        proof {
            let order = pixels@;
            assert(is_stable_ordering(order, self.pixels()));
            assert(is_color_ordering(order, self.pixels()));
            if res is Ok {
                let len = res->Ok_0.0;
                let out = res->Ok_0.1;
                assert(encodes(out@, len as int, order, self.kind(), self.compression()));
            }
        }
        res
    }
}

/// A frame of some pixels is a frame of any rearrangement of them.
pub proof fn lemma_frame_of_rearranged(
    out: Seq<u8>,
    stored: Seq<LogicalPixel>,
    other: Seq<LogicalPixel>,
    kind: PixelCollectorKind,
    compression: Option<CompressionKind>,
)
    requires
        is_frame_of(out, stored, kind, compression),
        stored.to_multiset() == other.to_multiset(),
    ensures
        is_frame_of(out, other, kind, compression),
{
    let order = choose|order: Seq<LogicalPixel>|
        #![trigger is_color_ordering(order, stored)]
        is_color_ordering(order, stored) && out == wire_bytes(
            frame_bytes(order, kind),
            compression,
        );
    assert(is_color_ordering(order, other));
}

/// A pixel that is transparent or lies off the canvas leaves no trace in a
/// collector.
pub proof fn lemma_undrawable_is_dropped(
    stored: Seq<LogicalPixel>,
    x: int,
    y: int,
    color: Color,
    max_x: int,
    max_y: int,
)
    requires
        !color.visible() || !(0 <= x < max_x) || !(0 <= y < max_y),
    ensures
        collected(stored, x, y, color, max_x, max_y) == stored,
{
}

/// Transparent pixels among the offers change nothing.
/// The collector holds what it would hold had only the visible ones been
/// offered, and everything it holds is visible and on the canvas.
pub proof fn lemma_transparent_offers_leave_no_trace(
    offers: Seq<(int, int, Color)>,
    max_x: int,
    max_y: int,
)
    ensures
        collected_all(offers, max_x, max_y) == collected_all(
            offers.filter(|o: (int, int, Color)| o.2.visible()),
            max_x,
            max_y,
        ),
        forall|i: int|
            0 <= i < collected_all(offers, max_x, max_y).len() ==> {
                let p = #[trigger] collected_all(offers, max_x, max_y)[i];
                p.color.visible() && 0 <= p.x < max_x && 0 <= p.y < max_y
            },
    decreases offers.len(),
{
    reveal(Seq::filter);
    let visible = |o: (int, int, Color)| o.2.visible();
    if offers.len() > 0 {
        let rest = offers.drop_last();
        let last = offers.last();
        lemma_transparent_offers_leave_no_trace(rest, max_x, max_y);
        if visible(last) {
            let kept = rest.filter(visible).push(last);
            assert(offers.filter(visible) == kept);
            assert(kept.drop_last() =~= rest.filter(visible));
            assert(kept.last() == last);
        }
        let before = collected_all(rest, max_x, max_y);
        let after = collected_all(offers, max_x, max_y);
        assert forall|i: int| 0 <= i < after.len() implies {
            let p = #[trigger] after[i];
            p.color.visible() && 0 <= p.x < max_x && 0 <= p.y < max_y
        } by {
            if i < before.len() {
                assert(after[i] == before[i]);
            }
        }
    }
}

/// Colours of equal rank are equal.
pub proof fn lemma_rank_injective(c1: Color, c2: Color)
    requires
        c1.rank() == c2.rank(),
    ensures
        c1 == c2,
{
}

/// In a sequence arranged by ascending colour, pixels
/// of one colour stand together, with no pixel of another colour between two
/// of them.
pub proof fn lemma_equal_colors_contiguous(order: Seq<LogicalPixel>, i: int, j: int, k: int)
    requires
        color_sorted(order),
        0 <= i <= j <= k < order.len(),
        order[i].color == order[k].color,
    ensures
        order[j].color == order[i].color,
{
    assert(order[i].color.rank() <= order[j].color.rank());
    assert(order[j].color.rank() <= order[k].color.rank());
    lemma_rank_injective(order[i].color, order[j].color);
}

/// Exclusion of what cannot be drawn: every pixel of a frame's arrangement is
/// one that the collector kept, so none is transparent and none lies off the
/// canvas.
pub proof fn lemma_frame_holds_only_kept(c: PixelCollector, order: Seq<LogicalPixel>)
    requires
        c.wf(),
        is_color_ordering(order, c.pixels()),
    ensures
        forall|i: int|
            0 <= i < order.len() ==> keeps(
                (#[trigger] order[i]).x as int,
                order[i].y as int,
                order[i].color,
                c.max_x(),
                c.max_y(),
            ),
        order.len() == c.pixels().len(),
{
    broadcast use vstd::seq_lib::to_multiset_contains, vstd::seq_lib::to_multiset_len;

    assert forall|i: int| 0 <= i < order.len() implies keeps(
        (#[trigger] order[i]).x as int,
        order[i].y as int,
        order[i].color,
        c.max_x(),
        c.max_y(),
    ) by {
        assert(order.contains(order[i]));
        assert(order.to_multiset().count(order[i]) > 0);
        assert(c.pixels().contains(order[i]));
        let j = choose|j: int| 0 <= j < c.pixels().len() && c.pixels()[j] == order[i];
        assert(c.pixels()[j] == order[i]);
    }
    assert(order.to_multiset().len() == order.len());
    assert(c.pixels().to_multiset().len() == c.pixels().len());
}

/// The record form that a session's options select.
pub open spec fn session_kind(codec: CodecData) -> PixelCollectorKind {
    if codec.options.binary_px {
        PixelCollectorKind::Binary
    } else {
        PixelCollectorKind::Text
    }
}

/// The extent that a collector holds positions to, for a canvas extent `n`.
pub open spec fn session_extent(n: usize) -> int {
    if n < COORDINATE_LIMIT {
        n as int
    } else {
        COORDINATE_LIMIT as int
    }
}

/// The colour of four raw channels.
pub open spec fn raw_color(color_data: (u8, u8, u8, Option<u8>)) -> Color {
    Color { r: color_data.0, g: color_data.1, b: color_data.2, a: color_data.3 }
}

} // verus!
