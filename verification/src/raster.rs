//! Raw pixel grids, as an image or animation decoder hands them over, and
//! their encoding as frames.

use vstd::prelude::*;
use crate::codec::CodecData;
use crate::color::Color;
use crate::pixelcollector::{
    clamp_i32,
    collected,
    is_ordered_frame_of,
    is_sized_frame_of,
    resolved_origin,
    session_extent,
    session_kind,
    PixOffset,
    PixelCollector,
};
use crate::wire::LogicalPixel;

verus! {

/// The largest extent of a pixel grid.
pub const GRID_LIMIT: u32 = 0x7FFF_FFFF;

/// A decoded picture: `width * height` pixels in rows from the top, four
/// bytes each, red, green, blue and alpha.
pub struct RawFrame {
    width: u32,
    height: u32,
    buffer: Vec<u8>,
}

/// The extent of a canvas as a 32-bit signed number, or the largest such
/// number where the canvas is larger.
pub open spec fn offset_extent(n: usize) -> int {
    if n < i32::MAX {
        n as int
    } else {
        i32::MAX as int
    }
}

/// The placement of content of `width` by `height` on the canvas of a
/// session, for the requested offsets.
pub open spec fn placement(
    codec: CodecData,
    width: i32,
    height: i32,
    x_offset: i32,
    y_offset: i32,
) -> PixOffset {
    PixOffset {
        x_max: offset_extent(codec.window.x_width) as i32,
        x_offset,
        y_max: offset_extent(codec.window.y_height) as i32,
        y_offset,
        width,
        height,
    }
}

/// The colour of the pixel with the given index in an RGBA buffer.
pub open spec fn grid_color(buffer: Seq<u8>, index: int) -> Color {
    Color {
        r: buffer[4 * index],
        g: buffer[4 * index + 1],
        b: buffer[4 * index + 2],
        a: Some(buffer[4 * index + 3]),
    }
}

/// What a collector holds after the first `n` pixels of a grid, taken row by
/// row, were placed by `offset` and offered to it.
pub open spec fn placed_pixels(
    width: int,
    buffer: Seq<u8>,
    offset: PixOffset,
    max_x: int,
    max_y: int,
    n: nat,
) -> Seq<LogicalPixel>
    decreases n,
{
    if n == 0 {
        Seq::<LogicalPixel>::empty()
    } else {
        let index = n - 1;
        collected(
            placed_pixels(width, buffer, offset, max_x, max_y, index as nat),
            clamp_i32(
                index % width + resolved_origin(
                    offset.width as int,
                    offset.x_offset as int,
                    offset.x_max as int,
                ),
            ),
            clamp_i32(
                index / width + resolved_origin(
                    offset.height as int,
                    offset.y_offset as int,
                    offset.y_max as int,
                ),
            ),
            grid_color(buffer, index),
            max_x,
            max_y,
        )
    }
}

fn to_offset_extent(n: usize) -> (e: i32)
    ensures
        e == offset_extent(n),
{
    if n < 0x7FFF_FFFF {
        n as i32
    } else {
        0x7FFF_FFFF
    }
}

/// The placement of content of `width` by `height` on the canvas of a session.
pub fn place(codec: &CodecData, width: i32, height: i32, x_offset: i32, y_offset: i32) -> (offset:
    PixOffset)
    ensures
        offset == placement(*codec, width, height, x_offset, y_offset),
{
    PixOffset {
        x_max: to_offset_extent(codec.window.get_x()),
        x_offset,
        y_max: to_offset_extent(codec.window.get_y()),
        y_offset,
        width,
        height,
    }
}

impl RawFrame {
    #[verifier::type_invariant]
    spec fn well_formed(self) -> bool {
        &&& self.width <= GRID_LIMIT
        &&& self.height <= GRID_LIMIT
        &&& self.buffer@.len() == self.width * self.height * 4
    }

    /// The number of pixels in a row.
    pub closed spec fn spec_width(self) -> int {
        self.width as int
    }

    /// The number of rows.
    pub closed spec fn spec_height(self) -> int {
        self.height as int
    }

    /// The RGBA bytes.
    pub closed spec fn spec_buffer(self) -> Seq<u8> {
        self.buffer@
    }

    /// The pixels of this grid that a session's collector keeps, when the
    /// grid is placed by `offset`.
    pub open spec fn drawn(self, offset: PixOffset, codec: CodecData) -> Seq<LogicalPixel> {
        placed_pixels(
            self.spec_width(),
            self.spec_buffer(),
            offset,
            session_extent(codec.window.x_width),
            session_extent(codec.window.y_height),
            (self.spec_width() * self.spec_height()) as nat,
        )
    }

    /// A grid from its dimensions and bytes. The buffer must hold exactly
    /// four bytes for each pixel, and neither dimension may exceed
    /// [`GRID_LIMIT`].
    pub fn new(width: u32, height: u32, buffer: Vec<u8>) -> (res: Option<RawFrame>)
        ensures
            res is Some <==> width <= GRID_LIMIT && height <= GRID_LIMIT && buffer@.len() == width
                * height * 4,
            res matches Some(frame) ==> frame.spec_width() == width && frame.spec_height()
                == height && frame.spec_buffer() == buffer@,
    {
        if width > GRID_LIMIT || height > GRID_LIMIT {
            return None;
        }
        assert(width * height * 4 <= 0x7FFF_FFFF * 0x7FFF_FFFF * 4) by (nonlinear_arith)
            requires
                width <= 0x7FFF_FFFF,
                height <= 0x7FFF_FFFF,
        ;
        let expected: u64 = width as u64 * height as u64 * 4;
        if buffer.len() as u64 != expected {
            return None;
        }
        Some(RawFrame { width, height, buffer })
    }

    /// The number of pixels in a row.
    pub fn width(&self) -> (w: u32)
        ensures
            w == self.spec_width(),
            w <= GRID_LIMIT,
    {
        proof {
            use_type_invariant(self);
        }
        self.width
    }

    /// The number of rows.
    pub fn height(&self) -> (h: u32)
        ensures
            h == self.spec_height(),
            h <= GRID_LIMIT,
    {
        proof {
            use_type_invariant(self);
        }
        self.height
    }

    /// Encodes this grid as one frame of a session.
    ///
    /// Every pixel is placed by `offset` and offered to a fresh collector of
    /// the session, row by row; the collector's frame is the result. Without
    /// compression this cannot fail.
    pub fn encode(&self, offset: &PixOffset, codec: &CodecData) -> (res: Result<
        (usize, Vec<u8>),
        std::io::Error,
    >)
        ensures
            codec.options.compression_kind is None ==> res is Ok,
            res matches Ok((len, out)) ==> is_sized_frame_of(
                out@,
                len as int,
                self.drawn(*offset, *codec),
                session_kind(*codec),
                codec.options.compression_kind,
            ) && is_ordered_frame_of(
                out@,
                self.drawn(*offset, *codec),
                session_kind(*codec),
                codec.options.compression_kind,
            ),
    {
        proof {
            use_type_invariant(self);
        }
        let mut collector: PixelCollector = PixelCollector::for_session(codec);
        if self.width == 0 {
            assert(self.spec_width() * self.spec_height() == 0) by (nonlinear_arith)
                requires
                    self.spec_width() == 0,
            ;
            return collector.into_bytes();
        }
        let width: usize = self.width as usize;
        let len: usize = self.buffer.len();
        let total: usize = len / 4;
        assert(total == self.width * self.height);
        let mut i: usize = 0;
        while i < total
            invariant
                0 <= i <= total,
                0 < width == self.width <= GRID_LIMIT,
                self.height <= GRID_LIMIT,
                total == self.width * self.height,
                len == self.buffer@.len() == total * 4,
                collector.wf(),
                collector.kind() == session_kind(*codec),
                collector.compression() == codec.options.compression_kind,
                collector.max_x() == session_extent(codec.window.x_width),
                collector.max_y() == session_extent(codec.window.y_height),
                collector.pixels() == placed_pixels(
                    self.spec_width(),
                    self.spec_buffer(),
                    *offset,
                    session_extent(codec.window.x_width),
                    session_extent(codec.window.y_height),
                    i as nat,
                ),
            decreases total - i,
        {
            let column: usize = i % width;
            let row: usize = i / width;
            assert(row < self.height) by (nonlinear_arith)
                requires
                    row == i / width,
                    i < total,
                    total == self.width * self.height,
                    width == self.width,
                    width > 0,
            ;
            let (x, y) = offset.do_offset(column as i32, row as i32);
            let color: Color = Color::from_rgba(
                self.buffer[4 * i],
                self.buffer[4 * i + 1],
                self.buffer[4 * i + 2],
                Some(self.buffer[4 * i + 3]),
            );
            collector.add_pixel_colored(x, y, &color);
            i += 1;
        }
        collector.into_bytes()
    }
}

} // verus!
