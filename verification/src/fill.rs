//! A solid fill of the whole canvas, sent once.

use vstd::prelude::*;
use crate::codec::{CodecData, DataProducer, RunError};
use crate::color::Color;
use crate::pixelcollector::{
    clip_extent,
    io_error_text,
    is_frame_of,
    is_ordered_frame_of,
    lemma_frame_of_rearranged,
    session_extent,
    session_kind,
    PixelCollector,
};
use crate::span::{all_kept, collect_all, in_rect, lemma_rect_members, rect, rect_of};
use crate::wire::LogicalPixel;

verus! {

/// A one-colour fill as a source of frames.
pub struct Fill {
    color: Color,
    data: Vec<u8>,
    noisy: bool,
}

/// The pixels that a fill of the session's canvas draws: every position of
/// the canvas, or nothing where the colour is transparent.
pub open spec fn fill_pixels(color: Color, codec: CodecData) -> Seq<LogicalPixel> {
    if color.visible() {
        rect(
            0,
            session_extent(codec.window.x_width),
            0,
            session_extent(codec.window.y_height),
            color,
        )
    } else {
        Seq::<LogicalPixel>::empty()
    }
}

impl Fill {
    /// The colour of the fill.
    pub closed spec fn color(self) -> Color {
        self.color
    }

    /// The encoded frame.
    pub closed spec fn encoded(self) -> Seq<u8> {
        self.data@
    }

    /// Whether the pixels are shuffled before they are encoded.
    pub closed spec fn noisy(self) -> bool {
        self.noisy
    }

    /// A fill in the given colour. A noisy fill hands its pixels to the
    /// encoder in random order.
    pub fn new(color: Color, noisy: bool) -> (fill: Fill)
        ensures
            fill.color() == color,
            fill.encoded() == Seq::<u8>::empty(),
            fill.noisy() == noisy,
    {
        Fill { color, data: Vec::new(), noisy }
    }
}

impl DataProducer for Fill {
    /// Setting up leaves colour and noise as they are. It succeeds whenever
    /// no compression is asked for, and then the encoded frame is a frame of
    /// the fill's pixels on the session's canvas; a failure leaves the
    /// encoded frame as it was.
    open spec fn sets_up(&self, after: &Self, codec: CodecData, answer: Result<(), String>) -> bool {
        &&& codec.options.compression_kind is None ==> answer is Ok
        &&& after.color() == self.color()
        &&& after.noisy() == self.noisy()
        &&& answer is Err ==> after.encoded() == self.encoded()
        &&& answer is Ok ==> is_frame_of(
                after.encoded(),
                fill_pixels(self.color(), codec),
                session_kind(codec),
                codec.options.compression_kind,
            )
        &&& answer is Ok && !self.noisy() ==> is_ordered_frame_of(
                after.encoded(),
                fill_pixels(self.color(), codec),
                session_kind(codec),
                codec.options.compression_kind,
            )
    }

    /// The fill stays as it is, and the answer is its encoded frame without
    /// an interval.
    open spec fn hands_out(
        &self,
        after: &Self,
        answer: Result<(Vec<u8>, Option<u64>), RunError>,
    ) -> bool {
        &&& after.color() == self.color()
        &&& after.noisy() == self.noisy()
        &&& after.encoded() == self.encoded()
        &&& answer matches Ok((bytes, interval)) && bytes@ == self.encoded() && interval is None
    }

    /// Encodes one frame that paints every position of the session's canvas
    /// in the fill colour. Shuffled or not, the frame is a frame of the same
    /// pixels; unshuffled, they come column after column. Without compression this cannot fail; a failure leaves the
    /// source as it was.
    fn do_setup(&mut self, codec: &CodecData) -> (res: Result<(), String>) {
        let columns: i32 = clip_extent(codec.window.get_x());
        let rows: i32 = clip_extent(codec.window.get_y());
        let mut collector: PixelCollector = PixelCollector::for_session(codec);
        let ghost wanted = fill_pixels(self.color, *codec);
        if self.color.is_visible() {
            let list: Vec<LogicalPixel> = rect_of(0, columns, 0, rows, self.color);
            proof {
                lemma_rect_members(0, columns as int, 0, rows as int, self.color);
                assert forall|i: int| 0 <= i < list@.len() implies (#[trigger] list@[i]).color.visible()
                    && list@[i].x < columns && list@[i].y < rows by {
                    assert(in_rect(list@[i], 0, columns as int, 0, rows as int, self.color));
                }
                assert(all_kept(list@, columns as int, rows as int));
            }
            collect_all(&mut collector, &list);
            assert(collector.pixels() =~= list@);
            if self.noisy {
                collector.shuffle();
            }
        }
        let ghost stored = collector.pixels();
        assert(stored.to_multiset() == wanted.to_multiset());
        match collector.into_bytes() {
            Ok((_, bytes)) => {
                proof {
                    lemma_frame_of_rearranged(
                        bytes@,
                        stored,
                        wanted,
                        session_kind(*codec),
                        codec.options.compression_kind,
                    );
                }
                self.data = bytes;
                Ok(())
            },
            Err(e) => Err(io_error_text(&e)),
        }
    }

    /// Hands out the encoded frame as the last one.
    fn get_next_data(&mut self) -> (res: Result<(Vec<u8>, Option<u64>), RunError>) {
        let bytes: Vec<u8> = self.data.clone();
        assert(bytes@ =~= self.data@);
        Ok((bytes, None))
    }
}

} // verus!
