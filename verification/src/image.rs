//! A still picture: encoded once, then sent once or again and again.

use vstd::prelude::*;
use crate::codec::{CodecData, DataProducer, RunError};
use crate::pixelcollector::{io_error_text, is_ordered_frame_of, session_kind, PixOffset};
use crate::raster::{place, placement, RawFrame};

verus! {

/// A still picture as a source of frames.
pub struct Image {
    data: Vec<u8>,
    source: RawFrame,
    width_offset: i32,
    height_offset: i32,
    frame_interval: Option<u64>,
}

impl Image {
    /// The decoded picture.
    pub closed spec fn source(self) -> RawFrame {
        self.source
    }

    /// The encoded frame.
    pub closed spec fn encoded(self) -> Seq<u8> {
        self.data@
    }

    /// The interval in microseconds at which the frame is repeated, if it is.
    pub closed spec fn frame_interval(self) -> Option<u64> {
        self.frame_interval
    }

    /// The requested horizontal and vertical offsets.
    pub closed spec fn offsets(self) -> (i32, i32) {
        (self.width_offset, self.height_offset)
    }

    /// Where the picture goes on the canvas of a session.
    pub open spec fn picture_placement(self, codec: CodecData) -> PixOffset {
        placement(
            codec,
            self.source().spec_width() as i32,
            self.source().spec_height() as i32,
            self.offsets().0,
            self.offsets().1,
        )
    }

    /// A source for the given decoded picture. With an interval the frame is
    /// repeated at that interval; without one it is sent once.
    pub fn new(
        source: RawFrame,
        frame_interval: Option<u64>,
        width_offset: i32,
        height_offset: i32,
    ) -> (image: Image)
        ensures
            image.source() == source,
            image.encoded() == Seq::<u8>::empty(),
            image.frame_interval() == frame_interval,
            image.offsets() == (width_offset, height_offset),
    {
        Image { data: Vec::new(), source, frame_interval, width_offset, height_offset }
    }
}

impl DataProducer for Image {
    /// Setting up leaves the picture, the interval and the offsets as they
    /// are. It succeeds whenever no compression is asked for, and then the
    /// encoded frame is the frame of the picture at its place; a failure
    /// leaves the encoded frame as it was.
    open spec fn sets_up(&self, after: &Self, codec: CodecData, answer: Result<(), String>) -> bool {
        &&& codec.options.compression_kind is None ==> answer is Ok
        &&& after.source() == self.source()
        &&& after.frame_interval() == self.frame_interval()
        &&& after.offsets() == self.offsets()
        &&& answer is Err ==> after.encoded() == self.encoded()
        &&& answer is Ok ==> is_ordered_frame_of(
                after.encoded(),
                self.source().drawn(self.picture_placement(codec), codec),
                session_kind(codec),
                codec.options.compression_kind,
            )
    }

    /// The source stays as it is, and the answer is its encoded frame with
    /// its repeat interval.
    open spec fn hands_out(
        &self,
        after: &Self,
        answer: Result<(Vec<u8>, Option<u64>), RunError>,
    ) -> bool {
        &&& after.source() == self.source()
        &&& after.encoded() == self.encoded()
        &&& after.frame_interval() == self.frame_interval()
        &&& after.offsets() == self.offsets()
        &&& answer matches Ok((bytes, interval)) && bytes@ == self.encoded() && interval
            == self.frame_interval()
    }

    /// Encodes the picture for the session. Without compression this cannot
    /// fail; a failure leaves the source as it was.
    fn do_setup(&mut self, codec: &CodecData) -> (res: Result<(), String>) {
        let width: u32 = self.source.width();
        let height: u32 = self.source.height();
        let offset: PixOffset = place(
            codec,
            width as i32,
            height as i32,
            self.width_offset,
            self.height_offset,
        );
        match self.source.encode(&offset, codec) {
            Ok((_, bytes)) => {
                self.data = bytes;
                Ok(())
            },
            Err(e) => Err(io_error_text(&e)),
        }
    }

    /// Hands out the encoded frame, with the repeat interval if there is one.
    fn get_next_data(&mut self) -> (res: Result<(Vec<u8>, Option<u64>), RunError>) {
        let bytes: Vec<u8> = self.data.clone();
        assert(bytes@ =~= self.data@);
        Ok((bytes, self.frame_interval))
    }
}

} // verus!
