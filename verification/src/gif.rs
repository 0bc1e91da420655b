//! An animation: every frame is encoded once, then the frames are played in
//! a cycle without end.

use vstd::prelude::*;
use crate::codec::{CodecData, DataProducer, RunError};
use crate::pixelcollector::{io_error_text, is_sized_frame_of, session_kind, PixOffset};
use crate::raster::{place, placement, RawFrame};

verus! {

/// One frame, ready for the wire, with the length that its serialization had
/// before compression.
pub struct EncodedFrame {
    pub bytes: Vec<u8>,
    pub logical_len: usize,
}

/// An animated picture as a source of frames.
pub struct Gif {
    frame_time: u64,
    height_offset: i32,
    width_offset: i32,
    source: Vec<RawFrame>,
    frames: Vec<EncodedFrame>,
    frame_num: usize,
}

/// Files the outcome of encoding one decoded frame. A frame that was encoded
/// goes to the end of `frames`, with its logical length; a failure is handed
/// on and leaves `frames` as they are.
pub fn file_frame(
    frames: &mut Vec<EncodedFrame>,
    outcome: Result<(usize, Vec<u8>), std::io::Error>,
) -> (res: Result<(), std::io::Error>)
    ensures
        match outcome {
            Ok((logical_len, bytes)) => res is Ok && final(frames)@ == old(frames)@.push(
                EncodedFrame { bytes, logical_len },
            ),
            Err(e) => res == Err::<(), std::io::Error>(e) && final(frames)@ == old(frames)@,
        },
{
    match outcome {
        Ok((logical_len, bytes)) => {
            frames.push(EncodedFrame { bytes, logical_len });
            Ok(())
        },
        Err(e) => Err(e),
    }
}

/// The index of the frame that follows `current` in a cycle of `count`.
pub open spec fn next_frame_index(current: int, count: int) -> int {
    if current + 1 < count {
        current + 1
    } else {
        0
    }
}

impl Gif {
    /// The decoded frames, in playback order.
    pub closed spec fn source(self) -> Seq<RawFrame> {
        self.source@
    }

    /// The encoded frames, in playback order.
    pub closed spec fn frames(self) -> Seq<EncodedFrame> {
        self.frames@
    }

    /// The index of the frame that was handed out last.
    pub closed spec fn frame_num(self) -> int {
        self.frame_num as int
    }

    /// The target interval between frames, in microseconds.
    pub closed spec fn frame_time(self) -> u64 {
        self.frame_time
    }

    /// The requested horizontal and vertical offsets.
    pub closed spec fn offsets(self) -> (i32, i32) {
        (self.width_offset, self.height_offset)
    }

    /// Where the frames of this animation go on the canvas of a session: the
    /// extent of the first frame places them all.
    pub open spec fn frame_placement(self, codec: CodecData) -> PixOffset {
        placement(
            codec,
            self.source()[0].spec_width() as i32,
            self.source()[0].spec_height() as i32,
            self.offsets().0,
            self.offsets().1,
        )
    }

    /// An animation of the given decoded frames, to be played with
    /// `frame_time` microseconds between frames.
    pub fn new(source: Vec<RawFrame>, frame_time: u64, width_offset: i32, height_offset: i32) -> (gif:
        Gif)
        ensures
            gif.source() == source@,
            gif.frames() == Seq::<EncodedFrame>::empty(),
            gif.frame_num() == 0,
            gif.frame_time() == frame_time,
            gif.offsets() == (width_offset, height_offset),
    {
        Gif { frame_time, height_offset, width_offset, source, frames: Vec::new(), frame_num: 0 }
    }

    /// The decoded frames, in playback order.
    pub fn source_frames(&self) -> (frames: &Vec<RawFrame>)
        ensures
            frames@ == self.source(),
    {
        &self.source
    }

    /// Where the frames go on the canvas of a session; nothing where the
    /// animation has no frame.
    pub fn placement_for(&self, codec: &CodecData) -> (offset: Option<PixOffset>)
        ensures
            offset is Some <==> self.source().len() > 0,
            offset matches Some(o) ==> o == self.frame_placement(*codec),
    {
        if self.source.len() == 0 {
            return None;
        }
        let width: u32 = self.source[0].width();
        let height: u32 = self.source[0].height();
        Some(place(codec, width as i32, height as i32, self.width_offset, self.height_offset))
    }

    /// Takes frames that were encoded elsewhere, in playback order, and
    /// starts the cycle anew.
    pub fn install(&mut self, frames: Vec<EncodedFrame>)
        ensures
            final(self).frames() == frames@,
            final(self).frame_num() == 0,
            final(self).source() == old(self).source(),
            final(self).frame_time() == old(self).frame_time(),
            final(self).offsets() == old(self).offsets(),
    {
        self.frames = frames;
        self.frame_num = 0;
    }

    /// The encoded frames, in playback order.
    pub fn encoded_frames(&self) -> (frames: &Vec<EncodedFrame>)
        ensures
            frames@ == self.frames(),
    {
        &self.frames
    }
}

impl DataProducer for Gif {
    /// Setting up leaves the decoded frames, the frame time and the offsets
    /// as they are. It succeeds whenever no compression is asked for, and
    /// then there is one encoded frame for each decoded frame, in the same
    /// order, and the cycle starts anew; a failure leaves the encoded frames
    /// as they were.
    open spec fn sets_up(&self, after: &Self, codec: CodecData, answer: Result<(), String>) -> bool {
        &&& codec.options.compression_kind is None ==> answer is Ok
        &&& after.source() == self.source()
        &&& after.frame_time() == self.frame_time()
        &&& after.offsets() == self.offsets()
        &&& answer is Err ==> after.frames() == self.frames() && after.frame_num()
                == self.frame_num()
        &&& answer is Ok ==> after.frame_num() == 0
        &&& answer is Ok ==> after.frames().len() == self.source().len()
        &&& answer is Ok ==> forall|i: int|
                0 <= i < self.source().len() ==> is_sized_frame_of(
                    (#[trigger] after.frames()[i]).bytes@,
                    after.frames()[i].logical_len as int,
                    self.source()[i].drawn(self.frame_placement(codec), codec),
                    session_kind(codec),
                    codec.options.compression_kind,
                )
    }

    /// An animation without frames stays as it is and has nothing to give.
    /// Any other moves on to the frame that follows in the cycle, and the
    /// answer is that frame with the target interval.
    open spec fn hands_out(
        &self,
        after: &Self,
        answer: Result<(Vec<u8>, Option<u64>), RunError>,
    ) -> bool {
        &&& after.source() == self.source()
        &&& after.frames() == self.frames()
        &&& after.frame_time() == self.frame_time()
        &&& after.offsets() == self.offsets()
        &&& self.frames().len() == 0 ==> (answer matches Err(RunError::ClientDataFinished))
            && after.frame_num() == self.frame_num()
        &&& self.frames().len() > 0 ==> after.frame_num() == next_frame_index(
            self.frame_num(),
            self.frames().len() as int,
        ) && (answer matches Ok((bytes, interval)) && bytes@ == self.frames()[after.frame_num()].bytes@
            && interval == Some(self.frame_time()))
    }

    /// Encodes every decoded frame for the session, in order: afterwards the
    /// encoded frame at each index is a frame of the decoded frame at that
    /// index. Without compression this cannot fail; a failure leaves the
    /// animation as it was.
    fn do_setup(&mut self, data: &CodecData) -> (res: Result<(), String>) {
        let mut frames: Vec<EncodedFrame> = Vec::new();
        let n: usize = self.source.len();
        let offset: PixOffset = match self.placement_for(data) {
            Some(offset) => offset,
            None => {
                self.install(frames);
                return Ok(());
            },
        };
        let mut i: usize = 0;
        while i < n
            invariant
                *self == *old(self),
                n == self.source@.len(),
                0 <= i <= n,
                offset == self.frame_placement(*data),
                frames@.len() == i,
                forall|j: int|
                    0 <= j < i ==> is_sized_frame_of(
                        (#[trigger] frames@[j]).bytes@,
                        frames@[j].logical_len as int,
                        self.source@[j].drawn(offset, *data),
                        session_kind(*data),
                        data.options.compression_kind,
                    ),
            decreases n - i,
        {
            let outcome = self.source[i].encode(&offset, data);
            match file_frame(&mut frames, outcome) {
                Ok(()) => {},
                Err(e) => {
                    return Err(io_error_text(&e));
                },
            }
            i += 1;
        }
        self.install(frames);
        Ok(())
    }

    /// Hands out the frame that follows the last one in the cycle, with the
    /// target interval. An animation without frames has nothing to hand out.
    fn get_next_data(&mut self) -> (res: Result<(Vec<u8>, Option<u64>), RunError>) {
        let count: usize = self.frames.len();
        if count == 0 {
            return Err(RunError::ClientDataFinished);
        }
        let next: usize = if self.frame_num < count - 1 {
            self.frame_num + 1
        } else {
            0
        };
        self.frame_num = next;
        let bytes: Vec<u8> = self.frames[next].bytes.clone();
        assert(bytes@ =~= self.frames@[next as int].bytes@);
        Ok((bytes, Some(self.frame_time)))
    }
}

} // verus!
