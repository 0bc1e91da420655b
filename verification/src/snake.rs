//! A walker that wanders over the canvas and leaves a trail, bouncing off the
//! edges. It needs no picture and never ends.

use vstd::prelude::*;
use crate::codec::{CodecData, DataProducer, RunError, MINIMAL_INTERVAL};
use crate::color::Color;
use crate::pixelcollector::{
    clip_extent,
    is_ordered_frame_of,
    session_extent,
    session_kind,
    PixelCollector,
};
use crate::span::{all_kept, collect_all, in_rect, lemma_rect_members, rect, rect_of};
use crate::wire::LogicalPixel;

verus! {

/// The horizontal displacement that a walker starts with.
pub const INITIAL_DX: i32 = 2;

/// The vertical displacement that a walker starts with.
pub const INITIAL_DY: i32 = 4;

/// The displacement of one step, in whole pixels. It is never zero in both
/// directions at once: a step always moves.
#[derive(Debug, Clone, Copy)]
pub struct Velocity {
    dx: i32,
    dy: i32,
}

impl Velocity {
    #[verifier::type_invariant]
    spec fn moves(self) -> bool {
        self.dx != 0 || self.dy != 0
    }

    /// The displacement, horizontal then vertical.
    pub closed spec fn delta(self) -> (int, int) {
        (self.dx as int, self.dy as int)
    }

    /// A velocity of the given displacement, unless that is zero in both
    /// directions.
    pub fn new(dx: i32, dy: i32) -> (res: Option<Velocity>)
        ensures
            res is Some <==> dx != 0 || dy != 0,
            res matches Some(v) ==> v.delta() == (dx as int, dy as int),
    {
        if dx == 0 && dy == 0 {
            None
        } else {
            Some(Velocity { dx, dy })
        }
    }

    /// The displacement, horizontal then vertical.
    pub fn get_delta_p(&self) -> (d: (i32, i32))
        ensures
            (d.0 as int, d.1 as int) == self.delta(),
            d.0 != 0 || d.1 != 0,
    {
        proof {
            use_type_invariant(self);
        }
        (self.dx, self.dy)
    }
}

/// The coordinate nearest to `v` on an axis of the given extent; zero where
/// the extent is zero.
pub open spec fn clamp_to(v: int, extent: int) -> int {
    if v < 0 || extent <= 0 {
        0
    } else if v >= extent {
        extent - 1
    } else {
        v
    }
}

/// The smaller of two numbers.
pub open spec fn lower(a: int, b: int) -> int {
    if a < b {
        a
    } else {
        b
    }
}

/// The larger of two numbers.
pub open spec fn upper(a: int, b: int) -> int {
    if a < b {
        b
    } else {
        a
    }
}

/// The trail of a step from `tail` to `head` in `color` on the canvas of
/// `codec`: every position in the span between the two, the larger coordinate
/// of each axis excluded, as far as it lies on the canvas; nothing where the
/// colour is transparent.
pub open spec fn trail(tail: (int, int), head: (int, int), color: Color, codec: CodecData) -> Seq<
    LogicalPixel,
> {
    if color.visible() {
        rect(
            lower(tail.0, head.0),
            lower(upper(tail.0, head.0), session_extent(codec.window.x_width)),
            lower(tail.1, head.1),
            lower(upper(tail.1, head.1), session_extent(codec.window.y_height)),
            color,
        )
    } else {
        Seq::<LogicalPixel>::empty()
    }
}

/// The walker.
pub struct Snake {
    x: i32,
    y: i32,
    direction: Velocity,
    color: Color,
    codec_data: Option<CodecData>,
    turning: bool,
}

fn clamp_step(v: i64, extent: i32) -> (c: i32)
    requires
        0 <= extent <= 65536,
    ensures
        c == clamp_to(v as int, extent as int),
        0 <= c < 65536,
{
    if v < 0 || extent <= 0 {
        0
    } else if v >= extent as i64 {
        extent - 1
    } else {
        v as i32
    }
}

impl Snake {
    #[verifier::type_invariant]
    spec fn on_canvas(self) -> bool {
        0 <= self.x < 65536 && 0 <= self.y < 65536
    }

    /// Where the walker stands.
    pub closed spec fn position(self) -> (int, int) {
        (self.x as int, self.y as int)
    }

    /// The displacement of the next step.
    pub closed spec fn direction(self) -> Velocity {
        self.direction
    }

    /// The colour of the trail.
    pub closed spec fn color(self) -> Color {
        self.color
    }

    /// The session that the walker was set up for, if any.
    pub closed spec fn session(self) -> Option<CodecData> {
        self.codec_data
    }

    /// Whether the walker has hit an edge and waits for a new direction.
    pub closed spec fn turning(self) -> bool {
        self.turning
    }

    /// Where a step from `from` ends on the canvas of `codec`: the
    /// displacement is added and the result held to the canvas.
    pub open spec fn step_end(self, from: (int, int), codec: CodecData) -> (int, int) {
        (
            clamp_to(from.0 + self.direction().delta().0, session_extent(codec.window.x_width)),
            clamp_to(from.1 + self.direction().delta().1, session_extent(codec.window.y_height)),
        )
    }

    /// Whether a step from `from` runs into an edge of the canvas of `codec`.
    pub open spec fn hits_edge(self, from: (int, int), codec: CodecData) -> bool {
        self.step_end(from, codec) != (
            from.0 + self.direction().delta().0,
            from.1 + self.direction().delta().1,
        )
    }

    /// A walker in the top left corner with a random colour.
    pub fn new() -> (snake: Snake)
        ensures
            snake.position() == (0int, 0int),
            snake.direction().delta() == (INITIAL_DX as int, INITIAL_DY as int),
            snake.session() is None,
            !snake.turning(),
    {
        Snake::colored(Color::random())
    }

    /// A walker in the top left corner with the given colour.
    pub fn colored(color: Color) -> (snake: Snake)
        ensures
            snake.position() == (0int, 0int),
            snake.direction().delta() == (INITIAL_DX as int, INITIAL_DY as int),
            snake.color() == color,
            snake.session() is None,
            !snake.turning(),
    {
        Snake {
            x: 0,
            y: 0,
            direction: Velocity { dx: INITIAL_DX, dy: INITIAL_DY },
            color,
            codec_data: None,
            turning: false,
        }
    }

    /// Whether the walker has hit an edge since it was last given a
    /// direction.
    pub fn needs_direction(&self) -> (b: bool)
        ensures
            b == self.turning(),
    {
        self.turning
    }

    /// Gives the walker a new direction.
    pub fn change_direction(&mut self, direction: Velocity)
        ensures
            final(self).direction() == direction,
            !final(self).turning(),
            final(self).position() == old(self).position(),
            final(self).color() == old(self).color(),
            final(self).session() == old(self).session(),
    {
        proof {
            use_type_invariant(&*self);
        }
        self.direction = direction;
        self.turning = false;
    }

    /// Moves the walker one step on the canvas of `codec` and returns where
    /// the step started. A step that runs into an edge ends at the edge, and
    /// the walker then takes a new random colour and waits for a new
    /// direction.
    pub fn advance(&mut self, codec: &CodecData) -> (tail: (i32, i32))
        ensures
            (tail.0 as int, tail.1 as int) == old(self).position(),
            final(self).position() == old(self).step_end(old(self).position(), *codec),
            final(self).direction() == old(self).direction(),
            final(self).session() == old(self).session(),
            final(self).turning() == (old(self).turning() || old(self).hits_edge(
                old(self).position(),
                *codec,
            )),
            !old(self).hits_edge(old(self).position(), *codec) ==> final(self).color()
                == old(self).color(),
            0 <= tail.0 < 65536,
            0 <= tail.1 < 65536,
    {
        proof {
            use_type_invariant(&*self);
        }
        let width: i32 = clip_extent(codec.window.get_x());
        let height: i32 = clip_extent(codec.window.get_y());
        let (dx, dy) = self.direction.get_delta_p();
        let tail_x: i32 = self.x;
        let tail_y: i32 = self.y;
        let to_x: i64 = tail_x as i64 + dx as i64;
        let to_y: i64 = tail_y as i64 + dy as i64;
        let x: i32 = clamp_step(to_x, width);
        let y: i32 = clamp_step(to_y, height);
        self.x = x;
        self.y = y;
        if x as i64 != to_x || y as i64 != to_y {
            self.color = Color::random();
            self.turning = true;
        }
        (tail_x, tail_y)
    }
}

impl DataProducer for Snake {
    /// Setting up always succeeds: the walker takes the session and stays
    /// otherwise as it is.
    open spec fn sets_up(&self, after: &Self, codec: CodecData, answer: Result<(), String>) -> bool {
        &&& answer is Ok
        &&& after.session() == Some(codec)
        &&& after.position() == self.position()
        &&& after.direction() == self.direction()
        &&& after.color() == self.color()
        &&& after.turning() == self.turning()
    }

    /// A walker that was never set up stays as it is and has nothing to
    /// give. Any other moves one step, and the answer is the trail of that
    /// step in the colour it had before, with the minimal interval; after a
    /// step into an edge it waits for a new direction.
    open spec fn hands_out(
        &self,
        after: &Self,
        answer: Result<(Vec<u8>, Option<u64>), RunError>,
    ) -> bool {
        &&& after.session() == self.session()
        &&& after.direction() == self.direction()
        &&& self.session() is None ==> (answer matches Err(RunError::ClientDataFinished))
            && after.position() == self.position() && after.color() == self.color()
            && after.turning() == self.turning()
        &&& self.session() matches Some(codec) ==> {
            &&& after.position() == self.step_end(self.position(), codec)
            &&& after.turning() == (self.turning() || self.hits_edge(
                self.position(),
                codec,
            ))
            &&& !self.hits_edge(self.position(), codec) ==> after.color() == self.color()
            &&& codec.options.compression_kind is None ==> answer is Ok
            &&& answer matches Err(e) ==> e is Io
            &&& answer matches Ok((bytes, interval)) ==> interval == Some(MINIMAL_INTERVAL)
                && is_ordered_frame_of(
                bytes@,
                trail(self.position(), after.position(), self.color(), codec),
                session_kind(codec),
                codec.options.compression_kind,
            )
        }
    }

    /// Takes the session whose canvas the walker is to wander over.
    fn do_setup(&mut self, codec: &CodecData) -> (res: Result<(), String>) {
        proof {
            use_type_invariant(&*self);
        }
        self.codec_data = Some(*codec);
        Ok(())
    }

    /// Moves one step and hands out the trail of that step, drawn in the
    /// colour the walker had before the step, with the minimal interval. A
    /// walker that was never set up has nothing to hand out.
    fn get_next_data(&mut self) -> (res: Result<(Vec<u8>, Option<u64>), RunError>) {
        let codec: CodecData = match self.codec_data {
            Some(codec) => codec,
            None => {
                return Err(RunError::ClientDataFinished);
            },
        };
        let color: Color = self.color;
        let width: i32 = clip_extent(codec.window.get_x());
        let height: i32 = clip_extent(codec.window.get_y());
        let tail: (i32, i32) = self.advance(&codec);
        proof {
            use_type_invariant(&*self);
        }
        let x0: i32 = if self.x < tail.0 {
            self.x
        } else {
            tail.0
        };
        let x_far: i32 = if self.x < tail.0 {
            tail.0
        } else {
            self.x
        };
        let x1: i32 = if x_far < width {
            x_far
        } else {
            width
        };
        let y0: i32 = if self.y < tail.1 {
            self.y
        } else {
            tail.1
        };
        let y_far: i32 = if self.y < tail.1 {
            tail.1
        } else {
            self.y
        };
        let y1: i32 = if y_far < height {
            y_far
        } else {
            height
        };
        let mut collector: PixelCollector = PixelCollector::for_session(&codec);
        if color.is_visible() {
            let list: Vec<LogicalPixel> = rect_of(x0, x1, y0, y1, color);
            proof {
                lemma_rect_members(x0 as int, x1 as int, y0 as int, y1 as int, color);
                assert forall|i: int| 0 <= i < list@.len() implies (#[trigger] list@[i]).color.visible()
                    && list@[i].x < collector.max_x() && list@[i].y < collector.max_y() by {
                    assert(in_rect(list@[i], x0 as int, x1 as int, y0 as int, y1 as int, color));
                }
                assert(all_kept(list@, collector.max_x(), collector.max_y()));
            }
            collect_all(&mut collector, &list);
            assert(collector.pixels() =~= list@);
        }
        match collector.into_bytes() {
            Ok((_, bytes)) => Ok((bytes, Some(MINIMAL_INTERVAL))),
            Err(e) => Err(RunError::Io(e)),
        }
    }
}

} // verus!
