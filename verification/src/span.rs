//! Rectangles of pixels in one colour, and feeding them to a collector.

use vstd::prelude::*;
use crate::color::Color;
use crate::pixelcollector::{PixelCollector, COORDINATE_LIMIT};
use crate::wire::LogicalPixel;

verus! {

/// The pixels of column `x` from row `y0` up to, not including, row `y1`, in
/// one colour.
pub open spec fn column_span(x: int, y0: int, y1: int, color: Color) -> Seq<LogicalPixel> {
    Seq::new(
        if y1 > y0 {
            (y1 - y0) as nat
        } else {
            0
        },
        |j: int| LogicalPixel { x: x as u16, y: (y0 + j) as u16, color },
    )
}

/// The pixels of the columns from `x0` up to, not including, `x1`, each from
/// row `y0` up to, not including, `y1`: column after column, in one colour.
pub open spec fn rect(x0: int, x1: int, y0: int, y1: int, color: Color) -> Seq<LogicalPixel>
    decreases x1 - x0,
{
    if x1 <= x0 {
        Seq::<LogicalPixel>::empty()
    } else {
        rect(x0, x1 - 1, y0, y1, color) + column_span(x1 - 1, y0, y1, color)
    }
}

/// Whether `p` has the given colour and lies in the columns from `x0` up to
/// `x1` and the rows from `y0` up to `y1`, upper bounds not included.
pub open spec fn in_rect(p: LogicalPixel, x0: int, x1: int, y0: int, y1: int, color: Color) -> bool {
    x0 <= p.x < x1 && y0 <= p.y < y1 && p.color == color
}

/// Every pixel of a rectangle lies within its bounds and has its colour.
pub proof fn lemma_rect_members(x0: int, x1: int, y0: int, y1: int, color: Color)
    requires
        0 <= x0,
        x1 <= COORDINATE_LIMIT,
        0 <= y0,
        y1 <= COORDINATE_LIMIT,
    ensures
        forall|i: int|
            0 <= i < rect(x0, x1, y0, y1, color).len() ==> in_rect(
                #[trigger] rect(x0, x1, y0, y1, color)[i],
                x0,
                x1,
                y0,
                y1,
                color,
            ),
    decreases x1 - x0,
{
    if x1 > x0 {
        lemma_rect_members(x0, x1 - 1, y0, y1, color);
        let before = rect(x0, x1 - 1, y0, y1, color);
        let last = column_span(x1 - 1, y0, y1, color);
        assert forall|i: int| 0 <= i < rect(x0, x1, y0, y1, color).len() implies in_rect(
            #[trigger] rect(x0, x1, y0, y1, color)[i],
            x0,
            x1,
            y0,
            y1,
            color,
        ) by {
            if i < before.len() {
                assert(rect(x0, x1, y0, y1, color)[i] == before[i]);
                assert(in_rect(before[i], x0, x1 - 1, y0, y1, color));
            } else {
                assert(rect(x0, x1, y0, y1, color)[i] == last[i - before.len()]);
            }
        }
    }
}

/// Lists the pixels of a rectangle.
pub fn rect_of(x0: i32, x1: i32, y0: i32, y1: i32, color: Color) -> (list: Vec<LogicalPixel>)
    requires
        0 <= x0,
        x1 <= COORDINATE_LIMIT,
        0 <= y0,
        y1 <= COORDINATE_LIMIT,
    ensures
        list@ == rect(x0 as int, x1 as int, y0 as int, y1 as int, color),
{
    let mut list: Vec<LogicalPixel> = Vec::new();
    let mut x: i32 = x0;
    if x1 <= x0 {
        return list;
    }
    while x < x1
        invariant
            0 <= x0 <= x <= x1 <= COORDINATE_LIMIT,
            0 <= y0,
            y1 <= COORDINATE_LIMIT,
            list@ == rect(x0 as int, x as int, y0 as int, y1 as int, color),
        decreases x1 - x,
    {
        let ghost before = list@;
        let mut y: i32 = y0;
        while y < y1
            invariant
                0 <= x < x1 <= COORDINATE_LIMIT,
                0 <= y0 <= y,
                y1 <= COORDINATE_LIMIT,
                y <= y1 || y == y0,
                list@ == before + column_span(x as int, y0 as int, y as int, color),
            decreases y1 - y,
        {
            list.push(LogicalPixel { x: x as u16, y: y as u16, color });
            assert(list@ =~= before + column_span(x as int, y0 as int, y + 1, color));
            y += 1;
        }
        assert(column_span(x as int, y0 as int, y as int, color) =~= column_span(
            x as int,
            y0 as int,
            y1 as int,
            color,
        ));
        assert(rect(x0 as int, x + 1, y0 as int, y1 as int, color) == rect(
            x0 as int,
            x as int,
            y0 as int,
            y1 as int,
            color,
        ) + column_span(x as int, y0 as int, y1 as int, color));
        x += 1;
    }
    list
}

/// Whether a collector of a canvas of `max_x` by `max_y` keeps every pixel
/// of `list`.
pub open spec fn all_kept(list: Seq<LogicalPixel>, max_x: int, max_y: int) -> bool {
    forall|i: int|
        0 <= i < list.len() ==> (#[trigger] list[i]).color.visible() && list[i].x < max_x
            && list[i].y < max_y
}

/// Offers every pixel of `list` to the collector, in order. All of them are
/// kept, so the collector then holds what it held before, followed by `list`.
pub fn collect_all(collector: &mut PixelCollector, list: &Vec<LogicalPixel>)
    requires
        old(collector).wf(),
        all_kept(list@, old(collector).max_x(), old(collector).max_y()),
    ensures
        final(collector).wf(),
        final(collector).kind() == old(collector).kind(),
        final(collector).compression() == old(collector).compression(),
        final(collector).max_x() == old(collector).max_x(),
        final(collector).max_y() == old(collector).max_y(),
        final(collector).pixels() == old(collector).pixels() + list@,
{
    let n: usize = list.len();
    let mut i: usize = 0;
    assert(collector.pixels() =~= old(collector).pixels() + list@.subrange(0, 0));
    while i < n
        invariant
            0 <= i <= n == list@.len(),
            all_kept(list@, collector.max_x(), collector.max_y()),
            collector.wf(),
            collector.kind() == old(collector).kind(),
            collector.compression() == old(collector).compression(),
            collector.max_x() == old(collector).max_x(),
            collector.max_y() == old(collector).max_y(),
            collector.pixels() == old(collector).pixels() + list@.subrange(0, i as int),
        decreases n - i,
    {
        let p: LogicalPixel = list[i];
        collector.add_pixel_colored(p.x as i32, p.y as i32, &p.color);
        assert(collector.pixels() =~= old(collector).pixels() + list@.subrange(0, i + 1));
        i += 1;
    }
    assert(list@.subrange(0, n as int) =~= list@);
}

} // verus!
