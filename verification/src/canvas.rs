//! A local picture of the canvas: a grid of pixels that can be painted on and
//! then encoded as one frame.

use vstd::prelude::*;
use crate::color::Color;
use crate::letters::{Letter, LETTER_HEIGHT, LETTER_WIDTH};
use crate::pixelcollector::{
    collected,
    is_frame_of,
    is_ordered_frame_of,
    PixelCollector,
    COORDINATE_LIMIT,
};
use crate::window::Window;
use crate::wire::{LogicalPixel, PixelCollectorKind};

verus! {

/// A cell of the canvas: a colour whose alpha is always present.
#[derive(Clone, Copy, Debug, PartialEq, Eq, Structural)]
pub struct Pixel {
    pub r: u8,
    pub g: u8,
    pub b: u8,
    pub a: u8,
}

impl Default for Pixel {
    /// Transparent black.
    fn default() -> (p: Pixel)
        ensures
            p == (Pixel { r: 0, g: 0, b: 0, a: 0 }),
    {
        Pixel { r: 0, g: 0, b: 0, a: 0 }
    }
}

impl Pixel {
    /// The cell that a colour paints: a missing alpha counts as opaque.
    pub open spec fn of(color: Color) -> Pixel {
        Pixel { r: color.r, g: color.g, b: color.b, a: color.wire_alpha() }
    }

    /// The colour of this cell.
    pub open spec fn color(self) -> Color {
        Color { r: self.r, g: self.g, b: self.b, a: Some(self.a) }
    }

    /// The cell that a colour paints.
    pub fn from_color(color: &Color) -> (p: Pixel)
        ensures
            p == Pixel::of(*color),
    {
        let a: u8 = match color.a {
            Some(value) => value,
            None => 0xFF,
        };
        Pixel { r: color.r, g: color.g, b: color.b, a }
    }

    /// Overwrites this cell with another.
    pub fn copy(&mut self, value: &Pixel)
        ensures
            *final(self) == *value,
    {
        self.r = value.r;
        self.g = value.g;
        self.b = value.b;
        self.a = value.a;
    }
}

/// A grid of cells, column after column, as large as the window.
pub struct Canvas {
    window: Window,
    pixels: Vec<Pixel>,
}

/// The index of the cell at `(x, y)` on a canvas of `width` by `height`:
/// positions beyond the canvas wrap around.
pub open spec fn cell_index(x: int, y: int, width: int, height: int) -> int {
    (x % width) * height + (y % height)
}

/// What a collector without bounds of its own holds after the first `n`
/// cells of the region of `columns` by `rows` in the top left corner were
/// offered to it, column after column.
pub open spec fn region_pixels(cells: Seq<Pixel>, height: int, rows: int, n: nat) -> Seq<
    LogicalPixel,
>
    decreases n,
{
    if n == 0 {
        Seq::<LogicalPixel>::empty()
    } else {
        let i = n - 1;
        collected(
            region_pixels(cells, height, rows, i as nat),
            i / rows,
            i % rows,
            cells[(i / rows) * height + i % rows].color(),
            COORDINATE_LIMIT as int,
            COORDINATE_LIMIT as int,
        )
    }
}

proof fn lemma_cell_in_range(column: int, row: int, width: int, height: int)
    requires
        0 <= column < width,
        0 <= row < height,
    ensures
        0 <= column * height,
        0 <= column * height + row < width * height,
{
    assert(0 <= column * height && column * height + height <= width * height)
        by (nonlinear_arith)
        requires
            0 <= column < width,
            0 < height,
    ;
}

proof fn lemma_region_in_range(columns: int, rows: int, width: int, height: int)
    requires
        0 <= columns <= width,
        0 <= rows <= height,
    ensures
        0 <= columns * rows <= width * height,
{
    assert(0 <= columns * rows <= width * height) by (nonlinear_arith)
        requires
            0 <= columns <= width,
            0 <= rows <= height,
    ;
}

proof fn lemma_scaled_offset(scale: int, cell: int, within: int, cells: int)
    requires
        0 <= cell < cells,
        0 <= within < scale,
    ensures
        0 <= scale * cell,
        scale * cell + within < scale * cells,
{
    assert(0 <= scale * cell && scale * cell + scale <= scale * cells) by (nonlinear_arith)
        requires
            0 <= cell < cells,
            0 < scale,
    ;
}

/// Whether the cell in column `lx` and row `ly` of a glyph is drawn.
pub open spec fn lit(letter: Letter, lx: int, ly: int) -> bool {
    letter[lx + ly * 5] == 1
}

/// The index of the canvas cell that the glyph cell `(lx, ly)` paints at
/// `(sx, sy)` within its square of `scale` by `scale`, for a glyph drawn at
/// `(x, y)` on a canvas of `width` by `height`.
pub open spec fn letter_cell(
    x: int,
    y: int,
    scale: int,
    lx: int,
    ly: int,
    sx: int,
    sy: int,
    width: int,
    height: int,
) -> int {
    cell_index(x + scale * lx + sx, y + scale * ly + sy, width, height)
}

/// Whether the glyph, drawn at `(x, y)` with the given scale, paints the
/// canvas cell with index `k`.
pub open spec fn letter_covers(
    k: int,
    letter: Letter,
    x: int,
    y: int,
    scale: int,
    width: int,
    height: int,
) -> bool {
    exists|lx: int, ly: int, sx: int, sy: int|
        0 <= lx < 5 && 0 <= ly < 7 && 0 <= sx < scale && 0 <= sy < scale && lit(letter, lx, ly)
            && #[trigger] letter_cell(x, y, scale, lx, ly, sx, sy, width, height) == k
}

/// The record form for a choice between binary and text.
pub open spec fn kind_of(binary: bool) -> PixelCollectorKind {
    if binary {
        PixelCollectorKind::Binary
    } else {
        PixelCollectorKind::Text
    }
}

impl Canvas {
    /// What every canvas satisfies: the window is not empty, and there is one
    /// cell for each of its positions.
    pub closed spec fn wf(self) -> bool {
        &&& self.dimensions().x_width > 0
        &&& self.dimensions().y_height > 0
        &&& self.pixels@.len() == self.dimensions().x_width * self.dimensions().y_height
    }

    /// The window that the canvas was made for.
    pub closed spec fn dimensions(self) -> Window {
        self.window
    }

    /// The cells, column after column.
    pub closed spec fn cells(self) -> Seq<Pixel> {
        self.pixels@
    }

    /// A canvas for the window, every cell transparent black.
    pub fn new(window: Window) -> (canvas: Canvas)
        requires
            window.x_width > 0,
            window.y_height > 0,
            window.x_width * window.y_height <= usize::MAX,
        ensures
            canvas.wf(),
            canvas.dimensions() == window,
            canvas.cells() == Seq::new(
                (window.x_width * window.y_height) as nat,
                |i: int| Pixel { r: 0, g: 0, b: 0, a: 0 },
            ),
    {
        let total: usize = window.get_x() * window.get_y();
        let mut pixels: Vec<Pixel> = Vec::new();
        let mut i: usize = 0;
        while i < total
            invariant
                0 <= i <= total,
                pixels@ == Seq::new(i as nat, |j: int| Pixel { r: 0, g: 0, b: 0, a: 0 }),
            decreases total - i,
        {
            pixels.push(Pixel::default());
            assert(pixels@ =~= Seq::new((i + 1) as nat, |j: int| Pixel { r: 0, g: 0, b: 0, a: 0 }));
            i += 1;
        }
        Canvas { window, pixels }
    }

    /// The index of the cell at `(x, y)`; positions beyond the canvas wrap
    /// around.
    pub fn calc_index(&self, x: usize, y: usize) -> (index: usize)
        requires
            self.wf(),
        ensures
            index == cell_index(
                x as int,
                y as int,
                self.dimensions().x_width as int,
                self.dimensions().y_height as int,
            ),
            index < self.cells().len(),
    {
        let width: usize = self.window.get_x();
        let height: usize = self.window.get_y();
        let count: usize = self.pixels.len();
        let column: usize = x % width;
        let row: usize = y % height;
        proof {
            lemma_cell_in_range(column as int, row as int, width as int, height as int);
        }
        column * height + row
    }

    /// The cell at `(x, y)`.
    pub fn get_pixel(&self, x: usize, y: usize) -> (p: &Pixel)
        requires
            self.wf(),
        ensures
            *p == self.cells()[cell_index(
                x as int,
                y as int,
                self.dimensions().x_width as int,
                self.dimensions().y_height as int,
            )],
    {
        let index: usize = self.calc_index(x, y);
        &self.pixels[index]
    }

    /// The cell at `(x, y)`, to be changed in place.
    pub fn get_pixel_mut(&mut self, x: usize, y: usize) -> (p: &mut Pixel)
        requires
            old(self).wf(),
        ensures
            *p == old(self).cells()[cell_index(
                x as int,
                y as int,
                old(self).dimensions().x_width as int,
                old(self).dimensions().y_height as int,
            )],
            final(self).wf(),
            final(self).dimensions() == old(self).dimensions(),
            final(self).cells() == old(self).cells().update(
                cell_index(
                    x as int,
                    y as int,
                    old(self).dimensions().x_width as int,
                    old(self).dimensions().y_height as int,
                ),
                *final(p),
            ),
    {
        let index: usize = self.calc_index(x, y);
        &mut self.pixels[index]
    }

    /// Overwrites the cell at `(x, y)`.
    pub fn set_pixel(&mut self, x: usize, y: usize, value: &Pixel)
        requires
            old(self).wf(),
        ensures
            final(self).wf(),
            final(self).dimensions() == old(self).dimensions(),
            final(self).cells() == old(self).cells().update(
                cell_index(
                    x as int,
                    y as int,
                    old(self).dimensions().x_width as int,
                    old(self).dimensions().y_height as int,
                ),
                *value,
            ),
    {
        let index: usize = self.calc_index(x, y);
        self.pixels[index] = *value;
    }

    /// Paints every cell in one colour.
    pub fn fill(&mut self, color: &Color)
        requires
            old(self).wf(),
        ensures
            final(self).wf(),
            final(self).dimensions() == old(self).dimensions(),
            final(self).cells() == Seq::new(old(self).cells().len(), |i: int| Pixel::of(*color)),
    {
        let pen: Pixel = Pixel::from_color(color);
        let n: usize = self.pixels.len();
        let mut i: usize = 0;
        while i < n
            invariant
                0 <= i <= n == self.pixels@.len(),
                n == old(self).pixels@.len(),
                self.window == old(self).window,
                pen == Pixel::of(*color),
                forall|j: int| 0 <= j < i ==> self.pixels@[j] == pen,
            decreases n - i,
        {
            self.pixels[i] = pen;
            i += 1;
        }
        assert(self.pixels@ =~= Seq::new(old(self).cells().len(), |i: int| Pixel::of(*color)));
    }

    /// The window that the canvas was made for.
    pub fn get_window(&self) -> (w: &Window)
        ensures
            *w == self.dimensions(),
    {
        &self.window
    }

    /// Draws a glyph with its top left corner at `(x, y)`, each of its cells
    /// as a square of `scale` by `scale` canvas cells. The cells of the canvas
    /// that a drawn glyph cell covers take the colour; all others stay as
    /// they are. What reaches beyond the canvas wraps around.
    pub fn draw_letter(&mut self, letter: &Letter, x: usize, y: usize, color: &Color, scale: usize)
        requires
            old(self).wf(),
            x + scale * 5 <= usize::MAX,
            y + scale * 7 <= usize::MAX,
        ensures
            final(self).wf(),
            final(self).dimensions() == old(self).dimensions(),
            final(self).cells().len() == old(self).cells().len(),
            forall|k: int|
                0 <= k < old(self).cells().len() ==> final(self).cells()[k] == if letter_covers(
                    k,
                    *letter,
                    x as int,
                    y as int,
                    scale as int,
                    old(self).dimensions().x_width as int,
                    old(self).dimensions().y_height as int,
                ) {
                    Pixel::of(*color)
                } else {
                    old(self).cells()[k]
                },
    {
        let pen: Pixel = Pixel::from_color(color);
        let ghost w = self.window.x_width as int;
        let ghost h = self.window.y_height as int;
        let ghost before = self.pixels@;
        let ghost xi = x as int;
        let ghost yi = y as int;
        let ghost sc = scale as int;
        let mut lx: usize = 0;
        while lx < LETTER_WIDTH
            invariant
                0 <= lx <= 5,
                self.wf(),
                self.window == old(self).window,
                w == self.window.x_width,
                h == self.window.y_height,
                before == old(self).pixels@,
                xi == x,
                yi == y,
                sc == scale,
                self.pixels@.len() == before.len(),
                pen == Pixel::of(*color),
                x + scale * 5 <= usize::MAX,
                y + scale * 7 <= usize::MAX,
                forall|k: int|
                    0 <= k < before.len() ==> self.pixels@[k] == #[trigger] before[k] || (self.pixels@[k] == pen
                        && letter_covers(k, *letter, xi, yi, sc, w, h)),
                forall|a: int, b: int, c: int, d: int|
                    0 <= a < lx && 0 <= b < 7 && 0 <= c < sc && 0 <= d < sc && lit(*letter, a, b) ==> {
                        let k = #[trigger] letter_cell(xi, yi, sc, a, b, c, d, w, h);
                        0 <= k < before.len() && self.pixels@[k] == pen
                    },
            decreases 5 - lx,
        {
            let mut ly: usize = 0;
            while ly < LETTER_HEIGHT
                invariant
                    0 <= lx < 5,
                    0 <= ly <= 7,
                    self.wf(),
                    self.window == old(self).window,
                    w == self.window.x_width,
                    h == self.window.y_height,
                    before == old(self).pixels@,
                    xi == x,
                    yi == y,
                    sc == scale,
                    self.pixels@.len() == before.len(),
                    pen == Pixel::of(*color),
                    x + scale * 5 <= usize::MAX,
                    y + scale * 7 <= usize::MAX,
                    forall|k: int|
                        0 <= k < before.len() ==> self.pixels@[k] == #[trigger] before[k] || (self.pixels@[k]
                            == pen && letter_covers(k, *letter, xi, yi, sc, w, h)),
                    forall|a: int, b: int, c: int, d: int|
                        0 <= a < lx && 0 <= b < 7 && 0 <= c < sc && 0 <= d < sc && lit(*letter, a, b)
                            ==> {
                            let k = #[trigger] letter_cell(xi, yi, sc, a, b, c, d, w, h);
                            0 <= k < before.len() && self.pixels@[k] == pen
                        },
                    forall|b: int, c: int, d: int|
                        0 <= b < ly && 0 <= c < sc && 0 <= d < sc && lit(*letter, lx as int, b) ==> {
                            let k = #[trigger] letter_cell(xi, yi, sc, lx as int, b, c, d, w, h);
                            0 <= k < before.len() && self.pixels@[k] == pen
                        },
                decreases 7 - ly,
            {
                if letter[lx + ly * LETTER_WIDTH] == 1 {
                    let mut sx: usize = 0;
                    while sx < scale
                        invariant
                            0 <= lx < 5,
                            0 <= ly < 7,
                            0 <= sx <= scale,
                            lit(*letter, lx as int, ly as int),
                            self.wf(),
                            self.window == old(self).window,
                            w == self.window.x_width,
                            h == self.window.y_height,
                            before == old(self).pixels@,
                            xi == x,
                            yi == y,
                            sc == scale,
                            self.pixels@.len() == before.len(),
                            pen == Pixel::of(*color),
                            x + scale * 5 <= usize::MAX,
                            y + scale * 7 <= usize::MAX,
                            forall|k: int|
                                0 <= k < before.len() ==> self.pixels@[k] == #[trigger] before[k] || (
                                self.pixels@[k] == pen && letter_covers(
                                    k,
                                    *letter,
                                    xi,
                                    yi,
                                    sc,
                                    w,
                                    h,
                                )),
                            forall|a: int, b: int, c: int, d: int|
                                0 <= a < lx && 0 <= b < 7 && 0 <= c < sc && 0 <= d < sc && lit(
                                    *letter,
                                    a,
                                    b,
                                ) ==> {
                                    let k = #[trigger] letter_cell(xi, yi, sc, a, b, c, d, w, h);
                                    0 <= k < before.len() && self.pixels@[k] == pen
                                },
                            forall|b: int, c: int, d: int|
                                0 <= b < ly && 0 <= c < sc && 0 <= d < sc && lit(
                                    *letter,
                                    lx as int,
                                    b,
                                ) ==> {
                                    let k = #[trigger] letter_cell(
                                        xi,
                                        yi,
                                        sc,
                                        lx as int,
                                        b,
                                        c,
                                        d,
                                        w,
                                        h,
                                    );
                                    0 <= k < before.len() && self.pixels@[k] == pen
                                },
                            forall|c: int, d: int|
                                0 <= c < sx && 0 <= d < sc ==> {
                                    let k = #[trigger] letter_cell(
                                        xi,
                                        yi,
                                        sc,
                                        lx as int,
                                        ly as int,
                                        c,
                                        d,
                                        w,
                                        h,
                                    );
                                    0 <= k < before.len() && self.pixels@[k] == pen
                                },
                        decreases scale - sx,
                    {
                        let mut sy: usize = 0;
                        while sy < scale
                            invariant
                                0 <= lx < 5,
                                0 <= ly < 7,
                                0 <= sx < scale,
                                0 <= sy <= scale,
                                lit(*letter, lx as int, ly as int),
                                self.wf(),
                                self.window == old(self).window,
                                w == self.window.x_width,
                                h == self.window.y_height,
                                before == old(self).pixels@,
                                xi == x,
                                yi == y,
                                sc == scale,
                                self.pixels@.len() == before.len(),
                                pen == Pixel::of(*color),
                                x + scale * 5 <= usize::MAX,
                                y + scale * 7 <= usize::MAX,
                                forall|k: int|
                                    0 <= k < before.len() ==> self.pixels@[k] == #[trigger] before[k] || (
                                    self.pixels@[k] == pen && letter_covers(
                                        k,
                                        *letter,
                                        xi,
                                        yi,
                                        sc,
                                        w,
                                        h,
                                    )),
                                forall|a: int, b: int, c: int, d: int|
                                    0 <= a < lx && 0 <= b < 7 && 0 <= c < sc && 0 <= d < sc && lit(
                                        *letter,
                                        a,
                                        b,
                                    ) ==> {
                                        let k = #[trigger] letter_cell(xi, yi, sc, a, b, c, d, w, h);
                                        0 <= k < before.len() && self.pixels@[k] == pen
                                    },
                                forall|b: int, c: int, d: int|
                                    0 <= b < ly && 0 <= c < sc && 0 <= d < sc && lit(
                                        *letter,
                                        lx as int,
                                        b,
                                    ) ==> {
                                        let k = #[trigger] letter_cell(
                                            xi,
                                            yi,
                                            sc,
                                            lx as int,
                                            b,
                                            c,
                                            d,
                                            w,
                                            h,
                                        );
                                        0 <= k < before.len() && self.pixels@[k] == pen
                                    },
                                forall|c: int, d: int|
                                    0 <= c < sx && 0 <= d < sc ==> {
                                        let k = #[trigger] letter_cell(
                                            xi,
                                            yi,
                                            sc,
                                            lx as int,
                                            ly as int,
                                            c,
                                            d,
                                            w,
                                            h,
                                        );
                                        0 <= k < before.len() && self.pixels@[k] == pen
                                    },
                                forall|d: int|
                                    0 <= d < sy ==> {
                                        let k = #[trigger] letter_cell(
                                            xi,
                                            yi,
                                            sc,
                                            lx as int,
                                            ly as int,
                                            sx as int,
                                            d,
                                            w,
                                            h,
                                        );
                                        0 <= k < before.len() && self.pixels@[k] == pen
                                    },
                            decreases scale - sy,
                        {
                            proof {
                                lemma_scaled_offset(sc, lx as int, sx as int, 5);
                                lemma_scaled_offset(sc, ly as int, sy as int, 7);
                            }
                            let index: usize = self.calc_index(
                                x + scale * lx + sx,
                                y + scale * ly + sy,
                            );
                            assert(index == letter_cell(
                                xi,
                                yi,
                                sc,
                                lx as int,
                                ly as int,
                                sx as int,
                                sy as int,
                                w,
                                h,
                            ));
                            assert(letter_covers(index as int, *letter, xi, yi, sc, w, h));
                            self.pixels[index] = pen;
                            sy += 1;
                        }
                        sx += 1;
                    }
                }
                ly += 1;
            }
            lx += 1;
        }
        proof {
            assert forall|k: int| 0 <= k < before.len() implies self.pixels@[k] == if letter_covers(
                k,
                *letter,
                xi,
                yi,
                sc,
                w,
                h,
            ) {
                pen
            } else {
                before[k]
            } by {
                if letter_covers(k, *letter, xi, yi, sc, w, h) {
                    let (a, b, c, d) = choose|a: int, b: int, c: int, d: int|
                        0 <= a < 5 && 0 <= b < 7 && 0 <= c < sc && 0 <= d < sc && lit(*letter, a, b)
                            && #[trigger] letter_cell(xi, yi, sc, a, b, c, d, w, h) == k;
                    assert(letter_cell(xi, yi, sc, a, b, c, d, w, h) == k);
                }
            }
        }
    }

    fn encode_region(&self, columns: usize, rows: usize, binary: bool, noisy: bool) -> (out: Vec<u8>)
        requires
            self.wf(),
            columns <= self.dimensions().x_width,
            rows <= self.dimensions().y_height,
        ensures
            is_frame_of(
                out@,
                region_pixels(
                    self.cells(),
                    self.dimensions().y_height as int,
                    rows as int,
                    (columns * rows) as nat,
                ),
                kind_of(binary),
                None,
            ),
            !noisy ==> is_ordered_frame_of(
                out@,
                region_pixels(
                    self.cells(),
                    self.dimensions().y_height as int,
                    rows as int,
                    (columns * rows) as nat,
                ),
                kind_of(binary),
                None,
            ),
    {
        let mut collector: PixelCollector = if binary {
            PixelCollector::new_binary(None)
        } else {
            PixelCollector::new_text(None)
        };
        let height: usize = self.window.get_y();
        let count: usize = self.pixels.len();
        proof {
            lemma_region_in_range(
                columns as int,
                rows as int,
                self.window.x_width as int,
                height as int,
            );
        }
        let total: usize = columns * rows;
        let mut i: usize = 0;
        while i < total
            invariant
                0 <= i <= total == columns * rows,
                self.wf(),
                count == self.pixels@.len(),
                height == self.dimensions().y_height,
                columns <= self.dimensions().x_width,
                rows <= self.dimensions().y_height,
                collector.wf(),
                collector.kind() == kind_of(binary),
                collector.compression() == None::<crate::pixelcollector::CompressionKind>,
                collector.max_x() == COORDINATE_LIMIT,
                collector.max_y() == COORDINATE_LIMIT,
                collector.pixels() == region_pixels(
                    self.cells(),
                    self.dimensions().y_height as int,
                    rows as int,
                    i as nat,
                ),
            decreases total - i,
        {
            let x: usize = i / rows;
            let y: usize = i % rows;
            assert(x < columns) by (nonlinear_arith)
                requires
                    x == i / rows,
                    i < columns * rows,
                    rows > 0,
            ;
            proof {
                lemma_cell_in_range(
                    x as int,
                    y as int,
                    self.window.x_width as int,
                    height as int,
                );
            }
            let cell: Pixel = self.pixels[x * height + y];
            let color: Color = Color::from_rgba(cell.r, cell.g, cell.b, Some(cell.a));
            let px: i32 = if x < 65536 {
                x as i32
            } else {
                65536
            };
            let py: i32 = if y < 65536 {
                y as i32
            } else {
                65536
            };
            collector.add_pixel_colored(px, py, &color);
            i += 1;
        }
        let ghost stored = collector.pixels();
        if noisy {
            collector.shuffle();
        }
        let ghost shuffled = collector.pixels();
        match collector.into_bytes() {
            Ok((_, out)) => {
                proof {
                    crate::pixelcollector::lemma_frame_of_rearranged(
                        out@,
                        shuffled,
                        stored,
                        kind_of(binary),
                        None,
                    );
                }
                out
            },
            Err(_) => {
                assert(false);
                Vec::new()
            },
        }
    }

    /// Encodes the canvas, but for its last column and last row, as one
    /// uncompressed frame. Transparent cells are left out.
    pub fn send_data(&self, binary: bool) -> (out: Vec<u8>)
        requires
            self.wf(),
        ensures
            is_ordered_frame_of(
                out@,
                region_pixels(
                    self.cells(),
                    self.dimensions().y_height as int,
                    self.dimensions().y_height - 1,
                    ((self.dimensions().x_width - 1) * (self.dimensions().y_height - 1)) as nat,
                ),
                kind_of(binary),
                None,
            ),
    {
        self.encode_region(self.window.get_x() - 1, self.window.get_y() - 1, binary, false)
    }

    /// Encodes the whole canvas as one uncompressed frame, its pixels handed
    /// to the encoder in random order. Transparent cells are left out.
    pub fn send_data_noisy(&self, use_binary_protocol: bool) -> (out: Vec<u8>)
        requires
            self.wf(),
        ensures
            is_frame_of(
                out@,
                region_pixels(
                    self.cells(),
                    self.dimensions().y_height as int,
                    self.dimensions().y_height as int,
                    (self.dimensions().x_width * self.dimensions().y_height) as nat,
                ),
                kind_of(use_binary_protocol),
                None,
            ),
    {
        self.encode_region(self.window.get_x(), self.window.get_y(), use_binary_protocol, true)
    }
}

} // verus!
