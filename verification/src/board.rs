//! The pixel-buffer board: a software rasterizer over a flat RGBA byte
//! buffer, with an optional grid-line overlay between and around cells.
use vstd::prelude::*;

use crate::color::RGBA;
use crate::color::channel;
use crate::geometry::Position;

verus! {

use vstd::arithmetic::div_mod::lemma_fundamental_div_mod_converse;
use vstd::arithmetic::mul::lemma_mul_inequality;
use vstd::arithmetic::mul::lemma_mul_upper_bound;
use vstd::pervasive::VecAdditionalExecFns;

/// Why a board could not be assembled.
#[derive(Debug, Clone)]
#[non_exhaustive]
pub enum PixelCanvasError {
    ColorMap,
    Header,
    Footer,
    UnsupportedImageType(u8),
    UnsupportedBpp(u8),
    MismatchedBpp(u8),
    UnsupportedTgaType,
    /// A cell count or the cell pixel size is zero, or the resulting pixel
    /// buffer would not be addressable with 32-bit arithmetic.
    InvalidDimensions,
}

/// The optional gutter overlay: grid lines `thickness` pixels wide drawn
/// between and around the cells in `color`.
#[derive(Debug, Clone, Copy, PartialEq, Eq, Structural)]
pub struct BoardGrid {
    pub thickness: u8,
    pub color: RGBA,
}

/// Collects the construction parameters for a [`Board`] and assembles them
/// with `build`; consumed by use.
#[derive(Debug)]
pub struct BoardBuilder {
    width: u32,
    height: u32,
    unit_size: u32,
    cell_color: RGBA,
    grid: Option<BoardGrid>,
}

/// A grid of `width` x `height` cells rasterized into `raw_buffer`, a
/// row-major RGBA8 pixel buffer of `pixel_width` x `pixel_height` pixels.
/// Each cell is a `unit_size` x `unit_size` pixel block; with a grid
/// overlay, a gutter of its thickness separates and borders the cells.
#[derive(Debug)]
pub struct Board {
    pub raw_buffer: Vec<u8>,
    pub width: u32,
    pub height: u32,
    pub pixel_width: u32,
    pub pixel_height: u32,
    pub unit_size: u32,
    pub cell_color: RGBA,
    pub grid: Option<BoardGrid>,
}

/// A buffer of `pw` x `ph` pixels, every pixel filled with color `c`.
pub open spec fn background_fill(pw: int, ph: int, c: RGBA) -> Seq<u8> {
    Seq::new((pw * ph * 4) as nat, |k: int| channel(c, k % 4))
}

impl Board {
    /// The gutter width in pixels: the grid thickness, or 0 with no grid.
    pub open spec fn gutter(&self) -> int {
        match self.grid {
            Some(g) => g.thickness as int,
            None => 0,
        }
    }

    /// Structural invariant: positive cell dimensions, pixel dimensions
    /// that account for the cells plus (with a grid) one gutter around
    /// each, a buffer of exactly 4 bytes per pixel, and a total byte count
    /// that 32-bit index arithmetic can address.
    pub open spec fn wf(&self) -> bool {
        &&& self.width > 0
        &&& self.height > 0
        &&& self.unit_size > 0
        &&& self.pixel_width == self.width * self.unit_size + (self.width + 1) * self.gutter()
        &&& self.pixel_height == self.height * self.unit_size + (self.height + 1) * self.gutter()
        &&& self.raw_buffer@.len() == self.pixel_width * self.pixel_height * 4
        &&& self.pixel_width * self.pixel_height * 4 <= u32::MAX
    }

    /// Both boards have the same configuration; only the buffer contents
    /// may differ.
    pub open spec fn same_config(&self, other: &Board) -> bool {
        &&& self.width == other.width
        &&& self.height == other.height
        &&& self.pixel_width == other.pixel_width
        &&& self.pixel_height == other.pixel_height
        &&& self.unit_size == other.unit_size
        &&& self.cell_color == other.cell_color
        &&& self.grid == other.grid
    }

    /// The pixel row where cell `pos`'s block starts: the cell rows below
    /// it plus, with a grid, one gutter per row below plus the leading one.
    pub open spec fn cell_row0(&self, pos: Position) -> int {
        pos.y * self.unit_size + self.gutter() * (pos.y + 1)
    }

    /// The pixel column where cell `pos`'s block starts.
    pub open spec fn cell_col0(&self, pos: Position) -> int {
        pos.x * self.unit_size + self.gutter() * (pos.x + 1)
    }

    /// Whether byte index `k` of the buffer lies inside the pixel block of
    /// cell `pos`.
    pub open spec fn covers(&self, pos: Position, k: int) -> bool {
        let row = k / 4 / (self.pixel_width as int);
        let col = k / 4 % (self.pixel_width as int);
        &&& self.cell_row0(pos) <= row < self.cell_row0(pos) + self.unit_size
        &&& self.cell_col0(pos) <= col < self.cell_col0(pos) + self.unit_size
    }

    /// `buf` with cell `pos`'s block repainted in `color` and every other
    /// byte unchanged.
    pub open spec fn painted(&self, buf: Seq<u8>, pos: Position, color: RGBA) -> Seq<u8> {
        Seq::new(
            buf.len(),
            |k: int|
                if self.covers(pos, k) {
                    channel(color, k % 4)
                } else {
                    buf[k]
                },
        )
    }

    /// Whether the pixel at `row`, `col` lies on a grid line: with a grid,
    /// the gutter stripes repeat with period `unit_size + thickness`,
    /// starting at the leading edge of each axis.
    pub open spec fn on_grid_line(&self, row: int, col: int) -> bool {
        match self.grid {
            Some(g) => {
                let period = self.unit_size + g.thickness as int;
                row % period < g.thickness || col % period < g.thickness
            },
            None => false,
        }
    }

    /// The blank canvas: every pixel holds the background color, except
    /// grid-line pixels, which hold the grid color. Depends only on the
    /// board's configuration, never on the current buffer.
    pub open spec fn cleared(&self) -> Seq<u8> {
        Seq::new(
            (self.pixel_width * self.pixel_height * 4) as nat,
            |k: int|
                {
                    let row = k / 4 / (self.pixel_width as int);
                    let col = k / 4 % (self.pixel_width as int);
                    if self.on_grid_line(row, col) {
                        channel(self.grid->Some_0.color, k % 4)
                    } else {
                        channel(self.cell_color, k % 4)
                    }
                },
        )
    }

    /// Writes the four channel bytes of `color` at `index`; every other
    /// byte keeps its value.
    pub fn set_pixel_color(raw_buffer: &mut Vec<u8>, index: usize, color: &RGBA)
        requires
            index + 4 <= old(raw_buffer)@.len(),
        ensures
            final(raw_buffer)@.len() == old(raw_buffer)@.len(),
            forall|k: int|
                index <= k < index + 4 ==> final(raw_buffer)@[k] == channel(*color, k - index),
            forall|k: int|
                0 <= k < old(raw_buffer)@.len() && !(index <= k < index + 4)
                    ==> final(raw_buffer)@[k] == old(raw_buffer)@[k],
    {
        let n = raw_buffer.len();
        assert(index + 4 <= n);
        raw_buffer.set(index, color.r);
        raw_buffer.set(index + 1, color.g);
        raw_buffer.set(index + 2, color.b);
        raw_buffer.set(index + 3, color.a);
    }

    /// Repaints the whole buffer to the blank canvas: background color
    /// everywhere, grid lines overdrawn in the grid color when configured.
    /// The result depends only on the configuration, so clearing twice
    /// leaves the same buffer as clearing once.
    pub fn clear(&mut self)
        requires
            old(self).wf(),
        ensures
            final(self).same_config(old(self)),
            final(self).wf(),
            final(self).raw_buffer@ == old(self).cleared(),
    {
        let pw = self.pixel_width;
        let ph = self.pixel_height;
        let npix: u32 = pw * ph;
        let has_grid: bool;
        let thickness: u32;
        let grid_color: RGBA;
        match &self.grid {
            Some(g) => {
                has_grid = true;
                thickness = g.thickness as u32;
                grid_color = g.color;
            },
            None => {
                has_grid = false;
                thickness = 0;
                grid_color = self.cell_color;
            },
        }
        let period: u64 = self.unit_size as u64 + thickness as u64;
        let mut p: u32 = 0;
        while p < npix
            invariant
                p <= npix,
                self.same_config(old(self)),
                self.wf(),
                pw == self.pixel_width,
                ph == self.pixel_height,
                npix == self.pixel_width * self.pixel_height,
                has_grid == (self.grid is Some),
                thickness == self.gutter(),
                has_grid ==> grid_color == self.grid->Some_0.color,
                period == self.unit_size + self.gutter(),
                self.raw_buffer@.len() == old(self).raw_buffer@.len(),
                forall|k: int| 0 <= k < 4 * p ==> self.raw_buffer@[k] == old(self).cleared()[k],
            decreases npix - p,
        {
            let row: u32 = p / pw;
            let col: u32 = p % pw;
            let on_line = has_grid && ((row as u64) % period < thickness as u64 || (col as u64)
                % period < thickness as u64);
            let color = if on_line {
                grid_color
            } else {
                self.cell_color
            };
            let index: usize = (p as usize) * 4;
            proof {
                assert(index + 4 <= self.raw_buffer@.len());
            }
            Board::set_pixel_color(&mut self.raw_buffer, index, &color);
            proof {
                let cl = old(self).cleared();
                assert forall|k: int| index <= k < index + 4 implies self.raw_buffer@[k] == cl[k] by {
                    lemma_fundamental_div_mod_converse(k, 4, p as int, k - index);
                    assert(self.raw_buffer@[k] == channel(color, k - index));
                }
                assert forall|k: int| 0 <= k < 4 * (p + 1) implies self.raw_buffer@[k] == cl[k] by {}
            }
            p += 1;
        }
        proof {
            assert(self.raw_buffer@ =~= old(self).cleared());
        }
    }

    /// Repaints the `unit_size` x `unit_size` pixel block of cell
    /// `position` in `color`; every byte outside the block keeps its value.
    /// Callers must only draw in-bounds cells.
    pub fn draw(&mut self, position: Position, color: RGBA)
        requires
            old(self).wf(),
            position.x < old(self).width,
            position.y < old(self).height,
        ensures
            final(self).same_config(old(self)),
            final(self).wf(),
            final(self).raw_buffer@ == old(self).painted(old(self).raw_buffer@, position, color),
    {
        proof {
            lemma_cell_block_in_range(old(self), position);
        }
        let thickness: u32 = match &self.grid {
            Some(g) => g.thickness as u32,
            None => 0,
        };
        let pw = self.pixel_width;
        let row0: u32 = position.y * self.unit_size + thickness * (position.y + 1);
        let col0: u32 = position.x * self.unit_size + thickness * (position.x + 1);
        let unit = self.unit_size;
        let mut i: u32 = 0;
        while i < unit
            invariant
                i <= unit,
                self.same_config(old(self)),
                self.wf(),
                pw == self.pixel_width,
                unit == self.unit_size,
                row0 == self.cell_row0(position),
                col0 == self.cell_col0(position),
                row0 + unit <= self.pixel_height,
                col0 + unit <= self.pixel_width,
                self.raw_buffer@.len() == old(self).raw_buffer@.len(),
                forall|k: int|
                    0 <= k < self.raw_buffer@.len() ==> self.raw_buffer@[k] == (if self.partial_covers(
                        position,
                        k,
                        i as int,
                        0,
                    ) {
                        channel(color, k % 4)
                    } else {
                        old(self).raw_buffer@[k]
                    }),
            decreases unit - i,
        {
            let mut j: u32 = 0;
            while j < unit
                invariant
                    i < unit,
                    j <= unit,
                    self.same_config(old(self)),
                    self.wf(),
                    pw == self.pixel_width,
                    unit == self.unit_size,
                    row0 == self.cell_row0(position),
                    col0 == self.cell_col0(position),
                    row0 + unit <= self.pixel_height,
                    col0 + unit <= self.pixel_width,
                    self.raw_buffer@.len() == old(self).raw_buffer@.len(),
                    forall|k: int|
                        0 <= k < self.raw_buffer@.len() ==> self.raw_buffer@[k] == (if self.partial_covers(
                            position,
                            k,
                            i as int,
                            j as int,
                        ) {
                            channel(color, k % 4)
                        } else {
                            old(self).raw_buffer@[k]
                        }),
                decreases unit - j,
            {
                let row: u32 = row0 + j;
                let col: u32 = col0 + i;
                proof {
                    lemma_pixel_index_bound(row as int, col as int, pw as int, self.pixel_height as int);
                }
                let index: usize = ((row as usize) * (pw as usize) + (col as usize)) * 4;
                Board::set_pixel_color(&mut self.raw_buffer, index, &color);
                proof {
                    let pwi = pw as int;
                    let pix = row as int * pwi + col;
                    assert forall|k: int| 0 <= k < self.raw_buffer@.len() implies self.raw_buffer@[k]
                        == (if self.partial_covers(position, k, i as int, j + 1) {
                        channel(color, k % 4)
                    } else {
                        old(self).raw_buffer@[k]
                    }) by {
                        vstd::arithmetic::div_mod::lemma_fundamental_div_mod(k, 4);
                        vstd::arithmetic::div_mod::lemma_fundamental_div_mod(k / 4, pwi);
                        if index <= k < index + 4 {
                            lemma_fundamental_div_mod_converse(k, 4, pix, k - index);
                            lemma_fundamental_div_mod_converse(pix, pwi, row as int, col as int);
                        } else {
                            if k / 4 / pwi == row && k / 4 % pwi == col {
                                assert(pwi * (row as int) == (row as int) * pwi) by (nonlinear_arith);
                                assert(k / 4 == pix);
                                assert(index <= k < index + 4);
                            }
                        }
                    }
                }
                j += 1;
            }
            proof {
                assert forall|k: int| 0 <= k < self.raw_buffer@.len() implies (self.partial_covers(
                    position,
                    k,
                    i as int,
                    unit as int,
                ) <==> self.partial_covers(position, k, i + 1, 0)) by {}
            }
            i += 1;
        }
        proof {
            assert(self.raw_buffer@ =~= old(self).painted(old(self).raw_buffer@, position, color));
        }
    }

    /// The bytes already repainted after `icols` full block columns and
    /// `jrows` pixels of the next one, while a cell block is being drawn.
    pub open spec fn partial_covers(&self, pos: Position, k: int, icols: int, jrows: int) -> bool {
        let row = k / 4 / (self.pixel_width as int);
        let col = k / 4 % (self.pixel_width as int);
        ||| {
            &&& self.cell_col0(pos) <= col < self.cell_col0(pos) + icols
            &&& self.cell_row0(pos) <= row < self.cell_row0(pos) + self.unit_size
        }
        ||| {
            &&& col == self.cell_col0(pos) + icols
            &&& self.cell_row0(pos) <= row < self.cell_row0(pos) + jrows
        }
    }
}

/// `buf` with each cell of `ps`, in order, repainted in `color`, on the
/// configuration of board `b`.
pub open spec fn paint_positions(b: Board, buf: Seq<u8>, ps: Seq<Position>, color: RGBA) -> Seq<u8>
    decreases ps.len(),
{
    if ps.len() == 0 {
        buf
    } else {
        b.painted(paint_positions(b, buf, ps.drop_last(), color), ps.last(), color)
    }
}

/// Painting one more cell extends the layer by one `painted` step.
pub proof fn lemma_paint_positions_push(
    b: Board,
    buf: Seq<u8>,
    ps: Seq<Position>,
    p: Position,
    color: RGBA,
)
    ensures
        paint_positions(b, buf, ps.push(p), color) == b.painted(
            paint_positions(b, buf, ps, color),
            p,
            color,
        ),
{
    assert(ps.push(p).drop_last() =~= ps);
}

/// What `painted` yields depends only on the board's configuration, never
/// on its current buffer.
pub proof fn lemma_painted_same_config(
    b1: Board,
    b2: Board,
    buf: Seq<u8>,
    p: Position,
    color: RGBA,
)
    requires
        b1.same_config(&b2),
    ensures
        b1.painted(buf, p, color) == b2.painted(buf, p, color),
{
    assert(b1.painted(buf, p, color) =~= b2.painted(buf, p, color));
}

/// A cell block that starts at an in-bounds cell lies inside the pixel
/// rectangle.
proof fn lemma_cell_block_in_range(b: &Board, pos: Position)
    requires
        b.wf(),
        pos.x < b.width,
        pos.y < b.height,
    ensures
        0 <= b.cell_row0(pos),
        b.cell_row0(pos) + b.unit_size <= b.pixel_height,
        0 <= b.cell_col0(pos),
        b.cell_col0(pos) + b.unit_size <= b.pixel_width,
{
    let u = b.unit_size as int;
    let t = b.gutter();
    lemma_mul_inequality(pos.y as int, b.height - 1, u);
    lemma_mul_inequality(pos.y + 1, b.height as int, t);
    lemma_mul_inequality(b.height as int, b.height + 1, t);
    assert((b.height - 1) * u + u == b.height * u) by (nonlinear_arith);
    assert((pos.y + 1) * t == t * (pos.y + 1)) by (nonlinear_arith);
    assert(b.height as int * t <= (b.height + 1) * t) by (nonlinear_arith)
        requires
            t >= 0,
    ;
    lemma_mul_inequality(pos.x as int, b.width - 1, u);
    lemma_mul_inequality(pos.x + 1, b.width as int, t);
    assert((b.width - 1) * u + u == b.width * u) by (nonlinear_arith);
    assert((pos.x + 1) * t == t * (pos.x + 1)) by (nonlinear_arith);
    assert(b.width as int * t <= (b.width + 1) * t) by (nonlinear_arith)
        requires
            t >= 0,
    ;
}

/// A pixel's row-major index lies below the pixel count.
proof fn lemma_pixel_index_bound(row: int, col: int, pw: int, ph: int)
    requires
        0 <= row < ph,
        0 <= col < pw,
    ensures
        0 <= row * pw + col,
        (row * pw + col) * 4 + 4 <= pw * ph * 4,
{
    assert(row * pw + col >= 0) by (nonlinear_arith)
        requires
            row >= 0,
            pw > 0,
            col >= 0,
    ;
    assert(row * pw + col + 1 <= pw * ph) by (nonlinear_arith)
        requires
            0 <= row < ph,
            0 <= col < pw,
    ;
    assert((row * pw + col) * 4 + 4 <= pw * ph * 4) by (nonlinear_arith)
        requires
            row * pw + col + 1 <= pw * ph,
    ;
}

impl BoardBuilder {
    /// The configured cell-count width.
    pub closed spec fn width_spec(&self) -> u32 {
        self.width
    }

    /// The configured cell-count height.
    pub closed spec fn height_spec(&self) -> u32 {
        self.height
    }

    /// The configured pixels per cell edge.
    pub closed spec fn unit_size_spec(&self) -> u32 {
        self.unit_size
    }

    /// The configured background color.
    pub closed spec fn cell_color_spec(&self) -> RGBA {
        self.cell_color
    }

    /// The configured grid overlay, if any.
    pub closed spec fn grid_spec(&self) -> Option<BoardGrid> {
        self.grid
    }

    /// The configured gutter width: the grid thickness, or 0 with no grid.
    pub open spec fn gutter_spec(&self) -> int {
        match self.grid_spec() {
            Some(g) => g.thickness as int,
            None => 0,
        }
    }

    /// Whether these parameters assemble into a board: positive cell
    /// counts and cell size, and pixel dimensions and a byte count that
    /// fit 32-bit arithmetic.
    pub open spec fn builds(&self) -> bool {
        let pw = self.width_spec() * self.unit_size_spec() + (self.width_spec() + 1)
            * self.gutter_spec();
        let ph = self.height_spec() * self.unit_size_spec() + (self.height_spec() + 1)
            * self.gutter_spec();
        &&& self.width_spec() > 0
        &&& self.height_spec() > 0
        &&& self.unit_size_spec() > 0
        &&& pw <= u32::MAX
        &&& ph <= u32::MAX
        &&& pw * ph * 4 <= u32::MAX
    }

    /// Starts a builder for a `width` x `height` cell grid with
    /// `unit_size` pixels per cell edge, no grid overlay, and a black,
    /// nearly transparent background.
    pub fn new(width: u32, height: u32, unit_size: u32) -> (r: Result<
        BoardBuilder,
        PixelCanvasError,
    >)
        ensures
            r is Ok,
            r matches Ok(b) ==> {
                &&& b.width_spec() == width
                &&& b.height_spec() == height
                &&& b.unit_size_spec() == unit_size
                &&& b.cell_color_spec() == (RGBA { r: 0, g: 0, b: 0, a: 1 })
                &&& b.grid_spec() is None
            },
    {
        Ok(
            BoardBuilder {
                width,
                height,
                unit_size,
                cell_color: RGBA { r: 0, g: 0, b: 0, a: 1 },
                grid: Option::None,
            },
        )
    }

    /// Replaces the background color used for cells with no occupant.
    pub fn with_default_background_color(self, color: RGBA) -> (r: Result<
        BoardBuilder,
        PixelCanvasError,
    >)
        ensures
            r is Ok,
            r matches Ok(b) ==> {
                &&& b.width_spec() == self.width_spec()
                &&& b.height_spec() == self.height_spec()
                &&& b.unit_size_spec() == self.unit_size_spec()
                &&& b.cell_color_spec() == color
                &&& b.grid_spec() == self.grid_spec()
            },
    {
        Ok(BoardBuilder { cell_color: color, ..self })
    }

    /// Enables a gutter of `thickness` pixels between and around cells,
    /// drawn in `color`.
    pub fn with_grid(self, thickness: u8, color: RGBA) -> (r: Result<
        BoardBuilder,
        PixelCanvasError,
    >)
        ensures
            r is Ok,
            r matches Ok(b) ==> {
                &&& b.width_spec() == self.width_spec()
                &&& b.height_spec() == self.height_spec()
                &&& b.unit_size_spec() == self.unit_size_spec()
                &&& b.cell_color_spec() == self.cell_color_spec()
                &&& b.grid_spec() == Some(BoardGrid { thickness, color })
            },
    {
        Ok(BoardBuilder { grid: Some(BoardGrid { thickness, color }), ..self })
    }

    /// Computes the pixel dimensions, allocates the buffer, and fills
    /// every pixel with the background color. Succeeds exactly when the
    /// parameters assemble into a board; this is the only point where the
    /// buffer is allocated.
    pub fn build(&self) -> (r: Result<Board, PixelCanvasError>)
        ensures
            r is Ok <==> self.builds(),
            r matches Ok(board) ==> {
                &&& board.wf()
                &&& board.width == self.width_spec()
                &&& board.height == self.height_spec()
                &&& board.unit_size == self.unit_size_spec()
                &&& board.cell_color == self.cell_color_spec()
                &&& board.grid == self.grid_spec()
                &&& board.raw_buffer@ == background_fill(
                    board.pixel_width as int,
                    board.pixel_height as int,
                    self.cell_color_spec(),
                )
            },
            r matches Err(e) ==> e is InvalidDimensions,
    {
        if self.width == 0 || self.height == 0 || self.unit_size == 0 {
            return Err(PixelCanvasError::InvalidDimensions);
        }
        let thickness: u32 = match &self.grid {
            Some(g) => g.thickness as u32,
            None => 0,
        };
        let w64 = self.width as u64;
        let h64 = self.height as u64;
        let unit64 = self.unit_size as u64;
        let t64 = thickness as u64;
        let max = u32::MAX as u64;
        proof {
            lemma_mul_upper_bound(w64 as int, u32::MAX as int, unit64 as int, u32::MAX as int);
            lemma_mul_upper_bound(h64 as int, u32::MAX as int, unit64 as int, u32::MAX as int);
            lemma_mul_upper_bound(w64 + 1, u32::MAX as int + 1, t64 as int, 255);
            lemma_mul_upper_bound(h64 + 1, u32::MAX as int + 1, t64 as int, 255);
        }
        let cells_w = w64 * unit64;
        let gutters_w = (w64 + 1) * t64;
        if cells_w > max || gutters_w > max - cells_w {
            return Err(PixelCanvasError::InvalidDimensions);
        }
        let pw64 = cells_w + gutters_w;
        if pw64 > max {
            return Err(PixelCanvasError::InvalidDimensions);
        }
        let cells_h = h64 * unit64;
        let gutters_h = (h64 + 1) * t64;
        if cells_h > max || gutters_h > max - cells_h {
            return Err(PixelCanvasError::InvalidDimensions);
        }
        let ph64 = cells_h + gutters_h;
        if ph64 > max {
            return Err(PixelCanvasError::InvalidDimensions);
        }
        proof {
            lemma_mul_upper_bound(pw64 as int, u32::MAX as int, ph64 as int, u32::MAX as int);
        }
        let area = pw64 * ph64;
        if area > max / 4 {
            return Err(PixelCanvasError::InvalidDimensions);
        }
        let pixel_width = pw64 as u32;
        let pixel_height = ph64 as u32;
        let total: u32 = (area as u32) * 4;
        let total_usize = total as usize;
        let mut raw_buffer: Vec<u8> = Vec::new();
        let mut k: usize = 0;
        while k < total_usize
            invariant
                k <= total_usize,
                raw_buffer@.len() == k,
                forall|m: int|
                    0 <= m < k ==> raw_buffer@[m] == channel(self.cell_color_spec(), m % 4),
            decreases total_usize - k,
        {
            let ch: u8 = match k % 4 {
                0 => self.cell_color.r,
                1 => self.cell_color.g,
                2 => self.cell_color.b,
                _ => self.cell_color.a,
            };
            raw_buffer.push(ch);
            k += 1;
        }
        proof {
            assert(raw_buffer@ =~= background_fill(
                pixel_width as int,
                pixel_height as int,
                self.cell_color_spec(),
            ));
        }
        Ok(
            Board {
                raw_buffer,
                width: self.width,
                height: self.height,
                pixel_width,
                pixel_height,
                unit_size: self.unit_size,
                cell_color: self.cell_color,
                grid: self.grid,
            },
        )
    }
}

} // verus!
