//! Pictures of the world.
//!
//! A canvas is a buffer of pixels, row by row. The world is drawn with one
//! square block of pixels for each cell: in the colour of the living agent
//! that the cell records, else in the background colour.

use vstd::prelude::*;
use vstd::arithmetic::div_mod::lemma_fundamental_div_mod;
use crate::model::position::Position;
use crate::model::world::{lemma_index_in_grid, World, WorldView};

verus! {

/// A picture of `width` by `height` pixels, each a packed `0xRRGGBB`.
#[derive(Debug, Clone)]
pub struct Canvas {
    pub buffer: Vec<u32>,
    pub width: usize,
    pub height: usize,
}

/// The mathematical value of a [`Canvas`].
pub struct CanvasView {
    pub pixels: Seq<u32>,
    pub width: nat,
    pub height: nat,
}

impl DeepView for Canvas {
    type V = CanvasView;

    open spec fn deep_view(&self) -> CanvasView {
        CanvasView {
            pixels: self.buffer@,
            width: self.width as nat,
            height: self.height as nat,
        }
    }
}

/// The side of the largest square block such that `cols` blocks fit into
/// `max_width` and `rows` blocks into `max_height`.
pub open spec fn block_size_spec(max_width: nat, max_height: nat, rows: nat, cols: nat) -> nat
    recommends
        rows > 0,
        cols > 0,
{
    if max_width / cols <= max_height / rows {
        max_width / cols
    } else {
        max_height / rows
    }
}

/// The colour in which the cell at `pos` is drawn: the colour of the agent
/// that the cell records, without its alpha channel, if that agent exists and
/// is alive; else the background.
pub open spec fn cell_color_spec(world: WorldView, pos: Position, background: u32) -> u32 {
    match world.cell(pos) {
        Some(cell) => match cell.agent {
            Some(id) => if id < world.agents.len() && world.agents[id as int].alive {
                world.agents[id as int].color & 0x00FF_FFFF
            } else {
                background
            },
            None => background,
        },
        None => background,
    }
}

impl CanvasView {
    /// The buffer has exactly `width * height` pixels.
    pub open spec fn wf(self) -> bool {
        self.pixels.len() == self.height * self.width
    }

    /// The canvas with every pixel in `color`.
    pub open spec fn cleared(self, color: u32) -> CanvasView {
        CanvasView { pixels: Seq::new(self.pixels.len(), |i: int| color), ..self }
    }

    /// The canvas with the pixel at column `x` and row `y` in `color`;
    /// unchanged if there is no such pixel.
    pub open spec fn with_pixel(self, x: int, y: int, color: u32) -> CanvasView {
        if 0 <= x < self.width && 0 <= y < self.height {
            CanvasView { pixels: self.pixels.update(y * self.width + x, color), ..self }
        } else {
            self
        }
    }

    /// The canvas after a walk along a line towards column `x2` and row
    /// `y2`, of which the pixel at `x` and `y` is the next. Each step sets a
    /// pixel and then moves one column, one row, or both, as the error term
    /// `err` tells; `dx` and `dy` are the line's extents, `sx` and `sy` its
    /// directions, and `left` counts the columns and rows still to cross.
    /// The walk ends at its goal.
    pub open spec fn line_walk(
        self,
        x: int,
        y: int,
        x2: int,
        y2: int,
        dx: int,
        dy: int,
        sx: int,
        sy: int,
        err: int,
        color: u32,
        left: nat,
    ) -> CanvasView
        decreases left,
    {
        let drawn = self.with_pixel(x, y, color);
        let across = 2 * err > -dy;
        let down = 2 * err < dx;
        let moved: nat = if across && down {
            2
        } else if across || down {
            1
        } else {
            0
        };
        if (x == x2 && y == y2) || moved == 0 || moved > left {
            drawn
        } else {
            drawn.line_walk(
                if across {
                    x + sx
                } else {
                    x
                },
                if down {
                    y + sy
                } else {
                    y
                },
                x2,
                y2,
                dx,
                dy,
                sx,
                sy,
                err - (if across {
                    dy
                } else {
                    0
                }) + (if down {
                    dx
                } else {
                    0
                }),
                color,
                (left - moved) as nat,
            )
        }
    }

    /// The canvas with the line from column `x1`, row `y1` to column `x2`,
    /// row `y2` in `color`, as Bresenham's algorithm draws it; pixels off the
    /// canvas are left out.
    pub open spec fn with_line(self, x1: int, y1: int, x2: int, y2: int, color: u32) -> CanvasView {
        let dx = if x1 < x2 {
            x2 - x1
        } else {
            x1 - x2
        };
        let dy = if y1 < y2 {
            y2 - y1
        } else {
            y1 - y2
        };
        self.line_walk(
            x1,
            y1,
            x2,
            y2,
            dx,
            dy,
            if x1 < x2 {
                1
            } else {
                -1
            },
            if y1 < y2 {
                1
            } else {
                -1
            },
            dx - dy,
            color,
            (dx + dy) as nat,
        )
    }

    /// The picture of `world` with blocks of side `block`: the pixel at
    /// column `x` and row `y` has the colour of the cell at row `y / block`
    /// and column `x / block`.
    pub open spec fn picture(self, world: WorldView, block: nat, background: u32) -> CanvasView {
        CanvasView {
            pixels: Seq::new(
                self.pixels.len(),
                |i: int|
                    cell_color_spec(
                        world,
                        Position {
                            row: ((i / (self.width as int)) / (block as int)) as usize,
                            col: ((i % (self.width as int)) / (block as int)) as usize,
                        },
                        background,
                    ),
            ),
            ..self
        }
    }
}

/// The side of the blocks for a world of `rows` by `cols` cells in a window
/// of at most `max_width` by `max_height` pixels.
pub fn block_size(max_width: usize, max_height: usize, rows: usize, cols: usize) -> (side: usize)
    requires
        rows > 0,
        cols > 0,
    ensures
        side == block_size_spec(max_width as nat, max_height as nat, rows as nat, cols as nat),
        side * cols <= max_width,
        side * rows <= max_height,
{
    let by_width = max_width / cols;
    let by_height = max_height / rows;
    proof {
        lemma_fundamental_div_mod(max_width as int, cols as int);
        lemma_fundamental_div_mod(max_height as int, rows as int);
        let w = by_width as int;
        let h = by_height as int;
        assert(w * cols <= max_width) by (nonlinear_arith)
            requires
                max_width == cols * w + (max_width as int) % (cols as int),
                0 <= (max_width as int) % (cols as int),
        ;
        assert(h * rows <= max_height) by (nonlinear_arith)
            requires
                max_height == rows * h + (max_height as int) % (rows as int),
                0 <= (max_height as int) % (rows as int),
        ;
        if w <= h {
            assert(w * rows <= h * rows) by (nonlinear_arith)
                requires
                    0 <= w <= h,
                    rows >= 0,
            ;
        } else {
            assert(h * cols <= w * cols) by (nonlinear_arith)
                requires
                    0 <= h <= w,
                    cols >= 0,
            ;
        }
    }
    if by_width <= by_height {
        by_width
    } else {
        by_height
    }
}

/// The colour in which the cell at `pos` is drawn.
pub fn get_cell_color(world: &World, pos: Position, background: u32) -> (color: u32)
    requires
        world.wf(),
    ensures
        color == cell_color_spec(world.deep_view(), pos, background),
{
    match world.get(pos) {
        Some(cell) => match cell.agent {
            Some(agent_id) => {
                if agent_id < world.agents.len() && world.agents[agent_id].alive {
                    assert(world.deep_view().agents[agent_id as int]
                        == world.agents@[agent_id as int].deep_view());
                    world.agents[agent_id].color & 0x00FF_FFFF
                } else {
                    background
                }
            },
            None => background,
        },
        None => background,
    }
}

impl Canvas {
    /// The buffer has exactly `width * height` pixels.
    pub open spec fn wf(&self) -> bool {
        self.deep_view().wf()
    }

    /// A canvas of `width` by `height` pixels, all in `color`.
    pub fn new(width: usize, height: usize, color: u32) -> (canvas: Self)
        requires
            height * width <= usize::MAX,
        ensures
            canvas.deep_view() == (CanvasView {
                pixels: Seq::new((height * width) as nat, |i: int| color),
                width: width as nat,
                height: height as nat,
            }),
            canvas.wf(),
    {
        let canvas = Self { buffer: vec![color; height * width], width, height };
        assert(canvas.buffer@ =~= Seq::new((height * width) as nat, |i: int| color));
        canvas
    }

    /// Sets every pixel to `color`.
    pub fn clear(&mut self, color: u32)
        ensures
            final(self).deep_view() == old(self).deep_view().cleared(color),
    {
        let mut i: usize = 0;
        while i < self.buffer.len()
            invariant
                i <= self.buffer@.len(),
                self.buffer@.len() == old(self).buffer@.len(),
                self.width == old(self).width,
                self.height == old(self).height,
                forall|k: int| 0 <= k < i ==> self.buffer@[k] == color,
            decreases self.buffer@.len() - i,
        {
            self.buffer[i] = color;
            i += 1;
        }
        assert(self.buffer@ =~= old(self).deep_view().cleared(color).pixels);
    }

    /// Sets the pixel at column `x` and row `y`, if there is such a pixel.
    pub fn draw_pixel(&mut self, x: usize, y: usize, color: u32)
        requires
            old(self).wf(),
        ensures
            final(self).deep_view() == old(self).deep_view().with_pixel(x as int, y as int, color),
            final(self).wf(),
    {
        if x < self.width && y < self.height {
            let size = self.buffer.len();
            proof {
                lemma_index_in_grid(
                    self.height as nat,
                    self.width as nat,
                    Position { row: y, col: x },
                );
            }
            let index = y * self.width + x;
            self.buffer[index] = color;
        }
    }

    /// Draws the line from column `x1`, row `y1` to column `x2`, row `y2`.
    pub fn draw_line(&mut self, x1: usize, y1: usize, x2: usize, y2: usize, color: u32)
        requires
            old(self).wf(),
        ensures
            final(self).deep_view() == old(self).deep_view().with_line(
                x1 as int,
                y1 as int,
                x2 as int,
                y2 as int,
                color,
            ),
            final(self).wf(),
    {
        let ghost target = old(self).deep_view().with_line(
            x1 as int,
            y1 as int,
            x2 as int,
            y2 as int,
            color,
        );
        let dx: i128 = if x1 < x2 {
            (x2 - x1) as i128
        } else {
            (x1 - x2) as i128
        };
        let dy: i128 = if y1 < y2 {
            (y2 - y1) as i128
        } else {
            (y1 - y2) as i128
        };
        let sx: i128 = if x1 < x2 {
            1
        } else {
            -1
        };
        let sy: i128 = if y1 < y2 {
            1
        } else {
            -1
        };
        let mut err: i128 = dx - dy;
        let mut x: i128 = x1 as i128;
        let mut y: i128 = y1 as i128;
        // How many columns and rows the walk has crossed.
        let ghost crossed: int = 0;
        let ghost fallen: int = 0;
        loop
            invariant
                self.wf(),
                0 <= dx <= usize::MAX,
                0 <= dy <= usize::MAX,
                sx == 1 ==> x2 == x1 + dx && x == x1 + crossed,
                sx == -1 ==> x2 == x1 - dx && x == x1 - crossed,
                sy == 1 ==> y2 == y1 + dy && y == y1 + fallen,
                sy == -1 ==> y2 == y1 - dy && y == y1 - fallen,
                sx == 1 || sx == -1,
                sy == 1 || sy == -1,
                0 <= crossed <= dx,
                0 <= fallen <= dy,
                -2 * dy <= err <= 2 * dx,
                err == dx - dy - crossed * dy + fallen * dx,
                target == self.deep_view().line_walk(
                    x as int,
                    y as int,
                    x2 as int,
                    y2 as int,
                    dx as int,
                    dy as int,
                    sx as int,
                    sy as int,
                    err as int,
                    color,
                    (dx - crossed + dy - fallen) as nat,
                ),
                target == old(self).deep_view().with_line(
                    x1 as int,
                    y1 as int,
                    x2 as int,
                    y2 as int,
                    color,
                ),
            decreases dx - crossed + dy - fallen,
        {
            self.draw_pixel(x as usize, y as usize, color);
            if x == x2 as i128 && y == y2 as i128 {
                return ;
            }
            let across = 2 * err > -dy;
            let down = 2 * err < dx;
            proof {
                if crossed == dx {
                    assert(2 * err <= -dy) by (nonlinear_arith)
                        requires
                            err == dx - dy - crossed * dy + fallen * dx,
                            crossed == dx,
                            0 <= fallen < dy,
                            0 <= dx,
                    ;
                }
                if fallen == dy {
                    assert(2 * err >= dx) by (nonlinear_arith)
                        requires
                            err == dx - dy - crossed * dy + fallen * dx,
                            fallen == dy,
                            0 <= crossed < dx,
                            0 <= dy,
                    ;
                }
                assert((crossed + 1) * dy == crossed * dy + dy) by (nonlinear_arith);
                assert((fallen + 1) * dx == fallen * dx + dx) by (nonlinear_arith);
            }
            if across {
                err = err - dy;
                x = x + sx;
                proof {
                    crossed = crossed + 1;
                }
            }
            if down {
                err = err + dx;
                y = y + sy;
                proof {
                    fallen = fallen + 1;
                }
            }
        }
    }

    /// Draws `world` with blocks of side `block_size`: every pixel takes the
    /// colour of the cell that its block stands for, and the background
    /// colour where there is no such cell.
    pub fn render(&mut self, world: &World, block_size: usize, background: u32)
        requires
            old(self).wf(),
            world.wf(),
            block_size > 0,
        ensures
            final(self).deep_view() == old(self).deep_view().picture(
                world.deep_view(),
                block_size as nat,
                background,
            ),
            final(self).wf(),
    {
        let ghost target = old(self).deep_view().picture(
            world.deep_view(),
            block_size as nat,
            background,
        );
        let w = self.width;
        let h = self.height;
        let size = self.buffer.len();
        let mut y: usize = 0;
        let mut index: usize = 0;
        while y < h
            invariant
                y <= h,
                self.width == w,
                self.height == h,
                size == h * w,
                self.buffer@.len() == size,
                target.pixels.len() == size,
                index == y * w,
                world.wf(),
                block_size > 0,
                target == old(self).deep_view().picture(
                    world.deep_view(),
                    block_size as nat,
                    background,
                ),
                old(self).width == w,
                forall|i: int| 0 <= i < index ==> #[trigger] self.buffer@[i] == target.pixels[i],
            decreases h - y,
        {
            let mut x: usize = 0;
            while x < w
                invariant
                    y < h,
                    x <= w,
                    self.width == w,
                    self.height == h,
                    size == h * w,
                    self.buffer@.len() == size,
                    target.pixels.len() == size,
                    index == y * w + x,
                    world.wf(),
                    block_size > 0,
                    target == old(self).deep_view().picture(
                        world.deep_view(),
                        block_size as nat,
                        background,
                    ),
                    old(self).width == w,
                    forall|i: int| 0 <= i < index ==> #[trigger] self.buffer@[i] == target.pixels[i],
                decreases w - x,
            {
                proof {
                    lemma_index_in_grid(h as nat, w as nat, Position { row: y, col: x });
                }
                let cell = Position { row: y / block_size, col: x / block_size };
                let color = get_cell_color(world, cell, background);
                assert(color == target.pixels[index as int]);
                self.buffer[index] = color;
                x += 1;
                index += 1;
            }
            proof {
                assert(y * w + w == (y + 1) * w) by (nonlinear_arith);
            }
            y += 1;
        }
        assert(self.buffer@ =~= target.pixels);
    }
}

} // verus!
