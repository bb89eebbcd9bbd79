//! Immediate-mode terminal renderer.
//!
//! A self-contained pipeline for interactive viewing: an Euler-angle
//! camera transforms world points into camera space, a pinhole
//! projection maps them onto a boolean occupancy grid at twice the
//! terminal's character resolution, lines are stepped with integer
//! Bresenham arithmetic, and every 2x4 block of the grid packs into one
//! Braille character. Trigonometry cannot be computed in integer
//! arithmetic, so the sines and cosines of the camera angles, and the
//! tangent of half the field of view, are supplied by the caller in
//! ticks.

use vstd::prelude::*;
use crate::fixed::{SCALE, abs, trunc_div, round_units, mul_fx, trunc_div_i128, is_sqrt};
use crate::vec3::{Vec3, in_range, len_sq, cross_spec, is_normalized_of};

verus! {

/// Simple 2D point wrapper.
#[derive(Debug, Clone, Copy, PartialEq, Eq, Structural)]
pub struct Point2D {
    pub x: i32,
    pub y: i32,
}

impl Point2D {
    /// Creates a new 2D point.
    pub fn new(x: i32, y: i32) -> (p: Point2D)
        ensures
            p == (Point2D { x, y }),
    {
        Point2D { x, y }
    }
}

/// One Braille cell: a 2-wide, 4-tall block of sub-pixels.
#[derive(Debug, Clone, Copy)]
pub struct BraillePixel {
    /// Sub-pixels, row-major: four rows of two columns.
    pub data: [[bool; 2]; 4],
}

/// The sub-pixel of a Braille cell, row 0 to 3 and column 0 to 1.
pub open spec fn braille_dot(p: BraillePixel, row: int, col: int) -> bool {
    p.data[row][col]
}

/// The Braille bit pattern of a cell: one bit per active sub-pixel, at
/// the positions the Braille block assigns them.
pub open spec fn braille_bits(p: BraillePixel) -> int {
    (if p.data[0][0] {
        1int
    } else {
        0int
    }) + (if p.data[1][0] {
        2int
    } else {
        0int
    }) + (if p.data[2][0] {
        4int
    } else {
        0int
    }) + (if p.data[0][1] {
        8int
    } else {
        0int
    }) + (if p.data[1][1] {
        16int
    } else {
        0int
    }) + (if p.data[2][1] {
        32int
    } else {
        0int
    }) + (if p.data[3][0] {
        64int
    } else {
        0int
    }) + (if p.data[3][1] {
        128int
    } else {
        0int
    })
}

impl BraillePixel {
    /// Creates an empty cell.
    pub fn new() -> (p: BraillePixel)
        ensures
            forall|r: int, c: int| 0 <= r < 4 && 0 <= c < 2 ==> !braille_dot(p, r, c),
            braille_bits(p) == 0,
    {
        BraillePixel { data: [[false, false], [false, false], [false, false], [false, false]] }
    }

    /// Reads one sub-pixel.
    pub fn get(&self, row: usize, col: usize) -> (b: bool)
        requires
            row < 4,
            col < 2,
        ensures
            b == braille_dot(*self, row as int, col as int),
    {
        self.data[row][col]
    }

    /// Sets one sub-pixel.
    pub fn set(&mut self, row: usize, col: usize, val: bool)
        requires
            row < 4,
            col < 2,
        ensures
            braille_dot(*final(self), row as int, col as int) == val,
            forall|r: int, c: int|
                0 <= r < 4 && 0 <= c < 2 && !(r == row && c == col) ==> braille_dot(
                    *final(self),
                    r,
                    c,
                ) == braille_dot(*old(self), r, c),
    {
        let mut rowdata: [bool; 2] = self.data[row];
        rowdata[col] = val;
        self.data[row] = rowdata;
    }

    /// The Braille character showing exactly this cell's sub-pixels:
    /// code point `0x2800` plus the bit pattern.
    pub fn to_char(&self) -> (c: char)
        ensures
            c as u32 == 0x2800 + braille_bits(*self),
    {
        let mut unicode: u32 = 0;
        if self.data[0][0] {
            unicode = unicode + 1;
        }
        if self.data[1][0] {
            unicode = unicode + 2;
        }
        if self.data[2][0] {
            unicode = unicode + 4;
        }
        if self.data[0][1] {
            unicode = unicode + 8;
        }
        if self.data[1][1] {
            unicode = unicode + 16;
        }
        if self.data[2][1] {
            unicode = unicode + 32;
        }
        if self.data[3][0] {
            unicode = unicode + 64;
        }
        if self.data[3][1] {
            unicode = unicode + 128;
        }
        unicode = unicode + 0x2800;
        proof {
            assert(unicode < 0xD800);
            assert(unicode as int == 0x2800 + braille_bits(*self));
        }
        let r = char::from_u32(unicode);
        match r {
            Some(c) => {
                proof {
                    assert(c as u32 == unicode);
                }
                c
            },
            None => {
                proof {
                    assert(false);
                }
                ' '
            },
        }
    }
}

/// One Bresenham step from a walker state `(x, y, err)` toward the end
/// point: the error term decides whether each coordinate advances.
pub open spec fn bres_step(sx: int, sy: int, ex: int, ey: int, st: (int, int, int)) -> (
    int,
    int,
    int,
) {
    let dx = abs(ex - sx);
    let dy = -abs(ey - sy);
    let stx = if sx < ex {
        1int
    } else {
        -1int
    };
    let sty = if sy < ey {
        1int
    } else {
        -1int
    };
    let x1 = if 2 * st.2 >= dy {
        st.0 + stx
    } else {
        st.0
    };
    let e1 = if 2 * st.2 >= dy {
        st.2 + dy
    } else {
        st.2
    };
    let y1 = if 2 * st.2 <= dx {
        st.1 + sty
    } else {
        st.1
    };
    let e2 = if 2 * st.2 <= dx {
        e1 + dx
    } else {
        e1
    };
    (x1, y1, e2)
}

/// The Bresenham walker state after `n` steps from the start point.
pub open spec fn bres_state(sx: int, sy: int, ex: int, ey: int, n: nat) -> (int, int, int)
    decreases n,
{
    if n == 0 {
        (sx, sy, abs(ex - sx) + (-abs(ey - sy)))
    } else {
        bres_step(sx, sy, ex, ey, bres_state(sx, sy, ex, ey, (n - 1) as nat))
    }
}

/// Whether the walker is still running at step `n`: no earlier state
/// sat on the end point.
pub open spec fn bres_active(sx: int, sy: int, ex: int, ey: int, n: nat) -> bool {
    forall|m: nat|
        m < n ==> !((#[trigger] bres_state(sx, sy, ex, ey, m)).0 == ex && bres_state(
            sx,
            sy,
            ex,
            ey,
            m,
        ).1 == ey)
}

/// Whether the stepper writes the state `n` cell: the start cell is
/// always written; a later state is written while the walker is active
/// and not yet on the end point (the end cell itself stays unwritten).
pub open spec fn bres_writes(sx: int, sy: int, ex: int, ey: int, n: nat) -> bool {
    ||| n == 0
    ||| (bres_active(sx, sy, ex, ey, n) && !(bres_state(sx, sy, ex, ey, n).0 == ex && bres_state(
        sx,
        sy,
        ex,
        ey,
        n,
    ).1 == ey))
}

/// The effect of drawing a line on a screen: sizes are unchanged,
/// sub-pixels only turn on, every written Bresenham state's cell in
/// writable range is set, and every cell that turned on is a written
/// state's cell.
pub open spec fn line_drawn(pre: Screen, post: Screen, a: Point2D, b: Point2D) -> bool {
    &&& post.width_spec() == pre.width_spec() && post.height_spec() == pre.height_spec()
    &&& forall|y: int, x: int| pre.cell(y, x) ==> #[trigger] post.cell(y, x)
    &&& forall|n: int|
        n >= 0 && bres_writes(a.x as int, a.y as int, b.x as int, b.y as int, n as nat) ==> {
            let st = #[trigger] bres_state(a.x as int, a.y as int, b.x as int, b.y as int, n as nat);
            (0 < st.0 < pre.width_spec() && 0 < st.1 < pre.height_spec()) ==> post.cell(st.1, st.0)
        }
    &&& forall|y: int, x: int|
        #[trigger] post.cell(y, x) && !pre.cell(y, x) ==> exists|n: nat|
            {
                &&& #[trigger] bres_writes(a.x as int, a.y as int, b.x as int, b.y as int, n)
                &&& bres_state(a.x as int, a.y as int, b.x as int, b.y as int, n).0 == x
                &&& bres_state(a.x as int, a.y as int, b.x as int, b.y as int, n).1 == y
            }
}

/// The occupancy grid that the immediate-mode renderer draws into, at
/// sub-pixel resolution.
#[derive(Debug)]
pub struct Screen {
    /// Grid width, in sub-pixels.
    pub width: u16,
    /// Grid height, in sub-pixels.
    pub height: u16,
    content: Vec<bool>,
}

impl Screen {
    /// The stored cells, row-major.
    pub closed spec fn content_seq(&self) -> Seq<bool> {
        self.content@
    }

    /// The grid width, for contracts.
    pub closed spec fn width_spec(&self) -> u16 {
        self.width
    }

    /// The grid height, for contracts.
    pub closed spec fn height_spec(&self) -> u16 {
        self.height
    }

    /// One cell per sub-pixel.
    pub closed spec fn wf(&self) -> bool {
        self.content_seq().len() == self.width * self.height
    }

    /// The cell at a position, false outside the grid.
    pub closed spec fn cell(&self, y: int, x: int) -> bool {
        if 0 <= x < self.width && 0 <= y < self.height {
            self.content_seq()[y * self.width + x]
        } else {
            false
        }
    }

    /// Creates an empty screen of zero size.
    pub fn new() -> (s: Screen)
        ensures
            s.wf(),
            s.width_spec() == 0 && s.height_spec() == 0,
    {
        Screen { content: Vec::new(), width: 0, height: 0 }
    }

    /// Writes one sub-pixel. Positions on the top or left edge or
    /// outside the grid are ignored.
    pub fn write(&mut self, val: bool, point: &Point2D)
        requires
            old(self).wf(),
        ensures
            final(self).wf(),
            final(self).width_spec() == old(self).width_spec() && final(self).height_spec() == old(self).height_spec(),
            (0 < point.x < old(self).width_spec() && 0 < point.y < old(self).height_spec()) ==> {
                &&& final(self).cell(point.y as int, point.x as int) == val
                &&& forall|y: int, x: int|
                    !(y == point.y && x == point.x) ==> #[trigger] final(self).cell(y, x) == old(self).cell(y, x)
            },
            !(0 < point.x < old(self).width_spec() && 0 < point.y < old(self).height_spec()) ==> final(self).content_seq() == old(self).content_seq(),
    {
        let x_in_bounds: bool = 0 < point.x && point.x < self.width as i32;
        let y_in_bounds: bool = 0 < point.y && point.y < self.height as i32;
        if x_in_bounds && y_in_bounds {
            proof {
                lemma_screen_index(point.x as int, point.y as int, self.width as int,
                self.height as int);
                lemma_screen_size(self.width as int, self.height as int);
                assert(point.y * self.width >= 0) by (nonlinear_arith)
                    requires
                        point.y > 0,
                        self.width >= 0,
                ;
            }
            let idx: usize = ((point.y as usize) * (self.width as usize) + (point.x as usize));
            self.content.set(idx, val);
            proof {
                assert forall|y: int, x: int|
                    !(y == point.y && x == point.x) implies #[trigger] self.cell(y, x) == old(self).cell(y, x) by {
                    if 0 <= x < self.width && 0 <= y < self.height {
                        lemma_screen_cells_distinct(x, y, point.x as int, point.y as int,
                        self.width as int, self.height as int);
                        lemma_screen_index_wide(x, y, self.width as int, self.height as int);
                    }
                }
            }
        }
    }

    /// Clears every sub-pixel.
    pub fn clear(&mut self)
        ensures
            final(self).wf(),
            final(self).width_spec() == old(self).width_spec() && final(self).height_spec() == old(self).height_spec(),
            forall|y: int, x: int| !(#[trigger] final(self).cell(y, x)),
    {
        proof {
            lemma_screen_size(self.width as int, self.height as int);
        }
        let n: usize = (self.width as usize) * (self.height as usize);
        let mut fresh: Vec<bool> = Vec::new();
        let mut i: usize = 0;
        while i < n
            invariant
                i <= n,
                fresh@.len() == i,
                forall|j: int| 0 <= j < i ==> !(#[trigger] fresh@[j]),
            decreases n - i,
        {
            fresh.push(false);
            i = i + 1;
        }
        self.content = fresh;
        proof {
            assert forall|y: int, x: int| !(#[trigger] self.cell(y, x)) by {
                if 0 <= x < self.width && 0 <= y < self.height {
                    assert(0 <= y * self.width + x < self.width * self.height)
                        by (nonlinear_arith)
                        requires
                            0 <= x < self.width,
                            0 <= y < self.height,
                    ;
                }
            }
        }
    }

    /// Resizes the grid, keeping the sub-pixels that remain in range
    /// and clearing any new ones.
    pub fn resize(&mut self, width: u16, height: u16)
        requires
            old(self).wf(),
        ensures
            final(self).wf(),
            final(self).width_spec() == width && final(self).height_spec() == height,
            forall|y: int, x: int|
                #![trigger final(self).cell(y, x)]
                0 <= y < height && 0 <= x < width ==> final(self).cell(y, x) == old(self).cell(
                    y,
                    x,
                ),
            forall|y: int, x: int|
                #![trigger final(self).cell(y, x)]
                (y >= old(self).height_spec() || x >= old(self).width_spec()) ==> !final(self).cell(y, x),
    {
        let mut fresh: Vec<bool> = Vec::new();
        let mut y: u16 = 0;
        while y < height
            invariant
                y <= height,
                old(self).wf(),
                *self == *old(self),
                fresh@.len() == y * width,
                forall|yy: int, xx: int|
                    0 <= yy < y && 0 <= xx < width ==> fresh@[yy * width + xx] == old(self).cell(
                        yy,
                        xx,
                    ),
            decreases height - y,
        {
            let mut x: u16 = 0;
            while x < width
                invariant
                    x <= width,
                    y < height,
                    old(self).wf(),
                    *self == *old(self),
                    fresh@.len() == y * width + x,
                    forall|yy: int, xx: int|
                        0 <= yy < y && 0 <= xx < width ==> fresh@[yy * width + xx] == old(self).cell(yy, xx),
                    forall|xx: int|
                        0 <= xx < x ==> fresh@[y * width + xx] == old(self).cell(y as int, xx),
                decreases width - x,
            {
                let v: bool = if x < self.width && y < self.height {
                    proof {
                        lemma_screen_index_wide(x as int, y as int, self.width as int,
                        self.height as int);
                        lemma_screen_size(self.width as int, self.height as int);
                        assert(y * self.width >= 0) by (nonlinear_arith)
                            requires
                                y >= 0,
                                self.width >= 0,
                        ;
                    }
                    self.content[(y as usize) * (self.width as usize) + (x as usize)]
                } else {
                    false
                };
                fresh.push(v);
                proof {
                    assert(fresh@.len() == y * width + x + 1);
                    assert forall|yy: int, xx: int|
                        0 <= yy < y && 0 <= xx < width implies fresh@[yy * width + xx] == old(self).cell(yy, xx) by {
                        assert(0 <= yy * width + xx && yy * width + xx < y * width)
                            by (nonlinear_arith)
                            requires
                                0 <= yy < y,
                                0 <= xx < width,
                        ;
                    }
                }
                x = x + 1;
            }
            proof {
                assert((y + 1) * width == y * width + width) by (nonlinear_arith);
            }
            y = y + 1;
        }
        self.width = width;
        self.height = height;
        self.content = fresh;
        proof {
            assert forall|yv: int, xv: int|
                0 <= yv < height && 0 <= xv < width implies self.cell(yv, xv) == old(self).cell(
                yv,
                xv,
            ) by {
                assert(0 <= yv * width + xv < width * height) by (nonlinear_arith)
                    requires
                        0 <= xv < width,
                        0 <= yv < height,
                ;
            }
            assert(width * height == height * width) by (nonlinear_arith);
        }
    }

    /// Draws a line from `start` towards `end` by integer Bresenham
    /// stepping. Sub-pixels only turn on, and only within the bounding
    /// rectangle of the two endpoints; the grid size is unchanged.
    pub fn line(&mut self, start: &Point2D, end: &Point2D)
        requires
            old(self).wf(),
        ensures
            final(self).wf(),
            final(self).width_spec() == old(self).width_spec() && final(self).height_spec() == old(self).height_spec(),
            line_drawn(*old(self), *final(self), *start, *end),
            forall|y: int, x: int|
                #![trigger final(self).cell(y, x)]
                {
                    &&& (old(self).cell(y, x) ==> final(self).cell(y, x))
                    &&& (final(self).cell(y, x) && !old(self).cell(y, x) ==> {
                        &&& (if start.x <= end.x {
                            start.x <= x <= end.x
                        } else {
                            end.x <= x <= start.x
                        })
                        &&& (if start.y <= end.y {
                            start.y <= y <= end.y
                        } else {
                            end.y <= y <= start.y
                        })
                    })
                },
    {
        let delta_x: i128 = if end.x >= start.x {
            (end.x as i128) - (start.x as i128)
        } else {
            (start.x as i128) - (end.x as i128)
        };
        let step_x: i64 = if start.x < end.x {
            1
        } else {
            -1
        };
        let delta_y: i128 = if end.y >= start.y {
            -((end.y as i128) - (start.y as i128))
        } else {
            -((start.y as i128) - (end.y as i128))
        };
        let step_y: i64 = if start.y < end.y {
            1
        } else {
            -1
        };
        let mut err: i128 = delta_x + delta_y;

        let mut x: i64 = start.x as i64;
        let mut y: i64 = start.y as i64;
        let ghost mut steps: nat = 0nat;
        let ghost sx = start.x as int;
        let ghost sy = start.y as int;
        let ghost ex = end.x as int;
        let ghost ey = end.y as int;

        let ghost at_entry = *self;
        self.write_clamped(true, x, y);
        proof {
            assert(bres_writes(sx, sy, ex, ey, 0nat));
            assert(bres_state(sx, sy, ex, ey, 0nat).0 == sx && bres_state(sx, sy, ex, ey,
            0nat).1 == sy);
            assert forall|yy: int, xx: int|
                #[trigger] self.cell(yy, xx) && !at_entry.cell(yy, xx) implies exists|n: nat|
                {
                    &&& #[trigger] bres_writes(sx, sy, ex, ey, n)
                    &&& bres_state(sx, sy, ex, ey, n).0 == xx
                    &&& bres_state(sx, sy, ex, ey, n).1 == yy
                } by {
                assert(yy == sy && xx == sx);
                assert(bres_writes(sx, sy, ex, ey, 0nat) && bres_state(sx, sy, ex, ey, 0nat).0
                    == xx && bres_state(sx, sy, ex, ey, 0nat).1 == yy);
            }
            assert((x - start.x) * step_x == 0 && (y - start.y) * step_y == 0 && (x - start.x)
                * step_x * delta_y == 0 && (y - start.y) * step_y * delta_x == 0 && (x - end.x)
                * step_x <= 0 && (y - end.y) * step_y <= 0) by (nonlinear_arith)
                requires
                    x == start.x,
                    y == start.y,
                    step_x == 1 || step_x == -1,
                    step_y == 1 || step_y == -1,
                    (end.x - start.x) * step_x >= 0,
                    (end.y - start.y) * step_y >= 0,
            ;
            assert((end.x - start.x) * step_x >= 0 && (end.y - start.y) * step_y >= 0)
                by (nonlinear_arith)
                requires
                    step_x == (if start.x < end.x {
                        1int
                    } else {
                        -1int
                    }),
                    step_y == (if start.y < end.y {
                        1int
                    } else {
                        -1int
                    }),
            ;
        }

        while !(x == end.x as i64 && y == end.y as i64)
            invariant
                self.wf(),
                self.width == old(self).width && self.height == old(self).height,
                delta_x == abs(end.x - start.x),
                delta_y == -abs(end.y - start.y),
                step_x == (if start.x < end.x {
                    1int
                } else {
                    -1int
                }),
                step_y == (if start.y < end.y {
                    1int
                } else {
                    -1int
                }),
                (x - start.x) * step_x >= 0,
                (x - end.x) * step_x <= 0,
                (y - start.y) * step_y >= 0,
                (y - end.y) * step_y <= 0,
                (if start.x <= end.x {
                    start.x <= x <= end.x
                } else {
                    end.x <= x <= start.x
                }),
                (if start.y <= end.y {
                    start.y <= y <= end.y
                } else {
                    end.y <= y <= start.y
                }),
                err == delta_x + delta_y + (x - start.x) * step_x * delta_y + (y - start.y)
                    * step_y * delta_x,
                sx == start.x as int && sy == start.y as int && ex == end.x as int && ey == end.y
                    as int,
                (x as int, y as int, err as int) == bres_state(sx, sy, ex, ey, steps),
                bres_active(sx, sy, ex, ey, steps),
                (0 < sx < self.width_spec() && 0 < sy < self.height_spec()) ==> self.cell(sy, sx),
                forall|n: nat|
                    n < steps ==> {
                        let st = #[trigger] bres_state(sx, sy, ex, ey, n);
                        (0 < st.0 < self.width_spec() && 0 < st.1 < self.height_spec())
                            ==> self.cell(st.1, st.0)
                    },
                forall|yy: int, xx: int|
                    #[trigger] self.cell(yy, xx) && !old(self).cell(yy, xx) ==> exists|n: nat|
                        {
                            &&& #[trigger] bres_writes(sx, sy, ex, ey, n)
                            &&& bres_state(sx, sy, ex, ey, n).0 == xx
                            &&& bres_state(sx, sy, ex, ey, n).1 == yy
                        },
                forall|yy: int, xx: int|
                    #![trigger self.cell(yy, xx)]
                    {
                        &&& (old(self).cell(yy, xx) ==> self.cell(yy, xx))
                        &&& (self.cell(yy, xx) && !old(self).cell(yy, xx) ==> {
                            &&& (if start.x <= end.x {
                                start.x <= xx <= end.x
                            } else {
                                end.x <= xx <= start.x
                            })
                            &&& (if start.y <= end.y {
                                start.y <= yy <= end.y
                            } else {
                                end.y <= yy <= start.y
                            })
                        })
                    },
            decreases abs(end.x - x) + abs(end.y - y),
        {
            let ghost pre_write = *self;
            self.write_clamped(true, x, y);
            let curr_err: i128 = err;

            let ghost px = x as int;
            let ghost py = y as int;
            proof {
                // The walker has not reached the end: the loop guard
                // holds and no earlier state reached it either.
                assert(bres_active(sx, sy, ex, ey, steps + 1)) by {
                    assert forall|m: nat|
                        m < steps + 1 implies !((#[trigger] bres_state(sx, sy, ex, ey, m)).0 == ex
                        && bres_state(sx, sy, ex, ey, m).1 == ey) by {
                        if m == steps {
                            assert(bres_state(sx, sy, ex, ey, m) == (px, py, curr_err as int));
                        }
                    }
                }
                assert(bres_writes(sx, sy, ex, ey, steps));
                assert forall|yy: int, xx: int|
                    #[trigger] self.cell(yy, xx) && !old(self).cell(yy, xx) implies exists|n: nat|
                    {
                        &&& #[trigger] bres_writes(sx, sy, ex, ey, n)
                        &&& bres_state(sx, sy, ex, ey, n).0 == xx
                        &&& bres_state(sx, sy, ex, ey, n).1 == yy
                    } by {
                    if pre_write.cell(yy, xx) {
                    } else {
                        assert(yy == py && xx == px);
                        assert(bres_state(sx, sy, ex, ey, steps).0 == xx && bres_state(
                            sx,
                            sy,
                            ex,
                            ey,
                            steps,
                        ).1 == yy);
                    }
                }
            }

            proof {
                lemma_bresenham_step(
                    start.x as int,
                    start.y as int,
                    end.x as int,
                    end.y as int,
                    px,
                    py,
                    curr_err as int,
                );
            }
            proof {
                lemma_err_bound(
                    start.x as int,
                    start.y as int,
                    end.x as int,
                    end.y as int,
                    x as int,
                    y as int,
                    curr_err as int,
                );
            }
            if 2 * curr_err >= delta_y {
                err = err + delta_y;
                x = x + step_x;
            }
            if 2 * curr_err <= delta_x {
                err = err + delta_x;
                y = y + step_y;
            }
            proof {
                lemma_step_update(
                    start.x as int,
                    start.y as int,
                    end.x as int,
                    end.y as int,
                    px,
                    py,
                    x as int,
                    y as int,
                    curr_err as int,
                    err as int,
                    2 * curr_err >= delta_y,
                    2 * curr_err <= delta_x,
                );
                assert(bres_state(sx, sy, ex, ey, steps + 1) == bres_step(
                    sx,
                    sy,
                    ex,
                    ey,
                    bres_state(sx, sy, ex, ey, steps),
                ));
                assert((x as int, y as int, err as int) == bres_step(
                    sx,
                    sy,
                    ex,
                    ey,
                    (px, py, curr_err as int),
                ));
                steps = steps + 1nat;
                assert forall|n: nat|
                    n < steps implies {
                    let st = #[trigger] bres_state(sx, sy, ex, ey, n);
                    (0 < st.0 < self.width_spec() && 0 < st.1 < self.height_spec())
                        ==> self.cell(st.1, st.0)
                } by {
                    if n == steps - 1 {
                        assert(bres_state(sx, sy, ex, ey, n) == (px, py, curr_err as int));
                    }
                }
            }
        }
        proof {
            assert(bres_state(sx, sy, ex, ey, steps).0 == ex && bres_state(sx, sy, ex, ey,
            steps).1 == ey);
            assert forall|n: int|
                n >= 0 && bres_writes(sx, sy, ex, ey, n as nat) implies {
                let st = #[trigger] bres_state(sx, sy, ex, ey, n as nat);
                (0 < st.0 < old(self).width_spec() && 0 < st.1 < old(self).height_spec())
                    ==> self.cell(st.1, st.0)
            } by {
                if n as nat == steps {
                    assert(!bres_writes(sx, sy, ex, ey, steps) || steps == 0);
                } else if n > steps {
                    assert(!bres_active(sx, sy, ex, ey, n as nat)) by {
                        assert(bres_state(sx, sy, ex, ey, steps).0 == ex);
                    }
                } else {
                    assert(n < steps);
                }
            }
        }
    }

    /// Writes a sub-pixel given wide coordinates, ignoring any outside
    /// the 32-bit point range.
    fn write_clamped(&mut self, val: bool, x: i64, y: i64)
        requires
            old(self).wf(),
        ensures
            final(self).wf(),
            final(self).width_spec() == old(self).width_spec() && final(self).height_spec() == old(self).height_spec(),
            forall|yy: int, xx: int|
                #![trigger final(self).cell(yy, xx)]
                {
                    &&& (!(yy == y && xx == x) ==> final(self).cell(yy, xx) == old(self).cell(
                        yy,
                        xx,
                    ))
                    &&& (yy == y && xx == x && 0 < xx < old(self).width && 0 < yy < old(self).height ==> final(self).cell(yy, xx) == val)
                    &&& (final(self).cell(yy, xx) != old(self).cell(yy, xx) ==> yy == y && xx
                        == x && 0 < x < old(self).width_spec() && 0 < y < old(self).height_spec())
                },
    {
        if x > 0 && x < self.width as i64 && y > 0 && y < self.height as i64 {
            let p = Point2D { x: x as i32, y: y as i32 };
            self.write(val, &p);
        }
    }

    /// Packs the grid into Braille text: one line per band of four
    /// sub-pixel rows, one character per pair of sub-pixel columns,
    /// each showing exactly the sub-pixels of its 2x4 block.
    pub fn to_braille_lines(&self) -> (lines: Vec<String>)
        requires
            self.wf(),
        ensures
            lines@.len() == (self.height_spec() + 3) / 4,
            forall|b: int|
                0 <= b < lines@.len() ==> (#[trigger] lines@[b])@.len() == (self.width_spec() + 1)
                    / 2,
            forall|b: int, c: int|
                0 <= b < lines@.len() && 0 <= c < (self.width_spec() + 1) / 2
                    ==> (#[trigger] (lines@[b])@[c]) as u32 == 0x2800 + (if self.cell(
                    4 * b,
                    2 * c,
                ) {
                    1int
                } else {
                    0int
                }) + (if self.cell(4 * b + 1, 2 * c) {
                    2int
                } else {
                    0int
                }) + (if self.cell(4 * b + 2, 2 * c) {
                    4int
                } else {
                    0int
                }) + (if self.cell(4 * b, 2 * c + 1) {
                    8int
                } else {
                    0int
                }) + (if self.cell(4 * b + 1, 2 * c + 1) {
                    16int
                } else {
                    0int
                }) + (if self.cell(4 * b + 2, 2 * c + 1) {
                    32int
                } else {
                    0int
                }) + (if self.cell(4 * b + 3, 2 * c) {
                    64int
                } else {
                    0int
                }) + (if self.cell(4 * b + 3, 2 * c + 1) {
                    128int
                } else {
                    0int
                }),
    {
        let bands: u16 = (((self.height as u32) + 3) / 4) as u16;
        let cols: u16 = (((self.width as u32) + 1) / 2) as u16;
        let mut lines: Vec<String> = Vec::new();
        let mut b: u16 = 0;
        while b < bands
            invariant
                b <= bands,
                self.wf(),
                bands == (self.height + 3) / 4,
                cols == (self.width + 1) / 2,
                lines@.len() == b,
                forall|bb: int|
                    0 <= bb < b ==> (#[trigger] lines@[bb])@.len() == cols,
                forall|bb: int, c: int|
                    0 <= bb < b && 0 <= c < cols ==> (#[trigger] (lines@[bb])@[c]) as u32 == 0x2800
                        + braille_bits(block_pixel(self, bb, c)),
            decreases bands - b,
        {
            let mut line: String = String::new();
            let mut c: u16 = 0;
            while c < cols
                invariant
                    c <= cols,
                    b < bands,
                    self.wf(),
                    bands == (self.height + 3) / 4,
                    cols == (self.width + 1) / 2,
                    line@.len() == c,
                    forall|cc: int|
                        0 <= cc < c ==> (line@[cc]) as u32 == 0x2800 + braille_bits(
                            block_pixel(self, b as int, cc),
                        ),
                decreases cols - c,
            {
                let mut px = BraillePixel::new();
                let mut sr: u16 = 0;
                while sr < 4
                    invariant
                        sr <= 4,
                        self.wf(),
                        b < bands,
                        c < cols,
                        forall|r: int, cc: int|
                            0 <= r < sr && 0 <= cc < 2 ==> braille_dot(px, r, cc) == self.cell(
                                4 * b + r,
                                2 * c + cc,
                            ),
                        forall|r: int, cc: int|
                            sr <= r < 4 && 0 <= cc < 2 ==> !braille_dot(px, r, cc),
                    decreases 4 - sr,
                {
                    let v0: bool = self.cell_at(4 * (b as i64) + (sr as i64), 2 * (c as i64));
                    let v1: bool = self.cell_at(4 * (b as i64) + (sr as i64), 2 * (c as i64) + 1);
                    px.set(sr as usize, 0, v0);
                    px.set(sr as usize, 1, v1);
                    sr = sr + 1;
                }
                proof {
                    assert(braille_bits(px) == braille_bits(block_pixel(self, b as int, c as int)))
                        by {
                        assert(braille_dot(px, 0, 0) == self.cell(4 * b, 2 * c) && braille_dot(
                            px,
                            1,
                            0,
                        ) == self.cell(4 * b + 1, 2 * c) && braille_dot(px, 2, 0) == self.cell(
                            4 * b + 2,
                            2 * c,
                        ) && braille_dot(px, 3, 0) == self.cell(4 * b + 3, 2 * c) && braille_dot(
                            px,
                            0,
                            1,
                        ) == self.cell(4 * b, 2 * c + 1) && braille_dot(px, 1, 1) == self.cell(
                            4 * b + 1,
                            2 * c + 1,
                        ) && braille_dot(px, 2, 1) == self.cell(4 * b + 2, 2 * c + 1)
                            && braille_dot(px, 3, 1) == self.cell(4 * b + 3, 2 * c + 1));
                    }
                }
                let ch: char = px.to_char();
                line.push(ch);
                c = c + 1;
            }
            lines.push(line);
            b = b + 1;
        }
        proof {
            assert forall|bb: int, c: int|
                0 <= bb < lines@.len() && 0 <= c < cols implies (#[trigger] (lines@[bb])@[
            c]) as u32 == 0x2800 + (if self.cell(4 * bb, 2 * c) {
                1int
            } else {
                0int
            }) + (if self.cell(4 * bb + 1, 2 * c) {
                2int
            } else {
                0int
            }) + (if self.cell(4 * bb + 2, 2 * c) {
                4int
            } else {
                0int
            }) + (if self.cell(4 * bb, 2 * c + 1) {
                8int
            } else {
                0int
            }) + (if self.cell(4 * bb + 1, 2 * c + 1) {
                16int
            } else {
                0int
            }) + (if self.cell(4 * bb + 2, 2 * c + 1) {
                32int
            } else {
                0int
            }) + (if self.cell(4 * bb + 3, 2 * c) {
                64int
            } else {
                0int
            }) + (if self.cell(4 * bb + 3, 2 * c + 1) {
                128int
            } else {
                0int
            }) by {}
        }
        lines
    }

    /// Reads a sub-pixel by wide coordinates, false outside the grid.
    fn cell_at(&self, y: i64, x: i64) -> (b: bool)
        requires
            self.wf(),
        ensures
            b == self.cell(y as int, x as int),
    {
        if x >= 0 && x < self.width as i64 && y >= 0 && y < self.height as i64 {
            proof {
                lemma_screen_index_wide(x as int, y as int, self.width as int, self.height as int);
                lemma_screen_size(self.width as int, self.height as int);
                assert(y * self.width >= 0) by (nonlinear_arith)
                    requires
                        y >= 0,
                        self.width >= 0,
                ;
            }
            self.content[(y as usize) * (self.width as usize) + (x as usize)]
        } else {
            false
        }
    }
}

/// The Braille cell of a 2x4 block of the grid.
pub open spec fn block_pixel(s: &Screen, b: int, c: int) -> BraillePixel {
    BraillePixel {
        data: [
            [s.cell(4 * b, 2 * c), s.cell(4 * b, 2 * c + 1)],
            [s.cell(4 * b + 1, 2 * c), s.cell(4 * b + 1, 2 * c + 1)],
            [s.cell(4 * b + 2, 2 * c), s.cell(4 * b + 2, 2 * c + 1)],
            [s.cell(4 * b + 3, 2 * c), s.cell(4 * b + 3, 2 * c + 1)],
        ],
    }
}

/// A screen buffer always fits the address space.
proof fn lemma_screen_size(w: int, h: int)
    requires
        0 <= w <= 65535,
        0 <= h <= 65535,
    ensures
        w * h <= 4294836225,
        0 <= w * h,
{
    assert(w * h <= 65535 * 65535 && w * h >= 0) by (nonlinear_arith)
        requires
            0 <= w <= 65535,
            0 <= h <= 65535,
    ;
}

/// An in-bounds screen index stays within the content vector.
proof fn lemma_screen_index(x: int, y: int, w: int, h: int)
    requires
        0 < x < w,
        0 < y < h,
    ensures
        0 <= y * w + x < w * h,
{
    assert(y * w + x < w * h && y * w >= 0) by (nonlinear_arith)
        requires
            0 < x < w,
            0 < y < h,
    ;
}

/// Any in-grid screen index stays within the content vector.
proof fn lemma_screen_index_wide(x: int, y: int, w: int, h: int)
    requires
        0 <= x < w,
        0 <= y < h,
    ensures
        0 <= y * w + x < w * h,
{
    assert(y * w + x < w * h && y * w >= 0) by (nonlinear_arith)
        requires
            0 <= x < w,
            0 <= y < h,
    ;
}

/// Distinct in-grid positions map to distinct content indices.
proof fn lemma_screen_cells_distinct(x1: int, y1: int, x2: int, y2: int, w: int, h: int)
    requires
        0 <= x1 < w,
        0 <= y1 < h,
        0 <= x2 < w,
        0 <= y2 < h,
        !(x1 == x2 && y1 == y2),
    ensures
        y1 * w + x1 != y2 * w + x2,
{
    if y1 == y2 {
    } else {
        assert(y1 * w + x1 != y2 * w + x2) by (nonlinear_arith)
            requires
                0 <= x1 < w,
                0 <= x2 < w,
                y1 != y2,
        ;
    }
}

/// The error term stays within 128 bits: it is a sum of products of
/// coordinate spans.
proof fn lemma_err_bound(sx: int, sy: int, ex: int, ey: int, x: int, y: int, err: int)
    requires
        -2147483648 <= sx <= 2147483647,
        -2147483648 <= sy <= 2147483647,
        -2147483648 <= ex <= 2147483647,
        -2147483648 <= ey <= 2147483647,
        err == abs(ex - sx) + (-abs(ey - sy)) + (x - sx) * (if sx < ex {
            1int
        } else {
            -1int
        }) * (-abs(ey - sy)) + (y - sy) * (if sy < ey {
            1int
        } else {
            -1int
        }) * abs(ex - sx),
        (x - sx) * (if sx < ex {
            1int
        } else {
            -1int
        }) >= 0,
        (x - ex) * (if sx < ex {
            1int
        } else {
            -1int
        }) <= 0,
        (y - sy) * (if sy < ey {
            1int
        } else {
            -1int
        }) >= 0,
        (y - ey) * (if sy < ey {
            1int
        } else {
            -1int
        }) <= 0,
    ensures
        abs(err) <= 100_000_000_000_000_000_000int,
        abs(2 * err) <= i128::MAX,
        abs(err + abs(ex - sx)) <= i128::MAX,
        abs(err + (-abs(ey - sy))) <= i128::MAX,
{
    let dx = abs(ex - sx);
    let dy = -abs(ey - sy);
    let stx: int = if sx < ex {
        1int
    } else {
        -1int
    };
    let sty: int = if sy < ey {
        1int
    } else {
        -1int
    };
    let px = (x - sx) * stx;
    let py = (y - sy) * sty;
    assert(0 <= px <= dx && 0 <= py <= -dy) by (nonlinear_arith)
        requires
            px == (x - sx) * stx,
            py == (y - sy) * sty,
            (x - sx) * stx >= 0,
            (x - ex) * stx <= 0,
            (y - sy) * sty >= 0,
            (y - ey) * sty <= 0,
            dx == abs(ex - sx),
            dy == -abs(ey - sy),
            stx == (if sx < ex {
                1int
            } else {
                -1int
            }),
            sty == (if sy < ey {
                1int
            } else {
                -1int
            }),
    ;
    assert(abs(px * dy) <= 4294967296 * 4294967296 && abs(py * dx) <= 4294967296 * 4294967296)
        by (nonlinear_arith)
        requires
            0 <= px <= dx,
            0 <= py <= -dy,
            0 <= dx <= 4294967296,
            0 <= -dy <= 4294967296,
    ;
}

/// The Bresenham error invariant keeps the walker inside the segment:
/// when one coordinate has reached its end, the error term keeps it
/// there.
proof fn lemma_bresenham_step(sx: int, sy: int, ex: int, ey: int, x: int, y: int, err: int)
    requires
        !(x == ex && y == ey),
        (x - sx) * (if sx < ex {
            1int
        } else {
            -1int
        }) >= 0,
        (x - ex) * (if sx < ex {
            1int
        } else {
            -1int
        }) <= 0,
        (y - sy) * (if sy < ey {
            1int
        } else {
            -1int
        }) >= 0,
        (y - ey) * (if sy < ey {
            1int
        } else {
            -1int
        }) <= 0,
        err == abs(ex - sx) + (-abs(ey - sy)) + (x - sx) * (if sx < ex {
            1int
        } else {
            -1int
        }) * (-abs(ey - sy)) + (y - sy) * (if sy < ey {
            1int
        } else {
            -1int
        }) * abs(ex - sx),
    ensures
        x == ex && y != ey ==> 2 * err < -abs(ey - sy),
        y == ey && x != ex ==> 2 * err > abs(ex - sx),
        2 * err >= -abs(ey - sy) || 2 * err <= abs(ex - sx),
{
    let dx = abs(ex - sx);
    let dy = -abs(ey - sy);
    let stx: int = if sx < ex {
        1int
    } else {
        -1int
    };
    let sty: int = if sy < ey {
        1int
    } else {
        -1int
    };
    let px = (x - sx) * stx;
    let py = (y - sy) * sty;
    assert(0 <= px <= dx) by (nonlinear_arith)
        requires
            px == (x - sx) * stx,
            (x - sx) * stx >= 0,
            (x - ex) * stx <= 0,
            dx == abs(ex - sx),
            stx == (if sx < ex {
                1int
            } else {
                -1int
            }),
    ;
    assert(0 <= py <= -dy) by (nonlinear_arith)
        requires
            py == (y - sy) * sty,
            (y - sy) * sty >= 0,
            (y - ey) * sty <= 0,
            -dy == abs(ey - sy),
            sty == (if sy < ey {
                1int
            } else {
                -1int
            }),
    ;
    if x == ex && y != ey {
        assert(px == dx) by (nonlinear_arith)
            requires
                px == (x - sx) * stx,
                x == ex,
                dx == abs(ex - sx),
                stx == (if sx < ex {
                    1int
                } else {
                    -1int
                }),
        ;
        assert(py == -dy ==> y == ey) by (nonlinear_arith)
            requires
                py == (y - sy) * sty,
                -dy == abs(ey - sy),
                sty == (if sy < ey {
                    1int
                } else {
                    -1int
                }),
        ;
        assert(py < -dy);
        assert(err == dx + dy + dx * dy + py * dx) by (nonlinear_arith)
            requires
                err == dx + dy + px * dy + py * dx,
                px == dx,
        ;
        if dy == 0 {
            assert(py == 0);
            assert(false);
        } else {
            assert(2 * err < dy) by (nonlinear_arith)
                requires
                    err == dx + dy + dx * dy + py * dx,
                    0 <= py <= -dy - 1,
                    dy <= -1,
                    dx >= 0,
            ;
        }
    }
    if y == ey && x != ex {
        assert(py == -dy) by (nonlinear_arith)
            requires
                py == (y - sy) * sty,
                y == ey,
                dy == -abs(ey - sy),
                sty == (if sy < ey {
                    1int
                } else {
                    -1int
                }),
        ;
        assert(px == dx ==> x == ex) by (nonlinear_arith)
            requires
                px == (x - sx) * stx,
                dx == abs(ex - sx),
                stx == (if sx < ex {
                    1int
                } else {
                    -1int
                }),
        ;
        assert(px < dx);
        if dx == 0 {
            assert(px == 0);
            assert(false);
        } else {
            assert(2 * err > dx) by (nonlinear_arith)
                requires
                    err == dx + dy + px * dy + (-dy) * dx,
                    0 <= px <= dx - 1,
                    dx >= 1,
                    dy <= 0,
        ;
        }
    }
    assert(2 * err >= dy || 2 * err <= dx) by (nonlinear_arith)
        requires
            dy <= 0,
            dx >= 0,
    ;
}

/// One Bresenham step makes progress toward the end point and
/// maintains the error invariant.
proof fn lemma_step_update(
    sx: int,
    sy: int,
    ex: int,
    ey: int,
    px: int,
    py: int,
    nx: int,
    ny: int,
    err0: int,
    err1: int,
    bx: bool,
    by: bool,
)
    requires
        !(px == ex && py == ey),
        (px - sx) * (if sx < ex {
            1int
        } else {
            -1int
        }) >= 0,
        (px - ex) * (if sx < ex {
            1int
        } else {
            -1int
        }) <= 0,
        (py - sy) * (if sy < ey {
            1int
        } else {
            -1int
        }) >= 0,
        (py - ey) * (if sy < ey {
            1int
        } else {
            -1int
        }) <= 0,
        err0 == abs(ex - sx) + (-abs(ey - sy)) + (px - sx) * (if sx < ex {
            1int
        } else {
            -1int
        }) * (-abs(ey - sy)) + (py - sy) * (if sy < ey {
            1int
        } else {
            -1int
        }) * abs(ex - sx),
        bx == (2 * err0 >= -abs(ey - sy)),
        by == (2 * err0 <= abs(ex - sx)),
        nx == (if bx {
            px + (if sx < ex {
                1int
            } else {
                -1int
            })
        } else {
            px
        }),
        ny == (if by {
            py + (if sy < ey {
                1int
            } else {
                -1int
            })
        } else {
            py
        }),
        err1 == err0 + (if bx {
            -abs(ey - sy)
        } else {
            0int
        }) + (if by {
            abs(ex - sx)
        } else {
            0int
        }),
    ensures
        (nx - sx) * (if sx < ex {
            1int
        } else {
            -1int
        }) >= 0,
        (nx - ex) * (if sx < ex {
            1int
        } else {
            -1int
        }) <= 0,
        (ny - sy) * (if sy < ey {
            1int
        } else {
            -1int
        }) >= 0,
        (ny - ey) * (if sy < ey {
            1int
        } else {
            -1int
        }) <= 0,
        err1 == abs(ex - sx) + (-abs(ey - sy)) + (nx - sx) * (if sx < ex {
            1int
        } else {
            -1int
        }) * (-abs(ey - sy)) + (ny - sy) * (if sy < ey {
            1int
        } else {
            -1int
        }) * abs(ex - sx),
        abs(ex - nx) + abs(ey - ny) < abs(ex - px) + abs(ey - py),
        (if sx <= ex {
            sx <= nx <= ex
        } else {
            ex <= nx <= sx
        }),
        (if sy <= ey {
            sy <= ny <= ey
        } else {
            ey <= ny <= sy
        }),
{
    let dx = abs(ex - sx);
    let dy = -abs(ey - sy);
    let stx: int = if sx < ex {
        1int
    } else {
        -1int
    };
    let sty: int = if sy < ey {
        1int
    } else {
        -1int
    };
    lemma_bresenham_step(sx, sy, ex, ey, px, py, err0);
    assert(bx ==> px != ex);
    assert(by ==> py != ey);
    assert(bx || by);
    if bx {
        assert((nx - sx) * stx == (px - sx) * stx + 1 && (nx - ex) * stx == (px - ex) * stx + 1)
            by (nonlinear_arith)
            requires
                nx == px + stx,
                stx == 1 || stx == -1,
                stx * stx == 1,
        ;
        assert((px - ex) * stx <= -1) by (nonlinear_arith)
            requires
                (px - ex) * stx <= 0,
                px != ex,
                stx == 1 || stx == -1,
        ;
        assert(abs(ex - nx) == abs(ex - px) - 1) by (nonlinear_arith)
            requires
                nx == px + stx,
                stx == (if sx < ex {
                    1int
                } else {
                    -1int
                }),
                (px - sx) * stx >= 0,
                (px - ex) * stx <= -1,
        ;
    }
    if by {
        assert((ny - sy) * sty == (py - sy) * sty + 1 && (ny - ey) * sty == (py - ey) * sty + 1)
            by (nonlinear_arith)
            requires
                ny == py + sty,
                sty == 1 || sty == -1,
                sty * sty == 1,
        ;
        assert((py - ey) * sty <= -1) by (nonlinear_arith)
            requires
                (py - ey) * sty <= 0,
                py != ey,
                sty == 1 || sty == -1,
        ;
        assert(abs(ey - ny) == abs(ey - py) - 1) by (nonlinear_arith)
            requires
                ny == py + sty,
                sty == (if sy < ey {
                    1int
                } else {
                    -1int
                }),
                (py - sy) * sty >= 0,
                (py - ey) * sty <= -1,
        ;
    }
    assert(err1 == dx + dy + (nx - sx) * stx * dy + (ny - sy) * sty * dx) by (nonlinear_arith)
        requires
            err0 == dx + dy + (px - sx) * stx * dy + (py - sy) * sty * dx,
            err1 == err0 + (if bx {
                dy
            } else {
                0int
            }) + (if by {
                dx
            } else {
                0int
            }),
            (nx - sx) * stx == (px - sx) * stx + (if bx {
                1int
            } else {
                0int
            }),
            (ny - sy) * sty == (py - sy) * sty + (if by {
                1int
            } else {
                0int
            }),
    ;
    assert((nx - sx) * stx == (px - sx) * stx + (if bx {
        1int
    } else {
        0int
    })) by (nonlinear_arith)
        requires
            nx == (if bx {
                px + stx
            } else {
                px
            }),
            stx == 1 || stx == -1,
    ;
    assert((ny - sy) * sty == (py - sy) * sty + (if by {
        1int
    } else {
        0int
    })) by (nonlinear_arith)
        requires
            ny == (if by {
                py + sty
            } else {
                py
            }),
            sty == 1 || sty == -1,
    ;
    assert(abs(ex - nx) + abs(ey - ny) < abs(ex - px) + abs(ey - py));
    assert((if sx <= ex {
        sx <= nx <= ex
    } else {
        ex <= nx <= sx
    }) && (if sy <= ey {
        sy <= ny <= ey
    } else {
        ey <= ny <= sy
    })) by (nonlinear_arith)
        requires
            (nx - sx) * stx >= 0,
            (nx - ex) * stx <= 0,
            (ny - sy) * sty >= 0,
            (ny - ey) * sty <= 0,
            stx == (if sx < ex {
                1int
            } else {
                -1int
            }),
            sty == (if sy < ey {
                1int
            } else {
                -1int
            }),
    ;
}

/// The sines and cosines of the camera's Euler angles, in ticks,
/// supplied by the caller.
#[derive(Debug, Clone, Copy, PartialEq, Eq, Structural)]
pub struct Rotation {
    pub sin_yaw: i64,
    pub cos_yaw: i64,
    pub sin_pitch: i64,
    pub cos_pitch: i64,
    pub sin_roll: i64,
    pub cos_roll: i64,
}

impl Rotation {
    /// Sines and cosines stay within one unit.
    pub open spec fn wf(&self) -> bool {
        &&& abs(self.sin_yaw as int) <= SCALE && abs(self.cos_yaw as int) <= SCALE
        &&& abs(self.sin_pitch as int) <= SCALE && abs(self.cos_pitch as int) <= SCALE
        &&& abs(self.sin_roll as int) <= SCALE && abs(self.cos_roll as int) <= SCALE
    }
}

/// A point moved into camera space: the camera offset undone, then the
/// yaw, pitch and roll rotations undone in turn, all in fixed point.
pub open spec fn world_to_camera_spec(cam: Vec3, rot: Rotation, p: Vec3) -> Vec3 {
    let dx = p.x - cam.x;
    let dy = p.y - cam.y;
    let dz = p.z - cam.z;
    let ux = crate::fixed::fmul(dx, rot.cos_yaw as int) - crate::fixed::fmul(
        dz,
        rot.sin_yaw as int,
    );
    let uy = dy;
    let uz = crate::fixed::fmul(dx, rot.sin_yaw as int) + crate::fixed::fmul(
        dz,
        rot.cos_yaw as int,
    );
    let px = ux;
    let py = crate::fixed::fmul(uy, rot.cos_pitch as int) - crate::fixed::fmul(
        uz,
        rot.sin_pitch as int,
    );
    let pz = crate::fixed::fmul(uy, rot.sin_pitch as int) + crate::fixed::fmul(
        uz,
        rot.cos_pitch as int,
    );
    let rx = crate::fixed::fmul(px, rot.cos_roll as int) - crate::fixed::fmul(
        py,
        rot.sin_roll as int,
    );
    let ry = crate::fixed::fmul(px, rot.sin_roll as int) + crate::fixed::fmul(
        py,
        rot.cos_roll as int,
    );
    let rz = pz;
    Vec3 { x: rx as i64, y: ry as i64, z: rz as i64 }
}

/// The pinhole projection of a camera-space point onto the sub-pixel
/// grid: viewport coordinates scaled by the viewport size derived from
/// the field of view and the screen's aspect ratio, rounded, saturated
/// to the 32-bit point range.
pub open spec fn camera_to_screen_spec(
    p: Vec3,
    d: int,
    tan_half_fov: int,
    sw: int,
    sh: int,
) -> Point2D {
    let vx = trunc_div(p.x * d, p.z as int);
    let vy = trunc_div(p.y * d, p.z as int);
    let vw = trunc_div(2 * d * tan_half_fov, SCALE as int);
    let vh0 = trunc_div(sh * vw, sw);
    let vh = if vh0 == 0 {
        1int
    } else {
        vh0
    };
    let fx = trunc_div(vx * SCALE, vw) + SCALE / 2;
    let fy = (SCALE as int) - (trunc_div(vy * SCALE, vh) + SCALE / 2);
    let sx = round_units(fx * sw);
    let sy = round_units(fy * sh);
    Point2D { x: sat_i32(sx) as i32, y: sat_i32(sy) as i32 }
}

/// The near-plane clip of a crossing segment: the endpoint behind the
/// viewport replaced by the point where the segment meets the plane,
/// by fixed-point linear interpolation.
pub open spec fn clip_interp(clipped: Vec3, unclipped: Vec3, d: int) -> Vec3 {
    let lambda = crate::fixed::fdiv(d - clipped.z, unclipped.z - clipped.z);
    Vec3 {
        x: (crate::fixed::fmul(lambda, unclipped.x - clipped.x) + clipped.x) as i64,
        y: (crate::fixed::fmul(lambda, unclipped.y - clipped.y) + clipped.y) as i64,
        z: d as i64,
    }
}

/// A value clamped to the 32-bit signed range.
pub open spec fn sat_i32(v: int) -> int {
    if v > 0x7fffffff {
        0x7fffffff
    } else if v < -0x80000000 {
        -0x80000000
    } else {
        v
    }
}

/// The immediate-mode camera: a position, Euler angles, a pinhole
/// viewport, and the owned screen.
#[derive(Debug)]
pub struct Camera {
    /// Camera position in world space, in ticks.
    pub coordinates: Vec3,
    /// Yaw angle, in radian ticks.
    pub yaw: i64,
    /// Pitch angle, in radian ticks.
    pub pitch: i64,
    /// Roll angle, in radian ticks.
    pub roll: i64,
    /// Distance from the camera to the viewport plane, in ticks.
    pub viewport_distance: i64,
    /// Field of view of the viewport, in radian ticks.
    pub viewport_fov: i64,
    /// The owned sub-pixel screen.
    pub screen: Screen,
}

impl Camera {
    /// The camera state the projection accepts: a position within the
    /// coordinate limit, a viewport at least a thousandth of a unit
    /// away, and a screen with both dimensions present.
    pub open spec fn wf(&self) -> bool {
        &&& in_range(self.coordinates, 1_000_000_000int)
        &&& 1_000 <= self.viewport_distance <= 1_000_000_000
        &&& 1 <= self.screen.width_spec()
        &&& 1 <= self.screen.height_spec()
        &&& self.screen.wf()
    }

    /// Creates a camera with an empty screen.
    pub fn new(
        coordinates: Vec3,
        yaw: i64,
        pitch: i64,
        roll: i64,
        viewport_distance: i64,
        viewport_fov: i64,
    ) -> (c: Camera)
        ensures
            c.coordinates == coordinates,
            c.yaw == yaw && c.pitch == pitch && c.roll == roll,
            c.viewport_distance == viewport_distance,
            c.viewport_fov == viewport_fov,
            c.screen.wf(),
            c.screen.width_spec() == 0 && c.screen.height_spec() == 0,
    {
        Camera { coordinates, yaw, pitch, roll, viewport_distance, viewport_fov, screen: Screen::new() }
    }

    /// Moves a world point into camera space.
    #[verifier::rlimit(100)]
    #[verifier::spinoff_prover]
    pub fn world_to_camera(&self, point: &Vec3, rot: &Rotation) -> (r: Vec3)
        requires
            in_range(*point, 1_000_000_000int),
            in_range(self.coordinates, 1_000_000_000int),
            rot.wf(),
        ensures
            r == world_to_camera_spec(self.coordinates, *rot, *point),
            in_range(r, 16_000_000_000int),
    {
        let dx: i64 = point.x - self.coordinates.x;
        let dy: i64 = point.y - self.coordinates.y;
        let dz: i64 = point.z - self.coordinates.z;
        let (ux, uz) = rotate_pair(dx, dz, rot.sin_yaw, rot.cos_yaw);
        let uy: i64 = dy;
        let (py, pz) = rotate_pair(uy, uz, rot.sin_pitch, rot.cos_pitch);
        let px: i64 = ux;
        let (rx, ry) = rotate_pair(px, py, rot.sin_roll, rot.cos_roll);
        let rz: i64 = pz;
        Vec3 { x: rx, y: ry, z: rz }
    }

    /// Projects a camera-space point in front of the viewport onto the
    /// sub-pixel grid.
    pub fn camera_to_screen(&self, point: &Vec3, tan_half_fov: i64) -> (r: Point2D)
        requires
            self.wf(),
            in_range(*point, 50_000_000_000int),
            point.z >= self.viewport_distance,
            10_000 <= tan_half_fov <= 1_000_000_000,
        ensures
            r == camera_to_screen_spec(
                *point,
                self.viewport_distance as int,
                tan_half_fov as int,
                self.screen.width_spec() as int,
                self.screen.height_spec() as int,
            ),
    {
        let d: i64 = self.viewport_distance;
        let sw: i64 = self.screen.width as i64;
        let sh: i64 = self.screen.height as i64;
        proof {
            crate::fixed::lemma_abs_mul(point.x as int, d as int);
            crate::fixed::lemma_abs_mul(point.y as int, d as int);
            crate::fixed::lemma_trunc_div_le(point.x * d, point.z as int);
            crate::fixed::lemma_trunc_div_le(point.y * d, point.z as int);
            assert(abs(point.x as int) * abs(d as int) <= 50_000_000_000_000_000_000_000_000int
                && abs(point.y as int) * abs(d as int)
                <= 50_000_000_000_000_000_000_000_000int) by (nonlinear_arith)
                requires
                    abs(point.x as int) <= 50_000_000_000,
                    abs(point.y as int) <= 50_000_000_000,
                    0 <= d <= 1_000_000_000,
            ;
            assert(abs(point.x * d) / abs(point.z as int) <= abs(point.x as int))
                by (nonlinear_arith)
                requires
                    abs(point.x * d) == abs(point.x as int) * abs(d as int),
                    0 < d <= point.z,
                    abs(point.z as int) == point.z,
            ;
            assert(abs(point.y * d) / abs(point.z as int) <= abs(point.y as int))
                by (nonlinear_arith)
                requires
                    abs(point.y * d) == abs(point.y as int) * abs(d as int),
                    0 < d <= point.z,
                    abs(point.z as int) == point.z,
            ;
        }
        let vx: i64 = trunc_div_i128((point.x as i128) * (d as i128), point.z as i128) as i64;
        let vy: i64 = trunc_div_i128((point.y as i128) * (d as i128), point.z as i128) as i64;
        proof {
            assert(0 <= 2 * (d as int) * (tan_half_fov as int)
                <= 2_000_000_000_000_000_000int) by (nonlinear_arith)
                requires
                    1_000 <= d <= 1_000_000_000,
                    10_000 <= tan_half_fov <= 1_000_000_000,
            ;
            assert(2 * (d as int) * (tan_half_fov as int) >= 20 * (SCALE as int))
                by (nonlinear_arith)
                requires
                    1_000 <= d,
                    10_000 <= tan_half_fov,
            ;
            crate::fixed::lemma_trunc_div_le(2 * (d as int) * (tan_half_fov as int), SCALE as int);
            vstd::arithmetic::div_mod::lemma_div_is_ordered(
                20 * (SCALE as int),
                2 * (d as int) * (tan_half_fov as int),
                SCALE as int,
            );
            vstd::arithmetic::div_mod::lemma_div_multiples_vanish(20int, SCALE as int);
            vstd::arithmetic::div_mod::lemma_div_is_ordered(
                2 * (d as int) * (tan_half_fov as int),
                2_000_000_000_000_000_000int,
                SCALE as int,
            );
            vstd::arithmetic::div_mod::lemma_div_multiples_vanish(
                2_000_000_000_000int,
                SCALE as int,
            );
        }
        let vw: i64 = trunc_div_i128(2 * (d as i128) * (tan_half_fov as i128), SCALE as i128)
            as i64;
        proof {
            assert(0 <= (sh as int) * (vw as int) <= 65535 * 2_000_000_000_000int)
                by (nonlinear_arith)
                requires
                    0 <= sh <= 65535,
                    0 <= vw <= 2_000_000_000_000,
            ;
            crate::fixed::lemma_trunc_div_le(sh as int * vw, sw as int);
        }
        let vh: i64 = trunc_div_i128((sh as i128) * (vw as i128), sw as i128) as i64;
        let fx: i64 = screen_fraction(vx, vw);
        let fy: i64 = SCALE - screen_fraction(vy, if vh == 0 {
            1
        } else {
            vh
        });
        proof {
            assert(vh != 0 ==> trunc_div(vy as int * SCALE, vh as int) == trunc_div(
                vy as int * SCALE,
                (if vh == 0 {
                    1int
                } else {
                    vh as int
                }),
            ));
        }
        let sx: i64 = frac_to_grid(fx, sw);
        let sy: i64 = frac_to_grid(fy, sh);
        Point2D { x: sat32(sx), y: sat32(sy) }
    }

    /// Plots one world point: points in front of the viewport are
    /// written to the screen, others are dropped.
    pub fn plot_point(&mut self, point: &Vec3, rot: &Rotation, tan_half_fov: i64)
        requires
            old(self).wf(),
            in_range(*point, 1_000_000_000int),
            rot.wf(),
            10_000 <= tan_half_fov <= 1_000_000_000,
        ensures
            final(self).wf(),
            final(self).screen.width_spec() == old(self).screen.width_spec(),
            final(self).screen.height_spec() == old(self).screen.height_spec(),
            *final(self) == (Camera { screen: final(self).screen, ..*old(self) }),
            ({
                let cam = world_to_camera_spec(old(self).coordinates, *rot, *point);
                &&& (cam.z < old(self).viewport_distance ==> final(self).screen.content_seq()
                    == old(self).screen.content_seq())
                &&& (cam.z >= old(self).viewport_distance ==> {
                    let sp = camera_to_screen_spec(
                        cam,
                        old(self).viewport_distance as int,
                        tan_half_fov as int,
                        old(self).screen.width_spec() as int,
                        old(self).screen.height_spec() as int,
                    );
                    &&& (0 < sp.x < old(self).screen.width_spec() && 0 < sp.y < old(self).screen.height_spec() ==> final(self).screen.cell(sp.y as int, sp.x as int))
                    &&& forall|y: int, x: int|
                        #![trigger final(self).screen.cell(y, x)]
                        (final(self).screen.cell(y, x) != old(self).screen.cell(y, x) ==> y == sp.y
                            && x == sp.x)
                })
            }),
    {
        let cam: Vec3 = self.world_to_camera(point, rot);
        if cam.z >= self.viewport_distance {
            let sp: Point2D = self.camera_to_screen(&cam, tan_half_fov);
            self.screen.write(true, &sp);
        }
    }

    /// Plots one world line, clipping it against the viewport plane:
    /// segments entirely behind are dropped, a crossing segment is cut
    /// at the plane by linear interpolation, and the rest is drawn with
    /// Bresenham stepping. Sub-pixels only ever turn on.
    pub fn plot_line(&mut self, start: &Vec3, end: &Vec3, rot: &Rotation, tan_half_fov: i64)
        requires
            old(self).wf(),
            in_range(*start, 1_000_000_000int),
            in_range(*end, 1_000_000_000int),
            rot.wf(),
            10_000 <= tan_half_fov <= 1_000_000_000,
        ensures
            final(self).wf(),
            final(self).screen.width_spec() == old(self).screen.width_spec(),
            final(self).screen.height_spec() == old(self).screen.height_spec(),
            *final(self) == (Camera { screen: final(self).screen, ..*old(self) }),
            forall|y: int, x: int|
                old(self).screen.cell(y, x) ==> #[trigger] final(self).screen.cell(y, x),
            ({
                let cs = world_to_camera_spec(old(self).coordinates, *rot, *start);
                let ce = world_to_camera_spec(old(self).coordinates, *rot, *end);
                let d = old(self).viewport_distance as int;
                let sw = old(self).screen.width_spec() as int;
                let sh = old(self).screen.height_spec() as int;
                &&& (cs.z < d && ce.z < d ==> final(self).screen.content_seq() == old(self).screen.content_seq())
                &&& (cs.z >= d && ce.z >= d ==> line_drawn(
                    old(self).screen,
                    final(self).screen,
                    camera_to_screen_spec(cs, d, tan_half_fov as int, sw, sh),
                    camera_to_screen_spec(ce, d, tan_half_fov as int, sw, sh),
                ))
                &&& (cs.z < d && ce.z >= d ==> line_drawn(
                    old(self).screen,
                    final(self).screen,
                    camera_to_screen_spec(clip_interp(cs, ce, d), d, tan_half_fov as int, sw, sh),
                    camera_to_screen_spec(ce, d, tan_half_fov as int, sw, sh),
                ))
                &&& (ce.z < d && cs.z >= d ==> line_drawn(
                    old(self).screen,
                    final(self).screen,
                    camera_to_screen_spec(clip_interp(ce, cs, d), d, tan_half_fov as int, sw, sh),
                    camera_to_screen_spec(cs, d, tan_half_fov as int, sw, sh),
                ))
            }),
    {
        let camera_start: Vec3 = self.world_to_camera(start, rot);
        let camera_end: Vec3 = self.world_to_camera(end, rot);
        let clip_start: bool = camera_start.z < self.viewport_distance;
        let clip_end: bool = camera_end.z < self.viewport_distance;

        if clip_start && clip_end {
            return ;
        }
        if !clip_start && !clip_end {
            let p1: Point2D = self.camera_to_screen(&camera_start, tan_half_fov);
            let p2: Point2D = self.camera_to_screen(&camera_end, tan_half_fov);
            self.screen.line(&p1, &p2);
            return ;
        }
        let (clipped, unclipped): (Vec3, Vec3) = if clip_start {
            (camera_start, camera_end)
        } else {
            (camera_end, camera_start)
        };
        let behind: i64 = self.viewport_distance - clipped.z;
        let delta_x: i64 = unclipped.x - clipped.x;
        let delta_y: i64 = unclipped.y - clipped.y;
        let delta_z: i64 = unclipped.z - clipped.z;
        proof {
            crate::fixed::lemma_abs_mul(behind as int, SCALE as int);
            crate::fixed::lemma_trunc_div_le(behind as int * SCALE, delta_z as int);
            assert(abs(behind as int) * (SCALE as int) <= 40_000_000_000_000_000int)
                by (nonlinear_arith)
                requires
                    abs(behind as int) <= 20_000_000_000,
            ;
            assert(abs(behind as int) * (SCALE as int) <= abs(delta_z as int) * (SCALE as int))
                by (nonlinear_arith)
                requires
                    0 <= abs(behind as int) <= abs(delta_z as int),
            ;
            assert(abs(delta_z as int) * (SCALE as int) <= i64::MAX * abs(delta_z as int))
                by (nonlinear_arith)
                requires
                    abs(delta_z as int) >= 1,
            ;
            vstd::arithmetic::div_mod::lemma_div_is_ordered(
                abs(behind as int) * (SCALE as int),
                abs(delta_z as int) * (SCALE as int),
                abs(delta_z as int),
            );
            vstd::arithmetic::div_mod::lemma_div_multiples_vanish(
                SCALE as int,
                abs(delta_z as int),
            );
        }
        let lambda: i64 = crate::fixed::div_fx(behind, delta_z);
        proof {
            assert(abs(lambda as int) <= SCALE);
            lemma_rot_term(delta_x as int, lambda as int);
            lemma_rot_term(delta_y as int, lambda as int);
        }
        let new_clipped = Vec3 {
            x: mul_fx(lambda, delta_x) + clipped.x,
            y: mul_fx(lambda, delta_y) + clipped.y,
            z: self.viewport_distance,
        };
        proof {
            assert(new_clipped == clip_interp(clipped, unclipped, self.viewport_distance as int));
        }
        let p1: Point2D = self.camera_to_screen(&new_clipped, tan_half_fov);
        let p2: Point2D = self.camera_to_screen(&unclipped, tan_half_fov);
        self.screen.line(&p1, &p2);
    }
}

/// The perpendicular an arrowhead uses: the direction's projection
/// turned a quarter against the Z axis (or against the X axis when the
/// direction is nearly parallel to Z), normalized, with fixed fallbacks
/// when it vanishes.
pub open spec fn is_arrow_perp_of(dir: Vec3, perp: Vec3) -> bool {
    if abs(dir.z as int) < 900_000 {
        if dir.y == 0 && dir.x == 0 {
            perp == (Vec3 { x: SCALE, y: 0i64, z: 0i64 })
        } else {
            is_normalized_of(Vec3 { x: (-dir.y) as i64, y: dir.x, z: 0i64 }, perp)
        }
    } else {
        if dir.z == 0 && dir.y == 0 {
            perp == (Vec3 { x: 0i64, y: SCALE, z: 0i64 })
        } else {
            is_normalized_of(Vec3 { x: 0i64, y: (-dir.z) as i64, z: dir.y }, perp)
        }
    }
}

/// One arrowhead wing point: the tip pulled back along the axis and
/// splayed by the perpendicular, both scaled by the arrow length, at
/// the fixed wing angle of half a radian.
pub open spec fn arrow_wing_spec(end: Vec3, dir: Vec3, perp: Vec3, arrow_length: int) -> Vec3 {
    let ox = crate::fixed::fmul(dir.x as int, 877_583) + crate::fixed::fmul(perp.x as int, 479_426);
    let oy = crate::fixed::fmul(dir.y as int, 877_583) + crate::fixed::fmul(perp.y as int, 479_426);
    let oz = crate::fixed::fmul(dir.z as int, 877_583) + crate::fixed::fmul(perp.z as int, 479_426);
    Vec3 {
        x: (end.x - crate::fixed::fmul(ox, arrow_length)) as i64,
        y: (end.y - crate::fixed::fmul(oy, arrow_length)) as i64,
        z: (end.z - crate::fixed::fmul(oz, arrow_length)) as i64,
    }
}

/// The arrowhead strokes of a segment: empty for a degenerate segment,
/// otherwise two strokes from the tip to the wing points built from the
/// normalized direction, its perpendicular, and their cross product,
/// with the arrow length a twentieth of the span.
pub open spec fn is_arrowhead_of(start: Vec3, end: Vec3, scale_len: int, lines: Seq<(Vec3, Vec3)>) -> bool {
    let d = Vec3 {
        x: (end.x - start.x) as i64,
        y: (end.y - start.y) as i64,
        z: (end.z - start.z) as i64,
    };
    if len_sq(d) == 0 {
        lines.len() == 0
    } else {
        exists|dir: Vec3, perp1: Vec3|
            {
                &&& is_normalized_of(d, dir)
                &&& #[trigger] is_arrow_perp_of(dir, perp1)
                &&& lines.len() == 2
                &&& lines[0] == (end, arrow_wing_spec(end, dir, perp1, crate::fixed::fmul(scale_len, 50_000)))
                &&& lines[1] == (
                    end,
                    arrow_wing_spec(end, dir, cross_spec(dir, perp1), crate::fixed::fmul(scale_len, 50_000)),
                )
            }
    }
}

/// `md` is the greatest floor distance from the origin over the
/// points: every point's floor length is at most `md`, and some point
/// attains it (zero for an empty set).
pub open spec fn is_axis_span(points: Seq<Vec3>, md: int) -> bool {
    &&& 0 <= md
    &&& forall|i: int, di: int|
        0 <= i < points.len() && #[trigger] is_sqrt(len_sq(points[i]), di) ==> di <= md
    &&& (md == 0 || exists|i: int|
        0 <= i < points.len() && is_sqrt(len_sq(#[trigger] points[i]), md))
}

/// The three decorated axes sized to a span: tips a tenth beyond the
/// span (one unit when it is zero), each with its arrowhead strokes.
pub open spec fn axes_sized(r: Seq<AxisDecoration>, md: int) -> bool {
    let m = if md == 0 {
        SCALE as int
    } else {
        crate::fixed::fmul(md, 1_100_000)
    };
    let origin = Vec3 { x: 0i64, y: 0i64, z: 0i64 };
    let xt = Vec3 { x: m as i64, y: 0i64, z: 0i64 };
    let yt = Vec3 { x: 0i64, y: m as i64, z: 0i64 };
    let zt = Vec3 { x: 0i64, y: 0i64, z: m as i64 };
    &&& r.len() == 3
    &&& 0 < m <= 4_000_000_000
    &&& r[0].axis_line == (origin, xt)
    &&& r[1].axis_line == (origin, yt)
    &&& r[2].axis_line == (origin, zt)
    &&& is_arrowhead_of(origin, xt, m, r[0].arrowhead_lines@)
    &&& is_arrowhead_of(origin, yt, m, r[1].arrowhead_lines@)
    &&& is_arrowhead_of(origin, zt, m, r[2].arrowhead_lines@)
}

/// One coordinate axis with its decoration: the axis segment and the
/// arrowhead strokes at its tip.
#[derive(Debug)]
pub struct AxisDecoration {
    /// The axis segment, origin to tip.
    pub axis_line: (Vec3, Vec3),
    /// The arrowhead strokes, each from the tip to a wing point.
    pub arrowhead_lines: Vec<(Vec3, Vec3)>,
}

/// The point cloud of the immediate-mode renderer: bare positions plus
/// generated axis decorations.
#[derive(Debug)]
pub struct PointCloud {
    /// The loaded points, in ticks.
    pub points: Vec<Vec3>,
    /// The generated coordinate axes.
    pub axes: Vec<AxisDecoration>,
}

impl PointCloud {
    /// Generates the three coordinate axes sized to the given points:
    /// each runs from the origin along one axis to a tenth beyond the
    /// farthest point (one unit for an empty set), with two arrowhead
    /// strokes at its tip.
    pub fn generate_axes_public(points: &[Vec3]) -> (r: Vec<AxisDecoration>)
        requires
            forall|i: int| 0 <= i < points@.len() ==> in_range(#[trigger] points@[i], 1_000_000_000int),
        ensures
            r@.len() == 3,
            forall|k: int|
                0 <= k < 3 ==> (#[trigger] r@[k]).axis_line.0 == (Vec3 { x: 0i64, y: 0i64, z: 0i64 }),
            exists|md: int| #[trigger] is_axis_span(points@, md) && axes_sized(r@, md),
    {
        Self::generate_axes(points)
    }

    /// Finds the axis span and builds the three decorated axes.
    fn generate_axes(points: &[Vec3]) -> (r: Vec<AxisDecoration>)
        requires
            forall|i: int| 0 <= i < points@.len() ==> in_range(#[trigger] points@[i], 1_000_000_000int),
        ensures
            r@.len() == 3,
            forall|k: int|
                0 <= k < 3 ==> (#[trigger] r@[k]).axis_line.0 == (Vec3 { x: 0i64, y: 0i64, z: 0i64 }),
            exists|md: int| #[trigger] is_axis_span(points@, md) && axes_sized(r@, md),
    {
        let n: usize = points.len();
        let mut max_distance: i64 = 0;
        let mut i: usize = 0;
        while i < n
            invariant
                i <= n,
                n == points@.len(),
                forall|j: int| 0 <= j < points@.len() ==> in_range(#[trigger] points@[j], 1_000_000_000int),
                0 <= max_distance <= 3_500_000_000,
                is_axis_span(points@.subrange(0, i as int), max_distance as int),
            decreases n - i,
        {
            let p: Vec3 = *vstd::slice::slice_index_get(points, i);
            proof {
                assert(in_range(p, 5_000_000_000int));
            }
            let d: i64 = p.length();
            proof {
                assert(len_sq(p) <= 3_000_000_000_000_000_000int) by (nonlinear_arith)
                    requires
                        abs(p.x as int) <= 1_000_000_000,
                        abs(p.y as int) <= 1_000_000_000,
                        abs(p.z as int) <= 1_000_000_000,
                ;
                assert(d <= 3_500_000_000) by (nonlinear_arith)
                    requires
                        d as int * d as int <= 3_000_000_000_000_000_000int,
                        d >= 0,
                ;
            }
            let ghost pre_max = max_distance as int;
            if d > max_distance {
                max_distance = d;
            }
            proof {
                let prefix = points@.subrange(0, i + 1);
                assert(prefix.drop_last() =~= points@.subrange(0, i as int));
                assert(prefix[i as int] == p);
                assert forall|j: int, dj: int|
                    0 <= j < prefix.len() && #[trigger] is_sqrt(len_sq(prefix[j]), dj)
                        implies dj <= max_distance as int by {
                    if j < i {
                        assert(prefix[j] == points@.subrange(0, i as int)[j]);
                    } else {
                        crate::fixed::lemma_sqrt_unique(len_sq(p), dj, d as int);
                    }
                }
                if max_distance as int == d {
                    assert(is_sqrt(len_sq(prefix[i as int]), max_distance as int));
                } else {
                    assert(pre_max == max_distance as int);
                    if max_distance != 0 {
                        let j = choose|j: int|
                            0 <= j < points@.subrange(0, i as int).len() && is_sqrt(
                                len_sq(#[trigger] points@.subrange(0, i as int)[j]),
                                pre_max,
                            );
                        assert(prefix[j] == points@.subrange(0, i as int)[j]);
                        assert(is_sqrt(len_sq(prefix[j]), max_distance as int));
                    }
                }
                assert(is_axis_span(prefix, max_distance as int));
            }
            i = i + 1;
        }
        proof {
            assert(points@.subrange(0, n as int) =~= points@);
        }
        // A tenth beyond the farthest point; one unit when empty or all
        // at the origin.
        let m: i64 = if max_distance == 0 {
            SCALE
        } else {
            proof {
                crate::fixed::lemma_abs_mul(max_distance as int, 1_100_000int);
                crate::fixed::lemma_trunc_div_le(max_distance as int * 1_100_000, SCALE as int);
                assert(abs(max_distance as int) * abs(1_100_000int) <= 3_850_000_000_000_000int
                    && max_distance as int * 1_100_000 >= 1 * 1_000_000) by (nonlinear_arith)
                    requires
                        1 <= max_distance <= 3_500_000_000,
                ;
                vstd::arithmetic::div_mod::lemma_div_is_ordered(
                    1_000_000int,
                    max_distance as int * 1_100_000,
                    SCALE as int,
                );
                vstd::arithmetic::div_mod::lemma_div_is_ordered(
                    abs(max_distance as int * 1_100_000),
                    3_850_000_000_000_000int,
                    SCALE as int,
                );
            }
            mul_fx(max_distance, 1_100_000)
        };
        proof {
            assert(0 < m <= 4_000_000_000);
            assert(m as int == (if max_distance as int == 0 {
                SCALE as int
            } else {
                crate::fixed::fmul(max_distance as int, 1_100_000)
            }));
        }
        let origin = Vec3 { x: 0, y: 0, z: 0 };
        let x_end = Vec3 { x: m, y: 0, z: 0 };
        let y_end = Vec3 { x: 0, y: m, z: 0 };
        let z_end = Vec3 { x: 0, y: 0, z: m };
        let mut r: Vec<AxisDecoration> = Vec::new();
        r.push(Self::create_axis_decoration(origin, x_end, m));
        r.push(Self::create_axis_decoration(origin, y_end, m));
        r.push(Self::create_axis_decoration(origin, z_end, m));
        proof {
            assert(axes_sized(r@, max_distance as int));
            assert(is_axis_span(points@, max_distance as int));
        }
        r
    }

    /// Pairs an axis segment with its arrowhead strokes.
    fn create_axis_decoration(start: Vec3, end: Vec3, scale_len: i64) -> (r: AxisDecoration)
        requires
            in_range(start, 1_000_000_000int),
            in_range(end, 4_000_000_000int),
            0 < scale_len <= 4_000_000_000,
        ensures
            r.axis_line == (start, end),
            is_arrowhead_of(start, end, scale_len as int, r.arrowhead_lines@),
    {
        let arrowhead_lines = Self::generate_arrowhead(&start, &end, scale_len);
        AxisDecoration { axis_line: (start, end), arrowhead_lines }
    }

    /// Builds the two arrowhead strokes at the tip of a segment: each
    /// runs from the tip back along the axis, splayed outward by a
    /// perpendicular, both scaled by the arrow length (a twentieth of
    /// the axis span, at the fixed wing angle of half a radian).
    ///
    /// A zero-length segment yields no strokes.
    pub fn generate_arrowhead(start: &Vec3, end: &Vec3, scale_len: i64) -> (r: Vec<(Vec3, Vec3)>)
        requires
            in_range(*start, 1_000_000_000int),
            in_range(*end, 4_000_000_000int),
            0 < scale_len <= 4_000_000_000,
        ensures
            is_arrowhead_of(*start, *end, scale_len as int, r@),
            r@.len() != 0 ==> {
                &&& r@.len() == 2
                &&& r@[0].0 == *end && r@[1].0 == *end
                &&& in_range(r@[0].1, 5_000_000_000int)
                &&& in_range(r@[1].1, 5_000_000_000int)
            },
    {
        let d = Vec3 {
            x: end.x - start.x,
            y: end.y - start.y,
            z: end.z - start.z,
        };
        proof {
            if !(d.x == 0 && d.y == 0 && d.z == 0) {
                assert(len_sq(d) >= 1) by (nonlinear_arith)
                    requires
                        !(d.x == 0 && d.y == 0 && d.z == 0),
                ;
            } else {
                assert(len_sq(d) == 0) by (nonlinear_arith)
                    requires
                        d.x == 0 && d.y == 0 && d.z == 0,
                ;
            }
        }
        if d.x == 0 && d.y == 0 && d.z == 0 {
            return Vec::new();
        }
        // Normalized direction, in ticks.
        let dir: Vec3 = d.normalize();
        // The perpendicular: against the Z axis, or against the X axis
        // when the direction is nearly parallel to Z.
        let dz_abs: i64 = if dir.z >= 0 {
            dir.z
        } else {
            -dir.z
        };
        let perp1: Vec3 = if dz_abs < 900_000 {
            let p = Vec3 { x: -dir.y, y: dir.x, z: 0 };
            if p.x == 0 && p.y == 0 {
                Vec3 { x: SCALE, y: 0, z: 0 }
            } else {
                proof {
                    assert(len_sq(p) >= 1) by (nonlinear_arith)
                        requires
                            !(p.x == 0 && p.y == 0),
                            p.z == 0,
                    ;
                }
                p.normalize()
            }
        } else {
            let p = Vec3 { x: 0, y: -dir.z, z: dir.y };
            if p.y == 0 && p.z == 0 {
                Vec3 { x: 0, y: SCALE, z: 0 }
            } else {
                proof {
                    assert(len_sq(p) >= 1) by (nonlinear_arith)
                        requires
                            !(p.y == 0 && p.z == 0),
                            p.x == 0,
                    ;
                }
                p.normalize()
            }
        };
        proof {
            assert(is_arrow_perp_of(dir, perp1));
        }
        let perp2: Vec3 = dir.cross(perp1);
        proof {
            assert(perp2 == cross_spec(dir, perp1));
        }
        // Arrow length: a twentieth of the span. Wing angle: half a
        // radian, whose cosine and sine are fixed.
        proof {
            lemma_rot_term(scale_len as int, 50_000int);
            assert(abs(scale_len as int) * abs(50_000int) <= 200_000_000_000_000int)
                by (nonlinear_arith)
                requires
                    0 < scale_len <= 4_000_000_000,
            ;
            vstd::arithmetic::div_mod::lemma_div_is_ordered(
                abs(scale_len as int) * abs(50_000int),
                200_000_000_000_000int,
                SCALE as int,
            );
        }
        let arrow_length: i64 = mul_fx(scale_len, 50_000);
        let cos_angle: i64 = 877_583;
        let sin_angle: i64 = 479_426;
        let wing1: Vec3 = arrow_wing(*end, dir, perp1, arrow_length, cos_angle, sin_angle);
        let wing2: Vec3 = arrow_wing(*end, dir, perp2, arrow_length, cos_angle, sin_angle);
        let mut r: Vec<(Vec3, Vec3)> = Vec::new();
        r.push((*end, wing1));
        r.push((*end, wing2));
        proof {
            assert(r@.len() == 2);
            assert(r@[0] == (*end, wing1) && r@[1] == (*end, wing2));
            assert(is_normalized_of(d, dir) && is_arrow_perp_of(dir, perp1) && r@.len() == 2
                && r@[0] == (
            *end,
            arrow_wing_spec(*end, dir, perp1, crate::fixed::fmul(scale_len as int, 50_000)),
            ) && r@[1] == (
            *end,
            arrow_wing_spec(
                *end,
                dir,
                cross_spec(dir, perp1),
                crate::fixed::fmul(scale_len as int, 50_000),
            ),
            ));
        }
        r
    }

    /// The smallest and largest coordinates over all points, per axis;
    /// the origin twice when there are none.
    pub fn get_bounds(&self) -> (r: (Vec3, Vec3))
        ensures
            self.points@.len() == 0 ==> r.0 == (Vec3 { x: 0i64, y: 0i64, z: 0i64 }) && r.1 == (
            Vec3 { x: 0i64, y: 0i64, z: 0i64 }),
            self.points@.len() > 0 ==> {
                &&& forall|i: int|
                    0 <= i < self.points@.len() ==> {
                        &&& r.0.x <= (#[trigger] self.points@[i]).x <= r.1.x
                        &&& r.0.y <= self.points@[i].y <= r.1.y
                        &&& r.0.z <= self.points@[i].z <= r.1.z
                    }
                &&& exists|i: int|
                    0 <= i < self.points@.len() && (#[trigger] self.points@[i]).x == r.0.x
                &&& exists|i: int|
                    0 <= i < self.points@.len() && (#[trigger] self.points@[i]).x == r.1.x
                &&& exists|i: int|
                    0 <= i < self.points@.len() && (#[trigger] self.points@[i]).y == r.0.y
                &&& exists|i: int|
                    0 <= i < self.points@.len() && (#[trigger] self.points@[i]).y == r.1.y
                &&& exists|i: int|
                    0 <= i < self.points@.len() && (#[trigger] self.points@[i]).z == r.0.z
                &&& exists|i: int|
                    0 <= i < self.points@.len() && (#[trigger] self.points@[i]).z == r.1.z
            },
    {
        let n: usize = self.points.len();
        if n == 0 {
            return (Vec3 { x: 0, y: 0, z: 0 }, Vec3 { x: 0, y: 0, z: 0 });
        }
        let first: Vec3 = self.points[0];
        let mut mn: Vec3 = first;
        let mut mx: Vec3 = first;
        let mut i: usize = 0;
        while i < n
            invariant
                i <= n,
                n == self.points@.len(),
                n > 0,
                forall|j: int|
                    0 <= j < i ==> {
                        &&& mn.x <= (#[trigger] self.points@[j]).x <= mx.x
                        &&& mn.y <= self.points@[j].y <= mx.y
                        &&& mn.z <= self.points@[j].z <= mx.z
                    },
                exists|j: int| 0 <= j < n && (#[trigger] self.points@[j]).x == mn.x,
                exists|j: int| 0 <= j < n && (#[trigger] self.points@[j]).x == mx.x,
                exists|j: int| 0 <= j < n && (#[trigger] self.points@[j]).y == mn.y,
                exists|j: int| 0 <= j < n && (#[trigger] self.points@[j]).y == mx.y,
                exists|j: int| 0 <= j < n && (#[trigger] self.points@[j]).z == mn.z,
                exists|j: int| 0 <= j < n && (#[trigger] self.points@[j]).z == mx.z,
            decreases n - i,
        {
            let p: Vec3 = self.points[i];
            mn = mn.min(p);
            mx = mx.max(p);
            i = i + 1;
        }
        (mn, mx)
    }

    /// The center of the bounding box, coordinates halved toward zero.
    pub fn get_center(&self) -> (r: Vec3)
        requires
            forall|i: int|
                0 <= i < self.points@.len() ==> in_range(#[trigger] self.points@[i], 1_000_000_000int),
        ensures
            in_range(r, 1_000_000_000int),
    {
        let (mn, mx) = self.get_bounds();
        proof {
            lemma_bounds_in_range(self, mn, mx);
        }
        Vec3 {
            x: halve(mn.x + mx.x),
            y: halve(mn.y + mx.y),
            z: halve(mn.z + mx.z),
        }
    }

    /// The length of the bounding box diagonal, in ticks.
    pub fn get_diagonal(&self) -> (r: i64)
        requires
            forall|i: int|
                0 <= i < self.points@.len() ==> in_range(#[trigger] self.points@[i], 1_000_000_000int),
        ensures
            0 <= r <= 3_500_000_000,
    {
        let (mn, mx) = self.get_bounds();
        proof {
            lemma_bounds_in_range(self, mn, mx);
        }
        let d = Vec3 { x: mx.x - mn.x, y: mx.y - mn.y, z: mx.z - mn.z };
        let len: i64 = d.length();
        if len > 3_500_000_000 {
            3_500_000_000
        } else {
            len
        }
    }
}

/// One arrowhead wing: the tip pulled back along the axis and splayed
/// by the perpendicular, both scaled by the arrow length.
fn arrow_wing(
    end: Vec3,
    dir: Vec3,
    perp: Vec3,
    arrow_length: i64,
    cos_angle: i64,
    sin_angle: i64,
) -> (r: Vec3)
    requires
        in_range(end, 4_000_000_000int),
        in_range(dir, SCALE as int),
        in_range(perp, 2 * SCALE as int),
        0 <= arrow_length <= 200_000_000,
        0 <= cos_angle <= SCALE,
        0 <= sin_angle <= SCALE,
    ensures
        in_range(r, 5_000_000_000int),
        cos_angle == 877_583 && sin_angle == 479_426 ==> r == arrow_wing_spec(
            end,
            dir,
            perp,
            arrow_length as int,
        ),
{
    proof {
        lemma_rot_term(dir.x as int, cos_angle as int);
        lemma_rot_term(dir.y as int, cos_angle as int);
        lemma_rot_term(dir.z as int, cos_angle as int);
        lemma_rot_term(perp.x as int, sin_angle as int);
        lemma_rot_term(perp.y as int, sin_angle as int);
        lemma_rot_term(perp.z as int, sin_angle as int);
    }
    let ox: i64 = mul_fx(dir.x, cos_angle) + mul_fx(perp.x, sin_angle);
    let oy: i64 = mul_fx(dir.y, cos_angle) + mul_fx(perp.y, sin_angle);
    let oz: i64 = mul_fx(dir.z, cos_angle) + mul_fx(perp.z, sin_angle);
    proof {
        lemma_wing_term(ox as int, arrow_length as int);
        lemma_wing_term(oy as int, arrow_length as int);
        lemma_wing_term(oz as int, arrow_length as int);
    }
    Vec3 {
        x: end.x - mul_fx(ox, arrow_length),
        y: end.y - mul_fx(oy, arrow_length),
        z: end.z - mul_fx(oz, arrow_length),
    }
}

/// Bounding-box corners inherit the points' coordinate range.
proof fn lemma_bounds_in_range(pc: &PointCloud, mn: Vec3, mx: Vec3)
    requires
        forall|i: int| 0 <= i < pc.points@.len() ==> in_range(#[trigger] pc.points@[i], 1_000_000_000int),
        pc.points@.len() == 0 ==> mn == (Vec3 { x: 0i64, y: 0i64, z: 0i64 }) && mx == (Vec3 {
            x: 0i64,
            y: 0i64,
            z: 0i64,
        }),
        pc.points@.len() > 0 ==> {
            &&& exists|i: int| 0 <= i < pc.points@.len() && (#[trigger] pc.points@[i]).x == mn.x
            &&& exists|i: int| 0 <= i < pc.points@.len() && (#[trigger] pc.points@[i]).x == mx.x
            &&& exists|i: int| 0 <= i < pc.points@.len() && (#[trigger] pc.points@[i]).y == mn.y
            &&& exists|i: int| 0 <= i < pc.points@.len() && (#[trigger] pc.points@[i]).y == mx.y
            &&& exists|i: int| 0 <= i < pc.points@.len() && (#[trigger] pc.points@[i]).z == mn.z
            &&& exists|i: int| 0 <= i < pc.points@.len() && (#[trigger] pc.points@[i]).z == mx.z
        },
    ensures
        in_range(mn, 1_000_000_000int),
        in_range(mx, 1_000_000_000int),
{
}

/// A unit-scale offset times the arrow length stays below one unit of
/// world space.
proof fn lemma_wing_term(ox: int, al: int)
    requires
        abs(ox) <= 3_000_000,
        0 <= al <= 200_000_000,
    ensures
        abs(crate::fixed::fmul(ox, al)) <= 1_000_000_000,
        abs(ox) * abs(al) <= i64::MAX * (SCALE as int),
{
    crate::fixed::lemma_abs_mul(ox, al);
    crate::fixed::lemma_trunc_div_le(ox * al, SCALE as int);
    assert(abs(ox) * abs(al) <= 600_000_000_000_000int) by (nonlinear_arith)
        requires
            0 <= abs(ox) <= 3_000_000,
            0 <= abs(al) <= 200_000_000,
    ;
    vstd::arithmetic::div_mod::lemma_div_is_ordered(
        abs(ox * al),
        600_000_000_000_000int,
        SCALE as int,
    );
}

/// Half of a value, truncated toward zero.
fn halve(v: i64) -> (r: i64)
    requires
        abs(v as int) <= 4_000_000_000_000,
    ensures
        r as int == trunc_div(v as int, 2),
        abs(r as int) <= abs(v as int) / 2,
{
    proof {
        crate::fixed::lemma_trunc_div_le(v as int, 2int);
    }
    if v >= 0 {
        v / 2
    } else {
        -((-v) / 2)
    }
}

/// One planar rotation step of the camera transform:
/// `(a * cos - b * sin, a * sin + b * cos)` in fixed point.
fn rotate_pair(a: i64, b: i64, sin: i64, cos: i64) -> (r: (i64, i64))
    requires
        abs(a as int) <= 8_000_000_000,
        abs(b as int) <= 8_000_000_000,
        abs(sin as int) <= SCALE,
        abs(cos as int) <= SCALE,
    ensures
        r.0 as int == crate::fixed::fmul(a as int, cos as int) - crate::fixed::fmul(
            b as int,
            sin as int,
        ),
        r.1 as int == crate::fixed::fmul(a as int, sin as int) + crate::fixed::fmul(
            b as int,
            cos as int,
        ),
        abs(r.0 as int) <= abs(a as int) + abs(b as int),
        abs(r.1 as int) <= abs(a as int) + abs(b as int),
{
    proof {
        lemma_rot_term(a as int, cos as int);
        lemma_rot_term(a as int, sin as int);
        lemma_rot_term(b as int, cos as int);
        lemma_rot_term(b as int, sin as int);
    }
    let p0: i64 = mul_fx(a, cos) - mul_fx(b, sin);
    let p1: i64 = mul_fx(a, sin) + mul_fx(b, cos);
    (p0, p1)
}

/// `vx / vw + 1/2` in ticks: the viewport coordinate as a fraction of
/// the viewport, recentered.
fn screen_fraction(vx: i64, vw: i64) -> (r: i64)
    requires
        vw >= 1,
        abs(vx as int) <= 60_000_000_000,
    ensures
        r as int == trunc_div(vx as int * SCALE, vw as int) + SCALE / 2,
        abs(r as int) <= 61_000_000_000_000_000,
{
    proof {
        crate::fixed::lemma_abs_mul(vx as int, SCALE as int);
        crate::fixed::lemma_trunc_div_le(vx as int * SCALE, vw as int);
        assert(abs(vx as int) * (SCALE as int) <= 60_000_000_000_000_000int) by (nonlinear_arith)
            requires
                abs(vx as int) <= 60_000_000_000,
        ;
        assert(i64::MAX * abs(vw as int) >= i64::MAX * 1) by (nonlinear_arith)
            requires
                abs(vw as int) >= 1,
        ;
    }
    let q: i64 = crate::fixed::div_fx(vx, vw);
    q + SCALE / 2
}

/// A tick fraction scaled across a grid dimension and rounded to a
/// whole sub-pixel.
fn frac_to_grid(f: i64, len: i64) -> (r: i64)
    requires
        abs(f as int) <= 100_000_000_000_000_000,
        1 <= len <= 65535,
    ensures
        r as int == round_units(f as int * len),
{
    proof {
        crate::fixed::lemma_abs_mul(f as int, len as int);
        assert(abs(f as int) * abs(len as int) <= 7_000_000_000_000_000_000_000int)
            by (nonlinear_arith)
            requires
                abs(f as int) <= 100_000_000_000_000_000,
                0 <= len <= 65535,
        ;
    }
    let p: i128 = (f as i128) * (len as i128);
    if p >= 0 {
        let q: i128 = trunc_div_i128(p + (SCALE / 2) as i128, SCALE as i128);
        proof {
            vstd::arithmetic::div_mod::lemma_div_is_ordered(
                p as int + SCALE / 2,
                7_000_000_000_000_000_000_500_000int,
                SCALE as int,
            );
        }
        q as i64
    } else {
        let m: i128 = -p;
        let q: i128 = trunc_div_i128(m + (SCALE / 2) as i128, SCALE as i128);
        proof {
            vstd::arithmetic::div_mod::lemma_div_is_ordered(
                m as int + SCALE / 2,
                7_000_000_000_000_000_000_500_000int,
                SCALE as int,
            );
        }
        (-q) as i64
    }
}

/// Saturates a value to the 32-bit signed range.
fn sat32(v: i64) -> (r: i32)
    ensures
        r as int == sat_i32(v as int),
{
    if v > 0x7fffffff {
        0x7fffffff
    } else if v < -0x80000000 {
        (-0x80000000) as i32
    } else {
        v as i32
    }
}

/// A rotation factor within one unit keeps a bounded coordinate within
/// its bound.
proof fn lemma_rot_term(c: int, s: int)
    requires
        abs(c) <= 40_000_000_000,
        abs(s) <= SCALE,
    ensures
        abs(crate::fixed::fmul(c, s)) <= abs(c),
        abs(c) * abs(s) <= i64::MAX * (SCALE as int),
        abs(crate::fixed::fmul(s, c)) <= abs(c),
        abs(s) * abs(c) <= i64::MAX * (SCALE as int),
        crate::fixed::fmul(c, s) == crate::fixed::fmul(s, c),
{
    crate::fixed::lemma_abs_mul(c, s);
    crate::fixed::lemma_trunc_div_le(c * s, SCALE as int);
    assert(abs(c) * abs(s) <= abs(c) * (SCALE as int) && abs(s) * abs(c) == abs(c) * abs(s))
        by (nonlinear_arith)
        requires
            0 <= abs(s) <= SCALE,
            abs(c) >= 0,
    ;
    assert(abs(c) * (SCALE as int) <= 40_000_000_000 * (SCALE as int)) by (nonlinear_arith)
        requires
            0 <= abs(c) <= 40_000_000_000,
    ;
    vstd::arithmetic::div_mod::lemma_div_is_ordered(
        abs(c * s),
        abs(c) * (SCALE as int),
        SCALE as int,
    );
    vstd::arithmetic::div_mod::lemma_div_multiples_vanish(abs(c), SCALE as int);
    assert(c * s == s * c) by (nonlinear_arith);
}

} // verus!
