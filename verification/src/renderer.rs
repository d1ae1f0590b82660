//! The integer side of rasterisation: which pixels a line covers, which
//! pixels a triangle can touch, where a pixel lies in the depth buffer, and
//! how a face is shaded.

use vstd::prelude::*;
use vstd::arithmetic::div_mod::{
    lemma_fundamental_div_mod, lemma_fundamental_div_mod_converse, lemma_mod_bound,
};
use vstd::arithmetic::mul::lemma_mul_inequality;
use crate::common::Resolution;
use crate::model::Face;

verus! {

/// A pixel position.
#[derive(Copy, Clone, Debug, PartialEq, Eq, Structural)]
pub struct Point {
    pub x: i32,
    pub y: i32,
}

impl Point {
    /// The pixel at `(x, y)`.
    pub fn new(x: i32, y: i32) -> (p: Point)
        ensures
            p.x == x,
            p.y == y,
    {
        Point { x, y }
    }
}

/// The distance of `v` from zero.
pub open spec fn magnitude(v: int) -> int {
    if v < 0 {
        -v
    } else {
        v
    }
}

/// Whether a line runs more along `y` than along `x`. Such a line is
/// walked along `y`.
pub open spec fn is_steep(p0: Point, p1: Point) -> bool {
    magnitude(p0.x - p1.x) < magnitude(p0.y - p1.y)
}

/// The two ends of a line as `(major, minor)` coordinates, the end with the
/// smaller major coordinate first. The major axis is `y` for a steep line
/// and `x` for any other.
pub open spec fn ends(p0: Point, p1: Point) -> ((int, int), (int, int)) {
    let a: (int, int) = if is_steep(p0, p1) {
        (p0.y as int, p0.x as int)
    } else {
        (p0.x as int, p0.y as int)
    };
    let b: (int, int) = if is_steep(p0, p1) {
        (p1.y as int, p1.x as int)
    } else {
        (p1.x as int, p1.y as int)
    };
    if a.0 > b.0 {
        (b, a)
    } else {
        (a, b)
    }
}

/// The number of pixels of a line: one for each step along its major axis,
/// both ends included.
pub open spec fn line_len(p0: Point, p1: Point) -> int {
    let (a, b) = ends(p0, p1);
    b.0 - a.0 + 1
}

/// How far a line has moved along its minor axis after `k` steps along its
/// major axis, for a line of `run` major steps and `rise` minor steps in
/// all: `k * rise / run`, rounded to the nearest whole number, and down
/// from a half.
pub open spec fn climb(k: int, run: int, rise: int) -> int {
    if run <= 0 {
        0
    } else {
        (2 * k * rise + run - 1) / (2 * run)
    }
}

/// The pixel of a line at step `k` along its major axis.
pub open spec fn line_point(p0: Point, p1: Point, k: int) -> Point {
    let (a, b) = ends(p0, p1);
    let moved = climb(k, b.0 - a.0, magnitude(b.1 - a.1));
    let major = a.0 + k;
    let minor = if b.1 > a.1 {
        a.1 + moved
    } else {
        a.1 - moved
    };
    if is_steep(p0, p1) {
        Point { x: minor as i32, y: major as i32 }
    } else {
        Point { x: major as i32, y: minor as i32 }
    }
}

/// The pixels of the line between `p0` and `p1`, in the order in which they
/// are drawn.
pub open spec fn line_of(p0: Point, p1: Point) -> Seq<Point> {
    Seq::new(line_len(p0, p1) as nat, |k: int| line_point(p0, p1, k))
}

/// The error term of the line walk pins the climb: with `err` the doubled
/// distance between the exact line and the pixel row after `k` steps, kept
/// within half a pixel, `rows` is `climb(k, run, rise)`.
pub proof fn lemma_climb(k: int, run: int, rise: int, rows: int, err: int)
    requires
        0 <= k,
        0 <= rise,
        err == 2 * (k * rise) - 2 * (run * rows),
        run > 0 ==> -run < err <= run,
        run <= 0 ==> rows == 0,
    ensures
        rows == climb(k, run, rise),
{
    if run > 0 {
        let num = 2 * k * rise + run - 1;
        let den = 2 * run;
        let rest = num - den * rows;
        assert(2 * k * rise == 2 * (k * rise)) by (nonlinear_arith);
        assert(den * rows == 2 * (run * rows)) by (nonlinear_arith)
            requires
                den == 2 * run,
        ;
        assert(num == rows * den + rest) by (nonlinear_arith)
            requires
                rest == num - den * rows,
        ;
        lemma_fundamental_div_mod_converse(num, den, rows, rest);
    }
}

/// A line stays within half a pixel of the exact line: after `k` steps
/// along its major axis the doubled distance between the two, measured in
/// units of one `run`-th of a pixel, is more than `-run` and at most `run`.
pub proof fn lemma_line_nearest(k: int, run: int, rise: int)
    requires
        run > 0,
        0 <= k,
        0 <= rise,
    ensures
        -run < 2 * (k * rise) - 2 * (run * climb(k, run, rise)) <= run,
{
    let num = 2 * k * rise + run - 1;
    let den = 2 * run;
    assert(2 * k * rise == 2 * (k * rise)) by (nonlinear_arith);
    assert(0 <= k * rise) by (nonlinear_arith)
        requires
            0 <= k,
            0 <= rise,
    ;
    lemma_fundamental_div_mod(num, den);
    lemma_mod_bound(num, den);
    assert(den * (num / den) == 2 * (run * climb(k, run, rise))) by (nonlinear_arith)
        requires
            den == 2 * run,
            num / den == climb(k, run, rise),
    ;
}

/// A line never moves back along its minor axis, nor beyond its end.
pub proof fn lemma_climb_bounds(k: int, run: int, rise: int)
    requires
        0 <= k <= run,
        0 <= rise <= run,
    ensures
        0 <= climb(k, run, rise) <= rise,
{
    if run > 0 {
        let rows = climb(k, run, rise);
        lemma_line_nearest(k, run, rise);
        lemma_mul_inequality(k, run, rise);
        assert(0 <= k * rise) by (nonlinear_arith)
            requires
                0 <= k,
                0 <= rise,
        ;
        assert(run * rise == rise * run) by (nonlinear_arith);
        assert(rows >= 0) by (nonlinear_arith)
            requires
                2 * (run * rows) >= 2 * (k * rise) - run,
                0 <= k * rise,
                run > 0,
        ;
        assert(rows <= rise) by (nonlinear_arith)
            requires
                2 * (run * rows) < 2 * (k * rise) + run,
                k * rise <= run * rise,
                run > 0,
        ;
    }
}

/// Every pixel of a line lies between its ends, along both axes.
pub proof fn lemma_line_inside(p0: Point, p1: Point, k: int)
    requires
        0 <= k < line_len(p0, p1),
    ensures
        least(p0.x as int, p1.x as int) <= line_point(p0, p1, k).x <= most(
            p0.x as int,
            p1.x as int,
        ),
        least(p0.y as int, p1.y as int) <= line_point(p0, p1, k).y <= most(
            p0.y as int,
            p1.y as int,
        ),
{
    let (a, b) = ends(p0, p1);
    lemma_climb_bounds(k, b.0 - a.0, magnitude(b.1 - a.1));
}

/// A line holds the same pixels in the same order whichever end is named
/// first.
pub proof fn lemma_line_reversed(p0: Point, p1: Point)
    ensures
        line_of(p0, p1) == line_of(p1, p0),
{
    assert(is_steep(p0, p1) == is_steep(p1, p0));
    assert(ends(p0, p1) == ends(p1, p0));
    assert forall|k: int| line_point(p0, p1, k) == line_point(p1, p0, k) by {}
    assert(line_of(p0, p1) =~= line_of(p1, p0));
}

/// A line starts on one of its ends and stops on the other.
pub proof fn lemma_line_ends(p0: Point, p1: Point)
    ensures
        line_of(p0, p1).len() >= 1,
        (line_of(p0, p1).first() == p0 && line_of(p0, p1).last() == p1) || (line_of(
            p0,
            p1,
        ).first() == p1 && line_of(p0, p1).last() == p0),
{
    let (a, b) = ends(p0, p1);
    let run = b.0 - a.0;
    let rise = magnitude(b.1 - a.1);
    assert(0 <= rise <= run);
    if run > 0 {
        assert(2 * 0 * rise + run - 1 == 0 * (2 * run) + (run - 1)) by (nonlinear_arith);
        lemma_fundamental_div_mod_converse(2 * 0 * rise + run - 1, 2 * run, 0, run - 1);
        assert(climb(0, run, rise) == 0);
        assert(2 * run * rise + run - 1 == rise * (2 * run) + (run - 1)) by (nonlinear_arith);
        lemma_fundamental_div_mod_converse(2 * run * rise + run - 1, 2 * run, rise, run - 1);
        assert(climb(run, run, rise) == rise);
    }
    assert(climb(0, run, rise) == 0);
    assert(climb(run, run, rise) == rise);
    assert(line_of(p0, p1).first() == line_point(p0, p1, 0));
    assert(line_of(p0, p1).last() == line_point(p0, p1, run));
}

/// What is done with a face.
#[derive(Copy, Clone, Debug, PartialEq, Eq, Structural)]
pub enum Shading {
    /// The face is not drawn.
    Skipped,
    /// The face is drawn in red, green and blue, one colour per corner.
    Flat,
    /// The face is drawn in white, each corner as bright as the light on
    /// it.
    Lit,
}

/// How a face of `vertices` corners and `normals` normals is shaded, where
/// the light falls on `lit` of its corners: only triangles are drawn; one
/// without three normals is drawn flat; one with three normals is drawn
/// lit where the light falls on all three corners, and else not at all.
pub open spec fn shading_of(vertices: nat, normals: nat, lit: nat) -> Shading {
    if vertices != 3 {
        Shading::Skipped
    } else if normals != 3 {
        Shading::Flat
    } else if lit == 3 {
        Shading::Lit
    } else {
        Shading::Skipped
    }
}

/// The pixels that a triangle can touch: the columns `min_x` to `max_x`
/// and the rows `min_y` to `max_y`, ends included.
#[derive(Copy, Clone, Debug, PartialEq, Eq, Structural)]
pub struct PixelBox {
    pub min_x: u32,
    pub min_y: u32,
    pub max_x: u32,
    pub max_y: u32,
}

/// The smaller of two numbers.
pub open spec fn least(a: int, b: int) -> int {
    if a < b {
        a
    } else {
        b
    }
}

/// The larger of two numbers.
pub open spec fn most(a: int, b: int) -> int {
    if a > b {
        a
    } else {
        b
    }
}

/// The smaller of two numbers.
fn smaller(a: u32, b: u32) -> (r: u32)
    ensures
        r == least(a as int, b as int),
{
    if a < b {
        a
    } else {
        b
    }
}

/// The larger of two numbers.
fn larger(a: u32, b: u32) -> (r: u32)
    ensures
        r == most(a as int, b as int),
{
    if a > b {
        a
    } else {
        b
    }
}

/// Draws into a canvas of a given resolution.
#[derive(Debug)]
pub struct Renderer {
    resolution: Resolution,
}

impl Default for Renderer {
    /// A renderer for the default resolution.
    fn default() -> (renderer: Renderer)
        ensures
            renderer.resolution().width == 1024,
            renderer.resolution().height == 768,
    {
        Renderer { resolution: Resolution::default() }
    }
}

impl Renderer {
    /// The resolution of the canvas.
    pub closed spec fn resolution(&self) -> Resolution {
        self.resolution
    }

    /// A renderer for a canvas of the given resolution.
    pub fn new(resolution: Resolution) -> (renderer: Self)
        ensures
            renderer.resolution() == resolution,
    {
        Renderer { resolution }
    }

    /// The pixels of the line between `p0` and `p1`, in the order in which
    /// they are drawn: one pixel for each step along the axis on which the
    /// ends lie further apart, from the end with the smaller coordinate on
    /// that axis to the other, each on the row or column nearest to the
    /// exact line.
    pub fn render_line(&self, p0: Point, p1: Point) -> (points: Vec<Point>)
        ensures
            points@ == line_of(p0, p1),
    {
        let x0 = p0.x as i64;
        let y0 = p0.y as i64;
        let x1 = p1.x as i64;
        let y1 = p1.y as i64;
        let wide = if x0 < x1 {
            x1 - x0
        } else {
            x0 - x1
        };
        let tall = if y0 < y1 {
            y1 - y0
        } else {
            y0 - y1
        };
        let steep = wide < tall;
        let (a0, a1, b0, b1) = if steep {
            (y0, x0, y1, x1)
        } else {
            (x0, y0, x1, y1)
        };
        let (a0, a1, b0, b1) = if a0 > b0 {
            (b0, b1, a0, a1)
        } else {
            (a0, a1, b0, b1)
        };
        let dx = b0 - a0;
        let dy = b1 - a1;
        let iy: i64 = if b1 > a1 {
            1
        } else {
            -1
        };
        let rise = if dy < 0 {
            -dy
        } else {
            dy
        };
        let derr2 = rise * 2;
        let mut err2: i64 = 0;
        let mut y = a1;
        let mut x = a0;
        let mut points: Vec<Point> = Vec::new();
        let ghost mut k: int = 0;
        let ghost mut rows: int = 0;
        let ghost mut k_rise: int = 0;
        let ghost mut run_rows: int = 0;
        proof {
            assert(ends(p0, p1) == ((a0 as int, a1 as int), (b0 as int, b1 as int)));
            assert(0 * rise == 0 && dx * 0 == 0) by (nonlinear_arith);
        }
        while x <= b0
            invariant
                ends(p0, p1) == ((a0 as int, a1 as int), (b0 as int, b1 as int)),
                steep == is_steep(p0, p1),
                i32::MIN <= a0 <= b0 <= i32::MAX,
                i32::MIN <= a1 <= i32::MAX,
                i32::MIN <= b1 <= i32::MAX,
                dx == b0 - a0,
                rise == magnitude(b1 - a1),
                0 <= rise <= dx,
                derr2 == 2 * rise,
                iy == 1 || iy == -1,
                (iy == 1) == (b1 > a1),
                x == a0 + k,
                0 <= k <= dx + 1,
                0 <= rows,
                k_rise == k * rise,
                run_rows == dx * rows,
                err2 == 2 * k_rise - 2 * run_rows,
                dx > 0 ==> -dx < err2 <= dx,
                dx == 0 ==> rows == 0 && err2 == 0,
                y == a1 + iy * rows,
                points@.len() == k,
                forall|j: int| 0 <= j < k ==> points@[j] == line_point(p0, p1, j),
            decreases b0 - x + 1,
        {
            proof {
                lemma_climb(k, dx as int, rise as int, rows, err2 as int);
                lemma_climb_bounds(k, dx as int, rise as int);
                assert(iy * rows == if iy == 1 {
                    rows
                } else {
                    -rows
                }) by (nonlinear_arith)
                    requires
                        iy == 1 || iy == -1,
                ;
            }
            let point = if steep {
                Point { x: y as i32, y: x as i32 }
            } else {
                Point { x: x as i32, y: y as i32 }
            };
            assert(point == line_point(p0, p1, k));
            points.push(point);
            err2 += derr2;
            proof {
                k_rise = k_rise + rise;
                assert((k + 1) * rise == k * rise + rise) by (nonlinear_arith);
            }
            if err2 > dx {
                y += iy;
                err2 -= dx * 2;
                proof {
                    run_rows = run_rows + dx;
                    assert(dx * (rows + 1) == dx * rows + dx) by (nonlinear_arith);
                    assert(iy * (rows + 1) == iy * rows + iy) by (nonlinear_arith);
                    rows = rows + 1;
                }
            }
            x += 1;
            proof {
                k = k + 1;
            }
        }
        assert(points@ =~= line_of(p0, p1));
        points
    }

    /// The pixels that a triangle with corners in the columns `xs` and the
    /// rows `ys` can touch: from its smallest to its largest column and
    /// row, none beyond the last column and row of the canvas.
    pub fn bounding_box(&self, xs: [u32; 3], ys: [u32; 3]) -> (b: PixelBox)
        requires
            self.resolution().width > 0,
            self.resolution().height > 0,
        ensures
            b.min_x <= b.max_x < self.resolution().width,
            b.min_y <= b.max_y < self.resolution().height,
            b.min_x == least(
                self.resolution().width - 1,
                least(xs[0] as int, least(xs[1] as int, xs[2] as int)),
            ),
            b.max_x == least(
                self.resolution().width - 1,
                most(xs[0] as int, most(xs[1] as int, xs[2] as int)),
            ),
            b.min_y == least(
                self.resolution().height - 1,
                least(ys[0] as int, least(ys[1] as int, ys[2] as int)),
            ),
            b.max_y == least(
                self.resolution().height - 1,
                most(ys[0] as int, most(ys[1] as int, ys[2] as int)),
            ),
    {
        let last_x = self.resolution.width - 1;
        let last_y = self.resolution.height - 1;
        let min_x = smaller(last_x, smaller(xs[0], smaller(xs[1], xs[2])));
        let max_x = smaller(last_x, larger(xs[0], larger(xs[1], xs[2])));
        let min_y = smaller(last_y, smaller(ys[0], smaller(ys[1], ys[2])));
        let max_y = smaller(last_y, larger(ys[0], larger(ys[1], ys[2])));
        PixelBox { min_x, min_y, max_x, max_y }
    }

    /// The place of the pixel `(x, y)` in the depth buffer, which holds the
    /// canvas row after row. A pixel of the canvas has its place inside
    /// the buffer.
    pub fn pixel_index(&self, x: u32, y: u32) -> (index: u64)
        ensures
            index == x + self.resolution().width * y,
            x < self.resolution().width && y < self.resolution().height ==> index
                < self.resolution().area(),
    {
        let width = self.resolution.width;
        assert(width * y <= 0xffff_ffff * 0xffff_ffff) by (nonlinear_arith)
            requires
                width <= 0xffff_ffff,
                y <= 0xffff_ffff,
        ;
        proof {
            if x < width && y < self.resolution.height {
                assert(width * y + width <= width * self.resolution.height) by (nonlinear_arith)
                    requires
                        y + 1 <= self.resolution.height,
                        width >= 0,
                ;
            }
        }
        x as u64 + width as u64 * y as u64
    }

    /// How `face` is shaded, where the light falls on `lit` of its
    /// corners.
    pub fn shading<S>(&self, face: &Face<S>, lit: usize) -> (s: Shading)
        ensures
            s == shading_of(face@.vertices.len(), face@.normals.len(), lit as nat),
    {
        if face.vertices.len() != 3 {
            Shading::Skipped
        } else if face.normals.len() != 3 {
            Shading::Flat
        } else if lit == 3 {
            Shading::Lit
        } else {
            Shading::Skipped
        }
    }
}

/// Every pixel that a triangle can touch has its place inside the depth
/// buffer.
pub proof fn lemma_box_inside_buffer(resolution: Resolution, b: PixelBox, x: int, y: int)
    requires
        b.max_x < resolution.width,
        b.max_y < resolution.height,
        b.min_x <= x <= b.max_x,
        b.min_y <= y <= b.max_y,
    ensures
        0 <= x + resolution.width * y < resolution.area(),
{
    let width = resolution.width as int;
    let height = resolution.height as int;
    assert(0 <= width * y && width * y + width <= width * height) by (nonlinear_arith)
        requires
            0 <= y,
            y + 1 <= height,
            0 < width,
    ;
    assert(width * height <= 0xffff_ffff * 0xffff_ffff) by (nonlinear_arith)
        requires
            0 <= width <= 0xffff_ffff,
            0 <= height <= 0xffff_ffff,
    ;
}

/// Two pixels of the canvas never share a place in the depth buffer.
pub proof fn lemma_pixel_index_injective(width: int, x0: int, y0: int, x1: int, y1: int)
    requires
        0 <= x0 < width,
        0 <= x1 < width,
        0 <= y0,
        0 <= y1,
        x0 + width * y0 == x1 + width * y1,
    ensures
        x0 == x1,
        y0 == y1,
{
    if y0 < y1 {
        assert(width * y1 >= width * y0 + width) by (nonlinear_arith)
            requires
                y1 >= y0 + 1,
                width > 0,
        ;
    } else if y1 < y0 {
        assert(width * y0 >= width * y1 + width) by (nonlinear_arith)
            requires
                y0 >= y1 + 1,
                width > 0,
        ;
    }
}

} // verus!
