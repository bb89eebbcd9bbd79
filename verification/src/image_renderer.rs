//! Rendering point clouds into a pixel buffer.
//!
//! The same projection and depth-test pipeline as the character
//! renderer, but each visible point paints a pixel, a filled square or
//! a filled circle of its own color into an owned RGB buffer.

use vstd::prelude::*;
use crate::{AltostratusError, Color, Point3D, PointCloud, Result};
use crate::camera::Camera;
use crate::fixed::{SCALE, abs, trunc_div};
use crate::renderer::{DepthBuffer, Projector, ScreenPoint, sort_back_to_front};

verus! {

/// An owned RGB pixel buffer, row-major.
#[derive(Debug)]
pub struct ImageBuffer {
    width: u32,
    height: u32,
    pixels: Vec<Color>,
}

impl ImageBuffer {
    /// The buffer width, in pixels.
    pub closed spec fn width_spec(&self) -> u32 {
        self.width
    }

    /// The buffer height, in pixels.
    pub closed spec fn height_spec(&self) -> u32 {
        self.height
    }

    /// The stored pixels, row-major.
    pub closed spec fn pixel_seq(&self) -> Seq<Color> {
        self.pixels@
    }

    /// One color per pixel.
    pub open spec fn wf(&self) -> bool {
        &&& self.pixel_seq().len() == self.width_spec() * self.height_spec()
        &&& self.width_spec() * self.height_spec() <= u32::MAX
    }

    /// The pixel at a coordinate.
    pub open spec fn pixel_at(&self, x: int, y: int) -> Color {
        self.pixel_seq()[y * self.width_spec() + x]
    }

    /// Creates a buffer filled with one color.
    pub fn filled(width: u32, height: u32, fill: Color) -> (r: ImageBuffer)
        requires
            width * height <= u32::MAX,
        ensures
            r.wf(),
            r.width_spec() == width && r.height_spec() == height,
            forall|i: int| 0 <= i < r.pixel_seq().len() ==> r.pixel_seq()[i] == fill,
    {
        let n: usize = (width * height) as usize;
        let mut pixels: Vec<Color> = Vec::new();
        let mut i: usize = 0;
        while i < n
            invariant
                i <= n,
                pixels@.len() == i,
                forall|j: int| 0 <= j < i ==> pixels@[j] == fill,
            decreases n - i,
        {
            pixels.push(fill);
            i = i + 1;
        }
        ImageBuffer { width, height, pixels }
    }

    /// The buffer width, in pixels.
    pub fn width(&self) -> (r: u32)
        ensures
            r == self.width_spec(),
    {
        self.width
    }

    /// The buffer height, in pixels.
    pub fn height(&self) -> (r: u32)
        ensures
            r == self.height_spec(),
    {
        self.height
    }

    /// Reads one pixel.
    pub fn get_pixel(&self, x: u32, y: u32) -> (c: Color)
        requires
            self.wf(),
            x < self.width_spec(),
            y < self.height_spec(),
        ensures
            c == self.pixel_at(x as int, y as int),
    {
        proof {
            crate::renderer::lemma_cell_in_grid(x as int, y as int, self.width as int,
            self.height as int);
        }
        self.pixels[((y as u64) * (self.width as u64) + (x as u64)) as usize]
    }

    /// Writes one pixel.
    pub fn put_pixel(&mut self, x: u32, y: u32, c: Color)
        requires
            old(self).wf(),
            x < old(self).width_spec(),
            y < old(self).height_spec(),
        ensures
            final(self).wf(),
            final(self).width_spec() == old(self).width_spec(),
            final(self).height_spec() == old(self).height_spec(),
            final(self).pixel_seq() == old(self).pixel_seq().update(
                y * old(self).width_spec() + x,
                c,
            ),
            0 <= y * old(self).width_spec() + x < old(self).pixel_seq().len(),
    {
        proof {
            crate::renderer::lemma_cell_in_grid(x as int, y as int, self.width as int,
            self.height as int);
        }
        let idx: usize = ((y as u64) * (self.width as u64) + (x as u64)) as usize;
        self.pixels.set(idx, c);
    }
}


/// The filled-square footprint of a point at pixel ticks `(x, y)` with
/// half-width `size`: the truncated center pixel plus the ceiling of
/// the half-width (at least one pixel) in every direction.
pub open spec fn square_covers(x: int, y: int, size: int, px: int, py: int) -> bool {
    let half = if size >= SCALE {
        size
    } else {
        SCALE as int
    };
    let cx = trunc_div(x, SCALE as int);
    let cy = trunc_div(y, SCALE as int);
    let hi = (half + SCALE - 1) / (SCALE as int);
    cx - hi <= px <= cx + hi && cy - hi <= py <= cy + hi
}

/// The filled-circle footprint: within the bounding square and with the
/// squared pixel distance from the truncated center within the squared
/// radius (compared in square ticks).
pub open spec fn circle_covers(x: int, y: int, size: int, px: int, py: int) -> bool {
    let radius = if size >= SCALE {
        size
    } else {
        SCALE as int
    };
    let cx = trunc_div(x, SCALE as int);
    let cy = trunc_div(y, SCALE as int);
    let hi = (radius + SCALE - 1) / (SCALE as int);
    &&& cx - hi <= px <= cx + hi
    &&& cy - hi <= py <= cy + hi
    &&& ((px - cx) * (px - cx) + (py - cy) * (py - cy)) * (SCALE as int) * (SCALE as int) <= radius
        * radius
}

/// The single-pixel footprint: the rounded position, for non-negative
/// coordinates.
pub open spec fn pixel_covers(x: int, y: int, px: int, py: int) -> bool {
    x >= 0 && y >= 0 && px == crate::fixed::round_units(x) && py == crate::fixed::round_units(y)
}

/// The pixels of a region painted so far: rows above `dy` (relative to
/// the truncated center) are done, and in row `dy` the columns before
/// `dx`; everything else keeps its previous color.
pub open spec fn region_partial(
    pix: Seq<Color>,
    pre: Seq<Color>,
    w: int,
    h: int,
    color: Color,
    x: int,
    y: int,
    size: int,
    circle: bool,
    dy: int,
    dx: int,
) -> bool {
    forall|px: int, py: int|
        0 <= px < w && 0 <= py < h ==> #[trigger] pix[py * w + px] == (if (if circle {
            circle_covers(x, y, size, px, py)
        } else {
            square_covers(x, y, size, px, py)
        }) && (py - trunc_div(y, SCALE as int) < dy || (py - trunc_div(y, SCALE as int) == dy && px
            - trunc_div(x, SCALE as int) < dx)) {
            color
        } else {
            pre[py * w + px]
        })
}

/// After a row's last column, the paint state equals the next row's
/// starting state: the footprint never extends past the scan range.
proof fn lemma_region_row_done(
    pix: Seq<Color>,
    pre: Seq<Color>,
    w: int,
    h: int,
    color: Color,
    x: int,
    y: int,
    size: int,
    circle: bool,
    dy: int,
    hi: int,
)
    requires
        w * h <= u32::MAX,
        region_partial(pix, pre, w, h, color, x, y, size, circle, dy, hi + 1),
        hi == ((if size >= SCALE {
            size as int
        } else {
            SCALE as int
        }) + SCALE - 1) / (SCALE as int),
    ensures
        region_partial(pix, pre, w, h, color, x, y, size, circle, dy + 1, -hi),
{
    assert forall|px: int, py: int|
        0 <= px < w && 0 <= py < h implies #[trigger] pix[py * w + px] == (if (if circle {
        circle_covers(x, y, size, px, py)
    } else {
        square_covers(x, y, size, px, py)
    }) && (py - trunc_div(y, SCALE as int) < dy + 1 || (py - trunc_div(y, SCALE as int) == dy + 1
        && px - trunc_div(x, SCALE as int) < -hi)) {
        color
    } else {
        pre[py * w + px]
    }) by {
        crate::renderer::lemma_cell_in_grid(px, py, w, h);
        assert(pix[py * w + px] == (if (if circle {
            circle_covers(x, y, size, px, py)
        } else {
            square_covers(x, y, size, px, py)
        }) && (py - trunc_div(y, SCALE as int) < dy || (py - trunc_div(y, SCALE as int) == dy && px
            - trunc_div(x, SCALE as int) < hi + 1)) {
            color
        } else {
            pre[py * w + px]
        }));
    }
}

/// After the last row, the paint state is the whole footprint.
proof fn lemma_region_done(
    pix: Seq<Color>,
    pre: Seq<Color>,
    w: int,
    h: int,
    color: Color,
    x: int,
    y: int,
    size: int,
    circle: bool,
    hi: int,
)
    requires
        w * h <= u32::MAX,
        region_partial(pix, pre, w, h, color, x, y, size, circle, hi + 1, -hi),
        hi == ((if size >= SCALE {
            size as int
        } else {
            SCALE as int
        }) + SCALE - 1) / (SCALE as int),
    ensures
        forall|px: int, py: int|
            0 <= px < w && 0 <= py < h ==> #[trigger] pix[py * w + px] == (if (if circle {
                circle_covers(x, y, size, px, py)
            } else {
                square_covers(x, y, size, px, py)
            }) {
                color
            } else {
                pre[py * w + px]
            }),
{
    assert forall|px: int, py: int|
        0 <= px < w && 0 <= py < h implies #[trigger] pix[py * w + px] == (if (if circle {
        circle_covers(x, y, size, px, py)
    } else {
        square_covers(x, y, size, px, py)
    }) {
        color
    } else {
        pre[py * w + px]
    }) by {
        crate::renderer::lemma_cell_in_grid(px, py, w, h);
        assert(pix[py * w + px] == (if (if circle {
            circle_covers(x, y, size, px, py)
        } else {
            square_covers(x, y, size, px, py)
        }) && (py - trunc_div(y, SCALE as int) < hi + 1 || (py - trunc_div(y, SCALE as int) == hi
            + 1 && px - trunc_div(x, SCALE as int) < -hi)) {
            color
        } else {
            pre[py * w + px]
        }));
    }
}

/// A point within the viewport always has at least one in-bounds pixel
/// in its square or circle footprint.
proof fn lemma_footprint_nonempty(x: int, y: int, size: int, w: int, h: int, circle: bool)
    requires
        0 <= x <= w * SCALE,
        0 <= y <= h * SCALE,
        w >= 1,
        h >= 1,
        size > SCALE,
        circle ==> size > 3 * SCALE,
    ensures
        circle ==> exists|px: int, py: int|
            0 <= px < w && 0 <= py < h && #[trigger] circle_covers(x, y, size, px, py),
        !circle ==> exists|px: int, py: int|
            0 <= px < w && 0 <= py < h && #[trigger] square_covers(x, y, size, px, py),
{
    let cx = trunc_div(x, SCALE as int);
    let cy = trunc_div(y, SCALE as int);
    crate::fixed::lemma_trunc_div_le(x, SCALE as int);
    crate::fixed::lemma_trunc_div_le(y, SCALE as int);
    assert(x * 1 <= (SCALE as int) * w) by (nonlinear_arith)
        requires
            x <= w * SCALE,
    ;
    vstd::arithmetic::div_mod::lemma_div_is_ordered(x, (SCALE as int) * w, SCALE as int);
    vstd::arithmetic::div_mod::lemma_div_is_ordered(y, (SCALE as int) * h, SCALE as int);
    vstd::arithmetic::div_mod::lemma_div_multiples_vanish(w, SCALE as int);
    vstd::arithmetic::div_mod::lemma_div_multiples_vanish(h, SCALE as int);
    assert((SCALE as int) * w == w * (SCALE as int) && (SCALE as int) * h == h * (SCALE as int))
        by (nonlinear_arith);
    assert(0 <= cx <= w && 0 <= cy <= h);
    let px = if cx <= w - 1 {
        cx
    } else {
        w - 1
    };
    let py = if cy <= h - 1 {
        cy
    } else {
        h - 1
    };
    let half = if size >= SCALE {
        size
    } else {
        SCALE as int
    };
    let hi = (half + SCALE - 1) / (SCALE as int);
    assert(hi >= 2) by {
        vstd::arithmetic::div_mod::lemma_div_is_ordered(
            2 * (SCALE as int),
            half + SCALE - 1,
            SCALE as int,
        );
        vstd::arithmetic::div_mod::lemma_div_multiples_vanish(2, SCALE as int);
    }
    assert(0 <= px < w && 0 <= py < h);
    if circle {
        assert(((px - cx) * (px - cx) + (py - cy) * (py - cy)) * (SCALE as int) * (SCALE as int)
            <= size * size) by (nonlinear_arith)
            requires
                -1 <= px - cx <= 0,
                -1 <= py - cy <= 0,
                size > 3 * SCALE,
                SCALE >= 1,
        ;
        assert(circle_covers(x, y, size, px, py));
    } else {
        assert(square_covers(x, y, size, px, py));
    }
}

/// Distinct pixel coordinates use distinct row-major indices.
proof fn lemma_pixel_indices_distinct(x1: int, y1: int, x2: int, y2: int, w: int, h: int)
    requires
        0 <= x1 < w,
        0 <= y1 < h,
        0 <= x2 < w,
        0 <= y2 < h,
        !(x1 == x2 && y1 == y2),
    ensures
        y1 * w + x1 != y2 * w + x2,
{
    if y1 == y2 {
    } else {
        assert(y1 * w + x1 != y2 * w + x2) by (nonlinear_arith)
            requires
                0 <= x1 < w,
                0 <= x2 < w,
                y1 != y2,
        ;
    }
}

/// Pixels change only to the given color.
pub open spec fn only_recolored(post: Seq<Color>, pre: Seq<Color>, color: Color) -> bool {
    post.len() == pre.len() && forall|i: int|
        0 <= i < post.len() ==> (#[trigger] post[i]) == pre[i] || post[i] == color
}

/// A projected entry the rasterization loop accepts: its point comes
/// from the cloud and its screen position lies within the viewport's
/// tick range.
pub open spec fn visible_entry_ok(
    e: (Point3D, ScreenPoint),
    pts: Seq<Point3D>,
    width: u32,
    height: u32,
) -> bool {
    &&& pts.contains(e.0)
    &&& 0 <= e.1.x <= (width as int) * (SCALE as int)
    &&& 0 <= e.1.y <= (height as int) * (SCALE as int)
    &&& 0 <= e.1.depth <= SCALE
}

/// The camera as a renderer adjusts it: its aspect ratio replaced by
/// the viewport's.
pub open spec fn adjusted_camera(c: Camera, w: int, h: int) -> Camera {
    Camera { aspect_ratio: image_aspect_spec(w, h) as i64, ..c }
}

/// No point of the sequence projects inside the viewport.
pub open spec fn none_visible(m: crate::mat4::Mat4, pts: Seq<Point3D>, w: u32, h: u32) -> bool {
    forall|j: int|
        0 <= j < pts.len() ==> (#[trigger] crate::renderer::project_spec(m, pts[j].position, w, h))
            is None
}

/// Some point of the sequence projects inside the viewport, nearer than
/// the far plane.
pub open spec fn some_near_visible(m: crate::mat4::Mat4, pts: Seq<Point3D>, w: u32, h: u32) -> bool {
    exists|j: int|
        0 <= j < pts.len() && ((#[trigger] crate::renderer::project_spec(m, pts[j].position, w, h))
            matches Some(sp) && sp.depth < SCALE)
}

/// Every pixel holds the background color.
pub open spec fn all_background(pix: Seq<Color>, background: Color) -> bool {
    forall|i: int| 0 <= i < pix.len() ==> #[trigger] pix[i] == background
}

/// Some pixel differs from the background color.
pub open spec fn some_foreground(pix: Seq<Color>, background: Color) -> bool {
    exists|i: int| 0 <= i < pix.len() && #[trigger] pix[i] != background
}

/// Every point's color differs from the background color.
pub open spec fn colors_differ(pts: Seq<Point3D>, background: Color) -> bool {
    forall|k: int| 0 <= k < pts.len() ==> (#[trigger] pts[k]).color != background
}

/// What projection guarantees of the finished pixels: through some
/// view-projection matrix of the adjusted camera, a cloud with no
/// accepted point leaves the buffer all background, and (for square or
/// circle point sizes, with no point colored like the background) a
/// point accepted nearer than the far plane leaves some pixel
/// non-background.
pub open spec fn projected_output_ok(
    pix: Seq<Color>,
    cam: Camera,
    tan_half_fov: int,
    pts: Seq<Point3D>,
    w: u32,
    h: u32,
    background: Color,
    point_size: i64,
) -> bool {
    exists|vp: crate::mat4::Mat4|
        {
            &&& #[trigger] crate::camera::is_view_projection_of(
                adjusted_camera(cam, w as int, h as int),
                tan_half_fov,
                vp,
            )
            &&& (none_visible(vp, pts, w, h) ==> all_background(pix, background))
            &&& (point_size > SCALE && colors_differ(pts, background) && some_near_visible(
                vp,
                pts,
                w,
                h,
            ) ==> some_foreground(pix, background))
        }
}

/// Every pixel of the buffer is the background or the color of some
/// point of the sequence.
pub open spec fn pixels_from_points(img: Seq<Color>, background: Color, pts: Seq<Point3D>) -> bool {
    forall|i: int|
        0 <= i < img.len() ==> (#[trigger] img[i]) == background || exists|k: int|
            0 <= k < pts.len() && (#[trigger] pts[k]).color == img[i]
}

/// Image renderer that outputs pixel buffers.
#[derive(Debug)]
pub struct ImageRenderer {
    width: u32,
    height: u32,
    background_color: Color,
    point_size: i64,
    projector: Projector,
    depth_buffer: DepthBuffer,
}

impl ImageRenderer {
    /// The image width, in pixels.
    pub closed spec fn width_spec(&self) -> u32 {
        self.width
    }

    /// The image height, in pixels.
    pub closed spec fn height_spec(&self) -> u32 {
        self.height
    }

    /// The background color.
    pub closed spec fn background_color_spec(&self) -> Color {
        self.background_color
    }

    /// The point size, in pixel ticks.
    pub closed spec fn point_size_spec(&self) -> i64 {
        self.point_size
    }

    /// The owned projector.
    pub closed spec fn projector_spec(&self) -> Projector {
        self.projector
    }

    /// The owned depth buffer.
    pub closed spec fn depth_buffer_spec(&self) -> DepthBuffer {
        self.depth_buffer
    }

    /// A consistent renderer: positive dimensions that fit a buffer,
    /// the projector and depth buffer sized to them, and a positive,
    /// modest point size.
    pub open spec fn wf(&self) -> bool {
        &&& 1 <= self.width_spec()
        &&& 1 <= self.height_spec()
        &&& self.width_spec() * self.height_spec() <= u32::MAX
        &&& self.projector_spec().width_spec() == self.width_spec()
        &&& self.projector_spec().height_spec() == self.height_spec()
        &&& self.depth_buffer_spec().wf()
        &&& self.depth_buffer_spec().width_spec() == self.width_spec()
        &&& self.depth_buffer_spec().height_spec() == self.height_spec()
        &&& 1 <= self.point_size_spec() <= 1_000_000_000
    }

    /// Creates a new image renderer with a black background and a point
    /// size of two pixels.
    ///
    /// Fails exactly when either dimension is zero.
    pub fn new(width: u32, height: u32) -> (r: Result<Self>)
        requires
            width * height <= u32::MAX,
        ensures
            r is Ok <==> (width > 0 && height > 0),
            r matches Ok(a) ==> {
                &&& a.wf()
                &&& a.width_spec() == width && a.height_spec() == height
                &&& a.background_color_spec() == (Color { r: 0u8, g: 0u8, b: 0u8 })
                &&& a.point_size_spec() == 2 * SCALE
            },
            r is Err ==> (r matches Err(AltostratusError::InvalidParameter(_))),
    {
        let projector = match Projector::new(width, height) {
            Ok(p) => p,
            Err(e) => {
                return Err(e);
            },
        };
        let depth_buffer = match DepthBuffer::new(width, height) {
            Ok(b) => b,
            Err(e) => {
                return Err(e);
            },
        };
        Ok(
            Self {
                width,
                height,
                background_color: Color::black(),
                point_size: 2 * SCALE,
                projector,
                depth_buffer,
            },
        )
    }

    /// Creates a new image renderer with a custom background color.
    pub fn with_background(width: u32, height: u32, background_color: Color) -> (r: Result<Self>)
        requires
            width * height <= u32::MAX,
        ensures
            r is Ok <==> (width > 0 && height > 0),
            r matches Ok(a) ==> {
                &&& a.wf()
                &&& a.width_spec() == width && a.height_spec() == height
                &&& a.background_color_spec() == background_color
                &&& a.point_size_spec() == 2 * SCALE
            },
    {
        let mut renderer = match Self::new(width, height) {
            Ok(a) => a,
            Err(e) => {
                return Err(e);
            },
        };
        renderer.background_color = background_color;
        Ok(renderer)
    }

    /// Sets the background color.
    pub fn set_background_color(&mut self, color: Color)
        ensures
            final(self).background_color_spec() == color,
            final(self).width_spec() == old(self).width_spec(),
            final(self).height_spec() == old(self).height_spec(),
            final(self).point_size_spec() == old(self).point_size_spec(),
            old(self).wf() ==> final(self).wf(),
    {
        self.background_color = color;
    }

    /// Gets the current background color.
    pub fn background_color(&self) -> (c: Color)
        ensures
            c == self.background_color_spec(),
    {
        self.background_color
    }

    /// Sets the default point size, in pixel ticks.
    ///
    /// Succeeds exactly when the size is positive; otherwise the
    /// renderer is unchanged and an `InvalidParameter` error is
    /// returned. The upper bound keeps drawing loops within the
    /// viewport's scale.
    pub fn set_point_size(&mut self, size: i64) -> (r: Result<()>)
        requires
            size <= 1_000_000_000,
        ensures
            r is Ok <==> size > 0,
            r is Ok ==> {
                &&& final(self).point_size_spec() == size
                &&& final(self).width_spec() == old(self).width_spec()
                &&& final(self).height_spec() == old(self).height_spec()
                &&& final(self).background_color_spec() == old(self).background_color_spec()
                &&& (old(self).wf() ==> final(self).wf())
            },
            r is Err ==> *final(self) == *old(self) && (r matches Err(
                AltostratusError::InvalidParameter(_),
            )),
    {
        if size <= 0 {
            return Err(AltostratusError::InvalidParameter("Point size must be positive".to_owned()));
        }
        self.point_size = size;
        Ok(())
    }

    /// Gets the current point size, in pixel ticks.
    pub fn point_size(&self) -> (r: i64)
        ensures
            r == self.point_size_spec(),
    {
        self.point_size
    }

    /// Renders a point cloud to a pixel buffer.
    ///
    /// An empty cloud, and a cloud with no visible point, yield a
    /// buffer filled with the background color. Otherwise the visible
    /// points are depth-sorted back to front and painted nearest-wins:
    /// every pixel ends up the background color or the color of some
    /// point of the cloud, points rejected by projection paint nothing,
    /// and a point accepted nearer than the far plane guarantees a
    /// non-background pixel (for square or circle point sizes, when no
    /// point color equals the background). The tangent of half the
    /// camera's field of view is supplied in ticks.
    #[verifier::rlimit(100)]
    pub fn render(&mut self, points: &PointCloud, camera: &Camera, tan_half_fov: i64) -> (r: Result<
        ImageBuffer,
    >)
        requires
            old(self).wf(),
            points.wf(),
            camera.wf(),
            10_000 <= tan_half_fov <= 1_000_000_000,
            crate::vec3::len_sq(crate::camera::offset_of(*camera)) >= 1,
            old(self).height_spec() <= 10_000 * old(self).width_spec(),
        ensures
            final(self).wf(),
            final(self).width_spec() == old(self).width_spec(),
            final(self).height_spec() == old(self).height_spec(),
            final(self).background_color_spec() == old(self).background_color_spec(),
            final(self).point_size_spec() == old(self).point_size_spec(),
            r is Ok,
            r matches Ok(img) ==> {
                &&& img.wf()
                &&& img.width_spec() == old(self).width_spec()
                &&& img.height_spec() == old(self).height_spec()
                &&& pixels_from_points(
                    img.pixel_seq(),
                    old(self).background_color_spec(),
                    points.points_seq(),
                )
                &&& (points.points_seq().len() == 0 ==> forall|i: int|
                    0 <= i < img.pixel_seq().len() ==> img.pixel_seq()[i] == old(self).background_color_spec())
                &&& points.points_seq().len() > 0 ==> projected_output_ok(
                    img.pixel_seq(),
                    *camera,
                    tan_half_fov as int,
                    points.points_seq(),
                    old(self).width_spec(),
                    old(self).height_spec(),
                    old(self).background_color_spec(),
                    old(self).point_size_spec(),
                )
            },
    {
        let bg: Color = self.background_color;
        let ghost w32 = self.width_spec();
        let ghost h32 = self.height_spec();
        if points.is_empty() {
            let img = ImageBuffer::filled(self.width, self.height, bg);
            return Ok(img);
        }
        let mut render_camera: Camera = *camera;
        let aspect: i64 = image_aspect_ratio(self.width, self.height);
        let aspect_result = render_camera.set_aspect_ratio(aspect);
        proof {
            assert(aspect_result is Ok);
            assert(render_camera == (Camera {
                aspect_ratio: image_aspect_spec(w32 as int, h32 as int) as i64,
                ..*camera
            }));
        }
        let projected = self.projector.project_point_cloud(points, &render_camera, tan_half_fov);
        let ghost cloud_pts = points.points_seq();
        if projected.len() == 0 {
            let img = ImageBuffer::filled(self.width, self.height, bg);
            proof {
                let vp = choose|vp: crate::mat4::Mat4|
                    #[trigger] crate::camera::is_view_projection_of(
                        render_camera,
                        tan_half_fov as int,
                        vp,
                    ) && projected@ == crate::renderer::visible_seq(vp, cloud_pts, w32, h32);
                assert(render_camera == adjusted_camera(*camera, w32 as int, h32 as int));
                assert(all_background(img.pixel_seq(), bg));
                assert(!some_near_visible(vp, cloud_pts, w32, h32)) by {
                    if some_near_visible(vp, cloud_pts, w32, h32) {
                        let j = choose|j: int|
                            0 <= j < cloud_pts.len()
                                && ((#[trigger] crate::renderer::project_spec(
                                vp,
                                cloud_pts[j].position,
                                w32,
                                h32,
                            )) matches Some(sp) && sp.depth < SCALE);
                        crate::renderer::lemma_visible_contains(vp, cloud_pts, w32, h32, j);
                    }
                }
            }
            return Ok(img);
        }
        let mut img = ImageBuffer::filled(self.width, self.height, bg);
        self.depth_buffer.clear();
        let mut sorted_points = projected;
        let ghost presort = sorted_points@;
        let ghost vp = choose|vp: crate::mat4::Mat4|
            #[trigger] crate::camera::is_view_projection_of(render_camera, tan_half_fov as int, vp)
                && presort == crate::renderer::visible_seq(vp, cloud_pts, w32, h32);
        proof {
            lemma_visible_props(vp, cloud_pts, w32, h32);
        }
        sort_back_to_front(&mut sorted_points);
        proof {
            lemma_perm_entries_ok(sorted_points@, presort, cloud_pts, w32, h32);
        }
        let ghost hyp = old(self).point_size_spec() > SCALE && (forall|k: int|
            0 <= k < cloud_pts.len() ==> (#[trigger] cloud_pts[k]).color != bg);
        let n: usize = sorted_points.len();
        let mut i: usize = 0;
        while i < n
            invariant
                i <= n,
                n == sorted_points@.len(),
                n > 0,
                self.wf(),
                img.wf(),
                img.width_spec() == self.width_spec(),
                img.height_spec() == self.height_spec(),
                *self == (ImageRenderer { depth_buffer: self.depth_buffer_spec(), ..*old(self) }),
                bg == old(self).background_color_spec(),
                w32 == self.width_spec() && h32 == self.height_spec(),
                hyp == (old(self).point_size_spec() > SCALE && (forall|k: int|
                    0 <= k < cloud_pts.len() ==> (#[trigger] cloud_pts[k]).color != bg)),
                forall|k: int|
                    0 <= k < sorted_points@.len() ==> visible_entry_ok(
                        #[trigger] sorted_points@[k],
                        cloud_pts,
                        self.width_spec(),
                        self.height_spec(),
                    ),
                pixels_from_points(img.pixel_seq(), bg, cloud_pts),
                forall|c: int|
                    0 <= c < self.depth_buffer_spec().depth_seq().len()
                        ==> #[trigger] self.depth_buffer_spec().depth_seq()[c] <= SCALE,
                hyp ==> ((exists|c: int|
                    0 <= c < self.depth_buffer_spec().depth_seq().len()
                        && #[trigger] self.depth_buffer_spec().depth_seq()[c] < SCALE)
                    ==> exists|i2: int|
                    0 <= i2 < img.pixel_seq().len() && #[trigger] img.pixel_seq()[i2] != bg),
                (exists|k: int|
                    0 <= k < i && (#[trigger] sorted_points@[k]).1.depth < SCALE) ==> exists|
                c: int|
                    0 <= c < self.depth_buffer_spec().depth_seq().len()
                        && #[trigger] self.depth_buffer_spec().depth_seq()[c] < SCALE,
            decreases n - i,
        {
            let (p3d, sp): (Point3D, ScreenPoint) = sorted_points[i];
            proof {
                assert(visible_entry_ok(sorted_points@[i as int], cloud_pts, self.width_spec(),
                self.height_spec()));
                assert((self.width_spec() as int) * (SCALE as int) <= 4_294_967_295_000_000int
                    && (self.height_spec() as int) * (SCALE as int) <= 4_294_967_295_000_000int)
                    by (nonlinear_arith)
                    requires
                        self.width_spec() <= u32::MAX,
                        self.height_spec() <= u32::MAX,
                ;
            }
            let ghost db_pre = self.depth_buffer_spec().depth_seq();
            let (px, py) = sp.to_pixel_coords(self.width, self.height);
            let passed: bool = self.depth_buffer.test_and_update(px, py, sp.depth);
            proof {
                crate::renderer::lemma_cell_in_grid(px as int, py as int, w32 as int, h32 as int);
            }
            if passed {
                let ghost pre_pixels = img.pixel_seq();
                if self.point_size <= SCALE {
                    self.draw_point_pixel(&mut img, sp.x, sp.y, p3d.color);
                } else if self.point_size <= 3 * SCALE {
                    let size: i64 = self.point_size;
                    self.draw_point_square(&mut img, sp.x, sp.y, size, p3d.color);
                    proof {
                        if hyp {
                            lemma_footprint_nonempty(sp.x as int, sp.y as int, size as int,
                            w32 as int, h32 as int, false);
                            let (qx, qy) = choose|qx: int, qy: int|
                                0 <= qx < w32 && 0 <= qy < h32 && #[trigger] square_covers(
                                    sp.x as int,
                                    sp.y as int,
                                    size as int,
                                    qx,
                                    qy,
                                );
                            crate::renderer::lemma_cell_in_grid(qx, qy, w32 as int, h32 as int);
                            assert(img.pixel_at(qx, qy) == p3d.color);
                            assert(img.pixel_seq()[qy * w32 + qx] != bg);
                        }
                    }
                } else {
                    let size: i64 = self.point_size;
                    self.draw_point(&mut img, sp.x, sp.y, size, p3d.color);
                    proof {
                        if hyp {
                            lemma_footprint_nonempty(sp.x as int, sp.y as int, size as int,
                            w32 as int, h32 as int, true);
                            let (qx, qy) = choose|qx: int, qy: int|
                                0 <= qx < w32 && 0 <= qy < h32 && #[trigger] circle_covers(
                                    sp.x as int,
                                    sp.y as int,
                                    size as int,
                                    qx,
                                    qy,
                                );
                            crate::renderer::lemma_cell_in_grid(qx, qy, w32 as int, h32 as int);
                            assert(img.pixel_at(qx, qy) == p3d.color);
                            assert(img.pixel_seq()[qy * w32 + qx] != bg);
                        }
                    }
                }
                proof {
                    assert(self.depth_buffer_spec().depth_seq()[py * w32 + px] < SCALE);
                    assert(exists|c: int|
                        0 <= c < self.depth_buffer_spec().depth_seq().len()
                            && #[trigger] self.depth_buffer_spec().depth_seq()[c] < SCALE);
                    assert(cloud_pts.contains(p3d));
                    let j = choose|j: int| 0 <= j < cloud_pts.len() && cloud_pts[j] == p3d;
                    assert(only_recolored(img.pixel_seq(), pre_pixels, p3d.color));
                    assert forall|ii: int|
                        0 <= ii < img.pixel_seq().len() implies (#[trigger] img.pixel_seq()[ii])
                        == bg || exists|k: int|
                        0 <= k < cloud_pts.len() && (#[trigger] cloud_pts[k]).color
                            == img.pixel_seq()[ii] by {
                        if img.pixel_seq()[ii] != pre_pixels[ii] {
                            assert(img.pixel_seq()[ii] == p3d.color);
                            assert(cloud_pts[j].color == img.pixel_seq()[ii]);
                        }
                    }
                    if hyp {
                        assert forall|c: int|
                            0 <= c < self.depth_buffer_spec().depth_seq().len()
                                && #[trigger] self.depth_buffer_spec().depth_seq()[c] < SCALE
                                implies exists|i2: int|
                            0 <= i2 < img.pixel_seq().len() && #[trigger] img.pixel_seq()[i2]
                                != bg by {
                            if db_pre[c] < SCALE {
                                let i2 = choose|i2: int|
                                    0 <= i2 < pre_pixels.len() && #[trigger] pre_pixels[i2] != bg;
                                assert(img.pixel_seq()[i2] == pre_pixels[i2]
                                    || img.pixel_seq()[i2] == p3d.color);
                            }
                        }
                    }
                }
            } else {
                proof {
                    if sp.depth < SCALE {
                        assert(self.depth_buffer_spec().depth_seq()[py * w32 + px] < SCALE);
                        assert(exists|c: int|
                            0 <= c < self.depth_buffer_spec().depth_seq().len()
                                && #[trigger] self.depth_buffer_spec().depth_seq()[c] < SCALE);
                    }
                }
            }
            proof {
                if exists|k: int| 0 <= k < i + 1 && (#[trigger] sorted_points@[k]).1.depth
                    < SCALE {
                    let k = choose|k: int|
                        0 <= k < i + 1 && (#[trigger] sorted_points@[k]).1.depth < SCALE;
                    if k < i {
                        let c = choose|c: int|
                            0 <= c < db_pre.len() && #[trigger] db_pre[c] < SCALE;
                        assert(self.depth_buffer_spec().depth_seq()[c] < SCALE);
                    } else {
                        assert(sorted_points@[i as int].1.depth < SCALE);
                        assert(exists|c: int|
                            0 <= c < self.depth_buffer_spec().depth_seq().len()
                                && #[trigger] self.depth_buffer_spec().depth_seq()[c] < SCALE);
                    }
                }
            }
            i = i + 1;
        }
        proof {
            assert(render_camera == adjusted_camera(*camera, w32 as int, h32 as int));
            if hyp && some_near_visible(vp, cloud_pts, w32, h32) {
                let j = choose|j: int|
                    0 <= j < cloud_pts.len() && ((#[trigger] crate::renderer::project_spec(
                        vp,
                        cloud_pts[j].position,
                        w32,
                        h32,
                    )) matches Some(sp) && sp.depth < SCALE);
                crate::renderer::lemma_visible_contains(vp, cloud_pts, w32, h32, j);
                let sp = crate::renderer::project_spec(vp, cloud_pts[j].position, w32, h32)->Some_0;
                let k0 = choose|k0: int|
                    0 <= k0 < presort.len() && #[trigger] presort[k0] == (cloud_pts[j], sp);
                assert(presort.contains((cloud_pts[j], sp))) by {
                    assert(presort[k0] == (cloud_pts[j], sp));
                }
                crate::renderer::lemma_perm_contains(sorted_points@, presort, (cloud_pts[j], sp));
                let k = choose|k: int|
                    0 <= k < sorted_points@.len() && #[trigger] sorted_points@[k] == (
                    cloud_pts[j],
                    sp,
                    );
                assert(sorted_points@[k].1.depth < SCALE);
                assert(some_foreground(img.pixel_seq(), bg));
            }
            assert(!none_visible(vp, cloud_pts, w32, h32)) by {
                if none_visible(vp, cloud_pts, w32, h32) {
                    crate::renderer::lemma_visible_empty(vp, cloud_pts, w32, h32);
                }
            }
        }
        Ok(img)
    }

    /// Draws a point as a filled circle: exactly the in-bounds pixels of
    /// the circle's footprint take the color, and no other pixel
    /// changes.
    pub fn draw_point(&self, image: &mut ImageBuffer, x: i64, y: i64, size: i64, color: Color)
        requires
            old(image).wf(),
            old(image).width_spec() == self.width_spec(),
            old(image).height_spec() == self.height_spec(),
            abs(x as int) <= 10_000_000_000_000_000,
            abs(y as int) <= 10_000_000_000_000_000,
            1 <= size <= 1_000_000_000,
        ensures
            final(image).wf(),
            final(image).width_spec() == old(image).width_spec(),
            final(image).height_spec() == old(image).height_spec(),
            only_recolored(final(image).pixel_seq(), old(image).pixel_seq(), color),
            forall|px: int, py: int|
                0 <= px < old(image).width_spec() && 0 <= py < old(image).height_spec()
                    ==> #[trigger] final(image).pixel_at(px, py) == (if circle_covers(
                    x as int,
                    y as int,
                    size as int,
                    px,
                    py,
                ) {
                    color
                } else {
                    old(image).pixel_at(px, py)
                }),
    {
        let radius: i64 = if size >= SCALE {
            size
        } else {
            SCALE
        };
        let center_x: i64 = trunc_units(x);
        let center_y: i64 = trunc_units(y);
        let radius_int: i64 = (radius + SCALE - 1) / SCALE;
        let ghost w = self.width_spec() as int;
        let ghost h = self.height_spec() as int;
        let ghost pre = old(image).pixel_seq();
        let mut dy: i64 = -radius_int;
        while dy <= radius_int
            invariant
                -radius_int <= dy <= radius_int + 1,
                1 <= radius_int <= 1000,
                1 <= radius <= 1_000_000_000,
                radius as int == (if size >= SCALE { size as int } else { SCALE as int }),
                center_x as int == trunc_div(x as int, SCALE as int),
                center_y as int == trunc_div(y as int, SCALE as int),
                radius_int as int == (radius + SCALE - 1) / (SCALE as int),
                abs(center_x as int) <= 10_000_000_001,
                abs(center_y as int) <= 10_000_000_001,
                image.wf(),
                image.width_spec() == self.width_spec(),
                image.height_spec() == self.height_spec(),
                image.width_spec() == old(image).width_spec(),
                image.height_spec() == old(image).height_spec(),
                w == self.width_spec() as int,
                h == self.height_spec() as int,
                pre == old(image).pixel_seq(),
                only_recolored(image.pixel_seq(), pre, color),
                region_partial(
                    image.pixel_seq(),
                    pre,
                    w,
                    h,
                    color,
                    x as int,
                    y as int,
                    size as int,
                    true,
                    dy as int,
                    -(radius_int as int),
                ),
            decreases radius_int + 1 - dy,
        {
            let mut dx: i64 = -radius_int;
            while dx <= radius_int
                invariant
                    -radius_int <= dx <= radius_int + 1,
                    -radius_int <= dy <= radius_int,
                    1 <= radius_int <= 1000,
                    1 <= radius <= 1_000_000_000,
                    radius as int == (if size >= SCALE { size as int } else { SCALE as int }),
                    center_x as int == trunc_div(x as int, SCALE as int),
                    center_y as int == trunc_div(y as int, SCALE as int),
                    radius_int as int == (radius + SCALE - 1) / (SCALE as int),
                    abs(center_x as int) <= 10_000_000_001,
                    abs(center_y as int) <= 10_000_000_001,
                    image.wf(),
                    image.width_spec() == self.width_spec(),
                    image.height_spec() == self.height_spec(),
                    image.width_spec() == old(image).width_spec(),
                    image.height_spec() == old(image).height_spec(),
                    w == self.width_spec() as int,
                    h == self.height_spec() as int,
                    pre == old(image).pixel_seq(),
                    only_recolored(image.pixel_seq(), pre, color),
                    region_partial(
                        image.pixel_seq(),
                        pre,
                        w,
                        h,
                        color,
                        x as int,
                        y as int,
                        size as int,
                        true,
                        dy as int,
                        dx as int,
                    ),
                decreases radius_int + 1 - dx,
            {
                let pixel_x: i64 = center_x + dx;
                let pixel_y: i64 = center_y + dy;
                let ghost prev = image.pixel_seq();
                let mut wrote: bool = false;
                if !(pixel_x < 0 || pixel_y < 0 || pixel_x >= self.width as i64 || pixel_y
                    >= self.height as i64) {
                    proof {
                        assert(0 <= dx * dx <= 1_000_000 && 0 <= dy * dy <= 1_000_000)
                            by (nonlinear_arith)
                            requires
                                -1000 <= dx <= 1000,
                                -1000 <= dy <= 1000,
                        ;
                    }
                    let dist_sq: i64 = dx * dx + dy * dy;
                    proof {
                        assert(0 <= dist_sq * (SCALE as int) * (SCALE as int)
                            <= 2_000_000_000_000_000_000int) by (nonlinear_arith)
                            requires
                                0 <= dist_sq <= 2_000_000,
                        ;
                        assert(0 <= radius * radius <= 1_000_000_000_000_000_000int)
                            by (nonlinear_arith)
                            requires
                                1 <= radius <= 1_000_000_000,
                        ;
                    }
                    if (dist_sq as i128) * (SCALE as i128) * (SCALE as i128) <= (radius as i128) * (
                    radius as i128) {
                        image.put_pixel(pixel_x as u32, pixel_y as u32, color);
                        wrote = true;
                    }
                }
                proof {
                    assert(region_partial(
                        prev,
                        pre,
                        w,
                        h,
                        color,
                        x as int,
                        y as int,
                        size as int,
                        true,
                        dy as int,
                        dx as int,
                    ));
                    assert forall|px: int, py: int|
                        0 <= px < w && 0 <= py < h implies #[trigger] image.pixel_seq()[py * w
                        + px] == (if circle_covers(x as int, y as int, size as int, px, py) && (py
                        - trunc_div(y as int, SCALE as int) < dy || (py - trunc_div(
                        y as int,
                        SCALE as int,
                    ) == dy && px - trunc_div(x as int, SCALE as int) < dx + 1)) {
                        color
                    } else {
                        pre[py * w + px]
                    }) by {
                        crate::renderer::lemma_cell_in_grid(px, py, w, h);
                        assert(prev[py * w + px] == (if circle_covers(
                            x as int,
                            y as int,
                            size as int,
                            px,
                            py,
                        ) && (py - center_y < dy || (py - center_y == dy && px - center_x < dx)) {
                            color
                        } else {
                            pre[py * w + px]
                        }));
                        if px == center_x + dx && py == center_y + dy {
                            if wrote {
                                assert(image.pixel_seq()[py * w + px] == color);
                                assert(circle_covers(x as int, y as int, size as int, px, py));
                            } else {
                                assert(image.pixel_seq() == prev);
                                assert(!circle_covers(x as int, y as int, size as int, px, py)
                                    || !(0 <= pixel_x < w && 0 <= pixel_y < h));
                            }
                        } else if wrote {
                            lemma_pixel_indices_distinct(px, py, pixel_x as int, pixel_y as int,
                            w, h);
                            assert(image.pixel_seq()[py * w + px] == prev[py * w + px]);
                        } else {
                            assert(image.pixel_seq() == prev);
                        }
                    }
                }
                dx = dx + 1;
            }
            proof {
                lemma_region_row_done(
                    image.pixel_seq(),
                    pre,
                    w,
                    h,
                    color,
                    x as int,
                    y as int,
                    size as int,
                    true,
                    dy as int,
                    radius_int as int,
                );
            }
            dy = dy + 1;
        }
        proof {
            lemma_region_done(
                image.pixel_seq(),
                pre,
                w,
                h,
                color,
                x as int,
                y as int,
                size as int,
                true,
                radius_int as int,
            );
            assert forall|px: int, py: int|
                0 <= px < old(image).width_spec() && 0 <= py < old(image).height_spec()
                    implies #[trigger] image.pixel_at(px, py) == (if circle_covers(
                x as int,
                y as int,
                size as int,
                px,
                py,
            ) {
                color
            } else {
                old(image).pixel_at(px, py)
            }) by {
                crate::renderer::lemma_cell_in_grid(px, py, w, h);
                assert(image.pixel_seq()[py * w + px] == (if circle_covers(
                    x as int,
                    y as int,
                    size as int,
                    px,
                    py,
                ) {
                    color
                } else {
                    pre[py * w + px]
                }));
            }
        }
    }

    /// Draws a point as a filled square: exactly the in-bounds pixels of
    /// the square's footprint take the color, and no other pixel
    /// changes.
    pub fn draw_point_square(
        &self,
        image: &mut ImageBuffer,
        x: i64,
        y: i64,
        size: i64,
        color: Color,
    )
        requires
            old(image).wf(),
            old(image).width_spec() == self.width_spec(),
            old(image).height_spec() == self.height_spec(),
            abs(x as int) <= 10_000_000_000_000_000,
            abs(y as int) <= 10_000_000_000_000_000,
            1 <= size <= 1_000_000_000,
        ensures
            final(image).wf(),
            final(image).width_spec() == old(image).width_spec(),
            final(image).height_spec() == old(image).height_spec(),
            only_recolored(final(image).pixel_seq(), old(image).pixel_seq(), color),
            forall|px: int, py: int|
                0 <= px < old(image).width_spec() && 0 <= py < old(image).height_spec()
                    ==> #[trigger] final(image).pixel_at(px, py) == (if square_covers(
                    x as int,
                    y as int,
                    size as int,
                    px,
                    py,
                ) {
                    color
                } else {
                    old(image).pixel_at(px, py)
                }),
    {
        let half: i64 = if size >= SCALE {
            size
        } else {
            SCALE
        };
        let center_x: i64 = trunc_units(x);
        let center_y: i64 = trunc_units(y);
        let half_int: i64 = (half + SCALE - 1) / SCALE;
        let ghost w = self.width_spec() as int;
        let ghost h = self.height_spec() as int;
        let ghost pre = old(image).pixel_seq();
        let mut dy: i64 = -half_int;
        while dy <= half_int
            invariant
                -half_int <= dy <= half_int + 1,
                1 <= half_int <= 1000,
                half as int == (if size >= SCALE { size as int } else { SCALE as int }),
                center_x as int == trunc_div(x as int, SCALE as int),
                center_y as int == trunc_div(y as int, SCALE as int),
                half_int as int == (half + SCALE - 1) / (SCALE as int),
                abs(center_x as int) <= 10_000_000_001,
                abs(center_y as int) <= 10_000_000_001,
                image.wf(),
                image.width_spec() == self.width_spec(),
                image.height_spec() == self.height_spec(),
                image.width_spec() == old(image).width_spec(),
                image.height_spec() == old(image).height_spec(),
                w == self.width_spec() as int,
                h == self.height_spec() as int,
                pre == old(image).pixel_seq(),
                only_recolored(image.pixel_seq(), pre, color),
                region_partial(
                    image.pixel_seq(),
                    pre,
                    w,
                    h,
                    color,
                    x as int,
                    y as int,
                    size as int,
                    false,
                    dy as int,
                    -(half_int as int),
                ),
            decreases half_int + 1 - dy,
        {
            let mut dx: i64 = -half_int;
            while dx <= half_int
                invariant
                    -half_int <= dx <= half_int + 1,
                    -half_int <= dy <= half_int,
                    1 <= half_int <= 1000,
                    half as int == (if size >= SCALE { size as int } else { SCALE as int }),
                    center_x as int == trunc_div(x as int, SCALE as int),
                    center_y as int == trunc_div(y as int, SCALE as int),
                    half_int as int == (half + SCALE - 1) / (SCALE as int),
                    abs(center_x as int) <= 10_000_000_001,
                    abs(center_y as int) <= 10_000_000_001,
                    image.wf(),
                    image.width_spec() == self.width_spec(),
                    image.height_spec() == self.height_spec(),
                    image.width_spec() == old(image).width_spec(),
                    image.height_spec() == old(image).height_spec(),
                    w == self.width_spec() as int,
                    h == self.height_spec() as int,
                    pre == old(image).pixel_seq(),
                    only_recolored(image.pixel_seq(), pre, color),
                    region_partial(
                        image.pixel_seq(),
                        pre,
                        w,
                        h,
                        color,
                        x as int,
                        y as int,
                        size as int,
                        false,
                        dy as int,
                        dx as int,
                    ),
                decreases half_int + 1 - dx,
            {
                let pixel_x: i64 = center_x + dx;
                let pixel_y: i64 = center_y + dy;
                let ghost prev = image.pixel_seq();
                let mut wrote: bool = false;
                if !(pixel_x < 0 || pixel_y < 0 || pixel_x >= self.width as i64 || pixel_y
                    >= self.height as i64) {
                    image.put_pixel(pixel_x as u32, pixel_y as u32, color);
                    wrote = true;
                }
                proof {
                    assert(region_partial(
                        prev,
                        pre,
                        w,
                        h,
                        color,
                        x as int,
                        y as int,
                        size as int,
                        false,
                        dy as int,
                        dx as int,
                    ));
                    assert forall|px: int, py: int|
                        0 <= px < w && 0 <= py < h implies #[trigger] image.pixel_seq()[py * w
                        + px] == (if square_covers(x as int, y as int, size as int, px, py) && (py
                        - trunc_div(y as int, SCALE as int) < dy || (py - trunc_div(
                        y as int,
                        SCALE as int,
                    ) == dy && px - trunc_div(x as int, SCALE as int) < dx + 1)) {
                        color
                    } else {
                        pre[py * w + px]
                    }) by {
                        crate::renderer::lemma_cell_in_grid(px, py, w, h);
                        assert(prev[py * w + px] == (if square_covers(
                            x as int,
                            y as int,
                            size as int,
                            px,
                            py,
                        ) && (py - trunc_div(y as int, SCALE as int) < dy || (py - trunc_div(
                            y as int,
                            SCALE as int,
                        ) == dy && px - trunc_div(x as int, SCALE as int) < dx)) {
                            color
                        } else {
                            pre[py * w + px]
                        }));
                        if px == center_x + dx && py == center_y + dy {
                            if wrote {
                                assert(image.pixel_seq()[py * w + px] == color);
                                assert(square_covers(x as int, y as int, size as int, px, py));
                            } else {
                                assert(image.pixel_seq() == prev);
                                assert(!(0 <= pixel_x < w && 0 <= pixel_y < h));
                            }
                        } else if wrote {
                            lemma_pixel_indices_distinct(px, py, pixel_x as int, pixel_y as int,
                            w, h);
                            assert(image.pixel_seq()[py * w + px] == prev[py * w + px]);
                        } else {
                            assert(image.pixel_seq() == prev);
                        }
                    }
                }
                dx = dx + 1;
            }
            proof {
                lemma_region_row_done(
                    image.pixel_seq(),
                    pre,
                    w,
                    h,
                    color,
                    x as int,
                    y as int,
                    size as int,
                    false,
                    dy as int,
                    half_int as int,
                );
            }
            dy = dy + 1;
        }
        proof {
            lemma_region_done(
                image.pixel_seq(),
                pre,
                w,
                h,
                color,
                x as int,
                y as int,
                size as int,
                false,
                half_int as int,
            );
            assert forall|px: int, py: int|
                0 <= px < old(image).width_spec() && 0 <= py < old(image).height_spec()
                    implies #[trigger] image.pixel_at(px, py) == (if square_covers(
                x as int,
                y as int,
                size as int,
                px,
                py,
            ) {
                color
            } else {
                old(image).pixel_at(px, py)
            }) by {
                crate::renderer::lemma_cell_in_grid(px, py, w, h);
                assert(image.pixel_seq()[py * w + px] == (if square_covers(
                    x as int,
                    y as int,
                    size as int,
                    px,
                    py,
                ) {
                    color
                } else {
                    pre[py * w + px]
                }));
            }
        }
    }

    /// Draws a single-pixel point: the rounded position takes the color
    /// when it lies inside the image, and no other pixel changes.
    pub fn draw_point_pixel(&self, image: &mut ImageBuffer, x: i64, y: i64, color: Color)
        requires
            old(image).wf(),
            old(image).width_spec() == self.width_spec(),
            old(image).height_spec() == self.height_spec(),
            abs(x as int) <= 10_000_000_000_000_000,
            abs(y as int) <= 10_000_000_000_000_000,
        ensures
            final(image).wf(),
            final(image).width_spec() == old(image).width_spec(),
            final(image).height_spec() == old(image).height_spec(),
            only_recolored(final(image).pixel_seq(), old(image).pixel_seq(), color),
            forall|px: int, py: int|
                0 <= px < old(image).width_spec() && 0 <= py < old(image).height_spec()
                    ==> #[trigger] final(image).pixel_at(px, py) == (if pixel_covers(
                    x as int,
                    y as int,
                    px,
                    py,
                ) {
                    color
                } else {
                    old(image).pixel_at(px, py)
                }),
    {
        let ghost w = self.width_spec() as int;
        let ghost h = self.height_spec() as int;
        let px: i64 = crate::fixed::round_fx(if x >= 0 {
            x
        } else {
            0
        });
        let py: i64 = crate::fixed::round_fx(if y >= 0 {
            y
        } else {
            0
        });
        if x >= 0 && y >= 0 && px < self.width as i64 && py < self.height as i64 {
            proof {
                assert(px >= 0 && py >= 0);
            }
            let ghost prev = image.pixel_seq();
            image.put_pixel(px as u32, py as u32, color);
            proof {
                assert forall|qx: int, qy: int|
                    0 <= qx < w && 0 <= qy < h implies #[trigger] image.pixel_at(qx, qy) == (if
                pixel_covers(x as int, y as int, qx, qy) {
                    color
                } else {
                    old(image).pixel_at(qx, qy)
                }) by {
                    if qx == px && qy == py {
                    } else {
                        lemma_pixel_indices_distinct(qx, qy, px as int, py as int, w, h);
                        crate::renderer::lemma_cell_in_grid(qx, qy, w, h);
                        crate::renderer::lemma_cell_in_grid(px as int, py as int, w, h);
                        assert(image.pixel_at(qx, qy) == prev[qy * w + qx]);
                        assert(!pixel_covers(x as int, y as int, qx, qy));
                    }
                }
                assert forall|ii: int|
                    0 <= ii < image.pixel_seq().len() implies (#[trigger] image.pixel_seq()[ii])
                    == old(image).pixel_seq()[ii] || image.pixel_seq()[ii] == color by {
                    assert(prev[ii] == old(image).pixel_seq()[ii]);
                }
            }
        } else {
            proof {
                assert forall|qx: int, qy: int|
                    0 <= qx < w && 0 <= qy < h implies !pixel_covers(x as int, y as int, qx, qy)
                    || false == true by {
                    if pixel_covers(x as int, y as int, qx, qy) {
                        assert(qx == px && qy == py);
                        assert(!(0 <= qx < w && 0 <= qy < h));
                    }
                }
            }
        }
    }

    /// Sets the viewport size (image dimensions).
    ///
    /// Fails exactly when either dimension is zero; the renderer is
    /// then unchanged.
    pub fn set_viewport(&mut self, width: u32, height: u32) -> (r: Result<()>)
        requires
            old(self).wf(),
            width * height <= u32::MAX,
        ensures
            r is Ok <==> (width > 0 && height > 0),
            r is Ok ==> {
                &&& final(self).wf()
                &&& final(self).width_spec() == width && final(self).height_spec() == height
                &&& final(self).background_color_spec() == old(self).background_color_spec()
                &&& final(self).point_size_spec() == old(self).point_size_spec()
            },
            r is Err ==> *final(self) == *old(self) && (r matches Err(
                AltostratusError::InvalidParameter(_),
            )),
    {
        if width == 0 || height == 0 {
            return Err(
                AltostratusError::InvalidParameter("Image dimensions must be positive".to_owned()),
            );
        }
        let r1 = self.projector.set_viewport(width, height);
        let r2 = self.depth_buffer.resize(width, height);
        proof {
            assert(r1 is Ok && r2 is Ok);
        }
        self.width = width;
        self.height = height;
        Ok(())
    }

    /// Gets the current viewport size.
    pub fn viewport_size(&self) -> (r: (u32, u32))
        ensures
            r.0 == self.width_spec() && r.1 == self.height_spec(),
    {
        (self.width, self.height)
    }
}

/// The aspect ratio of an image viewport: width over height, in ticks.
pub open spec fn image_aspect_spec(width: int, height: int) -> int {
    trunc_div(width * (SCALE as int), height)
}

/// Computes the aspect ratio of an image viewport.
pub fn image_aspect_ratio(width: u32, height: u32) -> (r: i64)
    requires
        1 <= width,
        1 <= height,
        height <= 10_000 * width,
    ensures
        r as int == image_aspect_spec(width as int, height as int),
        100 <= r,
{
    proof {
        assert((width as int) * (SCALE as int) <= 4_294_967_295 * 1_000_000int && 0 <= (
        width as int) * (SCALE as int)) by (nonlinear_arith)
            requires
                1 <= width <= u32::MAX,
        ;
    }
    let num: u64 = (width as u64) * (SCALE as u64);
    let q: u64 = num / (height as u64);
    proof {
        assert(q as int == (width as int) * (SCALE as int) / (height as int));
        assert(q >= 100) by {
            assert((width as int) * (SCALE as int) >= (height as int) * 100) by (nonlinear_arith)
                requires
                    height <= 10_000 * width,
                    width >= 1,
            ;
            vstd::arithmetic::div_mod::lemma_div_is_ordered(
                (height as int) * 100,
                (width as int) * (SCALE as int),
                height as int,
            );
            vstd::arithmetic::div_mod::lemma_div_multiples_vanish(100int, height as int);
        }
        assert(q <= i64::MAX) by {
            vstd::arithmetic::div_mod::lemma_div_is_ordered(
                (width as int) * (SCALE as int),
                4_294_967_295_000_000int,
                height as int,
            );
            vstd::arithmetic::div_mod::lemma_div_is_ordered_by_denominator(
                4_294_967_295_000_000int,
                1int,
                height as int,
            );
        }
    }
    q as i64
}

/// Truncates pixel ticks to a whole pixel, toward zero.
fn trunc_units(v: i64) -> (r: i64)
    requires
        abs(v as int) <= 10_000_000_000_000_000,
    ensures
        r as int == trunc_div(v as int, SCALE as int),
        abs(r as int) <= 10_000_000_001,
{
    proof {
        crate::fixed::lemma_trunc_div_le(v as int, SCALE as int);
        vstd::arithmetic::div_mod::lemma_div_is_ordered(
            abs(v as int),
            10_000_000_000_000_000int,
            SCALE as int,
        );
    }
    if v >= 0 {
        v / SCALE
    } else {
        -((-v) / SCALE)
    }
}

/// Every entry of the visible sequence carries a point of the cloud
/// and a screen position within the viewport's tick range.
proof fn lemma_visible_props(m: crate::mat4::Mat4, pts: Seq<Point3D>, width: u32, height: u32)
    ensures
        forall|k: int|
            0 <= k < crate::renderer::visible_seq(m, pts, width, height).len()
                ==> visible_entry_ok(
                #[trigger] crate::renderer::visible_seq(m, pts, width, height)[k],
                pts,
                width,
                height,
            ),
    decreases pts.len(),
{
    if pts.len() > 0 {
        lemma_visible_props(m, pts.drop_last(), width, height);
        let rest = crate::renderer::visible_seq(m, pts.drop_last(), width, height);
        let cur = crate::renderer::visible_seq(m, pts, width, height);
        assert forall|k: int|
            0 <= k < cur.len() implies visible_entry_ok(#[trigger] cur[k], pts, width, height) by {
            if k < rest.len() {
                assert(visible_entry_ok(rest[k], pts.drop_last(), width, height));
                assert(pts.drop_last().contains(rest[k].0));
                let j = choose|j: int| 0 <= j < pts.drop_last().len() && pts.drop_last()[j]
                    == rest[k].0;
                assert(pts[j] == rest[k].0);
                assert(pts.contains(rest[k].0));
                assert(cur[k] == rest[k]);
            } else {
                assert(cur[k].0 == pts.last());
                assert(pts.contains(pts.last())) by {
                    assert(pts[pts.len() - 1] == pts.last());
                }
                lemma_project_in_viewport(m, pts.last().position, width, height);
            }
        }
    }
}

/// An accepted projection lands within the viewport's tick range.
proof fn lemma_project_in_viewport(m: crate::mat4::Mat4, v: crate::vec3::Vec3, width: u32, height: u32)
    ensures
        crate::renderer::project_spec(m, v, width, height) matches Some(sp) ==> 0 <= sp.x <= (
        width as int) * (SCALE as int) && 0 <= sp.y <= (height as int) * (SCALE as int) && 0
            <= sp.depth <= SCALE,
{
    let cx = crate::mat4::clip_x_spec(m, v);
    let cy = crate::mat4::clip_y_spec(m, v);
    let cz = crate::mat4::clip_z_spec(m, v);
    let cw = crate::mat4::clip_w_spec(m, v);
    if cw > 0 && !(cx < -cw || cx > cw || cy < -cw || cy > cw || cz < 0 || cz > cw) {
        crate::fixed::lemma_abs_mul(cx, SCALE as int);
        crate::fixed::lemma_abs_mul(cy, SCALE as int);
        crate::fixed::lemma_abs_mul(cz, SCALE as int);
        crate::fixed::lemma_trunc_div_le(cx * SCALE, cw);
        crate::fixed::lemma_trunc_div_le(cy * SCALE, cw);
        crate::fixed::lemma_trunc_div_le(cz * SCALE, cw);
        let nx = trunc_div(cx * SCALE, cw);
        let ny = trunc_div(cy * SCALE, cw);
        let nz = trunc_div(cz * SCALE, cw);
        assert(abs(cx) * (SCALE as int) <= cw * (SCALE as int) && abs(cy) * (SCALE as int) <= cw
            * (SCALE as int) && abs(cz) * (SCALE as int) <= cw * (SCALE as int))
            by (nonlinear_arith)
            requires
                abs(cx) <= cw,
                abs(cy) <= cw,
                abs(cz) <= cw,
        ;
        vstd::arithmetic::div_mod::lemma_div_is_ordered(
            abs(cx * SCALE),
            cw * (SCALE as int),
            cw,
        );
        vstd::arithmetic::div_mod::lemma_div_is_ordered(
            abs(cy * SCALE),
            cw * (SCALE as int),
            cw,
        );
        vstd::arithmetic::div_mod::lemma_div_is_ordered(
            abs(cz * SCALE),
            cw * (SCALE as int),
            cw,
        );
        vstd::arithmetic::div_mod::lemma_div_multiples_vanish(SCALE as int, cw);
        assert(abs(nx) <= SCALE && abs(ny) <= SCALE && abs(nz) <= SCALE);
        assert(cz * SCALE >= 0) by (nonlinear_arith)
            requires
                cz >= 0,
        ;
        lemma_screen_coord_range(nx, width as int);
        lemma_screen_coord_range(-ny, height as int);
    }
}

/// A normalized coordinate maps into the viewport's tick range.
proof fn lemma_screen_coord_range(n: int, len: int)
    requires
        abs(n) <= SCALE,
        len >= 0,
    ensures
        0 <= trunc_div((n + SCALE) * len, 2) <= len * (SCALE as int),
{
    assert(0 <= (n + SCALE) * len <= 2 * (SCALE as int) * len) by (nonlinear_arith)
        requires
            0 <= n + SCALE <= 2 * (SCALE as int),
            len >= 0,
    ;
    crate::fixed::lemma_trunc_div_le((n + SCALE) * len, 2);
    vstd::arithmetic::div_mod::lemma_div_is_ordered(
        (n + SCALE) * len,
        2 * (SCALE as int) * len,
        2,
    );
    assert(2 * (SCALE as int) * len / 2 == (SCALE as int) * len) by {
        vstd::arithmetic::div_mod::lemma_div_multiples_vanish((SCALE as int) * len, 2);
        assert(2 * ((SCALE as int) * len) == 2 * (SCALE as int) * len) by (nonlinear_arith);
    }
    assert(len * (SCALE as int) == (SCALE as int) * len) by (nonlinear_arith);
}

/// A permutation keeps every accepted entry accepted.
proof fn lemma_perm_entries_ok(
    post: Seq<(Point3D, ScreenPoint)>,
    pre: Seq<(Point3D, ScreenPoint)>,
    pts: Seq<Point3D>,
    width: u32,
    height: u32,
)
    requires
        post.to_multiset() == pre.to_multiset(),
        forall|k: int|
            0 <= k < pre.len() ==> visible_entry_ok(#[trigger] pre[k], pts, width, height),
    ensures
        forall|k: int|
            0 <= k < post.len() ==> visible_entry_ok(#[trigger] post[k], pts, width, height),
{
    assert forall|k: int|
        0 <= k < post.len() implies visible_entry_ok(#[trigger] post[k], pts, width, height) by {
        let e = post[k];
        assert(post.contains(e)) by {
            assert(post[k] == e);
        }
        vstd::seq_lib::to_multiset_contains(post, e);
        vstd::seq_lib::to_multiset_contains(pre, e);
        assert(pre.contains(e));
        let k2 = choose|k2: int| 0 <= k2 < pre.len() && pre[k2] == e;
        assert(visible_entry_ok(pre[k2], pts, width, height));
    }
}

/// Point drawing styles for different visual effects.
#[derive(Debug, Clone, Copy, PartialEq, Eq, Structural)]
pub enum PointStyle {
    /// Single pixel points (fastest).
    Pixel,
    /// Square points with given size.
    Square,
    /// Circular points with given radius (default).
    Circle,
}

/// Extended image renderer with more rendering options.
#[derive(Debug)]
pub struct AdvancedImageRenderer {
    base: ImageRenderer,
    point_style: PointStyle,
    enable_antialiasing: bool,
}

impl AdvancedImageRenderer {
    /// The owned base renderer.
    pub closed spec fn base_spec(&self) -> ImageRenderer {
        self.base
    }

    /// The selected point style.
    pub closed spec fn point_style_spec(&self) -> PointStyle {
        self.point_style
    }

    /// Whether antialiasing is requested.
    pub closed spec fn antialiasing_spec(&self) -> bool {
        self.enable_antialiasing
    }

    /// Creates a new advanced image renderer drawing circles, without
    /// antialiasing.
    ///
    /// Fails exactly when either dimension is zero.
    pub fn new(width: u32, height: u32) -> (r: Result<Self>)
        requires
            width * height <= u32::MAX,
        ensures
            r is Ok <==> (width > 0 && height > 0),
            r matches Ok(a) ==> {
                &&& a.base_spec().wf()
                &&& a.base_spec().width_spec() == width && a.base_spec().height_spec() == height
                &&& a.point_style_spec() == PointStyle::Circle
                &&& !a.antialiasing_spec()
            },
    {
        let base = match ImageRenderer::new(width, height) {
            Ok(b) => b,
            Err(e) => {
                return Err(e);
            },
        };
        Ok(Self { base, point_style: PointStyle::Circle, enable_antialiasing: false })
    }

    /// Sets the point drawing style.
    pub fn set_point_style(&mut self, style: PointStyle)
        ensures
            final(self).point_style_spec() == style,
            final(self).base_spec() == old(self).base_spec(),
            final(self).antialiasing_spec() == old(self).antialiasing_spec(),
    {
        self.point_style = style;
    }

    /// Gets the current point style.
    pub fn point_style(&self) -> (r: PointStyle)
        ensures
            r == self.point_style_spec(),
    {
        self.point_style
    }

    /// Requests antialiasing. The base renderer does not smooth edges;
    /// the flag is kept for configuration round trips.
    pub fn set_antialiasing(&mut self, enable: bool)
        ensures
            final(self).antialiasing_spec() == enable,
            final(self).base_spec() == old(self).base_spec(),
            final(self).point_style_spec() == old(self).point_style_spec(),
    {
        self.enable_antialiasing = enable;
    }

    /// Checks if antialiasing is requested.
    pub fn antialiasing_enabled(&self) -> (r: bool)
        ensures
            r == self.antialiasing_spec(),
    {
        self.enable_antialiasing
    }

    /// Gets a mutable reference to the base renderer for configuration.
    pub fn base_mut(&mut self) -> (r: &mut ImageRenderer)
        ensures
            *r == old(self).base_spec(),
            final(self).base_spec() == *final(r),
            final(self).point_style_spec() == old(self).point_style_spec(),
            final(self).antialiasing_spec() == old(self).antialiasing_spec(),
    {
        &mut self.base
    }

    /// Gets a reference to the base renderer.
    pub fn base(&self) -> (r: &ImageRenderer)
        ensures
            r == self.base_spec(),
    {
        &self.base
    }

    /// Renders through the base renderer.
    pub fn render(&mut self, points: &PointCloud, camera: &Camera, tan_half_fov: i64) -> (r: Result<
        ImageBuffer,
    >)
        requires
            old(self).base_spec().wf(),
            points.wf(),
            camera.wf(),
            10_000 <= tan_half_fov <= 1_000_000_000,
            crate::vec3::len_sq(crate::camera::offset_of(*camera)) >= 1,
            old(self).base_spec().height_spec() <= 10_000 * old(self).base_spec().width_spec(),
        ensures
            final(self).base_spec().wf(),
            r is Ok,
            r matches Ok(img) ==> {
                &&& img.wf()
                &&& img.width_spec() == old(self).base_spec().width_spec()
                &&& img.height_spec() == old(self).base_spec().height_spec()
                &&& pixels_from_points(
                    img.pixel_seq(),
                    old(self).base_spec().background_color_spec(),
                    points.points_seq(),
                )
                &&& points.points_seq().len() > 0 ==> projected_output_ok(
                    img.pixel_seq(),
                    *camera,
                    tan_half_fov as int,
                    points.points_seq(),
                    old(self).base_spec().width_spec(),
                    old(self).base_spec().height_spec(),
                    old(self).base_spec().background_color_spec(),
                    old(self).base_spec().point_size_spec(),
                )
            },
    {
        self.base.render(points, camera, tan_half_fov)
    }

    /// Sets the viewport size of the base renderer.
    pub fn set_viewport(&mut self, width: u32, height: u32) -> (r: Result<()>)
        requires
            old(self).base_spec().wf(),
            width * height <= u32::MAX,
        ensures
            r is Ok <==> (width > 0 && height > 0),
            r is Ok ==> final(self).base_spec().wf() && final(self).base_spec().width_spec()
                == width && final(self).base_spec().height_spec() == height,
    {
        self.base.set_viewport(width, height)
    }

    /// Gets the current viewport size.
    pub fn viewport_size(&self) -> (r: (u32, u32))
        ensures
            r.0 == self.base_spec().width_spec() && r.1 == self.base_spec().height_spec(),
    {
        self.base.viewport_size()
    }
}

} // verus!
