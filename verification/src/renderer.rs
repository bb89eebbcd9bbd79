//! 3D-to-2D projection and depth buffering.
//!
//! Screen coordinates are pixel ticks: `SCALE` ticks are one pixel.
//! A world point is run through a view-projection matrix; points with a
//! non-positive homogeneous w (behind the camera) or outside the clip
//! volume are rejected, exactly as `project_spec` states.

use vstd::prelude::*;
use crate::{AltostratusError, Point3D, PointCloud, Result};
use crate::camera::{Camera, is_view_projection_of};
use crate::fixed::{SCALE, abs, trunc_div, trunc_div_i128};
use crate::vec3::{Vec3, COORD_LIMIT, in_range};
use crate::mat4::{Mat4, bounded, clip_x_spec, clip_y_spec, clip_z_spec, clip_w_spec};

verus! {

/// Represents a 2D screen coordinate with depth information.
///
/// `x` and `y` are pixel ticks (`SCALE` ticks are one pixel); `depth`
/// runs from 0 ticks at the near plane to `SCALE` ticks at the far
/// plane.
#[derive(Debug, Clone, Copy, PartialEq, Eq, Structural)]
pub struct ScreenPoint {
    /// X coordinate in screen space, in pixel ticks.
    pub x: i64,
    /// Y coordinate in screen space, in pixel ticks.
    pub y: i64,
    /// Depth value in ticks (0 = near plane, `SCALE` = far plane).
    pub depth: i64,
}

/// A screen coordinate clamped to the viewport and truncated to a
/// whole pixel.
pub open spec fn pixel_of(x: int, limit: int) -> int {
    let lo = if x < 0 {
        0
    } else {
        x
    };
    let hi = if lo > (limit - 1) * SCALE {
        (limit - 1) * SCALE
    } else {
        lo
    };
    hi / (SCALE as int)
}

impl ScreenPoint {
    /// Creates a new screen point.
    pub fn new(x: i64, y: i64, depth: i64) -> (p: Self)
        ensures
            p == (ScreenPoint { x, y, depth }),
    {
        Self { x, y, depth }
    }

    /// Returns true if this point is within the given viewport bounds
    /// and its depth within the unit range.
    pub fn is_in_bounds(&self, width: u32, height: u32) -> (r: bool)
        ensures
            r == (self.x >= 0 && self.x < width * SCALE && self.y >= 0 && self.y < height * SCALE
                && 0 <= self.depth <= SCALE),
    {
        self.x >= 0 && self.x < (width as i64) * SCALE && self.y >= 0 && self.y < (height as i64)
            * SCALE && self.depth >= 0 && self.depth <= SCALE
    }

    /// Returns whole-pixel coordinates, clamping to the viewport.
    pub fn to_pixel_coords(&self, width: u32, height: u32) -> (r: (u32, u32))
        requires
            width >= 1,
            height >= 1,
        ensures
            r.0 as int == pixel_of(self.x as int, width as int),
            r.1 as int == pixel_of(self.y as int, height as int),
            r.0 < width,
            r.1 < height,
    {
        (clamp_pixel(self.x, width), clamp_pixel(self.y, height))
    }
}

/// Clamps a pixel-tick coordinate to the viewport and truncates it to a
/// whole pixel.
fn clamp_pixel(x: i64, limit: u32) -> (r: u32)
    requires
        limit >= 1,
    ensures
        r as int == pixel_of(x as int, limit as int),
        r < limit,
{
    let max_tick: i64 = ((limit - 1) as i64) * SCALE;
    let lo: i64 = if x < 0 {
        0
    } else {
        x
    };
    let hi: i64 = if lo > max_tick {
        max_tick
    } else {
        lo
    };
    let px: u64 = (hi as u64) / (SCALE as u64);
    proof {
        vstd::arithmetic::div_mod::lemma_div_is_ordered(
            hi as int,
            (limit as int - 1) * (SCALE as int),
            SCALE as int,
        );
        vstd::arithmetic::div_mod::lemma_div_multiples_vanish(
            limit as int - 1,
            SCALE as int,
        );
        assert((limit as int - 1) * (SCALE as int) == (SCALE as int) * (limit as int - 1));
    }
    px as u32
}

/// What projection yields for a world point: `None` when the point is
/// behind the camera (homogeneous w not positive) or outside the clip
/// volume, otherwise its screen position and depth.
pub open spec fn project_spec(m: Mat4, v: Vec3, width: u32, height: u32) -> Option<ScreenPoint> {
    let cx = clip_x_spec(m, v);
    let cy = clip_y_spec(m, v);
    let cz = clip_z_spec(m, v);
    let cw = clip_w_spec(m, v);
    if cw <= 0 {
        None
    } else if cx < -cw || cx > cw || cy < -cw || cy > cw || cz < 0 || cz > cw {
        None
    } else {
        let nx = trunc_div(cx * SCALE, cw);
        let ny = trunc_div(cy * SCALE, cw);
        let nz = trunc_div(cz * SCALE, cw);
        Some(
            ScreenPoint {
                x: trunc_div((nx + SCALE) * (width as int), 2) as i64,
                y: trunc_div((SCALE - ny) * (height as int), 2) as i64,
                depth: nz as i64,
            },
        )
    }
}

/// The subsequence of points of `pts` that `project_spec` accepts, in
/// order, each paired with its screen point.
pub open spec fn visible_seq(m: Mat4, pts: Seq<Point3D>, width: u32, height: u32) -> Seq<
    (Point3D, ScreenPoint),
>
    decreases pts.len(),
{
    if pts.len() == 0 {
        Seq::empty()
    } else {
        let rest = visible_seq(m, pts.drop_last(), width, height);
        match project_spec(m, pts.last().position, width, height) {
            Some(sp) => rest.push((pts.last(), sp)),
            None => rest,
        }
    }
}

/// 3D to 2D projection utilities.
#[derive(Debug)]
pub struct Projector {
    viewport_width: u32,
    viewport_height: u32,
}

impl Projector {
    /// The viewport width, in pixels.
    pub closed spec fn width_spec(&self) -> u32 {
        self.viewport_width
    }

    /// The viewport height, in pixels.
    pub closed spec fn height_spec(&self) -> u32 {
        self.viewport_height
    }

    /// Creates a new projector with the given viewport size.
    ///
    /// Fails exactly when either dimension is zero.
    pub fn new(viewport_width: u32, viewport_height: u32) -> (r: Result<Self>)
        ensures
            r is Ok <==> (viewport_width > 0 && viewport_height > 0),
            r matches Ok(p) ==> p.width_spec() == viewport_width && p.height_spec()
                == viewport_height,
            r is Err ==> (r matches Err(AltostratusError::InvalidParameter(_))),
    {
        if viewport_width == 0 || viewport_height == 0 {
            return Err(
                AltostratusError::InvalidParameter(
                    "Viewport dimensions must be positive".to_owned(),
                ),
            );
        }
        Ok(Self { viewport_width, viewport_height })
    }

    /// Sets the viewport size.
    ///
    /// Fails exactly when either dimension is zero; the projector is
    /// then unchanged.
    pub fn set_viewport(&mut self, width: u32, height: u32) -> (r: Result<()>)
        ensures
            r is Ok <==> (width > 0 && height > 0),
            r is Ok ==> final(self).width_spec() == width && final(self).height_spec() == height,
            r is Err ==> *final(self) == *old(self) && (r matches Err(
                AltostratusError::InvalidParameter(_),
            )),
    {
        if width == 0 || height == 0 {
            return Err(
                AltostratusError::InvalidParameter(
                    "Viewport dimensions must be positive".to_owned(),
                ),
            );
        }
        self.viewport_width = width;
        self.viewport_height = height;
        Ok(())
    }

    /// Gets the current viewport size.
    pub fn viewport_size(&self) -> (r: (u32, u32))
        ensures
            r.0 == self.width_spec() && r.1 == self.height_spec(),
    {
        (self.viewport_width, self.viewport_height)
    }

    /// Projects a world point through a given view-projection matrix.
    pub fn project_point_with(&self, m: &Mat4, world_pos: Vec3) -> (r: Option<ScreenPoint>)
        requires
            bounded(*m, 200_000_000_000_000_000int),
            in_range(world_pos, COORD_LIMIT as int),
        ensures
            r == project_spec(*m, world_pos, self.width_spec(), self.height_spec()),
    {
        let (cx, cy, cz, cw) = m.transform_point(world_pos);
        if cw <= 0 {
            return None;
        }
        if cx < -cw || cx > cw || cy < -cw || cy > cw || cz < 0 || cz > cw {
            return None;
        }
        let nx: i64 = ndc_div(cx, cw);
        let ny: i64 = ndc_div(cy, cw);
        let nz: i64 = ndc_div(cz, cw);
        let sx: i64 = screen_scale(nx + SCALE, self.viewport_width);
        let sy: i64 = screen_scale(SCALE - ny, self.viewport_height);
        Some(ScreenPoint { x: sx, y: sy, depth: nz })
    }

    /// Projects a 3D world point to 2D screen coordinates through the
    /// camera's view-projection matrix.
    ///
    /// Returns `Some` exactly when the point lies inside the view
    /// frustum. The tangent of half the field of view is supplied in
    /// ticks.
    pub fn project_point(&self, world_pos: Vec3, camera: &Camera, tan_half_fov: i64) -> (r: Option<
        ScreenPoint,
    >)
        requires
            camera.wf(),
            camera.aspect_ratio >= 100,
            10_000 <= tan_half_fov <= 1_000_000_000,
            crate::vec3::len_sq(crate::camera::offset_of(*camera)) >= 1,
            in_range(world_pos, COORD_LIMIT as int),
        ensures
            exists|vp: Mat4|
                #[trigger] is_view_projection_of(*camera, tan_half_fov as int, vp) && r
                    == project_spec(vp, world_pos, self.width_spec(), self.height_spec()),
    {
        let vp: Mat4 = camera.view_projection_matrix(tan_half_fov);
        self.project_point_with(&vp, world_pos)
    }

    /// Projects every point of a slice, keeping the visible ones in
    /// order, each paired with its index.
    pub fn project_points(&self, world_points: &[Vec3], camera: &Camera, tan_half_fov: i64) -> (r:
        Vec<(usize, ScreenPoint)>)
        requires
            camera.wf(),
            camera.aspect_ratio >= 100,
            10_000 <= tan_half_fov <= 1_000_000_000,
            crate::vec3::len_sq(crate::camera::offset_of(*camera)) >= 1,
            forall|i: int|
                0 <= i < world_points@.len() ==> in_range(
                    #[trigger] world_points@[i],
                    COORD_LIMIT as int,
                ),
        ensures
            exists|vp: Mat4|
                {
                    &&& #[trigger] is_view_projection_of(*camera, tan_half_fov as int, vp)
                    &&& forall|k: int|
                        0 <= k < r@.len() ==> {
                            &&& 0 <= (#[trigger] r@[k]).0 < world_points@.len()
                            &&& project_spec(
                                vp,
                                world_points@[r@[k].0 as int],
                                self.width_spec(),
                                self.height_spec(),
                            ) == Some(r@[k].1)
                        }
                    &&& forall|k1: int, k2: int|
                        0 <= k1 < k2 < r@.len() ==> (#[trigger] r@[k1]).0 < (#[trigger] r@[k2]).0
                },
    {
        let vp: Mat4 = camera.view_projection_matrix(tan_half_fov);
        let n: usize = world_points.len();
        let mut out: Vec<(usize, ScreenPoint)> = Vec::new();
        let mut i: usize = 0;
        while i < n
            invariant
                i <= n,
                n == world_points@.len(),
                bounded(vp, 200_000_000_000_000_000int),
                forall|j: int|
                    0 <= j < world_points@.len() ==> in_range(
                        #[trigger] world_points@[j],
                        COORD_LIMIT as int,
                    ),
                forall|k: int|
                    0 <= k < out@.len() ==> {
                        &&& 0 <= (#[trigger] out@[k]).0 < i
                        &&& project_spec(
                            vp,
                            world_points@[out@[k].0 as int],
                            self.width_spec(),
                            self.height_spec(),
                        ) == Some(out@[k].1)
                    },
                forall|k1: int, k2: int|
                    0 <= k1 < k2 < out@.len() ==> (#[trigger] out@[k1]).0 < (#[trigger] out@[k2]).0,
            decreases n - i,
        {
            let pos: Vec3 = *vstd::slice::slice_index_get(world_points, i);
            match self.project_point_with(&vp, pos) {
                Some(sp) => {
                    out.push((i, sp));
                },
                None => {},
            }
            i = i + 1;
        }
        out
    }

    /// Projects a point cloud to screen coordinates: the visible
    /// points, in order, each paired with its screen point.
    pub fn project_point_cloud(&self, points: &PointCloud, camera: &Camera, tan_half_fov: i64) -> (
        r: Vec<(Point3D, ScreenPoint)>)
        requires
            camera.wf(),
            camera.aspect_ratio >= 100,
            10_000 <= tan_half_fov <= 1_000_000_000,
            crate::vec3::len_sq(crate::camera::offset_of(*camera)) >= 1,
            points.wf(),
        ensures
            exists|vp: Mat4|
                #[trigger] is_view_projection_of(*camera, tan_half_fov as int, vp) && r@
                    == visible_seq(vp, points.points_seq(), self.width_spec(), self.height_spec()),
    {
        let vp: Mat4 = camera.view_projection_matrix(tan_half_fov);
        self.project_cloud_with(&vp, points)
    }

    /// Projects a point cloud through a given view-projection matrix.
    pub fn project_cloud_with(&self, m: &Mat4, points: &PointCloud) -> (r: Vec<
        (Point3D, ScreenPoint),
    >)
        requires
            bounded(*m, 200_000_000_000_000_000int),
            points.wf(),
        ensures
            r@ == visible_seq(*m, points.points_seq(), self.width_spec(), self.height_spec()),
    {
        let pts: &[Point3D] = points.points();
        let n: usize = pts.len();
        let mut out: Vec<(Point3D, ScreenPoint)> = Vec::new();
        let mut i: usize = 0;
        while i < n
            invariant
                i <= n,
                n == pts@.len(),
                pts@ == points.points_seq(),
                points.wf(),
                bounded(*m, 200_000_000_000_000_000int),
                out@ == visible_seq(*m, pts@.subrange(0, i as int), self.width_spec(),
                self.height_spec()),
            decreases n - i,
        {
            let p: Point3D = *vstd::slice::slice_index_get(pts, i);
            proof {
                assert(pts@.subrange(0, i + 1).drop_last() == pts@.subrange(0, i as int));
                assert(pts@.subrange(0, i + 1).last() == pts@[i as int]);
            }
            match self.project_point_with(m, p.position) {
                Some(sp) => {
                    out.push((p, sp));
                },
                None => {},
            }
            i = i + 1;
        }
        proof {
            assert(pts@.subrange(0, n as int) == pts@);
        }
        out
    }
}

/// One perspective division: a clip coordinate scaled into normalized
/// device ticks.
fn ndc_div(c: i128, w: i128) -> (r: i64)
    requires
        w > 0,
        -w <= c <= w,
        abs(w as int) <= 800_000_000_000_000_000_000int,
    ensures
        r as int == trunc_div(c as int * SCALE, w as int),
        abs(r as int) <= SCALE,
        c >= 0 ==> r >= 0,
{
    proof {
        crate::fixed::lemma_abs_mul(c as int, SCALE as int);
        assert(abs(c as int) * (SCALE as int) <= 800_000_000_000_000_000_000_000_000int)
            by (nonlinear_arith)
            requires
                0 <= abs(c as int) <= 800_000_000_000_000_000_000int,
        ;
    }
    let p: i128 = c * (SCALE as i128);
    let q: i128 = trunc_div_i128(p, w);
    proof {
        assert(abs(c as int) * (SCALE as int) <= abs(w as int) * (SCALE as int))
            by (nonlinear_arith)
            requires
                abs(c as int) <= abs(w as int),
        ;
        vstd::arithmetic::div_mod::lemma_div_is_ordered(
            abs(c as int) * (SCALE as int),
            abs(w as int) * (SCALE as int),
            w as int,
        );
        assert(abs(w as int) * (SCALE as int) == (w as int) * (SCALE as int));
        vstd::arithmetic::div_mod::lemma_div_multiples_vanish(SCALE as int, w as int);
        if c >= 0 {
            assert(trunc_div(c as int * SCALE, w as int) >= 0);
        }
    }
    q as i64
}

/// Maps a non-negative tick fraction across a viewport dimension:
/// `a * len / 2` with truncation.
fn screen_scale(a: i64, len: u32) -> (r: i64)
    requires
        0 <= a <= 2 * SCALE,
    ensures
        r as int == trunc_div(a as int * (len as int), 2),
        0 <= r <= SCALE * (len as int),
{
    proof {
        assert(a as int * (len as int) <= 2 * (SCALE as int) * (len as int) && 2 * (SCALE as int)
            * (len as int) <= 2 * (SCALE as int) * (u32::MAX as int) && 0 <= a as int * (
        len as int)) by (nonlinear_arith)
            requires
                0 <= a as int <= 2 * (SCALE as int),
                0 <= len as int <= u32::MAX,
        ;
    }
    let p: u64 = (a as u64) * (len as u64);
    let q: u64 = p / 2;
    proof {
        assert(p as int == a as int * (len as int));
        vstd::arithmetic::div_mod::lemma_div_is_ordered(
            p as int,
            2 * (SCALE as int) * (len as int),
            2,
        );
        assert(2 * (SCALE as int) * (len as int) / 2 == (SCALE as int) * (len as int)) by {
            vstd::arithmetic::div_mod::lemma_div_multiples_vanish(
                (SCALE as int) * (len as int),
                2,
            );
            assert(2 * ((SCALE as int) * (len as int)) == 2 * (SCALE as int) * (len as int))
                by (nonlinear_arith);
        }
    }
    q as i64
}

/// Depth buffer for handling point visibility and depth testing.
///
/// Depths are ticks: `SCALE` ticks stand for the far plane.
#[derive(Debug)]
pub struct DepthBuffer {
    depths: Vec<i64>,
    width: u32,
    height: u32,
}

impl DepthBuffer {
    /// The buffer width, in pixels.
    pub closed spec fn width_spec(&self) -> u32 {
        self.width
    }

    /// The buffer height, in pixels.
    pub closed spec fn height_spec(&self) -> u32 {
        self.height
    }

    /// The stored depths, row-major.
    pub closed spec fn depth_seq(&self) -> Seq<i64> {
        self.depths@
    }

    /// One cell per pixel.
    pub open spec fn wf(&self) -> bool {
        &&& self.depth_seq().len() == self.width_spec() * self.height_spec()
        &&& self.width_spec() * self.height_spec() <= u32::MAX
    }

    /// Creates a new depth buffer with every cell at the far plane.
    ///
    /// Fails exactly when either dimension is zero.
    pub fn new(width: u32, height: u32) -> (r: Result<Self>)
        requires
            width * height <= u32::MAX,
        ensures
            r is Ok <==> (width > 0 && height > 0),
            r matches Ok(b) ==> {
                &&& b.width_spec() == width && b.height_spec() == height
                &&& b.wf()
                &&& forall|i: int| 0 <= i < b.depth_seq().len() ==> b.depth_seq()[i] == SCALE
            },
            r is Err ==> (r matches Err(AltostratusError::InvalidParameter(_))),
    {
        if width == 0 || height == 0 {
            return Err(
                AltostratusError::InvalidParameter(
                    "Depth buffer dimensions must be positive".to_owned(),
                ),
            );
        }
        let size: u32 = width * height;
        let depths: Vec<i64> = far_plane_cells(size as usize);
        Ok(Self { depths, width, height })
    }

    /// Resets every cell to the far plane.
    pub fn clear(&mut self)
        ensures
            final(self).width_spec() == old(self).width_spec(),
            final(self).height_spec() == old(self).height_spec(),
            final(self).depth_seq().len() == old(self).depth_seq().len(),
            forall|i: int|
                0 <= i < final(self).depth_seq().len() ==> final(self).depth_seq()[i] == SCALE,
            old(self).wf() ==> final(self).wf(),
    {
        let n: usize = self.depths.len();
        let mut i: usize = 0;
        while i < n
            invariant
                i <= n,
                n == self.depths@.len(),
                self.width == old(self).width,
                self.height == old(self).height,
                forall|j: int| 0 <= j < i ==> self.depths@[j] == SCALE,
            decreases n - i,
        {
            self.depths.set(i, SCALE);
            i = i + 1;
        }
    }

    /// Resizes the buffer, resetting every cell to the far plane.
    ///
    /// Fails exactly when either dimension is zero; the buffer is then
    /// unchanged.
    pub fn resize(&mut self, width: u32, height: u32) -> (r: Result<()>)
        requires
            width * height <= u32::MAX,
        ensures
            r is Ok <==> (width > 0 && height > 0),
            r is Ok ==> {
                &&& final(self).width_spec() == width && final(self).height_spec() == height
                &&& final(self).wf()
                &&& forall|i: int|
                    0 <= i < final(self).depth_seq().len() ==> final(self).depth_seq()[i] == SCALE
            },
            r is Err ==> *final(self) == *old(self) && (r matches Err(
                AltostratusError::InvalidParameter(_),
            )),
    {
        if width == 0 || height == 0 {
            return Err(
                AltostratusError::InvalidParameter(
                    "Depth buffer dimensions must be positive".to_owned(),
                ),
            );
        }
        let size: u32 = width * height;
        self.width = width;
        self.height = height;
        self.depths = far_plane_cells(size as usize);
        Ok(())
    }

    /// Tests whether a depth is strictly nearer than the stored one and
    /// records it if so.
    ///
    /// Out-of-bounds coordinates always fail without mutation. In
    /// bounds, the test succeeds and overwrites the cell exactly when
    /// the depth is strictly less than the stored value; otherwise the
    /// buffer is unchanged.
    pub fn test_and_update(&mut self, x: u32, y: u32, depth: i64) -> (r: bool)
        requires
            old(self).wf(),
        ensures
            final(self).wf(),
            final(self).width_spec() == old(self).width_spec(),
            final(self).height_spec() == old(self).height_spec(),
            x >= old(self).width_spec() || y >= old(self).height_spec() ==> r == false && *final(
                self) == *old(self),
            x < old(self).width_spec() && y < old(self).height_spec() ==> {
                let idx = y * old(self).width_spec() + x;
                if depth < old(self).depth_seq()[idx as int] {
                    &&& r == true
                    &&& final(self).depth_seq() == old(self).depth_seq().update(
                        idx as int,
                        depth,
                    )
                } else {
                    &&& r == false
                    &&& *final(self) == *old(self)
                }
            },
    {
        if x >= self.width || y >= self.height {
            return false;
        }
        proof {
            lemma_cell_in_grid(x as int, y as int, self.width as int, self.height as int);
        }
        let index: usize = ((y as u64) * (self.width as u64) + (x as u64)) as usize;
        if depth < self.depths[index] {
            self.depths.set(index, depth);
            true
        } else {
            false
        }
    }

    /// Gets the depth value at a pixel, or `None` out of bounds.
    pub fn get_depth(&self, x: u32, y: u32) -> (r: Option<i64>)
        requires
            self.wf(),
        ensures
            x >= self.width_spec() || y >= self.height_spec() ==> r is None,
            x < self.width_spec() && y < self.height_spec() ==> r == Some(
                self.depth_seq()[(y * self.width_spec() + x) as int],
            ),
    {
        if x >= self.width || y >= self.height {
            return None;
        }
        proof {
            lemma_cell_in_grid(x as int, y as int, self.width as int, self.height as int);
        }
        let index: usize = ((y as u64) * (self.width as u64) + (x as u64)) as usize;
        Some(self.depths[index])
    }

    /// Gets the buffer dimensions.
    pub fn dimensions(&self) -> (r: (u32, u32))
        ensures
            r.0 == self.width_spec() && r.1 == self.height_spec(),
    {
        (self.width, self.height)
    }
}

/// A vector of `n` cells, each at the far plane.
fn far_plane_cells(n: usize) -> (r: Vec<i64>)
    ensures
        r@.len() == n,
        forall|i: int| 0 <= i < n ==> r@[i] == SCALE,
{
    let mut v: Vec<i64> = Vec::new();
    let mut i: usize = 0;
    while i < n
        invariant
            i <= n,
            v@.len() == i,
            forall|j: int| 0 <= j < i ==> v@[j] == SCALE,
        decreases n - i,
    {
        v.push(SCALE);
        i = i + 1;
    }
    v
}

/// A point behind the camera is never returned: when its homogeneous
/// clip w is not positive, projection rejects it.
pub proof fn lemma_behind_camera_rejected(m: Mat4, v: Vec3, width: u32, height: u32)
    requires
        clip_w_spec(m, v) <= 0,
    ensures
        project_spec(m, v, width, height) is None,
{
}

/// A point whose projection is accepted appears in the visible
/// sequence, paired with that projection.
pub proof fn lemma_visible_contains(m: Mat4, pts: Seq<Point3D>, width: u32, height: u32, j: int)
    requires
        0 <= j < pts.len(),
        project_spec(m, pts[j].position, width, height) is Some,
    ensures
        exists|k: int|
            0 <= k < visible_seq(m, pts, width, height).len() && #[trigger] visible_seq(
                m,
                pts,
                width,
                height,
            )[k] == (pts[j], project_spec(m, pts[j].position, width, height)->Some_0),
    decreases pts.len(),
{
    let cur = visible_seq(m, pts, width, height);
    let rest = visible_seq(m, pts.drop_last(), width, height);
    if j == pts.len() - 1 {
        let sp = project_spec(m, pts[j].position, width, height)->Some_0;
        assert(pts.last() == pts[j]);
        assert(cur[cur.len() - 1] == (pts[j], sp));
    } else {
        assert(pts.drop_last()[j] == pts[j]);
        lemma_visible_contains(m, pts.drop_last(), width, height, j);
        let k = choose|k: int|
            0 <= k < rest.len() && #[trigger] rest[k] == (
            pts.drop_last()[j],
            project_spec(m, pts.drop_last()[j].position, width, height)->Some_0,
            );
        assert(cur[k] == rest[k]);
    }
}

/// When no point's projection is accepted, the visible sequence is
/// empty.
pub proof fn lemma_visible_empty(m: Mat4, pts: Seq<Point3D>, width: u32, height: u32)
    requires
        forall|j: int|
            0 <= j < pts.len() ==> (#[trigger] project_spec(m, pts[j].position, width, height))
                is None,
    ensures
        visible_seq(m, pts, width, height).len() == 0,
    decreases pts.len(),
{
    if pts.len() > 0 {
        assert(forall|j: int|
            0 <= j < pts.drop_last().len() ==> (#[trigger] project_spec(
                m,
                pts.drop_last()[j].position,
                width,
                height,
            )) is None) by {
            assert(forall|j: int|
                0 <= j < pts.len() - 1 ==> pts.drop_last()[j] == pts[j]);
        }
        lemma_visible_empty(m, pts.drop_last(), width, height);
        assert(pts.last() == pts[pts.len() - 1]);
    }
}

/// A sequence with the same multiset holds every element of the other.
pub proof fn lemma_perm_contains<T>(post: Seq<T>, pre: Seq<T>, e: T)
    requires
        post.to_multiset() == pre.to_multiset(),
        pre.contains(e),
    ensures
        post.contains(e),
{
    vstd::seq_lib::to_multiset_contains(post, e);
    vstd::seq_lib::to_multiset_contains(pre, e);
}

/// Farthest first: depths never increase along the sequence.
pub open spec fn sorted_back_to_front(s: Seq<(Point3D, ScreenPoint)>) -> bool {
    forall|i: int, j: int|
        0 <= i < j < s.len() ==> (#[trigger] s[i]).1.depth >= (#[trigger] s[j]).1.depth
}

/// Sorts projected points back to front (descending depth, stable) by
/// insertion, keeping exactly the same points.
pub fn sort_back_to_front(v: &mut Vec<(Point3D, ScreenPoint)>)
    ensures
        sorted_back_to_front(final(v)@),
        final(v)@.to_multiset() == old(v)@.to_multiset(),
        final(v)@.len() == old(v)@.len(),
{
    broadcast use vstd::seq_lib::group_to_multiset_ensures;
    broadcast use vstd::multiset::group_multiset_axioms;

    let n: usize = v.len();
    if n <= 1 {
        proof {
            assert(sorted_back_to_front(v@));
        }
        return ;
    }
    let mut i: usize = 1;
    while i < n
        invariant
            1 <= i <= n,
            v@.len() == n,
            sorted_back_to_front(v@.subrange(0, i as int)),
            v@.to_multiset() == old(v)@.to_multiset(),
        decreases n - i,
    {
        let ghost v0 = v@;
        let x = v.remove(i);
        let ghost v1 = v@;
        proof {
            assert(v1 == v0.remove(i as int));
            vstd::seq_lib::to_multiset_remove(v0, i as int);
            assert(v1.to_multiset() == v0.to_multiset().remove(x));
            assert(v0.contains(x)) by {
                assert(v0[i as int] == x);
            }
            vstd::seq_lib::to_multiset_contains(v0, x);
            assert(v0.to_multiset().count(x) > 0);
            assert(forall|k: int| 0 <= k < i ==> v1[k] == v0[k]);
        }
        let mut p: usize = 0;
        while p < i && v[p].1.depth >= x.1.depth
            invariant
                0 <= p <= i,
                i < n,
                v@ == v1,
                v1.len() == n - 1,
                forall|q: int| 0 <= q < p ==> (#[trigger] v1[q]).1.depth >= x.1.depth,
            decreases i - p,
        {
            p = p + 1;
        }
        v.insert(p, x);
        proof {
            let v2 = v@;
            assert(v2 == v1.insert(p as int, x));
            vstd::seq_lib::to_multiset_insert(v1, p as int, x);
            assert(v2.to_multiset() == v1.to_multiset().insert(x));
            assert(v2.to_multiset() =~= v0.to_multiset());
            assert(sorted_back_to_front(v2.subrange(0, i + 1))) by {
                assert(forall|q: int| 0 <= q < p ==> v2[q] == v1[q]);
                assert(forall|q: int| p < q <= i ==> v2[q] == v1[q - 1]);
                assert(p < i ==> v1[p as int].1.depth < x.1.depth);
                assert(forall|q1: int, q2: int|
                    0 <= q1 < q2 < i ==> (#[trigger] v1[q1]).1.depth >= (#[trigger] v1[
                    q2]).1.depth) by {
                    assert(forall|k: int| 0 <= k < i ==> v1[k] == v0.subrange(0, i as int)[k]);
                }
            }
        }
        i = i + 1;
    }
    proof {
        assert(v@.subrange(0, n as int) == v@);
    }
}

/// A row-major cell index stays within the buffer.
pub proof fn lemma_cell_in_grid(x: int, y: int, w: int, h: int)
    requires
        0 <= x < w,
        0 <= y < h,
        w * h <= u32::MAX,
    ensures
        0 <= y * w + x < w * h,
{
    assert(y * w + x < w * h) by (nonlinear_arith)
        requires
            0 <= x < w,
            0 <= y < h,
    ;
    assert(y * w >= 0) by (nonlinear_arith)
        requires
            y >= 0,
            w >= 0,
    ;
}

} // verus!
