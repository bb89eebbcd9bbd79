//! Rendering of sparse 3D point clouds onto character grids and pixel
//! buffers, with an interactive camera.
//!
//! All geometry is carried in fixed-point coordinates: one unit of world
//! space is `fixed::SCALE` ticks, so positions, angles and matrix entries
//! are plain integers and every stage of the pipeline is verified.
//! Callers that live in floating point convert at the boundary.

use vstd::prelude::*;

pub mod args;
pub mod ascii_renderer;
pub mod axes;
pub mod camera;
pub mod command;
pub mod fixed;
pub mod graphics;
pub mod image_renderer;
pub mod renderer;
pub mod text;
pub mod mat4;
pub mod vec3;

pub use args::{Args, ParseResult};
pub use ascii_renderer::{AdvancedAsciiRenderer, AsciiRenderer, CharacterSet};
pub use image_renderer::{AdvancedImageRenderer, ImageBuffer, ImageRenderer, PointStyle};
pub use axes::{Axes, AxesConfig};
pub use camera::Camera;
pub use command::{CommandAction, CommandState};
pub use renderer::{ScreenPoint, Projector, DepthBuffer};
pub use vec3::Vec3;
pub use vec3::COORD_LIMIT;

verus! {

/// Simple RGB color representation with 8-bit channels.
#[derive(Debug, Clone, Copy, PartialEq, Eq, Structural)]
pub struct Color {
    pub r: u8,
    pub g: u8,
    pub b: u8,
}

impl Color {
    /// Creates a new color from RGB values.
    pub fn new(r: u8, g: u8, b: u8) -> (c: Self)
        ensures
            c.r == r && c.g == g && c.b == b,
    {
        Self { r, g, b }
    }

    /// Creates a new color from RGB values as a tuple.
    pub fn from_rgb(rgb: (u8, u8, u8)) -> (c: Self)
        ensures
            c.r == rgb.0 && c.g == rgb.1 && c.b == rgb.2,
    {
        Self::new(rgb.0, rgb.1, rgb.2)
    }

    /// Creates a new color from an RGB array.
    pub fn from_array(rgb: [u8; 3]) -> (c: Self)
        ensures
            c.r == rgb[0] && c.g == rgb[1] && c.b == rgb[2],
    {
        Self::new(rgb[0], rgb[1], rgb[2])
    }

    /// Returns the color as an RGB tuple.
    pub fn to_rgb(&self) -> (rgb: (u8, u8, u8))
        ensures
            rgb.0 == self.r && rgb.1 == self.g && rgb.2 == self.b,
    {
        (self.r, self.g, self.b)
    }

    /// Returns the color as an RGB array.
    pub fn to_array(&self) -> (rgb: [u8; 3])
        ensures
            rgb[0] == self.r && rgb[1] == self.g && rgb[2] == self.b,
    {
        [self.r, self.g, self.b]
    }

    /// Pure red.
    pub fn red() -> (c: Color)
        ensures
            c == (Color { r: 255, g: 0, b: 0 }),
    {
        Color { r: 255, g: 0, b: 0 }
    }

    /// Pure green.
    pub fn green() -> (c: Color)
        ensures
            c == (Color { r: 0, g: 255, b: 0 }),
    {
        Color { r: 0, g: 255, b: 0 }
    }

    /// Pure blue.
    pub fn blue() -> (c: Color)
        ensures
            c == (Color { r: 0, g: 0, b: 255 }),
    {
        Color { r: 0, g: 0, b: 255 }
    }

    /// White.
    pub fn white() -> (c: Color)
        ensures
            c == (Color { r: 255, g: 255, b: 255 }),
    {
        Color { r: 255, g: 255, b: 255 }
    }

    /// Black.
    pub fn black() -> (c: Color)
        ensures
            c == (Color { r: 0, g: 0, b: 0 }),
    {
        Color { r: 0, g: 0, b: 0 }
    }

    /// Mid gray.
    pub fn gray() -> (c: Color)
        ensures
            c == (Color { r: 128, g: 128, b: 128 }),
    {
        Color { r: 128, g: 128, b: 128 }
    }
}

/// A 3D point with position and color information.
///
/// Coordinates are fixed-point ticks: `fixed::SCALE` ticks are one
/// world unit.
#[derive(Debug, Clone, Copy, PartialEq, Eq, Structural)]
pub struct Point3D {
    /// 3D position in space, in ticks.
    pub position: Vec3,
    /// Point color.
    pub color: Color,
}

impl Point3D {
    /// Creates a new 3D point.
    pub fn new(position: Vec3, color: Color) -> (p: Self)
        ensures
            p.position == position && p.color == color,
    {
        Self { position, color }
    }

    /// Creates a new 3D point from tick coordinates and a color.
    pub fn from_coords(x: i64, y: i64, z: i64, color: Color) -> (p: Self)
        ensures
            p.position == (Vec3 { x, y, z }) && p.color == color,
    {
        Self::new(Vec3::new(x, y, z), color)
    }

    /// Creates a new 3D point from a coordinate array and a color array.
    pub fn from_arrays(coords: [i64; 3], color: [u8; 3]) -> (p: Self)
        ensures
            p.position == (Vec3 { x: coords[0], y: coords[1], z: coords[2] }),
            p.color == (Color { r: color[0], g: color[1], b: color[2] }),
    {
        Self::new(Vec3::new(coords[0], coords[1], coords[2]), Color::from_array(color))
    }

    /// Gets the x coordinate, in ticks.
    pub fn x(&self) -> (r: i64)
        ensures
            r == self.position.x,
    {
        self.position.x
    }

    /// Gets the y coordinate, in ticks.
    pub fn y(&self) -> (r: i64)
        ensures
            r == self.position.y,
    {
        self.position.y
    }

    /// Gets the z coordinate, in ticks.
    pub fn z(&self) -> (r: i64)
        ensures
            r == self.position.z,
    {
        self.position.z
    }
}

/// Container for a collection of 3D points.
#[derive(Debug)]
pub struct PointCloud {
    points: Vec<Point3D>,
    default_color: Color,
}

impl PointCloud {
    /// The points held, in insertion order.
    pub closed spec fn points_seq(&self) -> Seq<Point3D> {
        self.points@
    }

    /// The color given to points added without one.
    pub closed spec fn default_color_spec(&self) -> Color {
        self.default_color
    }

    /// Every position within the coordinate limit, so that the cloud can
    /// be run through the rendering pipeline.
    pub open spec fn wf(&self) -> bool {
        forall|i: int|
            0 <= i < self.points_seq().len() ==> crate::vec3::in_range(
                (#[trigger] self.points_seq()[i]).position,
                COORD_LIMIT as int,
            )
    }

    /// Creates a new empty point cloud.
    pub fn new() -> (c: Self)
        ensures
            c.points_seq() == Seq::<Point3D>::empty(),
            c.default_color_spec() == (Color { r: 255u8, g: 255u8, b: 255u8 }),
            c.wf(),
    {
        Self { points: Vec::new(), default_color: Color::white() }
    }

    /// Creates a new empty point cloud with a specified default color.
    pub fn with_default_color(default_color: Color) -> (c: Self)
        ensures
            c.points_seq() == Seq::<Point3D>::empty(),
            c.default_color_spec() == default_color,
            c.wf(),
    {
        Self { points: Vec::new(), default_color }
    }

    /// Creates a new point cloud with initial capacity.
    pub fn with_capacity(capacity: usize) -> (c: Self)
        ensures
            c.points_seq() == Seq::<Point3D>::empty(),
            c.default_color_spec() == (Color { r: 255u8, g: 255u8, b: 255u8 }),
            c.wf(),
    {
        Self { points: Vec::with_capacity(capacity), default_color: Color::white() }
    }

    /// Adds a new point to the cloud.
    pub fn add_point(&mut self, point: Point3D)
        requires
            crate::vec3::in_range(point.position, COORD_LIMIT as int),
            old(self).points_seq().len() < usize::MAX,
        ensures
            final(self).points_seq() == old(self).points_seq().push(point),
            final(self).default_color_spec() == old(self).default_color_spec(),
            old(self).wf() ==> final(self).wf(),
    {
        self.points.push(point);
    }

    /// Adds a new point from a position and a color.
    pub fn add_point_with_color(&mut self, position: Vec3, color: Color)
        requires
            crate::vec3::in_range(position, COORD_LIMIT as int),
            old(self).points_seq().len() < usize::MAX,
        ensures
            final(self).points_seq() == old(self).points_seq().push(
                Point3D { position, color },
            ),
            final(self).default_color_spec() == old(self).default_color_spec(),
            old(self).wf() ==> final(self).wf(),
    {
        self.add_point(Point3D::new(position, color));
    }

    /// Adds a new point from tick coordinates and a color.
    pub fn add_point_coords(&mut self, x: i64, y: i64, z: i64, color: Color)
        requires
            crate::vec3::in_range(Vec3 { x, y, z }, COORD_LIMIT as int),
            old(self).points_seq().len() < usize::MAX,
        ensures
            final(self).points_seq() == old(self).points_seq().push(
                Point3D { position: Vec3 { x, y, z }, color },
            ),
            final(self).default_color_spec() == old(self).default_color_spec(),
            old(self).wf() ==> final(self).wf(),
    {
        self.add_point(Point3D::from_coords(x, y, z, color));
    }

    /// Adds a new point with the default color.
    pub fn add_point_default_color(&mut self, position: Vec3)
        requires
            crate::vec3::in_range(position, COORD_LIMIT as int),
            old(self).points_seq().len() < usize::MAX,
        ensures
            final(self).points_seq() == old(self).points_seq().push(
                Point3D { position, color: old(self).default_color_spec() },
            ),
            final(self).default_color_spec() == old(self).default_color_spec(),
            old(self).wf() ==> final(self).wf(),
    {
        let color = self.default_color;
        self.add_point(Point3D::new(position, color));
    }

    /// Adds a new point from tick coordinates with the default color.
    pub fn add_point_coords_default(&mut self, x: i64, y: i64, z: i64)
        requires
            crate::vec3::in_range(Vec3 { x, y, z }, COORD_LIMIT as int),
            old(self).points_seq().len() < usize::MAX,
        ensures
            final(self).points_seq() == old(self).points_seq().push(
                Point3D { position: Vec3 { x, y, z }, color: old(self).default_color_spec() },
            ),
            final(self).default_color_spec() == old(self).default_color_spec(),
            old(self).wf() ==> final(self).wf(),
    {
        self.add_point_default_color(Vec3::new(x, y, z));
    }

    /// Adds multiple points from a slice.
    pub fn add_points(&mut self, points: &[Point3D])
        requires
            forall|i: int|
                0 <= i < points@.len() ==> crate::vec3::in_range(
                    #[trigger] points@[i].position,
                    COORD_LIMIT as int,
                ),
            old(self).points_seq().len() + points@.len() <= usize::MAX,
        ensures
            final(self).points_seq() == old(self).points_seq() + points@,
            final(self).default_color_spec() == old(self).default_color_spec(),
            old(self).wf() ==> final(self).wf(),
    {
        let n: usize = points.len();
        let mut i: usize = 0;
        while i < n
            invariant
                i <= n,
                n == points@.len(),
                forall|j: int|
                    0 <= j < points@.len() ==> crate::vec3::in_range(
                        #[trigger] points@[j].position,
                        COORD_LIMIT as int,
                    ),
                old(self).points_seq().len() + points@.len() <= usize::MAX,
                self.points_seq() == old(self).points_seq() + points@.subrange(0, i as int),
                self.default_color_spec() == old(self).default_color_spec(),
            decreases n - i,
        {
            let p: Point3D = *vstd::slice::slice_index_get(points, i);
            self.points.push(p);
            proof {
                assert(self.points_seq() == old(self).points_seq() + points@.subrange(
                    0,
                    i + 1 as int,
                ));
            }
            i = i + 1;
        }
        proof {
            assert(points@.subrange(0, n as int) == points@);
        }
    }

    /// Returns the number of points in the cloud.
    pub fn len(&self) -> (n: usize)
        ensures
            n == self.points_seq().len(),
    {
        self.points.len()
    }

    /// Returns true if the point cloud is empty.
    pub fn is_empty(&self) -> (r: bool)
        ensures
            r == (self.points_seq().len() == 0),
    {
        self.points.len() == 0
    }

    /// Returns the points as a slice.
    pub fn points(&self) -> (r: &[Point3D])
        ensures
            r@ == self.points_seq(),
    {
        self.points.as_slice()
    }

    /// Clears all points from the cloud.
    pub fn clear(&mut self)
        ensures
            final(self).points_seq() == Seq::<Point3D>::empty(),
            final(self).default_color_spec() == old(self).default_color_spec(),
            final(self).wf(),
    {
        self.points.clear();
    }

    /// Sets the default color for new points.
    pub fn set_default_color(&mut self, color: Color)
        ensures
            final(self).points_seq() == old(self).points_seq(),
            final(self).default_color_spec() == color,
            old(self).wf() ==> final(self).wf(),
    {
        self.default_color = color;
    }

    /// Gets the current default color.
    pub fn default_color(&self) -> (c: Color)
        ensures
            c == self.default_color_spec(),
    {
        self.default_color
    }

    /// Gets the bounding box of all points as (min, max) corners.
    ///
    /// `None` exactly when the cloud is empty; otherwise each corner
    /// component is the least (respectively greatest) coordinate over
    /// every point, attained by some point.
    pub fn bounding_box(&self) -> (r: Option<(Vec3, Vec3)>)
        ensures
            r is None <==> self.points_seq().len() == 0,
            r matches Some((mn, mx)) ==> {
                &&& forall|i: int|
                    0 <= i < self.points_seq().len() ==> {
                        &&& mn.x <= (#[trigger] self.points_seq()[i]).position.x <= mx.x
                        &&& mn.y <= self.points_seq()[i].position.y <= mx.y
                        &&& mn.z <= self.points_seq()[i].position.z <= mx.z
                    }
                &&& exists|i: int|
                    0 <= i < self.points_seq().len() && (#[trigger] self.points_seq()[i]).position.x
                        == mn.x
                &&& exists|i: int|
                    0 <= i < self.points_seq().len() && (#[trigger] self.points_seq()[i]).position.y
                        == mn.y
                &&& exists|i: int|
                    0 <= i < self.points_seq().len() && (#[trigger] self.points_seq()[i]).position.z
                        == mn.z
                &&& exists|i: int|
                    0 <= i < self.points_seq().len() && (#[trigger] self.points_seq()[i]).position.x
                        == mx.x
                &&& exists|i: int|
                    0 <= i < self.points_seq().len() && (#[trigger] self.points_seq()[i]).position.y
                        == mx.y
                &&& exists|i: int|
                    0 <= i < self.points_seq().len() && (#[trigger] self.points_seq()[i]).position.z
                        == mx.z
            },
    {
        let n: usize = self.points.len();
        if n == 0 {
            return None;
        }
        let first: Point3D = self.points[0];
        let mut mn: Vec3 = first.position;
        let mut mx: Vec3 = first.position;
        let mut i: usize = 1;
        while i < n
            invariant
                1 <= i <= n,
                n == self.points_seq().len(),
                forall|j: int|
                    0 <= j < i ==> {
                        &&& mn.x <= (#[trigger] self.points_seq()[j]).position.x <= mx.x
                        &&& mn.y <= self.points_seq()[j].position.y <= mx.y
                        &&& mn.z <= self.points_seq()[j].position.z <= mx.z
                    },
                exists|j: int|
                    0 <= j < i && (#[trigger] self.points_seq()[j]).position.x == mn.x,
                exists|j: int|
                    0 <= j < i && (#[trigger] self.points_seq()[j]).position.y == mn.y,
                exists|j: int|
                    0 <= j < i && (#[trigger] self.points_seq()[j]).position.z == mn.z,
                exists|j: int|
                    0 <= j < i && (#[trigger] self.points_seq()[j]).position.x == mx.x,
                exists|j: int|
                    0 <= j < i && (#[trigger] self.points_seq()[j]).position.y == mx.y,
                exists|j: int|
                    0 <= j < i && (#[trigger] self.points_seq()[j]).position.z == mx.z,
            decreases n - i,
        {
            let p: Point3D = self.points[i];
            mn = mn.min(p.position);
            mx = mx.max(p.position);
            i = i + 1;
        }
        Some((mn, mx))
    }
}

impl Default for PointCloud {
    fn default() -> (c: Self)
        ensures
            c.points_seq() == Seq::<Point3D>::empty(),
            c.default_color_spec() == (Color { r: 255u8, g: 255u8, b: 255u8 }),
    {
        Self::new()
    }
}

/// Errors that can occur in altostratus operations.
#[derive(Debug, Clone)]
pub enum AltostratusError {
    /// Empty point cloud when points are required.
    EmptyPointCloud,
    /// Invalid parameter value.
    InvalidParameter(String),
    /// Rendering error.
    RenderError(String),
}

impl AltostratusError {
    /// The error rendered as a human-readable message.
    pub fn message(&self) -> (s: String)
        ensures
            s@ == self.message_spec(),
    {
        match self {
            AltostratusError::EmptyPointCloud => "Point cloud is empty".to_owned(),
            AltostratusError::InvalidParameter(msg) => {
                let mut s = "Invalid parameter: ".to_owned();
                s.append(msg.as_str());
                s
            },
            AltostratusError::RenderError(msg) => {
                let mut s = "Render error: ".to_owned();
                s.append(msg.as_str());
                s
            },
        }
    }

    /// What `message` returns for each variant.
    pub open spec fn message_spec(&self) -> Seq<char> {
        match self {
            AltostratusError::EmptyPointCloud => "Point cloud is empty"@,
            AltostratusError::InvalidParameter(msg) => "Invalid parameter: "@ + msg@,
            AltostratusError::RenderError(msg) => "Render error: "@ + msg@,
        }
    }
}

impl PartialEq for AltostratusError {
    fn eq(&self, other: &Self) -> (r: bool)
    {
        match (self, other) {
            (AltostratusError::EmptyPointCloud, AltostratusError::EmptyPointCloud) => true,
            (AltostratusError::InvalidParameter(a), AltostratusError::InvalidParameter(b)) => *a
                == *b,
            (AltostratusError::RenderError(a), AltostratusError::RenderError(b)) => *a == *b,
            _ => false,
        }
    }
}

impl vstd::std_specs::cmp::PartialEqSpecImpl for AltostratusError {
    open spec fn obeys_eq_spec() -> bool {
        true
    }

    open spec fn eq_spec(&self, other: &Self) -> bool {
        match (self, other) {
            (AltostratusError::EmptyPointCloud, AltostratusError::EmptyPointCloud) => true,
            (AltostratusError::InvalidParameter(a), AltostratusError::InvalidParameter(b)) => a@
                == b@,
            (AltostratusError::RenderError(a), AltostratusError::RenderError(b)) => a@ == b@,
            _ => false,
        }
    }
}

/// Type alias for Result with AltostratusError.
pub type Result<T> = core::result::Result<T, AltostratusError>;

} // verus!
