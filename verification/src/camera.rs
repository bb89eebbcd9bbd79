//! A look-at camera over fixed-point coordinates.
//!
//! Angles are ticks of radians (`SCALE` ticks are one radian). The view
//! matrix is a right-handed look-at; the projection is a right-handed
//! perspective with depth mapped to `[0, 1]`. Both are derived on
//! demand and never cached. The tangent of half the field of view
//! cannot be computed in integer arithmetic, so the matrix functions
//! take it as an argument, in ticks.

use vstd::prelude::*;
use crate::{AltostratusError, Result};
use crate::fixed::{SCALE, abs, trunc_div, fdiv, fmul, is_sqrt, div_fx, mul_fx, scale_down_i128};
use crate::vec3::{Vec3, COORD_LIMIT, in_range, len_sq, dot_spec, is_cross_of, is_normalized_of};
use crate::mat4::{Mat4, bounded, mul_spec};

verus! {

/// Ticks of one half turn: the angle of a straight line, in radian ticks.
pub const PI_FX: i64 = 3_141_593;

/// Ticks of one eighth turn.
pub const FRAC_PI_4_FX: i64 = 785_398;

/// Degrees converted to radian ticks.
pub open spec fn deg_to_rad(deg: int) -> int {
    trunc_div(deg * (PI_FX as int), 180 * (SCALE as int))
}

/// Radian ticks converted to degree ticks.
pub open spec fn rad_to_deg(rad: int) -> int {
    trunc_div(rad * 180 * (SCALE as int), PI_FX as int)
}

/// 3D camera with mutable properties for rendering 3D scenes.
#[derive(Debug, Clone, Copy, PartialEq, Eq, Structural)]
pub struct Camera {
    /// Camera position in world space, in ticks.
    pub position: Vec3,
    /// Point the camera is looking at, in ticks.
    pub target: Vec3,
    /// Up vector, in ticks (normalized on assignment).
    pub up: Vec3,
    /// Field of view in radian ticks.
    pub fov: i64,
    /// Aspect ratio (width / height), in ticks.
    pub aspect_ratio: i64,
    /// Near clipping plane distance, in ticks.
    pub near: i64,
    /// Far clipping plane distance, in ticks.
    pub far: i64,
}

/// The offset from the camera to its target.
pub open spec fn offset_of(c: Camera) -> Vec3 {
    Vec3 {
        x: (c.target.x - c.position.x) as i64,
        y: (c.target.y - c.position.y) as i64,
        z: (c.target.z - c.position.z) as i64,
    }
}

/// `r` is the fixed-point right vector for forward `f` and up `up`:
/// their normalized cross product, or the unit X axis when the cross
/// product vanishes (view direction parallel to up).
pub open spec fn is_right_of(f: Vec3, up: Vec3, r: Vec3) -> bool {
    exists|c: Vec3|
        {
            &&& #[trigger] is_cross_of(f, up, c)
            &&& if c == (Vec3 { x: 0i64, y: 0i64, z: 0i64 }) {
                r == (Vec3 { x: SCALE, y: 0i64, z: 0i64 })
            } else {
                is_normalized_of(c, r)
            }
        }
}

/// `f`, `s`, `u` are the camera basis: normalized forward, the right
/// vector, and their cross product.
pub open spec fn is_view_basis_of(c: Camera, f: Vec3, s: Vec3, u: Vec3) -> bool {
    &&& is_normalized_of(offset_of(c), f)
    &&& is_right_of(f, c.up, s)
    &&& is_cross_of(s, f, u)
}

/// The right-handed look-at matrix built from a camera basis.
pub open spec fn view_matrix_of_basis(c: Camera, f: Vec3, s: Vec3, u: Vec3) -> Mat4 {
    Mat4 {
        m00: s.x,
        m01: s.y,
        m02: s.z,
        m03: (-dot_spec(c.position, s)) as i64,
        m10: u.x,
        m11: u.y,
        m12: u.z,
        m13: (-dot_spec(c.position, u)) as i64,
        m20: (-f.x) as i64,
        m21: (-f.y) as i64,
        m22: (-f.z) as i64,
        m23: dot_spec(c.position, f) as i64,
        m30: 0i64,
        m31: 0i64,
        m32: 0i64,
        m33: SCALE,
    }
}

/// `m` is a view matrix of `c`: the look-at matrix of some basis of `c`.
pub open spec fn is_view_matrix_of(c: Camera, m: Mat4) -> bool {
    exists|f: Vec3, s: Vec3, u: Vec3|
        #[trigger] is_view_basis_of(c, f, s, u) && m == view_matrix_of_basis(c, f, s, u)
}

/// `m` is the view-projection matrix of `c` for the given tangent of
/// half the field of view: the perspective matrix applied after some
/// view matrix of `c`.
pub open spec fn is_view_projection_of(c: Camera, tan_half_fov: int, m: Mat4) -> bool {
    exists|vm: Mat4|
        #[trigger] is_view_matrix_of(c, vm) && m == mul_spec(
            perspective_spec(tan_half_fov, c.aspect_ratio as int, c.near as int, c.far as int),
            vm,
        )
}

/// The right-handed perspective matrix with depth in `[0, 1]`, from the
/// tangent of half the field of view, the aspect ratio, and the clip
/// planes, all in ticks.
pub open spec fn perspective_spec(tan_half_fov: int, aspect: int, near: int, far: int) -> Mat4 {
    let h = trunc_div((SCALE as int) * (SCALE as int), tan_half_fov);
    let w = trunc_div(h * (SCALE as int), aspect);
    let r = trunc_div(far * (SCALE as int), near - far);
    let m23v = trunc_div(r * near, SCALE as int);
    Mat4 {
        m00: w as i64,
        m01: 0i64,
        m02: 0i64,
        m03: 0i64,
        m10: 0i64,
        m11: h as i64,
        m12: 0i64,
        m13: 0i64,
        m20: 0i64,
        m21: 0i64,
        m22: r as i64,
        m23: m23v as i64,
        m30: 0i64,
        m31: 0i64,
        m32: (-(SCALE as int)) as i64,
        m33: 0i64,
    }
}

impl Camera {
    /// The camera state that the rendering pipeline accepts: positions
    /// within the coordinate limit, a unit-scale up vector, a positive
    /// aspect ratio, and ordered clip planes that are not too close to
    /// one another nor too far out.
    pub open spec fn wf(&self) -> bool {
        &&& in_range(self.position, COORD_LIMIT as int)
        &&& in_range(self.target, COORD_LIMIT as int)
        &&& in_range(self.up, SCALE as int)
        &&& self.aspect_ratio >= 1
        &&& 1 <= self.near < self.far <= COORD_LIMIT
        &&& 1000 * (self.far - self.near) >= self.far
    }

    /// Creates a new camera with default settings: five units back from
    /// the origin, looking at the origin, Y up, a 45 degree field of
    /// view, square aspect, near 0.1 and far 100.
    pub fn new() -> (c: Self)
        ensures
            c == default_camera(),
            c.wf(),
    {
        Self {
            position: Vec3 { x: 0, y: 0, z: 5 * SCALE },
            target: Vec3 { x: 0, y: 0, z: 0 },
            up: Vec3 { x: 0, y: SCALE, z: 0 },
            fov: FRAC_PI_4_FX,
            aspect_ratio: SCALE,
            near: SCALE / 10,
            far: 100 * SCALE,
        }
    }

    /// Creates a camera with custom position and target.
    pub fn look_at(position: Vec3, target: Vec3) -> (c: Self)
        ensures
            c == (Camera { position, target, ..default_camera() }),
    {
        Self {
            position,
            target,
            up: Vec3 { x: 0, y: SCALE, z: 0 },
            fov: FRAC_PI_4_FX,
            aspect_ratio: SCALE,
            near: SCALE / 10,
            far: 100 * SCALE,
        }
    }

    /// Creates a camera with custom field of view (degree ticks) and
    /// aspect ratio (ticks).
    pub fn with_perspective(fov_degrees: i64, aspect_ratio: i64) -> (c: Self)
        requires
            abs(fov_degrees as int) <= 1_000_000_000_000,
        ensures
            c == (Camera {
                fov: deg_to_rad(fov_degrees as int) as i64,
                aspect_ratio,
                ..default_camera()
            }),
    {
        Self {
            position: Vec3 { x: 0, y: 0, z: 5 * SCALE },
            target: Vec3 { x: 0, y: 0, z: 0 },
            up: Vec3 { x: 0, y: SCALE, z: 0 },
            fov: to_radian_ticks(fov_degrees),
            aspect_ratio,
            near: SCALE / 10,
            far: 100 * SCALE,
        }
    }

    /// Sets the camera position.
    pub fn set_position(&mut self, position: Vec3)
        ensures
            *final(self) == (Camera { position, ..*old(self) }),
    {
        self.position = position;
    }

    /// Sets the camera target (look-at point).
    pub fn set_target(&mut self, target: Vec3)
        ensures
            *final(self) == (Camera { target, ..*old(self) }),
    {
        self.target = target;
    }

    /// Sets the up vector, normalized.
    pub fn set_up(&mut self, up: Vec3)
        requires
            in_range(up, 2_000_000_000int),
            len_sq(up) >= 1,
        ensures
            is_normalized_of(up, final(self).up),
            in_range(final(self).up, SCALE as int),
            *final(self) == (Camera { up: final(self).up, ..*old(self) }),
    {
        self.up = up.normalize();
    }

    /// Sets the field of view in degree ticks.
    ///
    /// Succeeds exactly when the angle lies strictly between 0 and 180
    /// degrees; otherwise the camera is unchanged and an
    /// `InvalidParameter` error is returned.
    pub fn set_fov_degrees(&mut self, fov_degrees: i64) -> (r: Result<()>)
        ensures
            r is Ok <==> 0 < fov_degrees < 180_000_000,
            r is Ok ==> *final(self) == (Camera {
                fov: deg_to_rad(fov_degrees as int) as i64,
                ..*old(self)
            }),
            r is Err ==> *final(self) == *old(self) && (r matches Err(
                AltostratusError::InvalidParameter(_),
            )),
    {
        if fov_degrees <= 0 || fov_degrees >= 180_000_000 {
            return Err(
                AltostratusError::InvalidParameter(
                    "FOV must be between 0 and 180 degrees".to_owned(),
                ),
            );
        }
        self.fov = to_radian_ticks(fov_degrees);
        Ok(())
    }

    /// Sets the field of view in radian ticks.
    ///
    /// Succeeds exactly when the angle lies strictly between 0 and pi;
    /// otherwise the camera is unchanged and an `InvalidParameter`
    /// error is returned.
    pub fn set_fov_radians(&mut self, fov_radians: i64) -> (r: Result<()>)
        ensures
            r is Ok <==> 0 < fov_radians < PI_FX,
            r is Ok ==> *final(self) == (Camera { fov: fov_radians, ..*old(self) }),
            r is Err ==> *final(self) == *old(self) && (r matches Err(
                AltostratusError::InvalidParameter(_),
            )),
    {
        if fov_radians <= 0 || fov_radians >= PI_FX {
            return Err(
                AltostratusError::InvalidParameter(
                    "FOV must be between 0 and pi radians".to_owned(),
                ),
            );
        }
        self.fov = fov_radians;
        Ok(())
    }

    /// Sets the aspect ratio (width / height), in ticks.
    ///
    /// Succeeds exactly when the ratio is positive; otherwise the
    /// camera is unchanged and an `InvalidParameter` error is returned.
    pub fn set_aspect_ratio(&mut self, aspect_ratio: i64) -> (r: Result<()>)
        ensures
            r is Ok <==> aspect_ratio > 0,
            r is Ok ==> *final(self) == (Camera { aspect_ratio, ..*old(self) }),
            r is Err ==> *final(self) == *old(self) && (r matches Err(
                AltostratusError::InvalidParameter(_),
            )),
    {
        if aspect_ratio <= 0 {
            return Err(
                AltostratusError::InvalidParameter("Aspect ratio must be positive".to_owned()),
            );
        }
        self.aspect_ratio = aspect_ratio;
        Ok(())
    }

    /// Sets the near and far clipping planes, in ticks.
    ///
    /// Succeeds exactly when the near plane is positive and the far
    /// plane lies beyond it; otherwise the camera is unchanged and an
    /// `InvalidParameter` error is returned. The bounds in the
    /// precondition keep the planes inside the range that the
    /// fixed-point projection matrix can hold.
    pub fn set_clipping_planes(&mut self, near: i64, far: i64) -> (r: Result<()>)
        requires
            far <= COORD_LIMIT,
            0 < near < far ==> 1000 * (far - near) >= far,
        ensures
            r is Ok <==> (near > 0 && far > near),
            r is Ok ==> *final(self) == (Camera { near, far, ..*old(self) }),
            r is Err ==> *final(self) == *old(self) && (r matches Err(
                AltostratusError::InvalidParameter(_),
            )),
    {
        if near <= 0 {
            return Err(
                AltostratusError::InvalidParameter("Near plane must be positive".to_owned()),
            );
        }
        if far <= near {
            return Err(
                AltostratusError::InvalidParameter(
                    "Far plane must be greater than near plane".to_owned(),
                ),
            );
        }
        self.near = near;
        self.far = far;
        Ok(())
    }

    /// Moves the camera and its target by the same world-space delta.
    pub fn translate(&mut self, delta: Vec3)
        requires
            abs(old(self).position.x + delta.x) <= COORD_LIMIT,
            abs(old(self).position.y + delta.y) <= COORD_LIMIT,
            abs(old(self).position.z + delta.z) <= COORD_LIMIT,
            abs(old(self).target.x + delta.x) <= COORD_LIMIT,
            abs(old(self).target.y + delta.y) <= COORD_LIMIT,
            abs(old(self).target.z + delta.z) <= COORD_LIMIT,
        ensures
            final(self).position.x == old(self).position.x + delta.x,
            final(self).position.y == old(self).position.y + delta.y,
            final(self).position.z == old(self).position.z + delta.z,
            final(self).target.x == old(self).target.x + delta.x,
            final(self).target.y == old(self).target.y + delta.y,
            final(self).target.z == old(self).target.z + delta.z,
            *final(self) == (Camera {
                position: final(self).position,
                target: final(self).target,
                ..*old(self)
            }),
    {
        self.position = self.position.add(delta);
        self.target = self.target.add(delta);
    }

    /// Zooms by moving towards (factor above one) or away from (factor
    /// below one) the target: the offset to the target is divided by
    /// the factor.
    ///
    /// Fails on a non-positive factor, and when the new distance to the
    /// target would fall below 0.001 units; the camera is then
    /// unchanged.
    pub fn zoom(&mut self, factor: i64) -> (r: Result<()>)
        requires
            old(self).wf(),
            factor > 0 ==> {
                let off = offset_of(*old(self));
                &&& abs(old(self).target.x - fdiv(off.x as int, factor as int)) <= COORD_LIMIT
                &&& abs(old(self).target.y - fdiv(off.y as int, factor as int)) <= COORD_LIMIT
                &&& abs(old(self).target.z - fdiv(off.z as int, factor as int)) <= COORD_LIMIT
            },
        ensures
            final(self).wf(),
            factor <= 0 ==> *final(self) == *old(self) && (r matches Err(
                AltostratusError::InvalidParameter(_),
            )),
            factor > 0 ==> exists|dist: int|
                {
                    &&& #[trigger] is_sqrt(len_sq(offset_of(*old(self))), dist)
                    &&& if trunc_div(dist * (SCALE as int), factor as int) < 1000 {
                        *final(self) == *old(self) && (r matches Err(
                            AltostratusError::InvalidParameter(_),
                        ))
                    } else {
                        let off = offset_of(*old(self));
                        &&& r is Ok
                        &&& final(self).position.x == old(self).target.x - fdiv(
                            off.x as int,
                            factor as int,
                        )
                        &&& final(self).position.y == old(self).target.y - fdiv(
                            off.y as int,
                            factor as int,
                        )
                        &&& final(self).position.z == old(self).target.z - fdiv(
                            off.z as int,
                            factor as int,
                        )
                        &&& *final(self) == (Camera {
                            position: final(self).position,
                            ..*old(self)
                        })
                    }
                },
    {
        if factor <= 0 {
            return Err(
                AltostratusError::InvalidParameter("Zoom factor must be positive".to_owned()),
            );
        }
        let off: Vec3 = self.target.sub(self.position);
        let dist: i64 = off.length();
        let new_dist: i64 = div_fx(dist, factor);
        proof {
            crate::fixed::lemma_trunc_div_le(dist as int * SCALE, factor as int);
        }
        if new_dist < 1000 {
            return Err(
                AltostratusError::InvalidParameter(
                    "Cannot zoom closer than 0.001 units".to_owned(),
                ),
            );
        }
        proof {
            lemma_offset_div_fits(off.x as int, factor as int);
            lemma_offset_div_fits(off.y as int, factor as int);
            lemma_offset_div_fits(off.z as int, factor as int);
        }
        let nx: i64 = div_fx(off.x, factor);
        let ny: i64 = div_fx(off.y, factor);
        let nz: i64 = div_fx(off.z, factor);
        self.position = Vec3 {
            x: self.target.x - nx,
            y: self.target.y - ny,
            z: self.target.z - nz,
        };
        Ok(())
    }

    /// Gets the forward direction vector, normalized.
    pub fn forward(&self) -> (r: Vec3)
        requires
            in_range(self.position, COORD_LIMIT as int),
            in_range(self.target, COORD_LIMIT as int),
            len_sq(offset_of(*self)) >= 1,
        ensures
            is_normalized_of(offset_of(*self), r),
            in_range(r, SCALE as int),
    {
        self.target.sub(self.position).normalize()
    }

    /// Gets the right direction vector: the normalized cross product of
    /// the forward and up vectors, or the unit X axis when they are
    /// parallel.
    pub fn right(&self) -> (r: Vec3)
        requires
            in_range(self.position, COORD_LIMIT as int),
            in_range(self.target, COORD_LIMIT as int),
            in_range(self.up, SCALE as int),
            len_sq(offset_of(*self)) >= 1,
        ensures
            exists|f: Vec3|
                #[trigger] is_normalized_of(offset_of(*self), f) && is_right_of(f, self.up, r),
            in_range(r, SCALE as int),
    {
        let f: Vec3 = self.forward();
        right_from_forward(f, self.up)
    }

    /// Gets the true up direction vector: the normalized cross product
    /// of the right and forward vectors, or the unit Y axis when it
    /// vanishes.
    pub fn true_up(&self) -> (r: Vec3)
        requires
            in_range(self.position, COORD_LIMIT as int),
            in_range(self.target, COORD_LIMIT as int),
            in_range(self.up, SCALE as int),
            len_sq(offset_of(*self)) >= 1,
        ensures
            exists|f: Vec3, s: Vec3|
                {
                    &&& is_normalized_of(offset_of(*self), f)
                    &&& #[trigger] is_right_of(f, self.up, s)
                    &&& is_true_up_of(f, s, r)
                },
            in_range(r, SCALE as int),
    {
        let f: Vec3 = self.forward();
        let s: Vec3 = right_from_forward(f, self.up);
        let c: Vec3 = s.cross(f);
        if c.x == 0 && c.y == 0 && c.z == 0 {
            let r = Vec3 { x: 0, y: SCALE, z: 0 };
            proof {
                assert(c == (Vec3 { x: 0i64, y: 0i64, z: 0i64 }));
                assert(is_cross_of(s, f, c));
            }
            r
        } else {
            proof {
                assert(len_sq(c) >= 1) by (nonlinear_arith)
                    requires
                        !(c.x == 0 && c.y == 0 && c.z == 0),
                ;
            }
            let r = c.normalize();
            proof {
                assert(is_cross_of(s, f, c) && is_normalized_of(c, r));
            }
            r
        }
    }

    /// Moves the camera towards (positive) or away from (negative) the
    /// target along the view direction, by `distance` ticks.
    pub fn move_forward(&mut self, distance: i64)
        requires
            in_range(old(self).position, COORD_LIMIT as int),
            in_range(old(self).target, COORD_LIMIT as int),
            len_sq(offset_of(*old(self))) >= 1,
            abs(distance as int) <= COORD_LIMIT,
            abs(old(self).position.x as int) + abs(distance as int) <= COORD_LIMIT,
            abs(old(self).position.y as int) + abs(distance as int) <= COORD_LIMIT,
            abs(old(self).position.z as int) + abs(distance as int) <= COORD_LIMIT,
        ensures
            exists|f: Vec3|
                {
                    &&& #[trigger] is_normalized_of(offset_of(*old(self)), f)
                    &&& final(self).position.x == old(self).position.x + fmul(
                        f.x as int,
                        distance as int,
                    )
                    &&& final(self).position.y == old(self).position.y + fmul(
                        f.y as int,
                        distance as int,
                    )
                    &&& final(self).position.z == old(self).position.z + fmul(
                        f.z as int,
                        distance as int,
                    )
                },
            in_range(final(self).position, COORD_LIMIT as int),
            *final(self) == (Camera { position: final(self).position, ..*old(self) }),
    {
        let f: Vec3 = self.forward();
        self.position = step_along(self.position, f, distance);
    }

    /// Moves the camera right (positive) or left (negative) relative to
    /// the view direction, by `distance` ticks.
    pub fn move_right(&mut self, distance: i64)
        requires
            in_range(old(self).position, COORD_LIMIT as int),
            in_range(old(self).target, COORD_LIMIT as int),
            in_range(old(self).up, SCALE as int),
            len_sq(offset_of(*old(self))) >= 1,
            abs(distance as int) <= COORD_LIMIT,
            abs(old(self).position.x as int) + abs(distance as int) <= COORD_LIMIT,
            abs(old(self).position.y as int) + abs(distance as int) <= COORD_LIMIT,
            abs(old(self).position.z as int) + abs(distance as int) <= COORD_LIMIT,
        ensures
            exists|f: Vec3, s: Vec3|
                {
                    &&& is_normalized_of(offset_of(*old(self)), f)
                    &&& #[trigger] is_right_of(f, old(self).up, s)
                    &&& final(self).position.x == old(self).position.x + fmul(
                        s.x as int,
                        distance as int,
                    )
                    &&& final(self).position.y == old(self).position.y + fmul(
                        s.y as int,
                        distance as int,
                    )
                    &&& final(self).position.z == old(self).position.z + fmul(
                        s.z as int,
                        distance as int,
                    )
                },
            in_range(final(self).position, COORD_LIMIT as int),
            *final(self) == (Camera { position: final(self).position, ..*old(self) }),
    {
        let f: Vec3 = self.forward();
        let s: Vec3 = right_from_forward(f, self.up);
        self.position = step_along(self.position, s, distance);
    }

    /// Moves the camera up (positive) or down (negative) relative to
    /// the view direction, by `distance` ticks.
    pub fn move_up(&mut self, distance: i64)
        requires
            in_range(old(self).position, COORD_LIMIT as int),
            in_range(old(self).target, COORD_LIMIT as int),
            in_range(old(self).up, SCALE as int),
            len_sq(offset_of(*old(self))) >= 1,
            abs(distance as int) <= COORD_LIMIT,
            abs(old(self).position.x as int) + abs(distance as int) <= COORD_LIMIT,
            abs(old(self).position.y as int) + abs(distance as int) <= COORD_LIMIT,
            abs(old(self).position.z as int) + abs(distance as int) <= COORD_LIMIT,
        ensures
            exists|f: Vec3, s: Vec3, u: Vec3|
                {
                    &&& is_normalized_of(offset_of(*old(self)), f)
                    &&& #[trigger] is_right_of(f, old(self).up, s)
                    &&& #[trigger] is_true_up_of(f, s, u)
                    &&& final(self).position.x == old(self).position.x + fmul(
                        u.x as int,
                        distance as int,
                    )
                    &&& final(self).position.y == old(self).position.y + fmul(
                        u.y as int,
                        distance as int,
                    )
                    &&& final(self).position.z == old(self).position.z + fmul(
                        u.z as int,
                        distance as int,
                    )
                },
            in_range(final(self).position, COORD_LIMIT as int),
            *final(self) == (Camera { position: final(self).position, ..*old(self) }),
    {
        let u: Vec3 = self.true_up();
        self.position = step_along(self.position, u, distance);
    }

    /// Frames the camera to view a bounding box: the target moves to
    /// the box center and the camera backs away along its current view
    /// direction far enough, for the supplied tangent of half the field
    /// of view, to fit the box's largest extent with a tenth of padding.
    ///
    /// Fails exactly when the box has no volume; the camera is then
    /// unchanged.
    #[verifier::rlimit(100)]
    #[verifier::spinoff_prover]
    pub fn frame_bounding_box(&mut self, min: Vec3, max: Vec3, tan_half_fov: i64) -> (r: Result<()>)
        requires
            in_range(min, COORD_LIMIT as int),
            in_range(max, COORD_LIMIT as int),
            in_range(old(self).position, COORD_LIMIT as int),
            in_range(old(self).target, COORD_LIMIT as int),
            len_sq(offset_of(*old(self))) >= 1,
            10_000 <= tan_half_fov <= 1_000_000_000,
        ensures
            r is Ok <==> frame_extent(min, max) > 0,
            r is Err ==> *final(self) == *old(self) && (r matches Err(
                AltostratusError::InvalidParameter(_),
            )),
            r is Ok ==> ({
                let center = Vec3 {
                    x: trunc_div(min.x + max.x, 2) as i64,
                    y: trunc_div(min.y + max.y, 2) as i64,
                    z: trunc_div(min.z + max.z, 2) as i64,
                };
                let back = fdiv(trunc_div(frame_extent(min, max), 2), tan_half_fov as int)
                    + trunc_div(frame_extent(min, max), 10);
                &&& final(self).target == center
                &&& exists|dir: Vec3|
                    {
                        &&& #[trigger] is_normalized_of(
                            Vec3 {
                                x: (old(self).position.x - old(self).target.x) as i64,
                                y: (old(self).position.y - old(self).target.y) as i64,
                                z: (old(self).position.z - old(self).target.z) as i64,
                            },
                            dir,
                        )
                        &&& final(self).position.x == center.x + fmul(dir.x as int, back)
                        &&& final(self).position.y == center.y + fmul(dir.y as int, back)
                        &&& final(self).position.z == center.z + fmul(dir.z as int, back)
                    }
                &&& *final(self) == (Camera {
                    position: final(self).position,
                    target: final(self).target,
                    ..*old(self)
                })
            }),
    {
        let size = Vec3 { x: max.x - min.x, y: max.y - min.y, z: max.z - min.z };
        let mut max_extent: i64 = size.x;
        if size.y > max_extent {
            max_extent = size.y;
        }
        if size.z > max_extent {
            max_extent = size.z;
        }
        if max_extent <= 0 {
            return Err(
                AltostratusError::InvalidParameter("Bounding box has no volume".to_owned()),
            );
        }
        let center = Vec3 {
            x: halve_toward_zero(min.x + max.x),
            y: halve_toward_zero(min.y + max.y),
            z: halve_toward_zero(min.z + max.z),
        };
        proof {
            crate::fixed::lemma_abs_mul(max_extent as int / 2, SCALE as int);
            crate::fixed::lemma_trunc_div_le((max_extent / 2) as int * SCALE, tan_half_fov as int);
            vstd::arithmetic::div_mod::lemma_div_is_ordered(
                abs((max_extent / 2) as int * SCALE),
                1_000_000_000_000_000int,
                10_000int,
            );
            vstd::arithmetic::div_mod::lemma_div_is_ordered_by_denominator(
                abs((max_extent / 2) as int * SCALE),
                10_000int,
                tan_half_fov as int,
            );
        }
        let distance: i64 = div_fx(max_extent / 2, tan_half_fov);
        let back: i64 = distance + max_extent / 10;
        let off = Vec3 {
            x: self.position.x - self.target.x,
            y: self.position.y - self.target.y,
            z: self.position.z - self.target.z,
        };
        proof {
            let fwd = offset_of(*self);
            assert(len_sq(off) == len_sq(fwd)) by (nonlinear_arith)
                requires
                    off.x == -(fwd.x as int) && off.y == -(fwd.y as int) && off.z == -(
                    fwd.z as int),
            ;
        }
        let dir: Vec3 = off.normalize();
        proof {
            lemma_unit_step(dir.x as int, back as int);
            lemma_unit_step(dir.y as int, back as int);
            lemma_unit_step(dir.z as int, back as int);
        }
        self.target = center;
        self.position = Vec3 {
            x: center.x + mul_fx(dir.x, back),
            y: center.y + mul_fx(dir.y, back),
            z: center.z + mul_fx(dir.z, back),
        };
        Ok(())
    }

    /// The orbit angles after a step: the deltas applied to the current
    /// spherical angles (radian ticks), with the pitch clamped a
    /// hundredth of a radian away from the poles to avoid gimbal lock.
    ///
    /// Fails exactly when the camera sits within the 0.001-unit floor
    /// of its target, where spherical angles are undefined; computing
    /// the angles themselves (arc tangent and arc sine of the offset)
    /// is the caller's, as is placing the camera from the new angles
    /// with `place_spherical`.
    pub fn orbit_step(&self, theta: i64, phi: i64, yaw_delta: i64, pitch_delta: i64) -> (r: Result<
        (i64, i64),
    >)
        requires
            in_range(self.position, COORD_LIMIT as int),
            in_range(self.target, COORD_LIMIT as int),
            abs(theta as int) <= 1_000_000_000_000,
            abs(yaw_delta as int) <= 1_000_000_000_000,
            abs(phi as int) <= 1_000_000_000_000,
            abs(pitch_delta as int) <= 1_000_000_000_000,
        ensures
            r is Ok <==> (forall|d: int|
                is_sqrt(crate::vec3::len_sq(offset_of(*self)), d) ==> d >= 1000),
            r matches Ok((t, p)) ==> t == theta + yaw_delta && p as int == clamp_pitch(
                phi + pitch_delta,
            ),
            r is Err ==> (r matches Err(AltostratusError::InvalidParameter(_))),
    {
        let off: Vec3 = self.target.sub(self.position);
        let dist: i64 = off.length();
        if dist < 1000 {
            proof {
                assert(is_sqrt(len_sq(offset_of(*self)), dist as int));
            }
            return Err(
                AltostratusError::InvalidParameter(
                    "Cannot orbit when camera is at target".to_owned(),
                ),
            );
        }
        proof {
            assert forall|d: int|
                is_sqrt(crate::vec3::len_sq(offset_of(*self)), d) implies d >= 1000 by {
                crate::fixed::lemma_sqrt_unique(len_sq(offset_of(*self)), d, dist as int);
            }
        }
        let new_theta: i64 = theta + yaw_delta;
        let mut new_phi: i64 = phi + pitch_delta;
        if new_phi < -1_560_796 {
            new_phi = -1_560_796;
        }
        if new_phi > 1_560_796 {
            new_phi = 1_560_796;
        }
        Ok((new_theta, new_phi))
    }

    /// Places the camera on the sphere of the given radius around its
    /// target, from the sines and cosines of the spherical angles
    /// (supplied by the caller, in ticks).
    pub fn place_spherical(
        &mut self,
        radius: i64,
        sin_theta: i64,
        cos_theta: i64,
        sin_phi: i64,
        cos_phi: i64,
    )
        requires
            0 <= radius <= COORD_LIMIT,
            abs(sin_theta as int) <= SCALE,
            abs(cos_theta as int) <= SCALE,
            abs(sin_phi as int) <= SCALE,
            abs(cos_phi as int) <= SCALE,
            abs(old(self).target.x as int) + radius <= COORD_LIMIT,
            abs(old(self).target.y as int) + radius <= COORD_LIMIT,
            abs(old(self).target.z as int) + radius <= COORD_LIMIT,
        ensures
            final(self).position.x == old(self).target.x + fmul(
                radius as int,
                fmul(cos_phi as int, cos_theta as int),
            ),
            final(self).position.y == old(self).target.y + fmul(radius as int, sin_phi as int),
            final(self).position.z == old(self).target.z + fmul(
                radius as int,
                fmul(cos_phi as int, sin_theta as int),
            ),
            in_range(final(self).position, COORD_LIMIT as int),
            *final(self) == (Camera { position: final(self).position, ..*old(self) }),
    {
        proof {
            lemma_unit_factor(cos_phi as int, cos_theta as int);
            lemma_unit_factor(cos_phi as int, sin_theta as int);
        }
        let ox: i64 = mul_fx(cos_phi, cos_theta);
        let oz: i64 = mul_fx(cos_phi, sin_theta);
        proof {
            lemma_unit_step(ox as int, radius as int);
            lemma_unit_step(sin_phi as int, radius as int);
            lemma_unit_step(oz as int, radius as int);
            assert(fmul(radius as int, ox as int) == fmul(ox as int, radius as int));
            assert(fmul(radius as int, sin_phi as int) == fmul(sin_phi as int, radius as int));
            assert(fmul(radius as int, oz as int) == fmul(oz as int, radius as int));
        }
        self.position = Vec3 {
            x: self.target.x + mul_fx(ox, radius),
            y: self.target.y + mul_fx(sin_phi, radius),
            z: self.target.z + mul_fx(oz, radius),
        };
    }

    /// Gets the distance from the camera to the target, in ticks: the
    /// floor square root of the squared offset.
    pub fn distance_to_target(&self) -> (r: i64)
        requires
            in_range(self.position, COORD_LIMIT as int),
            in_range(self.target, COORD_LIMIT as int),
        ensures
            is_sqrt(len_sq(offset_of(*self)), r as int),
            r >= 0,
    {
        self.target.sub(self.position).length()
    }

    /// Gets the field of view in degree ticks.
    pub fn fov_degrees(&self) -> (r: i64)
        requires
            abs(self.fov as int) <= COORD_LIMIT,
        ensures
            r as int == rad_to_deg(self.fov as int),
    {
        let p: i128 = (self.fov as i128) * 180_000_000;
        proof {
            crate::fixed::lemma_abs_mul(self.fov as int, 180_000_000int);
        }
        scale_down_i128(p, PI_FX as i128)
    }

    /// Derives the view matrix: the right-handed look-at matrix of the
    /// camera basis.
    pub fn view_matrix(&self) -> (m: Mat4)
        requires
            in_range(self.position, COORD_LIMIT as int),
            in_range(self.target, COORD_LIMIT as int),
            in_range(self.up, SCALE as int),
            len_sq(offset_of(*self)) >= 1,
        ensures
            is_view_matrix_of(*self, m),
            bounded(m, 10_000_000_000int),
    {
        let f: Vec3 = self.forward();
        let s: Vec3 = right_from_forward(f, self.up);
        let u: Vec3 = s.cross(f);
        proof {
            crate::vec3::lemma_dot_range(self.position, s, COORD_LIMIT as int, SCALE as int);
            crate::vec3::lemma_dot_range(self.position, u, COORD_LIMIT as int, 2 * SCALE as int);
            crate::vec3::lemma_dot_range(self.position, f, COORD_LIMIT as int, SCALE as int);
        }
        let tx: i64 = self.position.dot(s);
        let ty: i64 = self.position.dot(u);
        let tz: i64 = self.position.dot(f);
        let m = Mat4 {
            m00: s.x,
            m01: s.y,
            m02: s.z,
            m03: -tx,
            m10: u.x,
            m11: u.y,
            m12: u.z,
            m13: -ty,
            m20: -f.x,
            m21: -f.y,
            m22: -f.z,
            m23: tz,
            m30: 0,
            m31: 0,
            m32: 0,
            m33: SCALE,
        };
        proof {
            assert(is_view_basis_of(*self, f, s, u));
            assert(m == view_matrix_of_basis(*self, f, s, u));
        }
        m
    }

    /// Derives the projection matrix: a right-handed perspective with
    /// depth in `[0, 1]`, from the supplied tangent of half the field
    /// of view (in ticks).
    pub fn projection_matrix(&self, tan_half_fov: i64) -> (m: Mat4)
        requires
            self.wf(),
            10_000 <= tan_half_fov <= 1_000_000_000,
            self.aspect_ratio >= 100,
        ensures
            m == perspective_spec(
                tan_half_fov as int,
                self.aspect_ratio as int,
                self.near as int,
                self.far as int,
            ),
            bounded(m, 2_000_000_000_000int),
    {
        perspective(tan_half_fov, self.aspect_ratio, self.near, self.far)
    }

    /// Derives the combined view-projection matrix: the projection
    /// matrix applied after the view matrix.
    pub fn view_projection_matrix(&self, tan_half_fov: i64) -> (m: Mat4)
        requires
            self.wf(),
            10_000 <= tan_half_fov <= 1_000_000_000,
            self.aspect_ratio >= 100,
            len_sq(offset_of(*self)) >= 1,
        ensures
            is_view_projection_of(*self, tan_half_fov as int, m),
            bounded(m, 160_000_000_000_000_000int),
    {
        let p: Mat4 = self.projection_matrix(tan_half_fov);
        let v: Mat4 = self.view_matrix();
        proof {
            lemma_bounded_widen(v);
        }
        let m = p.mul(&v);
        proof {
            assert(is_view_matrix_of(*self, v) && m == mul_spec(
                perspective_spec(
                    tan_half_fov as int,
                    self.aspect_ratio as int,
                    self.near as int,
                    self.far as int,
                ),
                v,
            ));
        }
        m
    }
}

impl Default for Camera {
    fn default() -> (c: Self)
        ensures
            c == default_camera(),
    {
        Self::new()
    }
}

/// A pitch angle clamped a hundredth of a radian inside the poles.
pub open spec fn clamp_pitch(v: int) -> int {
    if v < -1_560_796 {
        -1_560_796
    } else if v > 1_560_796 {
        1_560_796
    } else {
        v
    }
}

/// A product of two unit-scale factors stays within one unit.
proof fn lemma_unit_factor(a: int, b: int)
    requires
        abs(a) <= SCALE,
        abs(b) <= SCALE,
    ensures
        abs(fmul(a, b)) <= SCALE,
        abs(a) * abs(b) <= i64::MAX * (SCALE as int),
{
    crate::fixed::lemma_abs_mul(a, b);
    crate::fixed::lemma_trunc_div_le(a * b, SCALE as int);
    assert(abs(a) * abs(b) <= (SCALE as int) * (SCALE as int)) by (nonlinear_arith)
        requires
            0 <= abs(a) <= SCALE,
            0 <= abs(b) <= SCALE,
    ;
    vstd::arithmetic::div_mod::lemma_div_is_ordered(
        abs(a * b),
        (SCALE as int) * (SCALE as int),
        SCALE as int,
    );
    vstd::arithmetic::div_mod::lemma_div_multiples_vanish(SCALE as int, SCALE as int);
}

/// The largest extent of a bounding box, in ticks.
pub open spec fn frame_extent(min: Vec3, max: Vec3) -> int {
    let sx = max.x - min.x;
    let sy = max.y - min.y;
    let sz = max.z - min.z;
    if sx >= sy && sx >= sz {
        sx
    } else if sy >= sz {
        sy
    } else {
        sz
    }
}

/// `u` is the fixed-point true up vector for forward `f` and right `s`:
/// their normalized cross product, or the unit Y axis when it vanishes.
pub open spec fn is_true_up_of(f: Vec3, s: Vec3, u: Vec3) -> bool {
    exists|c: Vec3|
        {
            &&& #[trigger] is_cross_of(s, f, c)
            &&& if c == (Vec3 { x: 0i64, y: 0i64, z: 0i64 }) {
                u == (Vec3 { x: 0i64, y: SCALE, z: 0i64 })
            } else {
                is_normalized_of(c, u)
            }
        }
}

/// A position stepped along a unit-scale direction by `distance` ticks.
fn step_along(position: Vec3, dir: Vec3, distance: i64) -> (r: Vec3)
    requires
        in_range(dir, SCALE as int),
        abs(distance as int) <= COORD_LIMIT,
        abs(position.x as int) + abs(distance as int) <= COORD_LIMIT,
        abs(position.y as int) + abs(distance as int) <= COORD_LIMIT,
        abs(position.z as int) + abs(distance as int) <= COORD_LIMIT,
    ensures
        r.x == position.x + fmul(dir.x as int, distance as int),
        r.y == position.y + fmul(dir.y as int, distance as int),
        r.z == position.z + fmul(dir.z as int, distance as int),
        in_range(r, COORD_LIMIT as int),
{
    proof {
        lemma_unit_step(dir.x as int, distance as int);
        lemma_unit_step(dir.y as int, distance as int);
        lemma_unit_step(dir.z as int, distance as int);
    }
    Vec3 {
        x: position.x + mul_fx(dir.x, distance),
        y: position.y + mul_fx(dir.y, distance),
        z: position.z + mul_fx(dir.z, distance),
    }
}

/// A unit-scale component times a step length keeps the step's bound.
proof fn lemma_unit_step(c: int, t: int)
    requires
        abs(c) <= SCALE,
        abs(t) <= 2_000_000_000_000,
    ensures
        abs(fmul(c, t)) <= abs(t),
        abs(c) * abs(t) <= i64::MAX * (SCALE as int),
        i64::MIN < fmul(c, t) < i64::MAX,
{
    crate::fixed::lemma_abs_mul(c, t);
    crate::fixed::lemma_trunc_div_le(c * t, SCALE as int);
    assert(abs(c) * abs(t) <= (SCALE as int) * abs(t)) by (nonlinear_arith)
        requires
            0 <= abs(c) <= SCALE,
            abs(t) >= 0,
    ;
    assert((SCALE as int) * abs(t) <= (SCALE as int) * 2_000_000_000_000int) by (nonlinear_arith)
        requires
            0 <= abs(t) <= 2_000_000_000_000,
    ;
    vstd::arithmetic::div_mod::lemma_div_is_ordered(
        abs(c * t),
        (SCALE as int) * abs(t),
        SCALE as int,
    );
    vstd::arithmetic::div_mod::lemma_div_multiples_vanish(abs(t), SCALE as int);
}

/// Half of a value, truncated toward zero.
fn halve_toward_zero(v: i64) -> (r: i64)
    requires
        abs(v as int) <= 2_000_000_000,
    ensures
        r as int == trunc_div(v as int, 2),
        abs(r as int) <= 1_000_000_000,
{
    proof {
        crate::fixed::lemma_trunc_div_le(v as int, 2int);
        vstd::arithmetic::div_mod::lemma_div_is_ordered(abs(v as int), 2_000_000_000int, 2int);
    }
    if v >= 0 {
        v / 2
    } else {
        -((-v) / 2)
    }
}

/// The camera state that `Camera::new` yields.
pub open spec fn default_camera() -> Camera {
    Camera {
        position: Vec3 { x: 0i64, y: 0i64, z: 5_000_000i64 },
        target: Vec3 { x: 0i64, y: 0i64, z: 0i64 },
        up: Vec3 { x: 0i64, y: 1_000_000i64, z: 0i64 },
        fov: FRAC_PI_4_FX,
        aspect_ratio: SCALE,
        near: 100_000i64,
        far: 100_000_000i64,
    }
}

/// Converts degree ticks to radian ticks.
fn to_radian_ticks(fov_degrees: i64) -> (r: i64)
    requires
        abs(fov_degrees as int) <= 1_000_000_000_000,
    ensures
        r as int == deg_to_rad(fov_degrees as int),
{
    proof {
        crate::fixed::lemma_abs_mul(fov_degrees as int, PI_FX as int);
        assert(abs(fov_degrees as int) * (PI_FX as int) <= 4_000_000_000_000_000_000int)
            by (nonlinear_arith)
            requires
                0 <= abs(fov_degrees as int) <= 1_000_000_000_000,
        ;
    }
    let p: i128 = (fov_degrees as i128) * (PI_FX as i128);
    scale_down_i128(p, 180_000_000i128)
}

/// The right vector from a normalized forward vector and the up vector.
fn right_from_forward(f: Vec3, up: Vec3) -> (r: Vec3)
    requires
        in_range(f, SCALE as int),
        in_range(up, SCALE as int),
    ensures
        is_right_of(f, up, r),
        in_range(r, SCALE as int),
{
    let c: Vec3 = f.cross(up);
    if c.x == 0 && c.y == 0 && c.z == 0 {
        let r = Vec3 { x: SCALE, y: 0, z: 0 };
        proof {
            assert(c == (Vec3 { x: 0i64, y: 0i64, z: 0i64 }));
            assert(is_cross_of(f, up, c) && (c == (Vec3 { x: 0i64, y: 0i64, z: 0i64 }) ==> r == (
            Vec3 { x: SCALE, y: 0i64, z: 0i64 })));
        }
        r
    } else {
        proof {
            assert(len_sq(c) >= 1) by (nonlinear_arith)
                requires
                    !(c.x == 0 && c.y == 0 && c.z == 0),
            ;
        }
        let r = c.normalize();
        proof {
            assert(is_cross_of(f, up, c) && !(c == (Vec3 { x: 0i64, y: 0i64, z: 0i64 }))
                && is_normalized_of(c, r));
        }
        r
    }
}

/// Builds the fixed-point perspective matrix.
fn perspective(tan_half_fov: i64, aspect: i64, near: i64, far: i64) -> (m: Mat4)
    requires
        10_000 <= tan_half_fov <= 1_000_000_000,
        aspect >= 100,
        1 <= near < far <= COORD_LIMIT,
        1000 * (far - near) >= far,
    ensures
        m == perspective_spec(tan_half_fov as int, aspect as int, near as int, far as int),
        bounded(m, 2_000_000_000_000int),
{
    let h: i64 = div_fx(SCALE, tan_half_fov);
    proof {
        vstd::arithmetic::div_mod::lemma_div_is_ordered_by_denominator(
            1_000_000_000_000int,
            10_000int,
            tan_half_fov as int,
        );
        assert(abs(h as int) <= 100_000_000);
    }
    let w: i64 = div_fx(h, aspect);
    proof {
        vstd::arithmetic::div_mod::lemma_div_is_ordered(
            abs(h as int) * (SCALE as int),
            100_000_000_000_000int,
            aspect as int,
        );
        assert(abs(h as int) * (SCALE as int) <= 100_000_000_000_000int) by (nonlinear_arith)
            requires
                0 <= abs(h as int) <= 100_000_000,
        ;
        vstd::arithmetic::div_mod::lemma_div_is_ordered_by_denominator(
            100_000_000_000_000int,
            100int,
            aspect as int,
        );
        assert(abs(w as int) <= 1_000_000_000_000);
    }
    proof {
        assert(abs(far as int) == far as int && abs(near as int - far) == far as int - near);
        assert(i64::MAX * (far as int - near) >= i64::MAX * 1) by (nonlinear_arith)
            requires
                far as int - near >= 1,
        ;
    }
    let r: i64 = div_fx(far, near - far);
    proof {
        assert(far * (SCALE as int) <= (far - near) * (1000 * SCALE)) by (nonlinear_arith)
            requires
                1000 * (far - near) >= far,
        ;
        vstd::arithmetic::div_mod::lemma_div_is_ordered(
            far * (SCALE as int),
            (far as int - near) * (1000 * SCALE as int),
            far as int - near,
        );
        vstd::arithmetic::div_mod::lemma_div_multiples_vanish(
            1000 * SCALE as int,
            far as int - near,
        );
        assert(abs(r as int) <= 1000 * SCALE as int);
    }
    proof {
        assert(abs(r as int) * abs(near as int) <= 1_000_000_000_000_000_000int)
            by (nonlinear_arith)
            requires
                0 <= abs(r as int) <= 1_000_000_000,
                0 <= abs(near as int) <= 1_000_000_000,
        ;
        vstd::arithmetic::div_mod::lemma_div_is_ordered(
            abs(r as int) * abs(near as int),
            1_000_000_000_000_000_000int,
            SCALE as int,
        );
        assert(1_000_000_000_000_000_000int <= i64::MAX * (SCALE as int)) by (nonlinear_arith);
        assert(abs(r as int) * abs(near as int) <= i64::MAX * (SCALE as int));
    }
    let m23v: i64 = mul_fx(r, near);
    Mat4 {
        m00: w,
        m01: 0,
        m02: 0,
        m03: 0,
        m10: 0,
        m11: h,
        m12: 0,
        m13: 0,
        m20: 0,
        m21: 0,
        m22: r,
        m23: m23v,
        m30: 0,
        m31: 0,
        m32: -SCALE,
        m33: 0,
    }
}

/// A view-sized bound is also a mul-operand bound.
proof fn lemma_bounded_widen(m: Mat4)
    requires
        bounded(m, 10_000_000_000int),
    ensures
        bounded(m, 20_000_000_000int),
{
}

/// Zooming in strictly approaches the target: dividing a non-zero
/// offset by a factor above one strictly shrinks its squared length,
/// which is the squared distance from the camera to its target after
/// `Camera::zoom` succeeds.
pub proof fn lemma_zoom_in_decreases_distance(off: Vec3, factor: i64)
    requires
        in_range(off, 2_000_000_000int),
        factor > SCALE,
        len_sq(off) >= 1,
    ensures
        ({
            let scaled = Vec3 {
                x: fdiv(off.x as int, factor as int) as i64,
                y: fdiv(off.y as int, factor as int) as i64,
                z: fdiv(off.z as int, factor as int) as i64,
            };
            len_sq(scaled) < len_sq(off)
        }),
{
    let sx = fdiv(off.x as int, factor as int);
    let sy = fdiv(off.y as int, factor as int);
    let sz = fdiv(off.z as int, factor as int);
    lemma_shrink(off.x as int, factor as int);
    lemma_shrink(off.y as int, factor as int);
    lemma_shrink(off.z as int, factor as int);
    assert(off.x != 0 || off.y != 0 || off.z != 0) by (nonlinear_arith)
        requires
            off.x * off.x + off.y * off.y + off.z * off.z >= 1,
    ;
    let scaled = Vec3 { x: sx as i64, y: sy as i64, z: sz as i64 };
    lemma_sq_le(sx, off.x as int);
    lemma_sq_le(sy, off.y as int);
    lemma_sq_le(sz, off.z as int);
    if off.x != 0 {
        lemma_sq_lt(sx, off.x as int);
    } else if off.y != 0 {
        lemma_sq_lt(sy, off.y as int);
    } else {
        lemma_sq_lt(sz, off.z as int);
    }
}

/// A smaller magnitude has a square at most as large.
proof fn lemma_sq_le(a: int, b: int)
    requires
        abs(a) <= abs(b),
    ensures
        a * a <= b * b,
{
    assert(a * a <= b * b) by (nonlinear_arith)
        requires
            abs(a) <= abs(b),
    ;
}

/// A strictly smaller magnitude has a strictly smaller square, when the
/// larger is non-zero.
proof fn lemma_sq_lt(a: int, b: int)
    requires
        abs(a) < abs(b),
    ensures
        a * a < b * b,
{
    assert(a * a < b * b) by (nonlinear_arith)
        requires
            abs(a) < abs(b),
    ;
}

/// Zooming out moves away from the target: dividing an offset by a
/// factor below one never shrinks its squared length, and strictly
/// grows it whenever some component is large enough for the fixed-point
/// quotient to move (`|component| * (SCALE - factor) >= factor`).
pub proof fn lemma_zoom_out_increases_distance(off: Vec3, factor: i64)
    requires
        in_range(off, 2_000_000_000int),
        0 < factor < SCALE,
    ensures
        ({
            let scaled = Vec3 {
                x: fdiv(off.x as int, factor as int) as i64,
                y: fdiv(off.y as int, factor as int) as i64,
                z: fdiv(off.z as int, factor as int) as i64,
            };
            &&& len_sq(scaled) >= len_sq(off)
            &&& ((abs(off.x as int) * (SCALE - factor) >= factor || abs(off.y as int) * (SCALE
                - factor) >= factor || abs(off.z as int) * (SCALE - factor) >= factor) ==> len_sq(
                scaled,
            ) > len_sq(off))
        }),
{
    let sx = fdiv(off.x as int, factor as int);
    let sy = fdiv(off.y as int, factor as int);
    let sz = fdiv(off.z as int, factor as int);
    lemma_grow(off.x as int, factor as int);
    lemma_grow(off.y as int, factor as int);
    lemma_grow(off.z as int, factor as int);
    let scaled = Vec3 { x: sx as i64, y: sy as i64, z: sz as i64 };
    lemma_sq_le(off.x as int, sx);
    lemma_sq_le(off.y as int, sy);
    lemma_sq_le(off.z as int, sz);
    if abs(off.x as int) * (SCALE - factor) >= factor {
        lemma_sq_lt(off.x as int, sx);
    } else if abs(off.y as int) * (SCALE - factor) >= factor {
        lemma_sq_lt(off.y as int, sy);
    } else if abs(off.z as int) * (SCALE - factor) >= factor {
        lemma_sq_lt(off.z as int, sz);
    }
}

/// Division by a factor above one strictly shrinks a non-zero
/// magnitude.
proof fn lemma_shrink(x: int, f: int)
    requires
        f > SCALE,
        abs(x) <= 2_000_000_000,
    ensures
        abs(fdiv(x, f)) <= abs(x),
        x != 0 ==> abs(fdiv(x, f)) < abs(x),
        i64::MIN <= fdiv(x, f) <= i64::MAX,
{
    crate::fixed::lemma_abs_mul(x, SCALE as int);
    crate::fixed::lemma_trunc_div_le(x * SCALE, f);
    assert(abs(x) * (SCALE as int) < abs(x) * f || x == 0) by (nonlinear_arith)
        requires
            f > SCALE,
            abs(x) >= 0,
    ;
    if x != 0 {
        assert(abs(x) * (SCALE as int) <= abs(x) * f - 1) by (nonlinear_arith)
            requires
                f > SCALE,
                abs(x) >= 1,
                SCALE >= 1,
        ;
        vstd::arithmetic::div_mod::lemma_div_is_ordered(
            abs(x) * (SCALE as int),
            abs(x) * f - 1,
            f,
        );
        assert(abs(x) * f - 1 == (abs(x) - 1) * f + (f - 1)) by (nonlinear_arith);
        vstd::arithmetic::div_mod::lemma_fundamental_div_mod_converse(
            abs(x) * f - 1,
            f,
            abs(x) - 1,
            f - 1,
        );
    }
}

/// Division by a factor below one never shrinks a magnitude, and grows
/// it once the component is large enough.
proof fn lemma_grow(x: int, f: int)
    requires
        0 < f < SCALE,
        abs(x) <= 2_000_000_000,
    ensures
        abs(fdiv(x, f)) >= abs(x),
        abs(x) * (SCALE - f) >= f ==> abs(fdiv(x, f)) > abs(x),
{
    crate::fixed::lemma_abs_mul(x, SCALE as int);
    crate::fixed::lemma_trunc_div_le(x * SCALE, f);
    assert(abs(x) * (SCALE as int) >= abs(x) * f) by (nonlinear_arith)
        requires
            0 < f < SCALE,
            abs(x) >= 0,
    ;
    assert(abs(x) * f == f * abs(x)) by (nonlinear_arith);
    vstd::arithmetic::div_mod::lemma_div_is_ordered(f * abs(x), abs(x) * (SCALE as int), f);
    vstd::arithmetic::div_mod::lemma_div_multiples_vanish(abs(x), f);
    if abs(x) * (SCALE - f) >= f {
        assert(abs(x) * (SCALE as int) >= (abs(x) + 1) * f) by (nonlinear_arith)
            requires
                abs(x) * (SCALE - f) >= f,
        ;
        assert((abs(x) + 1) * f == f * (abs(x) + 1)) by (nonlinear_arith);
        vstd::arithmetic::div_mod::lemma_div_is_ordered(
            f * (abs(x) + 1),
            abs(x) * (SCALE as int),
            f,
        );
        vstd::arithmetic::div_mod::lemma_div_multiples_vanish(abs(x) + 1, f);
    }
}

/// Dividing an offset component by a positive factor keeps it within
/// 64 bits.
proof fn lemma_offset_div_fits(c: int, factor: int)
    requires
        factor >= 1,
        abs(c) <= 2 * COORD_LIMIT,
    ensures
        abs(c) * (SCALE as int) <= i64::MAX * abs(factor),
        abs(fdiv(c, factor)) <= abs(c) * (SCALE as int),
{
    assert(abs(c) * (SCALE as int) <= i64::MAX) by (nonlinear_arith)
        requires
            0 <= abs(c) <= 2 * COORD_LIMIT,
    ;
    assert(i64::MAX * abs(factor) >= i64::MAX) by (nonlinear_arith)
        requires
            abs(factor) >= 1,
    ;
    crate::fixed::lemma_abs_mul(c, SCALE as int);
    crate::fixed::lemma_trunc_div_le(c * SCALE, factor);
}

} // verus!
