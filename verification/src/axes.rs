//! Procedural generation of coordinate-axis geometry.
//!
//! All lengths are ticks (see `fixed`). Each axis is emitted as a
//! densely sampled line of points from the origin, optionally decorated
//! with tick marks, an arrowhead, and a stroke-drawn letter.

use vstd::prelude::*;
use crate::{Color, Point3D, PointCloud};
use crate::fixed::{SCALE, abs, trunc_div, lemma_abs_mul, lemma_trunc_div_le, mul_fx};
use crate::vec3::{Vec3, COORD_LIMIT, in_range, len_sq, is_cross_of, is_normalized_of, dot_spec};

verus! {

/// Configuration for 3D coordinate axes. Lengths are ticks.
#[derive(Debug, Clone, Copy, PartialEq, Eq, Structural)]
pub struct AxesConfig {
    /// Length of each axis, in ticks.
    pub length: i64,
    /// Color of the X axis.
    pub x_color: Color,
    /// Color of the Y axis.
    pub y_color: Color,
    /// Color of the Z axis.
    pub z_color: Color,
    /// Spacing between tick marks, in ticks.
    pub tick_spacing: i64,
    /// Length of tick marks, in ticks.
    pub tick_length: i64,
    /// Size of arrowheads, in ticks.
    pub arrow_size: i64,
    /// Whether to show tick marks.
    pub show_ticks: bool,
    /// Whether to show arrowheads.
    pub show_arrows: bool,
    /// Whether to show axis labels (X, Y, Z).
    pub show_labels: bool,
    /// Sample points per unit length, in ticks.
    pub points_per_unit: i64,
}

impl AxesConfig {
    /// The configuration values that the generator accepts: positive
    /// lengths and densities that keep every sample within the
    /// coordinate limit and the point count within memory.
    pub open spec fn wf(&self) -> bool {
        &&& 1 <= self.length
        &&& 0 <= self.tick_spacing
        &&& 0 <= self.tick_length
        &&& 0 <= self.arrow_size
        &&& 1 <= self.points_per_unit <= 100_000_000
        &&& self.length + self.tick_length <= COORD_LIMIT
        &&& self.length + 2 * self.arrow_size + 2 * SCALE <= COORD_LIMIT
        &&& trunc_div(self.length * self.points_per_unit, (SCALE as int) * (SCALE as int))
            <= 1_000_000
        &&& self.tick_spacing > 0 ==> self.length / self.tick_spacing <= 1000
        &&& trunc_div(
            self.tick_length * self.points_per_unit * 2,
            (SCALE as int) * (SCALE as int),
        ) <= 10_000
    }

    /// Creates a new axes configuration with default values.
    pub fn new() -> (c: Self)
        ensures
            c == default_axes_config(),
            c.wf(),
    {
        proof {
            assert((SCALE as int) * (SCALE as int) == 1_000_000_000_000int) by (nonlinear_arith);
            assert(5_000_000int * 10_000_000int == 50_000_000_000_000int) by (nonlinear_arith);
            assert(100_000int * 10_000_000int * 2 == 2_000_000_000_000int) by (nonlinear_arith);
            assert(50int * 1_000_000_000_000int == 50_000_000_000_000int) by (nonlinear_arith);
            assert(2int * 1_000_000_000_000int == 2_000_000_000_000int) by (nonlinear_arith);
            vstd::arithmetic::div_mod::lemma_fundamental_div_mod_converse(
                50_000_000_000_000int,
                1_000_000_000_000int,
                50int,
                0int,
            );
            vstd::arithmetic::div_mod::lemma_fundamental_div_mod_converse(
                2_000_000_000_000int,
                1_000_000_000_000int,
                2int,
                0int,
            );
        }
        Self {
            length: 5 * SCALE,
            x_color: Color::red(),
            y_color: Color::green(),
            z_color: Color::blue(),
            tick_spacing: SCALE,
            tick_length: SCALE / 10,
            arrow_size: SCALE / 5,
            show_ticks: true,
            show_arrows: true,
            show_labels: true,
            points_per_unit: 10 * SCALE,
        }
    }

    /// Sets the axis length.
    pub fn with_length(self, length: i64) -> (c: Self)
        ensures
            c == (AxesConfig { length, ..self }),
    {
        AxesConfig { length, ..self }
    }

    /// Sets the axis colors.
    pub fn with_colors(self, x_color: Color, y_color: Color, z_color: Color) -> (c: Self)
        ensures
            c == (AxesConfig { x_color, y_color, z_color, ..self }),
    {
        AxesConfig { x_color, y_color, z_color, ..self }
    }

    /// Sets the tick spacing and length.
    pub fn with_ticks(self, spacing: i64, length: i64) -> (c: Self)
        ensures
            c == (AxesConfig { tick_spacing: spacing, tick_length: length, ..self }),
    {
        AxesConfig { tick_spacing: spacing, tick_length: length, ..self }
    }

    /// Sets the arrow size.
    pub fn with_arrow_size(self, size: i64) -> (c: Self)
        ensures
            c == (AxesConfig { arrow_size: size, ..self }),
    {
        AxesConfig { arrow_size: size, ..self }
    }

    /// Controls which features are shown.
    pub fn with_features(self, ticks: bool, arrows: bool, labels: bool) -> (c: Self)
        ensures
            c == (AxesConfig {
                show_ticks: ticks,
                show_arrows: arrows,
                show_labels: labels,
                ..self
            }),
    {
        AxesConfig { show_ticks: ticks, show_arrows: arrows, show_labels: labels, ..self }
    }

    /// Sets the line resolution (sample points per unit length).
    pub fn with_resolution(self, points_per_unit: i64) -> (c: Self)
        ensures
            c == (AxesConfig { points_per_unit, ..self }),
    {
        AxesConfig { points_per_unit, ..self }
    }
}

/// The configuration that `AxesConfig::new` yields.
pub open spec fn default_axes_config() -> AxesConfig {
    AxesConfig {
        length: 5_000_000i64,
        x_color: Color { r: 255u8, g: 0u8, b: 0u8 },
        y_color: Color { r: 0u8, g: 255u8, b: 0u8 },
        z_color: Color { r: 0u8, g: 0u8, b: 255u8 },
        tick_spacing: 1_000_000i64,
        tick_length: 100_000i64,
        arrow_size: 200_000i64,
        show_ticks: true,
        show_arrows: true,
        show_labels: true,
        points_per_unit: 10_000_000i64,
    }
}

impl Default for AxesConfig {
    fn default() -> (c: Self)
        ensures
            c == default_axes_config(),
    {
        Self::new()
    }
}

/// The number of sample intervals on a main axis line.
pub open spec fn axis_samples(config: AxesConfig) -> int {
    trunc_div(config.length * config.points_per_unit, (SCALE as int) * (SCALE as int))
}

/// The sampled points of one main axis line: sample `i` of `n`
/// intervals sits at `direction * (i * length / n)`, in the axis color.
pub open spec fn axis_line_seq(direction: Vec3, color: Color, config: AxesConfig) -> Seq<Point3D> {
    let n0 = axis_samples(config);
    let n = if n0 == 0 {
        1
    } else {
        n0
    };
    Seq::new(
        (n0 + 1) as nat,
        |i: int|
            Point3D {
                position: Vec3 {
                    x: trunc_div(direction.x * trunc_div(i * config.length, n), SCALE as int)
                        as i64,
                    y: trunc_div(direction.y * trunc_div(i * config.length, n), SCALE as int)
                        as i64,
                    z: trunc_div(direction.z * trunc_div(i * config.length, n), SCALE as int)
                        as i64,
                },
                color,
            },
    )
}

/// 3D coordinate axes generator.
#[derive(Debug)]
pub struct Axes {
    config: AxesConfig,
}

impl Axes {
    /// The configuration driving the generator.
    pub closed spec fn config_spec(&self) -> AxesConfig {
        self.config
    }

    /// Creates new axes with the given configuration.
    pub fn new(config: AxesConfig) -> (a: Self)
        ensures
            a.config_spec() == config,
    {
        Self { config }
    }

    /// Creates axes with the default configuration.
    pub fn default() -> (a: Self)
        ensures
            a.config_spec() == default_axes_config(),
    {
        Self::new(AxesConfig::new())
    }

    /// Gets the current configuration.
    pub fn config(&self) -> (c: &AxesConfig)
        ensures
            c == self.config_spec(),
    {
        &self.config
    }

    /// Sets a new configuration.
    pub fn set_config(&mut self, config: AxesConfig)
        ensures
            final(self).config_spec() == config,
    {
        self.config = config;
    }

    /// Generates all axis geometry as a point cloud: the three main
    /// axis lines, then tick marks, arrowheads and labels as enabled.
    ///
    /// The cloud starts with the sampled X, Y and Z axis lines exactly;
    /// every decoration point stays within the coordinate limit.
    pub fn generate_points(&self) -> (cloud: PointCloud)
        requires
            self.config_spec().wf(),
        ensures
            cloud.wf(),
            cloud.points_seq().len() <= 100_000_000,
            ({
                let c = self.config_spec();
                let lines = axis_line_seq(
                    Vec3 { x: SCALE, y: 0i64, z: 0i64 },
                    c.x_color,
                    c,
                ) + axis_line_seq(Vec3 { x: 0i64, y: SCALE, z: 0i64 }, c.y_color, c)
                    + axis_line_seq(Vec3 { x: 0i64, y: 0i64, z: SCALE }, c.z_color, c);
                &&& cloud.points_seq().len() >= lines.len()
                &&& cloud.points_seq().subrange(0, lines.len() as int) == lines
                &&& (!c.show_ticks && !c.show_arrows && !c.show_labels ==> cloud.points_seq()
                    == lines)
            }),
    {
        let mut cloud = PointCloud::new();

        self.add_axis_line(&mut cloud, Vec3::unit_x(), self.config.x_color);
        self.add_axis_line(&mut cloud, Vec3::unit_y(), self.config.y_color);
        self.add_axis_line(&mut cloud, Vec3::unit_z(), self.config.z_color);
        let ghost lines = cloud.points_seq();
        proof {
            let c = self.config_spec();
            assert(lines == axis_line_seq(Vec3 { x: SCALE, y: 0i64, z: 0i64 }, c.x_color, c)
                + axis_line_seq(Vec3 { x: 0i64, y: SCALE, z: 0i64 }, c.y_color, c) + axis_line_seq(
                Vec3 { x: 0i64, y: 0i64, z: SCALE },
                c.z_color,
                c,
            ));
            assert(lines.subrange(0, lines.len() as int) == lines);
        }

        if self.config.show_ticks {
            self.add_axis_ticks(&mut cloud, Vec3::unit_x(), self.config.x_color);
            self.add_axis_ticks(&mut cloud, Vec3::unit_y(), self.config.y_color);
            self.add_axis_ticks(&mut cloud, Vec3::unit_z(), self.config.z_color);
        }
        if self.config.show_arrows {
            self.add_axis_arrow(&mut cloud, Vec3::unit_x(), self.config.x_color);
            self.add_axis_arrow(&mut cloud, Vec3::unit_y(), self.config.y_color);
            self.add_axis_arrow(&mut cloud, Vec3::unit_z(), self.config.z_color);
        }
        if self.config.show_labels {
            self.add_axis_labels(&mut cloud);
        }
        proof {
            assert(cloud.points_seq().subrange(0, lines.len() as int) == lines.subrange(
                0,
                lines.len() as int,
            ));
        }
        cloud
    }

    /// Adds one sampled axis line from the origin along `direction`.
    fn add_axis_line(&self, cloud: &mut PointCloud, direction: Vec3, color: Color)
        requires
            self.config_spec().wf(),
            in_range(direction, SCALE as int),
            old(cloud).wf(),
            old(cloud).points_seq().len() + 1_000_001 < 2_000_000_000,
        ensures
            final(cloud).wf(),
            final(cloud).points_seq() == old(cloud).points_seq() + axis_line_seq(
                direction,
                color,
                self.config_spec(),
            ),
            final(cloud).default_color_spec() == old(cloud).default_color_spec(),
            final(cloud).points_seq().len() <= old(cloud).points_seq().len() + 1_000_001,
    {
        let ghost line = axis_line_seq(direction, color, self.config_spec());
        proof {
            assert(self.config_spec().length * self.config_spec().points_per_unit
                <= 100_000_000_000_000_000int) by (nonlinear_arith)
                requires
                    1 <= self.config_spec().length <= COORD_LIMIT,
                    1 <= self.config_spec().points_per_unit <= 100_000_000,
            ;
        }
        let n: i64 = line_sample_count(self.config.length, self.config.points_per_unit);
        let denom: i64 = if n == 0 {
            1
        } else {
            n
        };
        let mut i: i64 = 0;
        while i <= n
            invariant
                0 <= i <= n + 1,
                n == axis_samples(self.config_spec()),
                0 <= n <= 1_000_000,
                denom == if n == 0 { 1int } else { n as int },
                self.config_spec().wf(),
                in_range(direction, SCALE as int),
                line == axis_line_seq(direction, color, self.config_spec()),
                cloud.wf(),
                old(cloud).points_seq().len() + 1_000_001 < 2_000_000_000,
                cloud.points_seq() == old(cloud).points_seq() + line.subrange(0, i as int),
                cloud.default_color_spec() == old(cloud).default_color_spec(),
            decreases n + 1 - i,
        {
            let t_len: i64 = sample_position(i, self.config.length, denom);
            proof {
                lemma_unit_scale(direction.x as int, t_len as int);
                lemma_unit_scale(direction.y as int, t_len as int);
                lemma_unit_scale(direction.z as int, t_len as int);
            }
            let pos = Vec3 {
                x: mul_fx(direction.x, t_len),
                y: mul_fx(direction.y, t_len),
                z: mul_fx(direction.z, t_len),
            };
            cloud.add_point_with_color(pos, color);
            proof {
                assert(line[i as int] == (Point3D { position: pos, color }));
                assert(line.subrange(0, i + 1).drop_last() == line.subrange(0, i as int));
                assert(line.subrange(0, i + 1).last() == line[i as int]);
                assert(cloud.points_seq() == old(cloud).points_seq() + line.subrange(0, i + 1));
            }
            i = i + 1;
        }
        proof {
            assert(line.subrange(0, (n + 1) as int) == line);
        }
    }

    /// Adds tick marks along an axis, at whole spacings from the
    /// origin, in the two perpendicular directions.
    fn add_axis_ticks(&self, cloud: &mut PointCloud, direction: Vec3, color: Color)
        requires
            self.config_spec().wf(),
            in_range(direction, SCALE as int),
            old(cloud).wf(),
            old(cloud).points_seq().len() + 21_000_000 < 2_000_000_000,
        ensures
            final(cloud).wf(),
            final(cloud).default_color_spec() == old(cloud).default_color_spec(),
            final(cloud).points_seq().len() >= old(cloud).points_seq().len(),
            final(cloud).points_seq().len() <= old(cloud).points_seq().len() + 21_000_000,
            final(cloud).points_seq().subrange(0, old(cloud).points_seq().len() as int) == old(
                cloud,
            ).points_seq(),
    {
        proof {
            assert(cloud.points_seq().subrange(0, old(cloud).points_seq().len() as int) == old(
                cloud,
            ).points_seq());
        }
        if self.config.tick_spacing <= 0 {
            return ;
        }
        let num_ticks: i64 = self.config.length / self.config.tick_spacing;
        proof {
            vstd::arithmetic::div_mod::lemma_fundamental_div_mod(
                self.config_spec().length as int,
                self.config_spec().tick_spacing as int,
            );
            vstd::arithmetic::div_mod::lemma_mod_bound(
                self.config_spec().length as int,
                self.config_spec().tick_spacing as int,
            );
            assert(self.config_spec().tick_spacing * (self.config_spec().length
                / self.config_spec().tick_spacing) == (self.config_spec().length
                / self.config_spec().tick_spacing) * self.config_spec().tick_spacing)
                by (nonlinear_arith);
        }
        let (perp1, perp2) = self.get_perpendicular_dirs(direction);
        let mut i: i64 = 1;
        while i <= num_ticks
            invariant
                1 <= i <= num_ticks + 1,
                0 <= num_ticks <= 1000,
                num_ticks * self.config_spec().tick_spacing <= self.config_spec().length,
                self.config_spec().wf(),
                self.config_spec().tick_spacing >= 1,
                in_range(direction, SCALE as int),
                in_range(perp1, SCALE as int),
                in_range(perp2, SCALE as int),
                cloud.wf(),
                old(cloud).points_seq().len() + 21_000_000 < 2_000_000_000,
                cloud.points_seq().len() <= old(cloud).points_seq().len() + (i - 1) * 21_000,
                cloud.points_seq().len() >= old(cloud).points_seq().len(),
                cloud.points_seq().subrange(0, old(cloud).points_seq().len() as int) == old(
                    cloud,
                ).points_seq(),
                cloud.default_color_spec() == old(cloud).default_color_spec(),
            decreases num_ticks + 1 - i,
        {
            proof {
                assert(1 * self.config_spec().tick_spacing <= i * self.config_spec().tick_spacing
                    <= num_ticks * self.config_spec().tick_spacing) by (nonlinear_arith)
                    requires
                        1 <= i <= num_ticks,
                        self.config_spec().tick_spacing >= 1,
                ;
            }
            let d: i64 = i * self.config.tick_spacing;
            proof {
                lemma_unit_scale(direction.x as int, d as int);
                lemma_unit_scale(direction.y as int, d as int);
                lemma_unit_scale(direction.z as int, d as int);
            }
            let center = Vec3 {
                x: mul_fx(direction.x, d),
                y: mul_fx(direction.y, d),
                z: mul_fx(direction.z, d),
            };
            self.add_tick_mark(cloud, center, perp1, color);
            self.add_tick_mark(cloud, center, perp2, color);
            i = i + 1;
        }
    }

    /// Adds a single tick mark centered at `center` along `direction`.
    fn add_tick_mark(&self, cloud: &mut PointCloud, center: Vec3, direction: Vec3, color: Color)
        requires
            self.config_spec().wf(),
            in_range(center, self.config_spec().length as int),
            in_range(direction, SCALE as int),
            old(cloud).wf(),
            old(cloud).points_seq().len() + 10_001 < 2_000_000_000,
        ensures
            final(cloud).wf(),
            final(cloud).default_color_spec() == old(cloud).default_color_spec(),
            final(cloud).points_seq().len() >= old(cloud).points_seq().len() + 4,
            final(cloud).points_seq().len() <= old(cloud).points_seq().len() + 10_500,
            final(cloud).points_seq().subrange(0, old(cloud).points_seq().len() as int) == old(
                cloud,
            ).points_seq(),
    {
        let half_len: i64 = self.config.tick_length / 2;
        let mut n: i64 = double_density_count(self.config.tick_length, self.config.points_per_unit);
        proof {
            assert(n as int == trunc_div(
                self.config_spec().tick_length * self.config_spec().points_per_unit * 2,
                (SCALE as int) * (SCALE as int),
            ));
        }
        if n < 3 {
            n = 3;
        }
        let mut i: i64 = 0;
        while i <= n
            invariant
                0 <= i <= n + 1,
                3 <= n <= 10_000,
                0 <= half_len,
                2 * half_len <= self.config_spec().tick_length,
                self.config_spec().wf(),
                in_range(center, self.config_spec().length as int),
                in_range(direction, SCALE as int),
                cloud.wf(),
                old(cloud).points_seq().len() + 10_001 < 2_000_000_000,
                cloud.points_seq().len() == old(cloud).points_seq().len() + i,
                cloud.points_seq().subrange(0, old(cloud).points_seq().len() as int) == old(
                    cloud,
                ).points_seq(),
                cloud.default_color_spec() == old(cloud).default_color_spec(),
            decreases n + 1 - i,
        {
            // The parameter runs from -1 to 1 across the tick.
            let t_off: i64 = tick_offset(i, n, half_len);
            proof {
                lemma_unit_scale(direction.x as int, t_off as int);
                lemma_unit_scale(direction.y as int, t_off as int);
                lemma_unit_scale(direction.z as int, t_off as int);
            }
            let pos = Vec3 {
                x: center.x + mul_fx(direction.x, t_off),
                y: center.y + mul_fx(direction.y, t_off),
                z: center.z + mul_fx(direction.z, t_off),
            };
            cloud.add_point_with_color(pos, color);
            proof {
                assert(cloud.points_seq().subrange(0, old(cloud).points_seq().len() as int) == old(
                    cloud,
                ).points_seq());
            }
            i = i + 1;
        }
    }

    /// Adds an arrowhead at the end of an axis: four wing strokes from
    /// the tip and an eight-point base ring.
    #[verifier::rlimit(60)]
    fn add_axis_arrow(&self, cloud: &mut PointCloud, direction: Vec3, color: Color)
        requires
            self.config_spec().wf(),
            in_range(direction, SCALE as int),
            old(cloud).wf(),
            old(cloud).points_seq().len() + 4_000_000 < 2_000_000_000,
        ensures
            final(cloud).wf(),
            final(cloud).default_color_spec() == old(cloud).default_color_spec(),
            final(cloud).points_seq().len() >= old(cloud).points_seq().len(),
            final(cloud).points_seq().len() <= old(cloud).points_seq().len() + 4_000_000,
            final(cloud).points_seq().subrange(0, old(cloud).points_seq().len() as int) == old(
                cloud,
            ).points_seq(),
    {
        proof {
            lemma_unit_scale(direction.x as int, self.config_spec().length as int);
            lemma_unit_scale(direction.y as int, self.config_spec().length as int);
            lemma_unit_scale(direction.z as int, self.config_spec().length as int);
            lemma_unit_scale(direction.x as int, self.config_spec().arrow_size as int);
            lemma_unit_scale(direction.y as int, self.config_spec().arrow_size as int);
            lemma_unit_scale(direction.z as int, self.config_spec().arrow_size as int);
        }
        let tip = Vec3 {
            x: mul_fx(direction.x, self.config.length),
            y: mul_fx(direction.y, self.config.length),
            z: mul_fx(direction.z, self.config.length),
        };
        let base = Vec3 {
            x: tip.x - mul_fx(direction.x, self.config.arrow_size),
            y: tip.y - mul_fx(direction.y, self.config.arrow_size),
            z: tip.z - mul_fx(direction.z, self.config.arrow_size),
        };
        let (perp1, perp2) = self.get_perpendicular_dirs(direction);
        let wing_len: i64 = self.config.arrow_size / 2;
        let wing1 = wing_point(base, perp1, wing_len);
        let wing2 = wing_point(base, perp1, -wing_len);
        let wing3 = wing_point(base, perp2, wing_len);
        let wing4 = wing_point(base, perp2, -wing_len);
        self.add_line(cloud, tip, wing1, color);
        self.add_line(cloud, tip, wing2, color);
        self.add_line(cloud, tip, wing3, color);
        self.add_line(cloud, tip, wing4, color);
        // Base ring, approximated by eight points; the offsets use the
        // fixed cosines and sines of the eight half-quadrant angles.
        proof {
            lemma_unit_scale(700_000int, wing_len as int);
            assert(abs(wing_len as int) * abs(700_000int) == abs(700_000int) * abs(
                wing_len as int,
            )) by (nonlinear_arith);
            assert(crate::fixed::fmul(wing_len as int, 700_000int) == crate::fixed::fmul(
                700_000int,
                wing_len as int,
            ));
        }
        let ring_r: i64 = mul_fx(wing_len, 700_000);
        let cos_ticks: [i64; 8] = [1_000_000, 707_107, 0, -707_107, -1_000_000, -707_107, 0,
            707_107];
        let sin_ticks: [i64; 8] = [0, 707_107, 1_000_000, 707_107, 0, -707_107, -1_000_000,
            -707_107];
        let mut k: usize = 0;
        while k < 8
            invariant
                k <= 8,
                self.config_spec().wf(),
                abs(base.x as int) <= COORD_LIMIT - 2 * SCALE - self.config_spec().arrow_size,
                abs(base.y as int) <= COORD_LIMIT - 2 * SCALE - self.config_spec().arrow_size,
                abs(base.z as int) <= COORD_LIMIT - 2 * SCALE - self.config_spec().arrow_size,
                in_range(perp1, SCALE as int),
                in_range(perp2, SCALE as int),
                0 <= ring_r <= self.config_spec().arrow_size / 2,
                cos_ticks@.len() == 8 && sin_ticks@.len() == 8,
                forall|j: int| 0 <= j < 8 ==> abs(cos_ticks@[j] as int) <= SCALE,
                forall|j: int| 0 <= j < 8 ==> abs(sin_ticks@[j] as int) <= SCALE,
                cloud.wf(),
                old(cloud).points_seq().len() + 4_000_000 < 2_000_000_000,
                cloud.points_seq().len() >= old(cloud).points_seq().len(),
                cloud.points_seq().len() <= old(cloud).points_seq().len() + 3_600_000 + k,
                cloud.points_seq().subrange(0, old(cloud).points_seq().len() as int) == old(
                    cloud,
                ).points_seq(),
                cloud.default_color_spec() == old(cloud).default_color_spec(),
            decreases 8 - k,
        {
            let ca: i64 = cos_ticks[k];
            let sa: i64 = sin_ticks[k];
            proof {
                lemma_unit_scale(ca as int, ring_r as int);
                lemma_unit_scale(sa as int, ring_r as int);
                assert(abs(ring_r as int) * abs(ca as int) == abs(ca as int) * abs(ring_r as int)
                    && abs(ring_r as int) * abs(sa as int) == abs(sa as int) * abs(
                    ring_r as int,
                )) by (nonlinear_arith);
                assert(crate::fixed::fmul(ring_r as int, ca as int) == crate::fixed::fmul(ca as int, ring_r as int));
                assert(crate::fixed::fmul(ring_r as int, sa as int) == crate::fixed::fmul(sa as int, ring_r as int));
            }
            let rc: i64 = mul_fx(ring_r, ca);
            let rs: i64 = mul_fx(ring_r, sa);
            let p1 = wing_point(base, perp1, rc);
            let pos = wing_point(p1, perp2, rs);
            cloud.add_point_with_color(pos, color);
            proof {
                assert(cloud.points_seq().subrange(0, old(cloud).points_seq().len() as int) == old(
                    cloud,
                ).points_seq());
            }
            k = k + 1;
        }
    }

    /// Adds the three stroke-drawn axis labels, just beyond the tips.
    fn add_axis_labels(&self, cloud: &mut PointCloud)
        requires
            self.config_spec().wf(),
            old(cloud).wf(),
            old(cloud).points_seq().len() + 8_000_000 < 2_000_000_000,
        ensures
            final(cloud).wf(),
            final(cloud).default_color_spec() == old(cloud).default_color_spec(),
            final(cloud).points_seq().len() >= old(cloud).points_seq().len(),
            final(cloud).points_seq().len() <= old(cloud).points_seq().len() + 8_000_000,
            final(cloud).points_seq().subrange(0, old(cloud).points_seq().len() as int) == old(
                cloud,
            ).points_seq(),
    {
        let offset: i64 = self.config.length + self.config.arrow_size + 300_000;
        let half: i64 = 100_000;
        // X: two crossed diagonals.
        self.add_line(
            cloud,
            Vec3 { x: offset - half, y: -half, z: 0 },
            Vec3 { x: offset + half, y: half, z: 0 },
            self.config.x_color,
        );
        self.add_line(
            cloud,
            Vec3 { x: offset - half, y: half, z: 0 },
            Vec3 { x: offset + half, y: -half, z: 0 },
            self.config.x_color,
        );
        // Y: a stem and two arms meeting at the center.
        let y_center = Vec3 { x: 0, y: offset, z: 0 };
        self.add_line(cloud, Vec3 { x: 0, y: offset - half, z: 0 }, y_center, self.config.y_color);
        self.add_line(
            cloud,
            Vec3 { x: -half, y: offset + half, z: 0 },
            y_center,
            self.config.y_color,
        );
        self.add_line(
            cloud,
            Vec3 { x: half, y: offset + half, z: 0 },
            y_center,
            self.config.y_color,
        );
        // Z: top bar, diagonal, bottom bar.
        let z_p1 = Vec3 { x: -half, y: half, z: offset };
        let z_p2 = Vec3 { x: half, y: half, z: offset };
        let z_p3 = Vec3 { x: -half, y: -half, z: offset };
        let z_p4 = Vec3 { x: half, y: -half, z: offset };
        self.add_line(cloud, z_p1, z_p2, self.config.z_color);
        self.add_line(cloud, z_p2, z_p3, self.config.z_color);
        self.add_line(cloud, z_p3, z_p4, self.config.z_color);
    }

    /// Adds a densely sampled line of points between two positions.
    fn add_line(&self, cloud: &mut PointCloud, start: Vec3, end: Vec3, color: Color)
        requires
            self.config_spec().wf(),
            in_range(start, COORD_LIMIT as int),
            in_range(end, COORD_LIMIT as int),
            old(cloud).wf(),
            old(cloud).points_seq().len() + 900_000 < 2_000_000_000,
        ensures
            final(cloud).wf(),
            final(cloud).default_color_spec() == old(cloud).default_color_spec(),
            final(cloud).points_seq().len() >= old(cloud).points_seq().len() + 3,
            final(cloud).points_seq().len() <= old(cloud).points_seq().len() + 900_000,
            final(cloud).points_seq().subrange(0, old(cloud).points_seq().len() as int) == old(
                cloud,
            ).points_seq(),
    {
        let d = end.sub(start);
        let dist: i64 = d.length();
        proof {
            assert(len_sq(d) <= 12_000_000_000_000_000_000int) by (nonlinear_arith)
                requires
                    abs(d.x as int) <= 2_000_000_000,
                    abs(d.y as int) <= 2_000_000_000,
                    abs(d.z as int) <= 2_000_000_000,
            ;
            assert(dist <= 4_000_000_000) by (nonlinear_arith)
                requires
                    dist as int * dist as int <= 12_000_000_000_000_000_000int,
                    dist >= 0,
            ;
        }
        let mut n: i64 = double_density_count(dist, self.config.points_per_unit);
        if n < 2 {
            n = 2;
        }
        let mut i: i64 = 0;
        while i <= n
            invariant
                0 <= i <= n + 1,
                2 <= n <= 800_000,
                self.config_spec().wf(),
                in_range(start, COORD_LIMIT as int),
                in_range(end, COORD_LIMIT as int),
                cloud.wf(),
                old(cloud).points_seq().len() + 900_000 < 2_000_000_000,
                cloud.points_seq().len() == old(cloud).points_seq().len() + i,
                cloud.points_seq().subrange(0, old(cloud).points_seq().len() as int) == old(
                    cloud,
                ).points_seq(),
                cloud.default_color_spec() == old(cloud).default_color_spec(),
            decreases n + 1 - i,
        {
            let pos = lerp_point(start, end, i, n);
            cloud.add_point_with_color(pos, color);
            proof {
                assert(cloud.points_seq().subrange(0, old(cloud).points_seq().len() as int) == old(
                    cloud,
                ).points_seq());
            }
            i = i + 1;
        }
    }

    /// Gets two perpendicular directions to the given axis direction.
    ///
    /// The reference up is the unit Y axis, or the unit X axis when the
    /// direction is nearly parallel to Y (fixed-point dot product of
    /// nine tenths or more in magnitude).
    pub fn get_perpendicular_dirs(&self, direction: Vec3) -> (r: (Vec3, Vec3))
        requires
            in_range(direction, SCALE as int),
        ensures
            in_range(r.0, SCALE as int),
            in_range(r.1, SCALE as int),
            exists|c: Vec3|
                {
                    &&& #[trigger] is_cross_of(direction, reference_up(direction), c)
                    &&& (if c == (Vec3 { x: 0i64, y: 0i64, z: 0i64 }) {
                        r.0 == (Vec3 { x: SCALE, y: 0i64, z: 0i64 })
                    } else {
                        is_normalized_of(c, r.0)
                    })
                },
            exists|c: Vec3|
                {
                    &&& #[trigger] is_cross_of(direction, r.0, c)
                    &&& (if c == (Vec3 { x: 0i64, y: 0i64, z: 0i64 }) {
                        r.1 == (Vec3 { x: SCALE, y: 0i64, z: 0i64 })
                    } else {
                        is_normalized_of(c, r.1)
                    })
                },
    {
        let unit_y = Vec3::unit_y();
        proof {
            crate::vec3::lemma_dot_range(direction, unit_y, SCALE as int, SCALE as int);
        }
        let dy: i64 = direction.dot(unit_y);
        let dy_abs: i64 = if dy >= 0 {
            dy
        } else {
            -dy
        };
        let up: Vec3 = if dy_abs < 900_000 {
            unit_y
        } else {
            Vec3::unit_x()
        };
        let perp1: Vec3 = normalized_cross(direction, up);
        let perp2: Vec3 = normalized_cross(direction, perp1);
        proof {
            assert(up == reference_up(direction));
            let c1 = choose|c: Vec3|
                {
                    &&& #[trigger] is_cross_of(direction, up, c)
                    &&& if c == (Vec3 { x: 0i64, y: 0i64, z: 0i64 }) {
                        perp1 == (Vec3 { x: SCALE, y: 0i64, z: 0i64 })
                    } else {
                        is_normalized_of(c, perp1)
                    }
                };
            assert(is_cross_of(direction, reference_up(direction), c1));
        }
        (perp1, perp2)
    }
}

/// The reference up vector for tick and arrow geometry: the unit Y
/// axis, or the unit X axis when the direction is nearly parallel to Y.
pub open spec fn reference_up(direction: Vec3) -> Vec3 {
    if abs(dot_spec(direction, Vec3 { x: 0i64, y: SCALE, z: 0i64 })) < 900_000 {
        Vec3 { x: 0i64, y: SCALE, z: 0i64 }
    } else {
        Vec3 { x: SCALE, y: 0i64, z: 0i64 }
    }
}

/// The normalized cross product, or the unit X axis when it vanishes.
fn normalized_cross(a: Vec3, b: Vec3) -> (r: Vec3)
    requires
        in_range(a, SCALE as int),
        in_range(b, SCALE as int),
    ensures
        in_range(r, SCALE as int),
        exists|c: Vec3|
            {
                &&& #[trigger] is_cross_of(a, b, c)
                &&& if c == (Vec3 { x: 0i64, y: 0i64, z: 0i64 }) {
                    r == (Vec3 { x: SCALE, y: 0i64, z: 0i64 })
                } else {
                    is_normalized_of(c, r)
                }
            },
{
    let c: Vec3 = a.cross(b);
    if c.x == 0 && c.y == 0 && c.z == 0 {
        let r = Vec3 { x: SCALE, y: 0, z: 0 };
        proof {
            assert(c == (Vec3 { x: 0i64, y: 0i64, z: 0i64 }));
        }
        r
    } else {
        proof {
            assert(len_sq(c) >= 1) by (nonlinear_arith)
                requires
                    !(c.x == 0 && c.y == 0 && c.z == 0),
            ;
        }
        c.normalize()
    }
}

/// A point offset from `base` along a unit-scale direction by `amount`
/// ticks: each component moves by at most `amount`.
fn wing_point(base: Vec3, dir: Vec3, amount: i64) -> (r: Vec3)
    requires
        in_range(base, COORD_LIMIT as int),
        in_range(dir, SCALE as int),
        abs(amount as int) <= COORD_LIMIT,
        amount > i64::MIN,
    ensures
        abs(r.x as int) <= abs(base.x as int) + abs(amount as int),
        abs(r.y as int) <= abs(base.y as int) + abs(amount as int),
        abs(r.z as int) <= abs(base.z as int) + abs(amount as int),
{
    proof {
        lemma_unit_scale(dir.x as int, amount as int);
        lemma_unit_scale(dir.y as int, amount as int);
        lemma_unit_scale(dir.z as int, amount as int);
    }
    Vec3 {
        x: base.x + mul_fx(dir.x, amount),
        y: base.y + mul_fx(dir.y, amount),
        z: base.z + mul_fx(dir.z, amount),
    }
}

/// The sampled point `i` of `n` intervals between `start` and `end`:
/// each component lies between the two endpoints.
fn lerp_point(start: Vec3, end: Vec3, i: i64, n: i64) -> (r: Vec3)
    requires
        in_range(start, COORD_LIMIT as int),
        in_range(end, COORD_LIMIT as int),
        0 <= i <= n,
        1 <= n <= 2_000_000,
    ensures
        in_range(r, COORD_LIMIT as int),
{
    let dx: i64 = end.x - start.x;
    let dy: i64 = end.y - start.y;
    let dz: i64 = end.z - start.z;
    let px: i64 = frac_scale(dx, i, n);
    let py: i64 = frac_scale(dy, i, n);
    let pz: i64 = frac_scale(dz, i, n);
    Vec3 { x: start.x + px, y: start.y + py, z: start.z + pz }
}

/// `d * i / n` with truncation: the fraction `i/n` of a span. The
/// result lies between zero and the span.
fn frac_scale(d: i64, i: i64, n: i64) -> (r: i64)
    requires
        abs(d as int) <= 4_000_000_000,
        0 <= i <= n,
        1 <= n <= 2_000_000,
    ensures
        r as int == trunc_div(d as int * i, n as int),
        d >= 0 ==> 0 <= r <= d,
        d < 0 ==> d <= r <= 0,
{
    proof {
        lemma_abs_mul(d as int, i as int);
        assert(abs(d as int) * i <= abs(d as int) * n && abs(d as int) * n
            <= 8_000_000_000_000_000int) by (nonlinear_arith)
            requires
                0 <= i <= n,
                0 <= abs(d as int) <= 4_000_000_000,
                n <= 2_000_000,
        ;
        lemma_trunc_div_le(d as int * i, n as int);
        assert(abs(i as int) == i as int);
        vstd::arithmetic::div_mod::lemma_div_is_ordered(
            abs(d as int) * i,
            abs(d as int) * n,
            n as int,
        );
        vstd::arithmetic::div_mod::lemma_div_multiples_vanish(abs(d as int), n as int);
        assert(abs(d as int) * n == (n as int) * abs(d as int)) by (nonlinear_arith);
        assert(i64::MAX * (n as int) >= i64::MAX * 1) by (nonlinear_arith)
            requires
                n >= 1,
        ;
        assert(d >= 0 ==> d as int * i >= 0) by (nonlinear_arith)
            requires
                i >= 0,
        ;
        assert(d < 0 ==> d as int * i <= 0) by (nonlinear_arith)
            requires
                i >= 0,
        ;
    }
    let p: i128 = (d as i128) * (i as i128);
    let q: i128 = crate::fixed::trunc_div_i128(p, n as i128);
    q as i64
}

/// The number of whole sample intervals on a line of `len` ticks at
/// `ppu` samples per unit.
fn line_sample_count(len: i64, ppu: i64) -> (n: i64)
    requires
        1 <= len,
        1 <= ppu <= 100_000_000,
        len * ppu <= 2_000_000_000_000_000_000int,
    ensures
        n as int == trunc_div(len as int * ppu, (SCALE as int) * (SCALE as int)),
        n >= 0,
{
    proof {
        assert(0 <= len as int * ppu) by (nonlinear_arith)
            requires
                len >= 1,
                ppu >= 1,
        ;
        lemma_abs_mul(len as int, ppu as int);
        lemma_trunc_div_le(len as int * ppu, 1_000_000_000_000int);
        vstd::arithmetic::div_mod::lemma_div_is_ordered(
            len as int * ppu,
            2_000_000_000_000_000_000int,
            1_000_000_000_000int,
        );
    }
    let p: i128 = (len as i128) * (ppu as i128);
    let q: i128 = crate::fixed::trunc_div_i128(p, 1_000_000_000_000i128);
    q as i64
}

/// The number of sample intervals on a short stroke: twice the density
/// across its length.
fn double_density_count(len: i64, ppu: i64) -> (n: i64)
    requires
        0 <= len <= 4_000_000_000,
        1 <= ppu <= 100_000_000,
    ensures
        n as int == trunc_div(len as int * ppu * 2, (SCALE as int) * (SCALE as int)),
        0 <= n <= 800_000,
{
    proof {
        assert(0 <= (len as int) * ppu * 2 <= 800_000_000_000_000_000int) by (nonlinear_arith)
            requires
                0 <= len <= 4_000_000_000,
                1 <= ppu <= 100_000_000,
        ;
        lemma_trunc_div_le(len as int * ppu * 2, 1_000_000_000_000int);
        vstd::arithmetic::div_mod::lemma_div_is_ordered(
            len as int * ppu * 2,
            800_000_000_000_000_000int,
            1_000_000_000_000int,
        );
        assert(abs(len as int * ppu * 2) == len as int * ppu * 2);
    }
    let p: i128 = (len as i128) * (ppu as i128) * 2;
    let q: i128 = crate::fixed::trunc_div_i128(p, 1_000_000_000_000i128);
    q as i64
}

/// `i * length / n`: the distance along the axis of sample `i`.
fn sample_position(i: i64, length: i64, n: i64) -> (r: i64)
    requires
        0 <= i,
        i <= n,
        1 <= length <= COORD_LIMIT,
        1 <= n <= 2_000_000,
    ensures
        r as int == trunc_div(i as int * length, n as int),
        0 <= r <= length,
{
    proof {
        assert(0 <= i as int * length <= (n as int) * (length as int) && (n as int) * (
        length as int) <= 2_000_000_000_000_000int) by (nonlinear_arith)
            requires
                0 <= i <= n,
                1 <= length <= COORD_LIMIT,
                n <= 2_000_000,
        ;
        lemma_trunc_div_le(i as int * length, n as int);
        vstd::arithmetic::div_mod::lemma_div_is_ordered(
            i as int * length,
            (n as int) * (length as int),
            n as int,
        );
        vstd::arithmetic::div_mod::lemma_div_multiples_vanish(length as int, n as int);
        assert(i64::MAX * (n as int) >= i64::MAX * 1) by (nonlinear_arith)
            requires
                n >= 1,
        ;
    }
    let p: i128 = (i as i128) * (length as i128);
    let q: i128 = crate::fixed::trunc_div_i128(p, n as i128);
    q as i64
}

/// The offset along a tick of sample `i` of `n`: from `-half` to
/// `+half` ticks.
fn tick_offset(i: i64, n: i64, half: i64) -> (r: i64)
    requires
        0 <= i <= n,
        1 <= n <= 2_000_000,
        0 <= half <= COORD_LIMIT,
    ensures
        abs(r as int) <= half,
{
    // The parameter in ticks runs from -SCALE to SCALE.
    let t: i64 = frac_scale(2 * SCALE, i, n) - SCALE;
    proof {
        lemma_unit_scale(t as int, half as int);
        assert(crate::fixed::fmul(half as int, t as int) == crate::fixed::fmul(t as int, half as int));
    }
    mul_fx(half, t)
}

/// A unit-scale factor times a bounded tick length keeps the bound.
proof fn lemma_unit_scale(c: int, t: int)
    requires
        abs(c) <= SCALE,
        abs(t) <= 2_000_000_000_000,
    ensures
        abs(crate::fixed::fmul(c, t)) <= abs(t),
        abs(c) * abs(t) <= (SCALE as int) * abs(t),
        abs(c) * abs(t) <= i64::MAX * (SCALE as int),
        i64::MIN < crate::fixed::fmul(c, t) < i64::MAX,
        crate::fixed::fmul(c, t) == crate::fixed::fmul(t, c),
{
    lemma_abs_mul(c, t);
    lemma_trunc_div_le(c * t, SCALE as int);
    assert(abs(c) * abs(t) <= (SCALE as int) * abs(t)) by (nonlinear_arith)
        requires
            0 <= abs(c) <= SCALE,
            abs(t) >= 0,
    ;
    assert((SCALE as int) * abs(t) <= (SCALE as int) * 2_000_000_000_000int) by (nonlinear_arith)
        requires
            0 <= abs(t) <= 2_000_000_000_000,
    ;
    vstd::arithmetic::div_mod::lemma_div_is_ordered(
        abs(c * t),
        (SCALE as int) * abs(t),
        SCALE as int,
    );
    vstd::arithmetic::div_mod::lemma_div_multiples_vanish(abs(t), SCALE as int);
    assert(c * t == t * c) by (nonlinear_arith);
}

} // verus!
