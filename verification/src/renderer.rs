//! The camera and the rendering of a scene into pixels.

use crate::angle::{tan_degrees, tan_degrees_spec};
use crate::fixed::{Fixed, LIMIT, SCALE};
use crate::hittable::{Hittable, Intersection};
use crate::interval::Interval;
use crate::material::{pinned_unit, scatter, scatter_spec};
use crate::ray::{Ray, ORIGIN_REACH};
use crate::sampler::Sampler;
use crate::scene::Scene;
use crate::fixed::lemma_product_bounded;
use crate::vec3::{lemma_short_vector_within, lemma_zero_is_drawn_unit, Vec3};
use vstd::prelude::*;

verus! {

/// Farthest, in raw units, that a component of the camera's position may
/// lie from zero: 10,000 units.
pub const CAMERA_REACH: i64 = 10_000_000_000_000;

/// Largest radius, in raw units, that the lens may have: 2,500 units. With
/// the camera within `CAMERA_REACH`, every point of the lens lies where
/// rays may start.
pub const LENS_REACH: i64 = 2_500_000_000_000;

/// Largest size, in raw units, that the viewport and the focus distance
/// may have: 1,000,000 units. Within it no quantity of the camera leaves
/// the range of the arithmetic.
pub const VIEW_REACH: i64 = 1_000_000_000_000_000;

/// Factor, in raw units, that takes a channel in `[0, 1]` to a byte.
pub const BYTE_SCALE: i64 = 255_999_000_000;

/// Smallest ray parameter, in raw units, at which a hit counts: it keeps a
/// scattered ray from hitting the surface that it leaves.
pub const SHADOW_BIAS: i64 = 1_000_000;

/// What a camera is set up from.
#[derive(Clone, Copy, Debug)]
pub struct RenderOptions {
    /// Width over height of the image; positive.
    pub aspect_ratio: Fixed,
    /// Width of the image in pixels; positive.
    pub image_width: u32,
    /// Rays averaged for each pixel; positive.
    pub samples_per_pixel: u32,
    /// Bounces after which a ray carries no more light.
    pub max_depth: u8,
    /// Vertical field of view, in degrees.
    pub vfov: Fixed,
    pub lookfrom: Vec3,
    pub lookat: Vec3,
    pub vup: Vec3,
    /// Colour of the sky at the bottom of the view.
    pub sky_color: Vec3,
    /// Angle of the cone from the focus point to the lens, in degrees; not
    /// negative.
    pub defocus_angle: Fixed,
    /// Distance from the camera to the plane in focus; positive.
    pub focus_dist: Fixed,
}

/// A camera: the options and everything derived from them.
#[derive(Clone, Copy, Debug)]
pub struct Renderer {
    pub aspect_ratio: Fixed,
    pub image_width: u32,
    pub image_height: u32,
    pub center: Vec3,
    pub pixel00_loc: Vec3,
    pub pixel_delta_u: Vec3,
    pub pixel_delta_v: Vec3,
    pub samples_per_pixel: u32,
    pub max_depth: u8,
    pub vfov: Fixed,
    pub lookfrom: Vec3,
    pub lookat: Vec3,
    pub vup: Vec3,
    pub u: Vec3,
    pub v: Vec3,
    pub w: Vec3,
    pub sky_color: Vec3,
    pub defocus_angle: Fixed,
    pub focus_dist: Fixed,
    pub defocus_disk_u: Vec3,
    pub defocus_disk_v: Vec3,
}

/// Clamps an integer into the range of pixel counts.
pub open spec fn count_of(n: int) -> int {
    if n < 0 {
        0
    } else if n > u32::MAX {
        u32::MAX as int
    } else {
        n
    }
}

/// The height in pixels of an image of the given width and aspect ratio:
/// their quotient without its fraction.
pub open spec fn image_height_spec(image_width: u32, aspect_ratio: Fixed) -> int
    recommends
        aspect_ratio@ != 0,
{
    count_of(Fixed::of(image_width * SCALE).quotient(aspect_ratio).whole())
}

/// The range of ray parameters at which hits count.
pub open spec fn hit_range() -> Interval {
    Interval { min: Fixed::of(SHADOW_BIAS as int), max: Fixed::of(LIMIT as int) }
}

/// The colour of the sky along a ray: `sky` blended into white by the
/// height `y` of the ray's direction. With `a = (y + 1) / 2` it is
/// `white * a + sky * (1 - a)`: white straight up, `sky` straight down.
pub open spec fn background_spec(sky: Vec3, ray: Ray) -> Vec3 {
    let one = Fixed::of(SCALE as int);
    let unit_direction = ray.direction.unit_or_zero();
    let a = Fixed::of(SCALE / 2).product(unit_direction.y.sum(one));
    Vec3::splat(one).scaled(a).sum(sky.scaled(one.difference(a)))
}

/// The byte of a channel value: `BYTE_SCALE` times the value without its
/// fraction, clamped into `0 ..= 255`.
pub open spec fn byte_of(value: Fixed) -> u8 {
    let n = value.product(Fixed::of(BYTE_SCALE as int)).whole();
    if n < 0 {
        0u8
    } else if n > 255 {
        255u8
    } else {
        n as u8
    }
}

/// The byte of a channel summed over `samples` rays: the square root of
/// the average, as a byte.
pub open spec fn channel_spec(total: Fixed, samples: u32) -> u8
    recommends
        samples > 0,
{
    byte_of(total.quotient(Fixed::of(samples * SCALE)).root_or_zero())
}

/// The bytes of a colour summed over `samples` rays.
pub open spec fn raw_color_spec(color: Vec3, samples: u32) -> Seq<u8>
    recommends
        samples > 0,
{
    seq![
        channel_spec(color.x, samples),
        channel_spec(color.y, samples),
        channel_spec(color.z, samples),
    ]
}

/// The sum of `n` copies of `v`.
pub open spec fn repeated_sum(v: Vec3, n: nat) -> Vec3
    decreases n,
{
    if n == 0 {
        Vec3::zero_spec()
    } else {
        repeated_sum(v, (n - 1) as nat).sum(v)
    }
}

/// Whether a pair can be the draws of one bounce: a direction that can be
/// drawn and a fraction in `[0, 1)`.
pub open spec fn is_draw(draw: (Vec3, Fixed)) -> bool {
    Vec3::is_drawn_unit(draw.0) && 0 <= draw.1@ < SCALE
}

/// Whether `draws` can be the draws of `n` bounces.
pub open spec fn is_draws(draws: Seq<(Vec3, Fixed)>, n: nat) -> bool {
    draws.len() == n && forall|k: int| 0 <= k < draws.len() ==> is_draw(#[trigger] draws[k])
}

/// The draws of `n` bounces when every draw is `c`.
pub open spec fn pinned_draws(n: nat, c: Fixed) -> Seq<(Vec3, Fixed)> {
    Seq::new(n, |k: int| (pinned_unit(c), c))
}

/// Draws for `n` bounces that are never looked at.
pub open spec fn idle_draws(n: nat) -> Seq<(Vec3, Fixed)> {
    Seq::new(n, |k: int| (Vec3::zero_spec(), Fixed::of(0)))
}

/// The sum of a sequence of colours, added from the first to the last.
pub open spec fn total(colors: Seq<Vec3>) -> Vec3
    decreases colors.len(),
{
    if colors.len() == 0 {
        Vec3::zero_spec()
    } else {
        total(colors.drop_last()).sum(colors.last())
    }
}

/// The height in pixels of an image of the given width and aspect ratio.
pub fn image_height(image_width: u32, aspect_ratio: Fixed) -> (h: u32)
    requires
        aspect_ratio@ != 0,
    ensures
        h == image_height_spec(image_width, aspect_ratio),
{
    let n: i64 = (Fixed::from_int(image_width as i64) / aspect_ratio).trunc();
    if n < 0 {
        0
    } else if n > u32::MAX as i64 {
        u32::MAX
    } else {
        n as u32
    }
}

/// The colour of the sky along a ray.
pub fn background(sky: Vec3, ray: &Ray) -> (color: Vec3)
    ensures
        color == background_spec(sky, *ray),
{
    let one: Fixed = Fixed::one();
    let unit_direction: Vec3 = ray.direction.normalized_or_zero();
    let a: Fixed = Fixed::from_raw(SCALE / 2) * (unit_direction.y + one);
    Vec3::new(one, one, one) * a + sky * (one - a)
}

/// The byte of a channel value.
pub fn to_byte(value: Fixed) -> (b: u8)
    ensures
        b == byte_of(value),
{
    let n: i64 = (value * Fixed::from_raw(BYTE_SCALE)).trunc();
    if n < 0 {
        0
    } else if n > 255 {
        255
    } else {
        n as u8
    }
}

impl RenderOptions {
    /// The direction from the target back to the camera.
    pub open spec fn w_spec(self) -> Vec3 {
        self.lookfrom.difference(self.lookat).unit_spec()
    }

    /// The direction to the right of the view.
    pub open spec fn u_spec(self) -> Vec3 {
        self.vup.cross_spec(self.w_spec()).unit_spec()
    }

    /// The direction to the top of the view.
    pub open spec fn v_spec(self) -> Vec3 {
        self.w_spec().cross_spec(self.u_spec())
    }

    /// The height of the viewport: twice the tangent of half the field of
    /// view, times the focus distance.
    pub open spec fn viewport_height_spec(self) -> Fixed {
        let two = Fixed::of(2 * SCALE);
        two.product(tan_degrees_spec(self.vfov.quotient(two))).product(self.focus_dist)
    }

    /// The width of the viewport: its height times the width of the image
    /// over its height in pixels.
    pub open spec fn viewport_width_spec(self) -> Fixed {
        let width = Fixed::of(self.image_width * SCALE);
        let height = Fixed::of(image_height_spec(self.image_width, self.aspect_ratio) * SCALE);
        self.viewport_height_spec().product(width.quotient(height))
    }

    /// The radius of the lens: the focus distance times the tangent of
    /// half the defocus angle.
    pub open spec fn defocus_radius_spec(self) -> Fixed {
        self.focus_dist.product(tan_degrees_spec(self.defocus_angle.quotient(Fixed::of(2 * SCALE))))
    }

    /// Whether a camera can be set up from the options: the counts and
    /// sizes are positive, the image has at least one row, the viewport and
    /// the focus distance are within `VIEW_REACH`, the lens within
    /// `LENS_REACH`, the camera within `CAMERA_REACH`, the camera is not at
    /// its target, and the view direction is not along `vup`.
    pub open spec fn valid(self) -> bool {
        &&& self.aspect_ratio@ > 0
        &&& self.image_width > 0
        &&& self.samples_per_pixel > 0
        &&& 0 < self.focus_dist@ <= VIEW_REACH
        &&& self.defocus_angle@ >= 0
        &&& image_height_spec(self.image_width, self.aspect_ratio) > 0
        &&& 0 < self.viewport_height_spec()@ <= VIEW_REACH
        &&& 0 < self.viewport_width_spec()@ <= VIEW_REACH
        &&& 0 <= self.defocus_radius_spec()@ <= LENS_REACH
        &&& self.lookfrom.within(CAMERA_REACH as int)
        &&& self.lookfrom.difference(self.lookat).length_spec()@ > 0
        &&& self.vup.cross_spec(self.w_spec()).length_spec()@ > 0
    }

    /// The height of the viewport.
    pub fn viewport_height(&self) -> (h: Fixed)
        ensures
            h == self.viewport_height_spec(),
    {
        let two: Fixed = Fixed::from_int(2);
        two * tan_degrees(self.vfov / two) * self.focus_dist
    }

    /// The width of the viewport. The image must have at least one row.
    pub fn viewport_width(&self) -> (w: Fixed)
        requires
            image_height_spec(self.image_width, self.aspect_ratio) > 0,
            self.aspect_ratio@ != 0,
        ensures
            w == self.viewport_width_spec(),
    {
        let width: Fixed = Fixed::from_int(self.image_width as i64);
        let height: Fixed = Fixed::from_int(
            image_height(self.image_width, self.aspect_ratio) as i64,
        );
        self.viewport_height() * (width / height)
    }

    /// The radius of the lens.
    pub fn defocus_radius(&self) -> (r: Fixed)
        ensures
            r == self.defocus_radius_spec(),
    {
        self.focus_dist * tan_degrees(self.defocus_angle / Fixed::from_int(2))
    }

    /// Whether a camera can be set up from the options.
    pub fn is_valid(&self) -> (b: bool)
        ensures
            b == self.valid(),
    {
        let zero: Fixed = Fixed::zero();
        if !self.aspect_ratio.gt(zero) || self.image_width == 0 || self.samples_per_pixel == 0
            || !self.focus_dist.gt(zero) || self.defocus_angle.lt(zero) {
            return false;
        }
        if image_height(self.image_width, self.aspect_ratio) == 0 {
            return false;
        }
        let reach: Fixed = Fixed::from_raw(VIEW_REACH);
        let viewport_height: Fixed = self.viewport_height();
        let viewport_width: Fixed = self.viewport_width();
        let defocus_radius: Fixed = self.defocus_radius();
        if self.focus_dist.gt(reach) || !viewport_height.gt(zero) || viewport_height.gt(reach)
            || !viewport_width.gt(zero) || viewport_width.gt(reach) || defocus_radius.lt(zero)
            || defocus_radius.gt(Fixed::from_raw(LENS_REACH)) {
            return false;
        }
        if !self.lookfrom.is_within(CAMERA_REACH) {
            return false;
        }
        let back: Vec3 = self.lookfrom - self.lookat;
        if !back.length().gt(zero) {
            return false;
        }
        let w: Vec3 = back.unit_vector();
        self.vup.cross(&w).length().gt(zero)
    }
}

impl Renderer {
    /// The camera that the options describe.
    pub open spec fn derived(options: RenderOptions) -> Renderer
        recommends
            options.valid(),
    {
        let two = Fixed::of(2 * SCALE);
        let image_height = image_height_spec(options.image_width, options.aspect_ratio) as u32;
        let width = Fixed::of(options.image_width * SCALE);
        let height = Fixed::of(image_height * SCALE);
        let viewport_height = options.viewport_height_spec();
        let viewport_width = options.viewport_width_spec();
        let w = options.w_spec();
        let u = options.u_spec();
        let v = options.v_spec();
        let viewport_u = u.scaled(viewport_width);
        let viewport_v = v.negation().scaled(viewport_height);
        let pixel_delta_u = viewport_u.quotient(width);
        let pixel_delta_v = viewport_v.quotient(height);
        let viewport_upper_left = options.lookfrom.difference(w.scaled(options.focus_dist)).difference(
            viewport_u.quotient(two),
        ).difference(viewport_v.quotient(two));
        let pixel00_loc = viewport_upper_left.sum(
            pixel_delta_u.sum(pixel_delta_v).scaled(Fixed::of(SCALE / 2)),
        );
        let defocus_radius = options.defocus_radius_spec();
        Renderer {
            aspect_ratio: options.aspect_ratio,
            image_width: options.image_width,
            image_height,
            center: options.lookfrom,
            pixel00_loc,
            pixel_delta_u,
            pixel_delta_v,
            samples_per_pixel: options.samples_per_pixel,
            max_depth: options.max_depth,
            vfov: options.vfov,
            lookfrom: options.lookfrom,
            lookat: options.lookat,
            vup: options.vup,
            u,
            v,
            w,
            sky_color: options.sky_color,
            defocus_angle: options.defocus_angle,
            focus_dist: options.focus_dist,
            defocus_disk_u: u.scaled(defocus_radius),
            defocus_disk_v: v.scaled(defocus_radius),
        }
    }

    /// Whether the camera can render: it averages at least one ray for
    /// each pixel, and it and its lens lie where rays may start.
    pub open spec fn wf(self) -> bool {
        &&& self.samples_per_pixel > 0
        &&& self.center.within(CAMERA_REACH as int)
        &&& self.defocus_disk_u.within(LENS_REACH as int)
        &&& self.defocus_disk_v.within(2 * LENS_REACH)
    }

    /// The offset of a sample from the centre of its pixel, for the
    /// fractions `jitter_x` and `jitter_y` of a pixel's width and height.
    pub open spec fn jitter_spec(self, jitter_x: Fixed, jitter_y: Fixed) -> Vec3 {
        let px = Fixed::of(-(SCALE / 2)).sum(jitter_x);
        let py = Fixed::of(-(SCALE / 2)).sum(jitter_y);
        self.pixel_delta_u.scaled(px).sum(self.pixel_delta_v.scaled(py))
    }

    /// The point of the lens that the point `p` of the unit disk stands
    /// for.
    pub open spec fn lens_spec(self, p: Vec3) -> Vec3 {
        self.center.sum(self.defocus_disk_u.scaled(p.x)).sum(self.defocus_disk_v.scaled(p.y))
    }

    /// The ray through pixel `(u, v)` for a given jitter and a given point
    /// of the unit disk. It starts at the centre of the camera where the
    /// defocus angle is not positive, and on the lens otherwise.
    pub open spec fn ray_through_spec(
        self,
        u: u32,
        v: u32,
        jitter_x: Fixed,
        jitter_y: Fixed,
        p: Vec3,
    ) -> Ray {
        let pixel_center = self.pixel00_loc.sum(self.pixel_delta_u.scaled(Fixed::of(u * SCALE))).sum(
            self.pixel_delta_v.scaled(Fixed::of(v * SCALE)),
        );
        let pixel_sample = pixel_center.sum(self.jitter_spec(jitter_x, jitter_y));
        let origin = if self.defocus_angle@ <= 0 {
            self.center
        } else {
            self.lens_spec(p)
        };
        Ray { origin, direction: pixel_sample.difference(origin) }
    }

    /// The ray through pixel `(u, v)` when every draw is `c`.
    pub open spec fn pinned_ray(self, u: u32, v: u32, c: Fixed) -> Ray {
        self.ray_through_spec(u, v, c, c, Vec3::pinned_in_unit_disk(c))
    }

    /// The light that arrives along a ray for given draws, one pair for
    /// each bounce: none after `depth` bounces, and none along a ray that
    /// is beyond the reach of the intersection test; where the ray hits a
    /// surface that scatters it, the light along the scattered ray times
    /// the attenuation, and none where the surface absorbs it; the sky
    /// where it hits nothing.
    pub open spec fn ray_color_with<H: Hittable>(
        self,
        surfaces: Seq<H>,
        ray: Ray,
        depth: nat,
        draws: Seq<(Vec3, Fixed)>,
    ) -> Vec3
        decreases depth,
    {
        if depth == 0 || !ray.in_reach() {
            Vec3::zero_spec()
        } else {
            match crate::scene::nearest(surfaces, ray, hit_range()) {
                Some(i) => {
                    let s = scatter_spec(i.material, ray, i, draws[0].0, draws[0].1);
                    if s.0 {
                        s.1.product(
                            self.ray_color_with(
                                surfaces,
                                s.2,
                                (depth - 1) as nat,
                                draws.drop_first(),
                            ),
                        )
                    } else {
                        Vec3::zero_spec()
                    }
                },
                None => background_spec(self.sky_color, ray),
            }
        }
    }

    /// The light that arrives along a ray when every draw is `c`.
    pub open spec fn ray_color_spec<H: Hittable>(
        self,
        surfaces: Seq<H>,
        ray: Ray,
        depth: nat,
        c: Fixed,
    ) -> Vec3 {
        self.ray_color_with(surfaces, ray, depth, pinned_draws(depth, c))
    }

    /// Whether `ray` can be drawn through pixel `(u, v)`: whether some
    /// jitter within the pixel and some point of the unit disk give it.
    pub open spec fn is_sample_ray(self, u: u32, v: u32, ray: Ray) -> bool {
        exists|jitter_x: Fixed, jitter_y: Fixed, p: Vec3|
            0 <= jitter_x@ < SCALE && 0 <= jitter_y@ < SCALE && Vec3::is_in_unit_disk(p) && ray
                == #[trigger] self.ray_through_spec(u, v, jitter_x, jitter_y, p)
    }

    /// Whether `color` can be the light of one sample of pixel `(x, y)`:
    /// whether some ray that can be drawn through the pixel and some
    /// draws for its bounces give it.
    pub open spec fn is_sample_color<H: Hittable>(
        self,
        surfaces: Seq<H>,
        x: u32,
        y: u32,
        color: Vec3,
    ) -> bool {
        exists|ray: Ray, draws: Seq<(Vec3, Fixed)>|
            self.is_sample_ray(x, y, ray) && is_draws(draws, self.max_depth as nat) && color
                == #[trigger] self.ray_color_with(surfaces, ray, self.max_depth as nat, draws)
    }

    /// Whether `rgb` can be the bytes of pixel `(x, y)`: the bytes of the
    /// sum of `samples_per_pixel` colours, each the light of one sample.
    #[verifier::opaque]
    pub open spec fn is_pixel<H: Hittable>(self, surfaces: Seq<H>, x: u32, y: u32, rgb: Seq<u8>) -> bool {
        exists|colors: Seq<Vec3>|
            colors.len() == self.samples_per_pixel && (forall|k: int|
                0 <= k < colors.len() ==> self.is_sample_color(surfaces, x, y, #[trigger] colors[k]))
                && rgb == raw_color_spec(#[trigger] total(colors), self.samples_per_pixel)
    }

    /// Where the bytes of pixel `(x, y)` start in the image.
    pub open spec fn offset(self, x: u32, y: u32) -> int {
        3 * (self.image_width * y + x)
    }

    /// The three bytes of pixel `(x, y)` in an image.
    pub open spec fn pixel_at(self, bytes: Seq<u8>, x: u32, y: u32) -> Seq<u8> {
        bytes.subrange(self.offset(x, y), self.offset(x, y) + 3)
    }

    /// The bytes of pixel `(x, y)` when every draw is `c`.
    #[verifier::opaque]
    pub open spec fn pinned_pixel<H: Hittable>(self, surfaces: Seq<H>, x: u32, y: u32, c: Fixed) -> Seq<
        u8,
    > {
        raw_color_spec(
            repeated_sum(
                self.ray_color_spec(surfaces, self.pinned_ray(x, y, c), self.max_depth as nat, c),
                self.samples_per_pixel as nat,
            ),
            self.samples_per_pixel,
        )
    }

    /// The bytes of the first `n` pixels of row `y` when every draw is
    /// `c`.
    pub open spec fn pinned_row<H: Hittable>(self, surfaces: Seq<H>, y: u32, n: nat, c: Fixed) -> Seq<
        u8,
    >
        decreases n,
    {
        if n == 0 {
            Seq::empty()
        } else {
            self.pinned_row(surfaces, y, (n - 1) as nat, c) + self.pinned_pixel(
                surfaces,
                (n - 1) as u32,
                y,
                c,
            )
        }
    }

    /// The bytes of the first `rows` rows of the image when every draw is
    /// `c`: row after row from the top, each from left to right.
    pub open spec fn pinned_image<H: Hittable>(self, surfaces: Seq<H>, rows: nat, c: Fixed) -> Seq<
        u8,
    >
        decreases rows,
    {
        if rows == 0 {
            Seq::empty()
        } else {
            self.pinned_image(surfaces, (rows - 1) as nat, c) + self.pinned_row(
                surfaces,
                (rows - 1) as u32,
                self.image_width as nat,
                c,
            )
        }
    }

    /// Sets up the camera that the options describe. Each of `w` and `u`
    /// has unit length, but for the rounding of its components.
    pub fn new(options: RenderOptions) -> (r: Renderer)
        requires
            options.valid(),
        ensures
            r == Renderer::derived(options),
            r.wf(),
            r.w.within(SCALE as int),
            r.u.within(SCALE as int),
            SCALE * SCALE - 6 * SCALE <= r.w.norm_squared() <= SCALE * SCALE + 2 * SCALE + 1,
            SCALE * SCALE - 6 * SCALE <= r.u.norm_squared() <= SCALE * SCALE + 2 * SCALE + 1,
    {
        let two: Fixed = Fixed::from_int(2);
        let image_height: u32 = image_height(options.image_width, options.aspect_ratio);
        let width: Fixed = Fixed::from_int(options.image_width as i64);
        let height: Fixed = Fixed::from_int(image_height as i64);

        let viewport_height: Fixed = options.viewport_height();
        let viewport_width: Fixed = options.viewport_width();

        let w: Vec3 = (options.lookfrom - options.lookat).unit_vector();
        let u: Vec3 = options.vup.cross(&w).unit_vector();
        let v: Vec3 = w.cross(&u);

        let viewport_u: Vec3 = viewport_width * u;
        let viewport_v: Vec3 = viewport_height * v.inverse();

        let pixel_delta_u: Vec3 = viewport_u / width;
        let pixel_delta_v: Vec3 = viewport_v / height;

        let viewport_upper_left: Vec3 = options.lookfrom - options.focus_dist * w - viewport_u / two
            - viewport_v / two;
        let pixel00_loc: Vec3 = viewport_upper_left + Fixed::from_raw(SCALE / 2) * (pixel_delta_u
            + pixel_delta_v);

        let defocus_radius: Fixed = options.defocus_radius();
        proof {
            lemma_product_bounded(w.y, u.z, SCALE as int, SCALE as int);
            lemma_product_bounded(w.z, u.y, SCALE as int, SCALE as int);
            lemma_product_bounded(w.z, u.x, SCALE as int, SCALE as int);
            lemma_product_bounded(w.x, u.z, SCALE as int, SCALE as int);
            lemma_product_bounded(w.x, u.y, SCALE as int, SCALE as int);
            lemma_product_bounded(w.y, u.x, SCALE as int, SCALE as int);
            assert(v.within(2 * SCALE));
            lemma_product_bounded(u.x, defocus_radius, SCALE as int, LENS_REACH as int);
            lemma_product_bounded(u.y, defocus_radius, SCALE as int, LENS_REACH as int);
            lemma_product_bounded(u.z, defocus_radius, SCALE as int, LENS_REACH as int);
            lemma_product_bounded(v.x, defocus_radius, 2 * SCALE, LENS_REACH as int);
            lemma_product_bounded(v.y, defocus_radius, 2 * SCALE, LENS_REACH as int);
            lemma_product_bounded(v.z, defocus_radius, 2 * SCALE, LENS_REACH as int);
        }

        Renderer {
            aspect_ratio: options.aspect_ratio,
            image_width: options.image_width,
            image_height,
            center: options.lookfrom,
            pixel00_loc,
            pixel_delta_u,
            pixel_delta_v,
            samples_per_pixel: options.samples_per_pixel,
            max_depth: options.max_depth,
            vfov: options.vfov,
            lookfrom: options.lookfrom,
            lookat: options.lookat,
            vup: options.vup,
            u,
            v,
            w,
            sky_color: options.sky_color,
            defocus_angle: options.defocus_angle,
            focus_dist: options.focus_dist,
            defocus_disk_u: u * defocus_radius,
            defocus_disk_v: v * defocus_radius,
        }
    }

    /// The offset of a sample from the centre of its pixel.
    pub fn jitter(&self, jitter_x: Fixed, jitter_y: Fixed) -> (offset: Vec3)
        ensures
            offset == self.jitter_spec(jitter_x, jitter_y),
    {
        let half: Fixed = Fixed::from_raw(-(SCALE / 2));
        let px: Fixed = half + jitter_x;
        let py: Fixed = half + jitter_y;
        px * self.pixel_delta_u + py * self.pixel_delta_v
    }

    /// The point of the lens that the point `p` of the unit disk stands
    /// for.
    pub fn lens_point(&self, p: Vec3) -> (origin: Vec3)
        ensures
            origin == self.lens_spec(p),
    {
        self.center + p.x * self.defocus_disk_u + p.y * self.defocus_disk_v
    }

    /// Draws an offset within one pixel around its centre.
    pub fn pixel_sample_square(&self, sampler: &mut Sampler) -> (offset: Vec3)
        ensures
            final(sampler).pinned() == old(sampler).pinned(),
            exists|jitter_x: Fixed, jitter_y: Fixed|
                0 <= jitter_x@ < SCALE && 0 <= jitter_y@ < SCALE && offset == #[trigger] self.jitter_spec(
                    jitter_x,
                    jitter_y,
                ),
            old(sampler).pinned() matches Some(c) ==> offset == self.jitter_spec(c, c),
    {
        let jitter_x: Fixed = sampler.next_unit();
        let jitter_y: Fixed = sampler.next_unit();
        self.jitter(jitter_x, jitter_y)
    }

    /// Draws a point of the lens.
    pub fn defocus_disk_sample(&self, sampler: &mut Sampler) -> (origin: Vec3)
        ensures
            final(sampler).pinned() == old(sampler).pinned(),
            exists|p: Vec3| Vec3::is_in_unit_disk(p) && origin == #[trigger] self.lens_spec(p),
            old(sampler).pinned() matches Some(c) ==> origin == self.lens_spec(
                Vec3::pinned_in_unit_disk(c),
            ),
    {
        let p: Vec3 = Vec3::random_in_unit_disk(sampler);
        self.lens_point(p)
    }

    /// Draws a ray through pixel `(u, v)`: towards a point drawn within
    /// the pixel, from the centre of the camera or, where the defocus
    /// angle is positive, from a point drawn on the lens. The ray of a
    /// well-formed camera is within the reach of the intersection test.
    pub fn sample_ray(&self, u: u32, v: u32, sampler: &mut Sampler) -> (ray: Ray)
        ensures
            final(sampler).pinned() == old(sampler).pinned(),
            self.is_sample_ray(u, v, ray),
            self.defocus_angle@ <= 0 ==> ray.origin == self.center,
            self.wf() ==> ray.in_reach(),
            old(sampler).pinned() matches Some(c) ==> ray == self.pinned_ray(u, v, c),
    {
        let pixel_center: Vec3 = self.pixel00_loc + self.pixel_delta_u * Fixed::from_int(u as i64)
            + self.pixel_delta_v * Fixed::from_int(v as i64);
        let offset: Vec3 = self.pixel_sample_square(sampler);
        let pixel_sample: Vec3 = pixel_center + offset;
        let ghost mut p = Vec3::zero_spec();
        proof {
            lemma_zero_is_drawn_unit();
        }

        let ray_origin: Vec3 = if self.defocus_angle.le(Fixed::zero()) {
            self.center
        } else {
            let origin: Vec3 = self.defocus_disk_sample(sampler);
            proof {
                p = choose|p: Vec3|
                    Vec3::is_in_unit_disk(p) && origin == #[trigger] self.lens_spec(p);
            }
            origin
        };
        let ray_direction: Vec3 = pixel_sample - ray_origin;
        let ray: Ray = ray_origin.with_direction(ray_direction);
        proof {
            let (jitter_x, jitter_y) = choose|jitter_x: Fixed, jitter_y: Fixed|
                0 <= jitter_x@ < SCALE && 0 <= jitter_y@ < SCALE && offset == #[trigger] self.jitter_spec(
                    jitter_x,
                    jitter_y,
                );
            assert(ray == self.ray_through_spec(u, v, jitter_x, jitter_y, p));
            if self.wf() {
                lemma_sample_rays_within_reach(*self, u, v, ray);
            }
        }
        ray
    }

    /// The light that arrives along a ray, followed for at most `depth`
    /// bounces. A ray beyond the reach of the intersection test carries
    /// none.
    pub fn ray_color<H: Hittable>(
        &self,
        ray: &Ray,
        scene: &Scene<H>,
        depth: u8,
        sampler: &mut Sampler,
    ) -> (color: Vec3)
        requires
            scene.wf(),
        ensures
            final(sampler).pinned() == old(sampler).pinned(),
            exists|draws: Seq<(Vec3, Fixed)>|
                is_draws(draws, depth as nat) && color == #[trigger] self.ray_color_with(
                    scene.hittables@,
                    *ray,
                    depth as nat,
                    draws,
                ),
            depth == 0 || !ray.in_reach() ==> color == Vec3::zero_spec(),
            depth > 0 && ray.in_reach() && scene.hit_spec(*ray, hit_range()) is None ==> color
                == background_spec(self.sky_color, *ray),
            old(sampler).pinned() matches Some(c) ==> color == self.ray_color_spec(
                scene.hittables@,
                *ray,
                depth as nat,
                c,
            ),
        decreases depth,
    {
        let ghost surfaces = scene.hittables@;
        let ghost d = depth as nat;
        let ghost pin = sampler.pinned();
        proof {
            lemma_zero_is_drawn_unit();
            assert(is_draws(idle_draws(d), d));
        }
        let mut intersection: Intersection = Intersection::default();

        if depth == 0 || !ray.is_in_reach() {
            proof {
                assert(Vec3::zero_spec() == self.ray_color_with(surfaces, *ray, d, idle_draws(d)));
                if let Some(c) = pin {
                    assert(Vec3::zero_spec() == self.ray_color_with(
                        surfaces,
                        *ray,
                        d,
                        pinned_draws(d, c),
                    ));
                }
            }
            return Vec3::default();
        }
        let range: Interval = Interval::new(Fixed::from_raw(SHADOW_BIAS), Fixed::max_value());
        if scene.hit(ray, &range, &mut intersection) {
            let mut scattered: Ray = Ray::default();
            let mut attenuation: Vec3 = Vec3::default();
            let scatters: bool = scatter(
                intersection.material,
                ray,
                &intersection,
                &mut attenuation,
                &mut scattered,
                sampler,
            );
            let ghost (unit, chance) = choose|unit: Vec3, chance: Fixed|
                Vec3::is_drawn_unit(unit) && 0 <= chance@ < SCALE && (
                    scatters,
                    attenuation,
                    scattered,
                ) == #[trigger] scatter_spec(intersection.material, *ray, intersection, unit, chance);
            proof {
                if let Some(c) = pin {
                    let all = pinned_draws(d, c);
                    assert(all[0] == (pinned_unit(c), c));
                    assert(all.drop_first() =~= pinned_draws((d - 1) as nat, c));
                }
            }
            if scatters {
                let inner: Vec3 = self.ray_color(&scattered, scene, depth - 1, sampler);
                let color: Vec3 = attenuation * inner;
                proof {
                    assert((depth - 1) as nat == (d - 1) as nat);
                    let rest = choose|draws: Seq<(Vec3, Fixed)>|
                        is_draws(draws, (d - 1) as nat) && inner == #[trigger] self.ray_color_with(
                            surfaces,
                            scattered,
                            (d - 1) as nat,
                            draws,
                        );
                    let draws = seq![(unit, chance)] + rest;
                    assert(draws[0] == (unit, chance));
                    assert(draws.drop_first() =~= rest);
                    assert(is_draws(draws, d));
                    assert(color == self.ray_color_with(surfaces, *ray, d, draws));
                }
                return color;
            }
            proof {
                let draws = seq![(unit, chance)] + idle_draws((d - 1) as nat);
                assert(draws[0] == (unit, chance));
                assert(is_draws(draws, d));
                assert(Vec3::zero_spec() == self.ray_color_with(surfaces, *ray, d, draws));
            }
            return Vec3::default();
        }
        proof {
            assert(background_spec(self.sky_color, *ray) == self.ray_color_with(
                surfaces,
                *ray,
                d,
                idle_draws(d),
            ));
        }
        background(self.sky_color, ray)
    }

    /// The bytes of a colour summed over the samples of a pixel: each
    /// channel is averaged, its square root taken, and turned into a byte.
    pub fn raw_color(&self, color: Vec3) -> (rgb: [u8; 3])
        requires
            self.samples_per_pixel > 0,
        ensures
            rgb@ == raw_color_spec(color, self.samples_per_pixel),
    {
        let samples: Fixed = Fixed::from_int(self.samples_per_pixel as i64);
        let r: Fixed = (color.x / samples).sqrt_or_zero();
        let g: Fixed = (color.y / samples).sqrt_or_zero();
        let b: Fixed = (color.z / samples).sqrt_or_zero();
        let rgb: [u8; 3] = [to_byte(r), to_byte(g), to_byte(b)];
        assert(rgb@ =~= raw_color_spec(color, self.samples_per_pixel));
        rgb
    }

    /// Renders pixel `(x, y)`: the average of the light along
    /// `samples_per_pixel` rays drawn through it, as bytes.
    pub fn render_pixel<H: Hittable>(
        &self,
        scene: &Scene<H>,
        x: u32,
        y: u32,
        sampler: &mut Sampler,
    ) -> (rgb: [u8; 3])
        requires
            self.wf(),
            scene.wf(),
        ensures
            final(sampler).pinned() == old(sampler).pinned(),
            self.is_pixel(scene.hittables@, x, y, rgb@),
            old(sampler).pinned() matches Some(c) ==> rgb@ == self.pinned_pixel(
                scene.hittables@,
                x,
                y,
                c,
            ),
    {
        let ghost pin = sampler.pinned();
        let ghost mut colors: Seq<Vec3> = Seq::empty();
        proof {
            reveal(Renderer::pinned_pixel);
            reveal(Renderer::is_pixel);
        }
        let mut pixel_color: Vec3 = Vec3::default();
        let mut sample: u32 = 0;
        while sample < self.samples_per_pixel
            invariant
                sample <= self.samples_per_pixel,
                scene.wf(),
                sampler.pinned() == pin,
                pin == old(sampler).pinned(),
                colors.len() == sample,
                forall|k: int|
                    0 <= k < colors.len() ==> self.is_sample_color(
                        scene.hittables@,
                        x,
                        y,
                        #[trigger] colors[k],
                    ),
                pixel_color == total(colors),
                pin matches Some(c) ==> pixel_color == repeated_sum(
                    self.ray_color_spec(
                        scene.hittables@,
                        self.pinned_ray(x, y, c),
                        self.max_depth as nat,
                        c,
                    ),
                    sample as nat,
                ),
            decreases self.samples_per_pixel - sample,
        {
            let sample_ray: Ray = self.sample_ray(x, y, sampler);
            let color: Vec3 = self.ray_color(&sample_ray, scene, self.max_depth, sampler);
            proof {
                let draws = choose|draws: Seq<(Vec3, Fixed)>|
                    is_draws(draws, self.max_depth as nat) && color == #[trigger] self.ray_color_with(
                        scene.hittables@,
                        sample_ray,
                        self.max_depth as nat,
                        draws,
                    );
                assert(self.is_sample_ray(x, y, sample_ray) && is_draws(
                    draws,
                    self.max_depth as nat,
                ) && color == self.ray_color_with(
                    scene.hittables@,
                    sample_ray,
                    self.max_depth as nat,
                    draws,
                ));
                assert(self.is_sample_color(scene.hittables@, x, y, color));
                assert(colors.push(color).drop_last() =~= colors);
                colors = colors.push(color);
            }
            pixel_color = pixel_color + color;
            sample = sample + 1;
        }
        let rgb: [u8; 3] = self.raw_color(pixel_color);
        proof {
            assert(rgb@ == raw_color_spec(total(colors), self.samples_per_pixel));
        }
        rgb
    }

    /// Renders row `y` from left to right.
    pub fn render_scanline<H: Hittable>(
        &self,
        scene: &Scene<H>,
        y: u32,
        sampler: &mut Sampler,
    ) -> (scanline: Vec<[u8; 3]>)
        requires
            self.wf(),
            scene.wf(),
        ensures
            final(sampler).pinned() == old(sampler).pinned(),
            scanline.len() == self.image_width,
            forall|x: int|
                0 <= x < self.image_width ==> self.is_pixel(
                    scene.hittables@,
                    x as u32,
                    y,
                    (#[trigger] scanline[x])@,
                ),
            old(sampler).pinned() matches Some(c) ==> forall|x: int|
                0 <= x < self.image_width ==> (#[trigger] scanline[x])@ == self.pinned_pixel(
                    scene.hittables@,
                    x as u32,
                    y,
                    c,
                ),
    {
        let ghost pin = sampler.pinned();
        let mut scanline: Vec<[u8; 3]> = Vec::new();
        let mut x: u32 = 0;
        while x < self.image_width
            invariant
                x <= self.image_width,
                self.wf(),
                scene.wf(),
                sampler.pinned() == pin,
                pin == old(sampler).pinned(),
                scanline.len() == x,
                forall|k: int|
                    0 <= k < x ==> self.is_pixel(
                        scene.hittables@,
                        k as u32,
                        y,
                        (#[trigger] scanline[k])@,
                    ),
                pin matches Some(c) ==> forall|k: int|
                    0 <= k < x ==> (#[trigger] scanline[k])@ == self.pinned_pixel(
                        scene.hittables@,
                        k as u32,
                        y,
                        c,
                    ),
            decreases self.image_width - x,
        {
            let pixel: [u8; 3] = self.render_pixel(scene, x, y, sampler);
            scanline.push(pixel);
            x = x + 1;
        }
        scanline
    }

    /// Renders the image: three bytes for each pixel, row after row from
    /// the top, each row from left to right.
    pub fn render<H: Hittable>(&self, scene: &Scene<H>, sampler: &mut Sampler) -> (bytes: Vec<u8>)
        requires
            self.wf(),
            scene.wf(),
        ensures
            final(sampler).pinned() == old(sampler).pinned(),
            bytes.len() == 3 * (self.image_width * self.image_height),
            forall|x: u32, y: u32|
                x < self.image_width && y < self.image_height ==> self.is_pixel(
                    scene.hittables@,
                    x,
                    y,
                    #[trigger] self.pixel_at(bytes@, x, y),
                ),
            old(sampler).pinned() matches Some(c) ==> bytes@ == self.pinned_image(
                scene.hittables@,
                self.image_height as nat,
                c,
            ),
            old(sampler).pinned() matches Some(c) ==> forall|x: u32, y: u32|
                x < self.image_width && y < self.image_height ==> #[trigger] self.pixel_at(
                    bytes@,
                    x,
                    y,
                ) == self.pinned_pixel(scene.hittables@, x, y, c),
    {
        let ghost pin = sampler.pinned();
        proof {
            if let Some(c) = pin {
                assert forall|x: u32, y: u32|
                    x < self.image_width && y < self.image_height implies #[trigger] self.pixel_at(
                    self.pinned_image(scene.hittables@, self.image_height as nat, c),
                    x,
                    y,
                ) == self.pinned_pixel(scene.hittables@, x, y, c) by {
                    lemma_pinned_image_layout(
                        *self,
                        scene.hittables@,
                        self.image_height as nat,
                        c,
                        x,
                        y,
                    );
                }
            }
        }
        let mut bytes: Vec<u8> = Vec::new();
        let mut y: u32 = 0;
        while y < self.image_height
            invariant
                y <= self.image_height,
                self.wf(),
                scene.wf(),
                sampler.pinned() == pin,
                pin == old(sampler).pinned(),
                bytes.len() == 3 * (self.image_width * y),
                forall|x2: u32, y2: u32|
                    x2 < self.image_width && y2 < y ==> self.is_pixel(
                        scene.hittables@,
                        x2,
                        y2,
                        #[trigger] self.pixel_at(bytes@, x2, y2),
                    ),
                pin matches Some(c) ==> bytes@ == self.pinned_image(scene.hittables@, y as nat, c),
            decreases self.image_height - y,
        {
            let scanline: Vec<[u8; 3]> = self.render_scanline(scene, y, sampler);
            let ghost before = bytes@;
            self.append_scanline(scene, &mut bytes, &scanline, y, Ghost(pin));
            proof {
                let w = self.image_width as int;
                let row = w * y;
                assert(w * (y + 1) == row + w) by (nonlinear_arith)
                    requires
                        row == w * y,
                ;
                assert forall|x2: u32, y2: u32|
                    x2 < self.image_width && y2 < y + 1 implies self.is_pixel(
                    scene.hittables@,
                    x2,
                    y2,
                    #[trigger] self.pixel_at(bytes@, x2, y2),
                ) by {
                    if y2 < y {
                        assert(w * y2 + w <= w * y) by (nonlinear_arith)
                            requires
                                y2 + 1 <= y,
                                w >= 0,
                        ;
                        assert(self.pixel_at(bytes@, x2, y2) =~= self.pixel_at(before, x2, y2));
                    } else {
                        assert(self.offset(x2, y2) == before.len() + 3 * x2);
                        assert(self.pixel_at(bytes@, x2, y2) == scanline[x2 as int]@);
                    }
                }
            }
            y = y + 1;
        }
        bytes
    }

    /// Appends the bytes of row `y` to the rows above it.
    fn append_scanline<H: Hittable>(
        &self,
        scene: &Scene<H>,
        bytes: &mut Vec<u8>,
        scanline: &Vec<[u8; 3]>,
        y: u32,
        Ghost(pin): Ghost<Option<Fixed>>,
    )
        requires
            scanline.len() == self.image_width,
            pin matches Some(c) ==> old(bytes)@ == self.pinned_image(scene.hittables@, y as nat, c),
            pin matches Some(c) ==> forall|k: int|
                0 <= k < self.image_width ==> (#[trigger] scanline[k])@ == self.pinned_pixel(
                    scene.hittables@,
                    k as u32,
                    y,
                    c,
                ),
        ensures
            final(bytes).len() == old(bytes).len() + 3 * self.image_width,
            final(bytes)@.subrange(0, old(bytes).len() as int) == old(bytes)@,
            forall|k: int|
                0 <= k < self.image_width ==> final(bytes)@.subrange(
                    old(bytes).len() + 3 * k,
                    old(bytes).len() + 3 * k + 3,
                ) == (#[trigger] scanline[k])@,
            pin matches Some(c) ==> final(bytes)@ == self.pinned_image(
                scene.hittables@,
                (y + 1) as nat,
                c,
            ),
    {
        let ghost before = bytes@;
        let mut x: u32 = 0;
        proof {
            if let Some(c) = pin {
                assert(bytes@ =~= before + self.pinned_row(scene.hittables@, y, 0, c));
            }
            assert(bytes@.subrange(0, before.len() as int) =~= before);
        }
        while x < self.image_width
            invariant
                x <= self.image_width,
                scanline.len() == self.image_width,
                bytes.len() == before.len() + 3 * x,
                bytes@.subrange(0, before.len() as int) == before,
                forall|k: int|
                    0 <= k < x ==> bytes@.subrange(before.len() + 3 * k, before.len() + 3 * k + 3)
                        == (#[trigger] scanline[k])@,
                pin matches Some(c) ==> forall|k: int|
                    0 <= k < self.image_width ==> (#[trigger] scanline[k])@ == self.pinned_pixel(
                        scene.hittables@,
                        k as u32,
                        y,
                        c,
                    ),
                pin matches Some(c) ==> bytes@ == before + self.pinned_row(
                    scene.hittables@,
                    y,
                    x as nat,
                    c,
                ),
            decreases self.image_width - x,
        {
            let pixel: [u8; 3] = scanline[x as usize];
            let ghost row = bytes@;
            bytes.push(pixel[0]);
            bytes.push(pixel[1]);
            bytes.push(pixel[2]);
            proof {
                assert(bytes@ =~= row + pixel@);
                assert(bytes@.subrange(0, before.len() as int) =~= row.subrange(
                    0,
                    before.len() as int,
                ));
                assert(bytes@.subrange(before.len() + 3 * x, before.len() + 3 * x + 3) =~= pixel@);
                assert forall|k: int| 0 <= k < x implies bytes@.subrange(
                    before.len() + 3 * k,
                    before.len() + 3 * k + 3,
                ) == (#[trigger] scanline[k])@ by {
                    assert(bytes@.subrange(before.len() + 3 * k, before.len() + 3 * k + 3)
                        =~= row.subrange(before.len() + 3 * k, before.len() + 3 * k + 3));
                }
                if let Some(c) = pin {
                    assert(pixel@ == self.pinned_pixel(scene.hittables@, x, y, c));
                    assert(before + self.pinned_row(scene.hittables@, y, x as nat, c) + pixel@
                        =~= before + (self.pinned_row(scene.hittables@, y, x as nat, c)
                        + pixel@));
                }
            }
            x = x + 1;
        }
    }
}

/// Every point of the lens of a well-formed camera lies where rays may
/// start.
pub proof fn lemma_lens_within_reach(r: Renderer, p: Vec3)
    requires
        r.wf(),
        Vec3::is_in_unit_disk(p),
    ensures
        r.lens_spec(p).within(ORIGIN_REACH as int),
{
    lemma_short_vector_within(p);
    lemma_product_bounded(r.defocus_disk_u.x, p.x, LENS_REACH as int, SCALE as int);
    lemma_product_bounded(r.defocus_disk_u.y, p.x, LENS_REACH as int, SCALE as int);
    lemma_product_bounded(r.defocus_disk_u.z, p.x, LENS_REACH as int, SCALE as int);
    lemma_product_bounded(r.defocus_disk_v.x, p.y, 2 * LENS_REACH, SCALE as int);
    lemma_product_bounded(r.defocus_disk_v.y, p.y, 2 * LENS_REACH, SCALE as int);
    lemma_product_bounded(r.defocus_disk_v.z, p.y, 2 * LENS_REACH, SCALE as int);
}

/// Every ray that a well-formed camera can draw through a pixel is within
/// the reach of the intersection test.
pub proof fn lemma_sample_rays_within_reach(r: Renderer, u: u32, v: u32, ray: Ray)
    requires
        r.wf(),
        r.is_sample_ray(u, v, ray),
    ensures
        ray.in_reach(),
{
    let (jitter_x, jitter_y, p) = choose|jitter_x: Fixed, jitter_y: Fixed, p: Vec3|
        0 <= jitter_x@ < SCALE && 0 <= jitter_y@ < SCALE && Vec3::is_in_unit_disk(p) && ray
            == #[trigger] r.ray_through_spec(u, v, jitter_x, jitter_y, p);
    lemma_lens_within_reach(r, p);
}

/// Pinned draws are draws: what a pinned sampler makes the renderer
/// compute is among what any sampler can make it compute.
pub proof fn lemma_pinned_draws_are_draws(n: nat, c: Fixed)
    requires
        0 <= c@ < SCALE,
    ensures
        is_draws(pinned_draws(n, c), n),
{
    let p = Vec3::pinned_in_unit_sphere(c);
    crate::vec3::lemma_zero_length();
    assert(p.length_squared_spec()@ < SCALE && pinned_unit(c) == p.unit_or_zero());
    assert(is_draw((pinned_unit(c), c)));
}

/// A pixel has three bytes.
pub proof fn lemma_pinned_pixel_len<H: Hittable>(
    renderer: Renderer,
    surfaces: Seq<H>,
    x: u32,
    y: u32,
    c: Fixed,
)
    ensures
        renderer.pinned_pixel(surfaces, x, y, c).len() == 3,
{
    reveal(Renderer::pinned_pixel);
}

/// A row of pixels has three bytes for each pixel.
pub proof fn lemma_pinned_row_len<H: Hittable>(
    renderer: Renderer,
    surfaces: Seq<H>,
    y: u32,
    n: nat,
    c: Fixed,
)
    ensures
        renderer.pinned_row(surfaces, y, n, c).len() == 3 * n,
    decreases n,
{
    if n > 0 {
        lemma_pinned_row_len(renderer, surfaces, y, (n - 1) as nat, c);
        lemma_pinned_pixel_len(renderer, surfaces, (n - 1) as u32, y, c);
    }
}

/// In a row, the bytes of pixel `x` stand at `3 x`.
pub proof fn lemma_pinned_row_layout<H: Hittable>(
    renderer: Renderer,
    surfaces: Seq<H>,
    y: u32,
    n: nat,
    c: Fixed,
    x: u32,
)
    requires
        x < n,
    ensures
        renderer.pinned_row(surfaces, y, n, c).subrange(3 * x, 3 * x + 3) == renderer.pinned_pixel(
            surfaces,
            x,
            y,
            c,
        ),
    decreases n,
{
    let front = renderer.pinned_row(surfaces, y, (n - 1) as nat, c);
    let pixel = renderer.pinned_pixel(surfaces, (n - 1) as u32, y, c);
    lemma_pinned_row_len(renderer, surfaces, y, (n - 1) as nat, c);
    lemma_pinned_pixel_len(renderer, surfaces, (n - 1) as u32, y, c);
    if x == n - 1 {
        assert((front + pixel).subrange(3 * x, 3 * x + 3) =~= pixel);
    } else {
        lemma_pinned_row_layout(renderer, surfaces, y, (n - 1) as nat, c, x);
        assert((front + pixel).subrange(3 * x, 3 * x + 3) =~= front.subrange(3 * x, 3 * x + 3));
    }
}

/// An image of `rows` rows has three bytes for each of its pixels.
pub proof fn lemma_pinned_image_len<H: Hittable>(
    renderer: Renderer,
    surfaces: Seq<H>,
    rows: nat,
    c: Fixed,
)
    ensures
        renderer.pinned_image(surfaces, rows, c).len() == 3 * (renderer.image_width * rows),
    decreases rows,
{
    let w = renderer.image_width as int;
    if rows > 0 {
        lemma_pinned_image_len(renderer, surfaces, (rows - 1) as nat, c);
        lemma_pinned_row_len(renderer, surfaces, (rows - 1) as u32, w as nat, c);
        assert(w * rows == w * (rows - 1) + w) by (nonlinear_arith);
    } else {
        assert(w * 0 == 0);
    }
}

/// The image is in raster order: the bytes of pixel `(x, y)` stand at
/// `3 (width y + x)`.
pub proof fn lemma_pinned_image_layout<H: Hittable>(
    renderer: Renderer,
    surfaces: Seq<H>,
    rows: nat,
    c: Fixed,
    x: u32,
    y: u32,
)
    requires
        x < renderer.image_width,
        y < rows,
    ensures
        renderer.pinned_image(surfaces, rows, c).subrange(
            3 * (renderer.image_width * y + x),
            3 * (renderer.image_width * y + x) + 3,
        ) == renderer.pinned_pixel(surfaces, x, y, c),
    decreases rows,
{
    let w = renderer.image_width as int;
    let above = renderer.pinned_image(surfaces, (rows - 1) as nat, c);
    let row = renderer.pinned_row(surfaces, (rows - 1) as u32, w as nat, c);
    let at = 3 * (w * y + x);
    lemma_pinned_image_len(renderer, surfaces, (rows - 1) as nat, c);
    lemma_pinned_row_len(renderer, surfaces, (rows - 1) as u32, w as nat, c);
    if y == rows - 1 {
        lemma_pinned_row_layout(renderer, surfaces, y, w as nat, c, x);
        assert(above.len() == 3 * (w * y));
        assert((above + row).subrange(at, at + 3) =~= row.subrange(3 * x, 3 * x + 3));
    } else {
        lemma_pinned_image_layout(renderer, surfaces, (rows - 1) as nat, c, x, y);
        assert(w * y + w <= w * (rows - 1)) by (nonlinear_arith)
            requires
                y + 1 <= rows - 1,
                w >= 0,
        ;
        assert((above + row).subrange(at, at + 3) =~= above.subrange(at, at + 3));
    }
}

} // verus!
