//! Colors and the radiance estimator. A `Color` holds unbounded linear
//! fixed-point channels, accumulated per pixel across samples and then
//! consumed once by the encoder, which averages, applies gamma-2
//! correction, clamps to `[0, 0.999]`, and quantizes to 8-bit channels.

use vstd::prelude::*;

use crate::fixed::{
    clamp, clamp_spec, fits64, fmul, fsqrt, fx_div_int, fx_mul, fx_sqrt, lemma_fmul_bound,
    lemma_fmul_one, lemma_fmul_unit_range, lemma_sdiv_mono, sdiv, SCALE,
};
use crate::material::{scatter, scatter_spec};
use crate::objects::{list_hit_spec, list_wf, Object, ObjectList};
use crate::ray::{ray_wf, Ray, T_FAR};
use crate::vec3::{lemma_unit_comp_bound, unit_wf, UnitVec3};

verus! {

/// The near end of the radiance search window: excludes spurious
/// self-intersections at the origin of a freshly scattered ray.
pub const SHADOW_ACNE_MIN: i64 = 1_000_000;

/// An RGB radiance triple with unbounded linear fixed-point channels.
#[derive(Clone, Copy, Debug, PartialEq, Eq, Structural)]
pub struct Color {
    pub r: i64,
    pub g: i64,
    pub b: i64,
}

/// All three channels lie in the unit interval `[0, 1]`.
pub open spec fn color_in_unit(c: Color) -> bool {
    0 <= c.r <= SCALE && 0 <= c.g <= SCALE && 0 <= c.b <= SCALE
}

/// One channel of the pixel encoding: average over the sample count,
/// gamma-2 correct by a fixed-point square root, clamp to `[0, 0.999]`,
/// scale by 256 and truncate.
pub open spec fn encode_channel(c: int, samples: int) -> int {
    sdiv(clamp_spec(fsqrt(sdiv(c, samples)), 0, 999_000_000) * 256, SCALE as int)
}

impl Color {
    /// Bundle three fixed-point channels into a color.
    pub fn new(r: i64, g: i64, b: i64) -> (c: Color)
        ensures
            c == (Color { r, g, b }),
    {
        Color { r, g, b }
    }

    /// The red channel.
    pub fn r(&self) -> (v: i64)
        ensures
            v == self.r,
    {
        self.r
    }

    /// The green channel.
    pub fn g(&self) -> (v: i64)
        ensures
            v == self.g,
    {
        self.g
    }

    /// The blue channel.
    pub fn b(&self) -> (v: i64)
        ensures
            v == self.b,
    {
        self.b
    }

    /// Channel-wise radiance sum.
    pub fn add(self, rhs: Color) -> (c: Color)
        requires
            fits64(self.r + rhs.r),
            fits64(self.g + rhs.g),
            fits64(self.b + rhs.b),
        ensures
            c.r as int == self.r + rhs.r,
            c.g as int == self.g + rhs.g,
            c.b as int == self.b + rhs.b,
    {
        Color { r: self.r + rhs.r, g: self.g + rhs.g, b: self.b + rhs.b }
    }

    /// Channel-wise product, used for attenuation chaining.
    pub fn mul(self, rhs: Color) -> (c: Color)
        requires
            fits64(fmul(self.r as int, rhs.r as int)),
            fits64(fmul(self.g as int, rhs.g as int)),
            fits64(fmul(self.b as int, rhs.b as int)),
        ensures
            c.r as int == fmul(self.r as int, rhs.r as int),
            c.g as int == fmul(self.g as int, rhs.g as int),
            c.b as int == fmul(self.b as int, rhs.b as int),
    {
        Color { r: fx_mul(self.r, rhs.r), g: fx_mul(self.g, rhs.g), b: fx_mul(self.b, rhs.b) }
    }

    /// Scaling by a fixed-point scalar.
    pub fn mul_scalar(self, rhs: i64) -> (c: Color)
        requires
            fits64(fmul(self.r as int, rhs as int)),
            fits64(fmul(self.g as int, rhs as int)),
            fits64(fmul(self.b as int, rhs as int)),
        ensures
            c.r as int == fmul(self.r as int, rhs as int),
            c.g as int == fmul(self.g as int, rhs as int),
            c.b as int == fmul(self.b as int, rhs as int),
    {
        Color { r: fx_mul(self.r, rhs), g: fx_mul(self.g, rhs), b: fx_mul(self.b, rhs) }
    }

    /// Average the accumulated radiance over the sample count and
    /// quantize each channel to an 8-bit value; the clamp to
    /// `[0, 0.999]` caps arbitrarily large accumulations.
    pub fn write(&self, samples: i32) -> (bytes: (u8, u8, u8))
        requires
            samples >= 1,
            self.r >= 0,
            self.g >= 0,
            self.b >= 0,
        ensures
            bytes.0 as int == encode_channel(self.r as int, samples as int),
            bytes.1 as int == encode_channel(self.g as int, samples as int),
            bytes.2 as int == encode_channel(self.b as int, samples as int),
    {
        (
            encode_one(self.r, samples),
            encode_one(self.g, samples),
            encode_one(self.b, samples),
        )
    }
}

/// The environment background: a vertical gradient from white at the
/// horizon-down direction to sky blue at the zenith, blended by
/// `t = 0.5 (y + 1)` clamped to the unit interval.
pub open spec fn background_spec(dir: UnitVec3) -> Color {
    let t = clamp_spec(fmul(500_000_000int, dir.y + SCALE), 0, SCALE as int);
    Color {
        r: (fmul(SCALE as int, (SCALE as int) - t) + fmul(500_000_000int, t)) as i64,
        g: (fmul(SCALE as int, (SCALE as int) - t) + fmul(700_000_000int, t)) as i64,
        b: (fmul(SCALE as int, (SCALE as int) - t) + fmul(SCALE as int, t)) as i64,
    }
}

/// Well-formedness of a bounce trace: every sampled vector is unit and
/// every reflectance draw lies in `[0, 1)`.
pub open spec fn trace_wf(tr: Seq<(UnitVec3, int)>) -> bool {
    forall|k: int|
        0 <= k < tr.len() ==> unit_wf(#[trigger] tr[k].0) && 0 <= tr[k].1 < SCALE
}

/// Channel-wise attenuation of a radiance value.
pub open spec fn color_attenuate(att: Color, c: Color) -> Color {
    Color {
        r: fmul(att.r as int, c.r as int) as i64,
        g: fmul(att.g as int, c.g as int) as i64,
        b: fmul(att.b as int, c.b as int) as i64,
    }
}

/// The radiance rule of the estimator, deterministic in the trace of
/// scattering draws: black once the depth budget is exhausted; at the
/// nearest hit, the scatter rule under the next draw either attenuates
/// the recursive radiance of the scattered ray or absorbs to black; the
/// background gradient when nothing is hit.
pub open spec fn radiance_spec(
    ray: Ray,
    objs: Seq<Object>,
    depth: int,
    tr: Seq<(UnitVec3, int)>,
) -> Color
    decreases depth,
{
    if depth <= 0 {
        Color { r: 0, g: 0, b: 0 }
    } else {
        match list_hit_spec(objs, ray, SHADOW_ACNE_MIN as int, T_FAR as int) {
            Some(h) => match scatter_spec(ray, h, tr[0].0, tr[0].1) {
                Some(pair) => color_attenuate(
                    pair.0,
                    radiance_spec(pair.1, objs, depth - 1, tr.drop_first()),
                ),
                None => Color { r: 0, g: 0, b: 0 },
            },
            None => background_spec(ray.direction),
        }
    }
}

/// The color seen along a ray: black once the depth budget is exhausted,
/// the attenuated recursive radiance at the nearest hit, black at an
/// absorbing hit, and the background gradient when nothing is hit. The
/// result is exactly `radiance_spec` under the trace of draws the
/// scattering consumed.
pub fn ray_color(ray: &Ray, world: &ObjectList, depth: i32, rng: &mut rand::rngs::StdRng) -> (c:
    Color)
    requires
        ray_wf(*ray),
        list_wf(*world),
    ensures
        color_in_unit(c),
        exists|tr: Seq<(UnitVec3, int)>|
            trace_wf(tr) && c == radiance_spec(*ray, world.objects@, depth as int, tr),
        depth <= 0 ==> c == (Color { r: 0, g: 0, b: 0 }),
        depth > 0 && list_hit_spec(
            world.objects@,
            *ray,
            SHADOW_ACNE_MIN as int,
            T_FAR as int,
        ) is None ==> c == background_spec(ray.direction),
        depth == 1 && list_hit_spec(
            world.objects@,
            *ray,
            SHADOW_ACNE_MIN as int,
            T_FAR as int,
        ) is Some ==> c == (Color { r: 0, g: 0, b: 0 }),
    decreases depth,
{
    let ghost objs = world.objects@;
    if depth <= 0 {
        proof {
            let tr = Seq::<(UnitVec3, int)>::empty();
            assert(trace_wf(tr) && (Color { r: 0, g: 0, b: 0 }) == radiance_spec(*ray, objs,
                depth as int, tr));
        }
        return Color::new(0, 0, 0);
    }
    if let Some(hit) = world.hit(ray, SHADOW_ACNE_MIN, T_FAR) {
        if let Some((attenuation, scattered)) = scatter(ray, &hit, rng) {
            let rc: Color = ray_color(&scattered, world, depth - 1, rng);
            proof {
                lemma_fmul_unit_range(attenuation.r as int, rc.r as int);
                lemma_fmul_unit_range(attenuation.g as int, rc.g as int);
                lemma_fmul_unit_range(attenuation.b as int, rc.b as int);
                if depth == 1 {
                    crate::fixed::lemma_fmul_zero(attenuation.r as int);
                    crate::fixed::lemma_fmul_zero(attenuation.g as int);
                    crate::fixed::lemma_fmul_zero(attenuation.b as int);
                }
            }
            let out: Color = attenuation.mul(rc);
            proof {
                let (u, d): (UnitVec3, int) = choose|u: UnitVec3, d: int|
                    unit_wf(u) && 0 <= d < SCALE && Some((attenuation, scattered))
                        == scatter_spec(*ray, hit, u, d);
                let tr2 = choose|tr2: Seq<(UnitVec3, int)>|
                    trace_wf(tr2) && rc == radiance_spec(scattered, objs, depth - 1, tr2);
                let tr = seq![(u, d)] + tr2;
                assert(tr[0] == (u, d));
                assert(tr.drop_first() =~= tr2);
                assert(trace_wf(tr)) by {
                    assert forall|k: int| 0 <= k < tr.len() implies unit_wf(#[trigger] tr[k].0)
                        && 0 <= tr[k].1 < SCALE by {
                        if k > 0 {
                            assert(tr[k] == tr2[k - 1]);
                        }
                    }
                }
                assert(out == color_attenuate(attenuation, rc));
                assert(out == radiance_spec(*ray, objs, depth as int, tr));
            }
            return out;
        } else {
            proof {
                let (u, d): (UnitVec3, int) = choose|u: UnitVec3, d: int|
                    unit_wf(u) && 0 <= d < SCALE && None::<(Color, Ray)> == scatter_spec(*ray,
                        hit, u, d);
                let tr = seq![(u, d)];
                assert(tr[0] == (u, d));
                assert(trace_wf(tr));
                assert((Color { r: 0, g: 0, b: 0 }) == radiance_spec(*ray, objs, depth as int,
                    tr));
            }
            return Color::new(0, 0, 0);
        }
    }
    proof {
        lemma_unit_comp_bound(ray.direction);
    }
    let t: i64 = clamp(fx_mul(500_000_000, ray.direction.y + SCALE), 0, SCALE);
    proof {
        lemma_fmul_bound(500_000_000int, ray.direction.y + (SCALE as int), 500_000_000int,
            2_000_000_016int);
        assert((500_000_000int * 2_000_000_016int) / (SCALE as int) <= 1_000_000_008int)
            by (nonlinear_arith)
            requires
                SCALE == 1_000_000_000,
        ;
        lemma_fmul_one((SCALE as int) - t);
        lemma_fmul_one(t as int);
        lemma_fmul_unit_range(500_000_000int, t as int);
        lemma_fmul_unit_range(700_000_000int, t as int);
    }
    let start_color: Color = Color::new(SCALE, SCALE, SCALE);
    let end_color: Color = Color::new(500_000_000, 700_000_000, SCALE);
    let bg: Color = start_color.mul_scalar(SCALE - t).add(end_color.mul_scalar(t));
    proof {
        let tr = Seq::<(UnitVec3, int)>::empty();
        assert(trace_wf(tr));
        assert(bg == radiance_spec(*ray, objs, depth as int, tr));
    }
    bg
}

/// A zero channel encodes to the zero byte, whatever the sample count.
pub proof fn lemma_encode_zero(samples: int)
    requires
        samples >= 1,
    ensures
        encode_channel(0, samples) == 0,
{
    vstd::arithmetic::div_mod::lemma_div_of0(samples);
    crate::fixed::lemma_sqrt_floor_unique(0, 0);
    vstd::arithmetic::div_mod::lemma_div_of0(SCALE as int);
}

/// Encode one linear channel accumulated over `samples` draws.
fn encode_one(c: i64, samples: i32) -> (byte: u8)
    requires
        samples >= 1,
        c >= 0,
    ensures
        byte as int == encode_channel(c as int, samples as int),
{
    let s64: i64 = samples as i64;
    let avg: i64 = fx_div_int(c, s64);
    proof {
        lemma_sdiv_mono(0, c as int, samples as int);
    }
    let gamma: i64 = fx_sqrt(avg);
    let cl: i64 = clamp(gamma, 0, 999_000_000);
    let scaled: i64 = cl * 256;
    let q: i64 = fx_div_int(scaled, SCALE);
    proof {
        lemma_sdiv_mono(scaled as int, 999_000_000int * 256, SCALE as int);
        assert(sdiv(999_000_000int * 256, SCALE as int) == 255);
    }
    q as u8
}

} // verus!
