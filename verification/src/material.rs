//! Surface materials: a closed variant set over diffuse, fuzzy-specular
//! and dielectric behavior. Materials are immutable values shared by the
//! objects that carry them.

use vstd::prelude::*;

use crate::color::{color_in_unit, Color};
use crate::fixed::{fdiv, fits64, fmul, fx_div, fx_mul, iabs, lemma_fmul_bound, lemma_fmul_zero,
    lemma_sdiv_abs, lemma_sdiv_mono, sdiv, SCALE};
use crate::objects::{hit_rec_wf, HitRecord};
use crate::ray::{ray_wf, Ray};
use crate::vec3::{dot3, lemma_fmul_square_nonneg, lemma_unit_comp_bound, normalize_or, raw_sq,
    reflect_spec, reflection, refract_spec, refraction, unit_of, unit_wf, FreeVec3, UnitVec3,
    NORM_QMIN};

verus! {

/// A surface scattering behavior.
#[derive(Clone, Copy, Debug, PartialEq, Eq, Structural)]
pub enum Material {
    /// Diffuse: always scatters near the surface normal, attenuating by
    /// the albedo.
    Lambertian(Color),
    /// Specular: reflects about the normal, perturbed by `fuzziness` in
    /// `[0, 1]`, attenuating by the albedo; absorbs reflections that
    /// cross to the back side.
    Metal { color: Color, fuzziness: i64 },
    /// Glass with the given refraction index: reflects or refracts,
    /// never absorbs, and never tints.
    Dielectric(i64),
}

/// Well-formedness of a material: albedo channels in the unit interval,
/// fuzziness in the unit interval, refraction index within a factor of
/// ten of one.
pub open spec fn material_wf(m: Material) -> bool {
    match m {
        Material::Lambertian(color) => color_in_unit(color),
        Material::Metal { color, fuzziness } => color_in_unit(color) && 0 <= fuzziness <= SCALE,
        Material::Dielectric(ri) => SCALE / 10 <= ri <= 10 * (SCALE as int),
    }
}

/// Schlick's approximation of Fresnel reflectance:
/// `r0 + (1 - r0) (1 - cos)^5` with `r0 = ((1 - ri) / (1 + ri))^2`.
pub open spec fn schlick_spec(cos: int, ref_idx: int) -> int {
    let r0 = fdiv((SCALE as int) - ref_idx, (SCALE as int) + ref_idx);
    let r0m = fmul(r0, r0);
    let omc = (SCALE as int) - cos;
    let p2 = fmul(omc, omc);
    let p4 = fmul(p2, p2);
    let p5 = fmul(p4, omc);
    r0m + fmul((SCALE as int) - r0m, p5)
}

/// The diffuse scatter direction vector: the surface normal displaced by
/// a random unit vector.
pub open spec fn lambertian_dir_vec(normal: UnitVec3, u: UnitVec3) -> (int, int, int) {
    (normal.x + u.x, normal.y + u.y, normal.z + u.z)
}

/// The fuzzy specular candidate direction: the mirror reflection
/// displaced by `fuzziness` times a random unit vector.
pub open spec fn metal_cand_vec(ray: Ray, normal: UnitVec3, fuzziness: int, u: UnitVec3) -> (
    int,
    int,
    int,
) {
    let refl = reflect_spec(ray.direction, normal);
    (
        refl.0 + fmul(u.x as int, fuzziness),
        refl.1 + fmul(u.y as int, fuzziness),
        refl.2 + fmul(u.z as int, fuzziness),
    )
}

/// The dielectric refraction ratio: the reciprocal of the index when the
/// ray enters from outside, the index itself when it exits.
pub open spec fn dielectric_ratio(ri: int, front_face: bool) -> int {
    if front_face {
        fdiv(SCALE as int, ri)
    } else {
        ri
    }
}

/// The clamped cosine between the reversed incoming direction and the
/// stored normal.
pub open spec fn dielectric_cos(ray: Ray, normal: UnitVec3) -> int {
    let c = dot3(
        -(ray.direction.x as int),
        -(ray.direction.y as int),
        -(ray.direction.z as int),
        normal.x as int,
        normal.y as int,
        normal.z as int,
    );
    if c > SCALE as int {
        SCALE as int
    } else {
        c
    }
}

/// Whether total internal reflection forces a reflection: the squared
/// form of `ratio * sin > 1`, so no square root is taken.
pub open spec fn dielectric_must_reflect(ratio: int, cos: int) -> bool {
    fmul(fmul(ratio, ratio), (SCALE as int) - fmul(cos, cos)) > SCALE as int
}

/// The dielectric scatter direction given the uniform reflectance draw:
/// reflect on total internal reflection or when the Schlick reflectance
/// exceeds the draw, refract otherwise; a direction too short to
/// normalize passes straight through.
pub open spec fn dielectric_dir(ray: Ray, hit: HitRecord, ri: int, draw: int) -> UnitVec3 {
    let ratio = dielectric_ratio(ri, hit.front_face);
    let cos = dielectric_cos(ray, hit.normal);
    let dvec = if dielectric_must_reflect(ratio, cos) || schlick_spec(cos, ratio) > draw {
        reflect_spec(ray.direction, hit.normal)
    } else {
        refract_spec(ray.direction, hit.normal, ratio)
    };
    normalize_or(dvec.0, dvec.1, dvec.2, ray.direction)
}

/// The deterministic specular scatter at zero fuzziness: the exact
/// mirror direction, normalized, absorbed if it crosses to the back
/// side of the surface.
pub open spec fn metal_mirror_spec(ray: Ray, hit: HitRecord, color: Color) -> Option<
    (Color, Ray),
> {
    let refl = reflect_spec(ray.direction, hit.normal);
    let dir = normalize_or(refl.0, refl.1, refl.2, ray.direction);
    if raw_sq(refl.0, refl.1, refl.2) >= NORM_QMIN as int && dot3(
        dir.x as int,
        dir.y as int,
        dir.z as int,
        hit.normal.x as int,
        hit.normal.y as int,
        hit.normal.z as int,
    ) > 0 {
        Some((color, Ray { origin: hit.p, direction: dir }))
    } else {
        None
    }
}

/// The scattering rule, deterministic in the sampled unit vector `u`
/// and the uniform reflectance draw `draw`.
pub open spec fn scatter_spec(ray: Ray, hit: HitRecord, u: UnitVec3, draw: int) -> Option<
    (Color, Ray),
> {
    match hit.material {
        Material::Lambertian(color) => {
            let sd = lambertian_dir_vec(hit.normal, u);
            let dir = normalize_or(sd.0, sd.1, sd.2, hit.normal);
            Some((color, Ray { origin: hit.p, direction: dir }))
        },
        Material::Metal { color, fuzziness } => {
            let cand = metal_cand_vec(ray, hit.normal, fuzziness as int, u);
            if raw_sq(cand.0, cand.1, cand.2) >= NORM_QMIN as int {
                let dir = unit_of(FreeVec3 { x: cand.0 as i64, y: cand.1 as i64, z: cand.2 as i64 });
                if dot3(
                    dir.x as int,
                    dir.y as int,
                    dir.z as int,
                    hit.normal.x as int,
                    hit.normal.y as int,
                    hit.normal.z as int,
                ) > 0 {
                    Some((color, Ray { origin: hit.p, direction: dir }))
                } else {
                    None
                }
            } else {
                None
            }
        },
        Material::Dielectric(ri) => {
            let dir = dielectric_dir(ray, hit, ri as int, draw);
            Some((Color { r: SCALE, g: SCALE, b: SCALE }, Ray { origin: hit.p, direction: dir }))
        },
    }
}

/// Schlick's reflectance approximation, in fixed point.
fn reflectance(cos: i64, ref_idx: i64) -> (r: i64)
    requires
        -4_000_000_000 <= cos <= SCALE,
        100_000_000 <= ref_idx <= 10_000_000_000i64,
    ensures
        r as int == schlick_spec(cos as int, ref_idx as int),
{
    let s: i64 = SCALE;
    proof {
        let den = (s + ref_idx) as int;
        let num = (s - ref_idx) as int;
        lemma_sdiv_abs(num * (SCALE as int), den);
        crate::fixed::lemma_abs_mul(num, SCALE as int, iabs(num), SCALE as int);
        assert(iabs(num) <= den) by (nonlinear_arith)
            requires
                num == (SCALE as int) - ref_idx,
                den == (SCALE as int) + ref_idx,
                ref_idx >= 100_000_000,
                SCALE == 1_000_000_000,
        ;
        vstd::arithmetic::div_mod::lemma_div_is_ordered(
            iabs(num * (SCALE as int)),
            den * (SCALE as int),
            den,
        );
        vstd::arithmetic::div_mod::lemma_div_multiples_vanish(SCALE as int, den);
    }
    let r0: i64 = fx_div(s - ref_idx, s + ref_idx);
    proof {
        lemma_fmul_bound(r0 as int, r0 as int, SCALE as int, SCALE as int);
        assert(((SCALE as int) * (SCALE as int)) / (SCALE as int) == SCALE as int)
            by (nonlinear_arith)
            requires
                SCALE == 1_000_000_000,
        ;
    }
    let r0m: i64 = fx_mul(r0, r0);
    let omc: i64 = s - cos;
    proof {
        lemma_fmul_bound(omc as int, omc as int, 5_000_000_000int, 5_000_000_000int);
        assert((5_000_000_000int * 5_000_000_000int) / (SCALE as int) == 25_000_000_000int)
            by (nonlinear_arith)
            requires
                SCALE == 1_000_000_000,
        ;
    }
    let p2: i64 = fx_mul(omc, omc);
    proof {
        lemma_fmul_bound(p2 as int, p2 as int, 25_000_000_000int, 25_000_000_000int);
        assert((25_000_000_000int * 25_000_000_000int) / (SCALE as int) == 625_000_000_000int)
            by (nonlinear_arith)
            requires
                SCALE == 1_000_000_000,
        ;
    }
    let p4: i64 = fx_mul(p2, p2);
    proof {
        lemma_fmul_bound(p4 as int, omc as int, 625_000_000_000int, 5_000_000_000int);
        assert((625_000_000_000int * 5_000_000_000int) / (SCALE as int)
            == 3_125_000_000_000int) by (nonlinear_arith)
            requires
                SCALE == 1_000_000_000,
        ;
    }
    let p5: i64 = fx_mul(p4, omc);
    proof {
        lemma_fmul_square_nonneg(r0 as int);
        lemma_sdiv_mono(0, (r0 as int) * (r0 as int), SCALE as int);
        lemma_fmul_bound((SCALE as int) - r0m as int, p5 as int, SCALE as int,
            3_125_000_000_000int);
        assert(((SCALE as int) * 3_125_000_000_000int) / (SCALE as int) == 3_125_000_000_000int)
            by (nonlinear_arith)
            requires
                SCALE == 1_000_000_000,
        ;
    }
    r0m + fx_mul(s - r0m, p5)
}

/// Scatter an incoming ray at a hit: the material decides whether the
/// ray continues, and with what attenuation and new direction. `None`
/// signals full absorption.
pub fn scatter(ray: &Ray, hit: &HitRecord, rng: &mut rand::rngs::StdRng) -> (r: Option<
    (Color, Ray),
>)
    requires
        ray_wf(*ray),
        hit_rec_wf(*hit),
    ensures
        exists|u: UnitVec3, draw: int|
            unit_wf(u) && 0 <= draw < SCALE && r == scatter_spec(*ray, *hit, u, draw),
        match r {
            Some(pair) => ray_wf(pair.1) && pair.1.origin == hit.p && color_in_unit(pair.0),
            None => true,
        },
        match hit.material {
            Material::Lambertian(color) => r matches Some(pair) && pair.0 == color,
            Material::Metal { color, fuzziness } => (match r {
                Some(pair) => pair.0 == color && dot3(
                    pair.1.direction.x as int,
                    pair.1.direction.y as int,
                    pair.1.direction.z as int,
                    hit.normal.x as int,
                    hit.normal.y as int,
                    hit.normal.z as int,
                ) > 0,
                None => true,
            }) && (fuzziness == 0 ==> r == metal_mirror_spec(*ray, *hit, color)),
            Material::Dielectric(_) => r matches Some(pair) && pair.0 == (Color {
                r: SCALE,
                g: SCALE,
                b: SCALE,
            }),
        },
{
    proof {
        lemma_unit_comp_bound(hit.normal);
        lemma_unit_comp_bound(ray.direction);
    }
    match hit.material {
        Material::Lambertian(color) => {
            let u: UnitVec3 = UnitVec3::random_unit_vector(rng);
            proof {
                lemma_unit_comp_bound(u);
            }
            let sx: i64 = hit.normal.x + u.x;
            let sy: i64 = hit.normal.y + u.y;
            let sz: i64 = hit.normal.z + u.z;
            proof {
                crate::fixed::lemma_abs_mul(sx as int, sx as int, 3_000_000_000int,
                    3_000_000_000int);
                crate::fixed::lemma_abs_mul(sy as int, sy as int, 3_000_000_000int,
                    3_000_000_000int);
                crate::fixed::lemma_abs_mul(sz as int, sz as int, 3_000_000_000int,
                    3_000_000_000int);
                lemma_fmul_square_nonneg(sx as int);
                lemma_fmul_square_nonneg(sy as int);
                lemma_fmul_square_nonneg(sz as int);
            }
            let q: i128 = (sx as i128) * (sx as i128) + (sy as i128) * (sy as i128) + (sz as i128)
                * (sz as i128);
            let dir: UnitVec3 = if q >= NORM_QMIN as i128 {
                FreeVec3::new(sx, sy, sz).to_unit()
            } else {
                hit.normal
            };
            let out = Some((color, Ray::new(&hit.p, &dir)));
            proof {
                assert(unit_wf(u) && 0 <= 0int < SCALE && out == scatter_spec(*ray, *hit, u, 0int));
            }
            out
        },
        Material::Metal { color, fuzziness } => {
            let u: UnitVec3 = UnitVec3::random_unit_vector(rng);
            proof {
                lemma_unit_comp_bound(u);
                lemma_fmul_bound(u.x as int, fuzziness as int, SCALE + 16, SCALE as int);
                lemma_fmul_bound(u.y as int, fuzziness as int, SCALE + 16, SCALE as int);
                lemma_fmul_bound(u.z as int, fuzziness as int, SCALE + 16, SCALE as int);
                assert(((SCALE + 16) * (SCALE as int)) / (SCALE as int) == SCALE + 16)
                    by (nonlinear_arith)
                    requires
                        SCALE == 1_000_000_000,
                ;
            }
            let refl: FreeVec3 = reflection(ray.direction, hit.normal);
            let cx: i64 = refl.x + fx_mul(u.x, fuzziness);
            let cy: i64 = refl.y + fx_mul(u.y, fuzziness);
            let cz: i64 = refl.z + fx_mul(u.z, fuzziness);
            proof {
                crate::fixed::lemma_abs_mul(cx as int, cx as int, 10_000_000_000int,
                    10_000_000_000int);
                crate::fixed::lemma_abs_mul(cy as int, cy as int, 10_000_000_000int,
                    10_000_000_000int);
                crate::fixed::lemma_abs_mul(cz as int, cz as int, 10_000_000_000int,
                    10_000_000_000int);
                lemma_fmul_square_nonneg(cx as int);
                lemma_fmul_square_nonneg(cy as int);
                lemma_fmul_square_nonneg(cz as int);
                if fuzziness == 0 {
                    lemma_fmul_zero(u.x as int);
                    lemma_fmul_zero(u.y as int);
                    lemma_fmul_zero(u.z as int);
                }
            }
            let q: i128 = (cx as i128) * (cx as i128) + (cy as i128) * (cy as i128) + (cz as i128)
                * (cz as i128);
            let out: Option<(Color, Ray)> = if q >= NORM_QMIN as i128 {
                let dir: UnitVec3 = FreeVec3::new(cx, cy, cz).to_unit();
                proof {
                    lemma_unit_comp_bound(dir);
                }
                let d2: i64 = dir.to_free().dot(&hit.normal.to_free());
                if d2 > 0 {
                    Some((color, Ray::new(&hit.p, &dir)))
                } else {
                    None
                }
            } else {
                None
            };
            proof {
                assert(unit_wf(u) && 0 <= 0int < SCALE && out == scatter_spec(*ray, *hit, u, 0int));
            }
            out
        },
        Material::Dielectric(refraction_index) => {
            proof {
                lemma_ratio_range(refraction_index as int);
            }
            let ratio: i64 = if hit.front_face {
                fx_div(SCALE, refraction_index)
            } else {
                refraction_index
            };
            let nd: UnitVec3 = ray.direction.neg();
            proof {
                lemma_unit_comp_bound(nd);
                lemma_fmul_bound(nd.x as int, hit.normal.x as int, SCALE + 16, SCALE + 16);
                lemma_fmul_bound(nd.y as int, hit.normal.y as int, SCALE + 16, SCALE + 16);
                lemma_fmul_bound(nd.z as int, hit.normal.z as int, SCALE + 16, SCALE + 16);
                assert(((SCALE + 16) * (SCALE + 16)) / (SCALE as int) <= SCALE + 33)
                    by (nonlinear_arith)
                    requires
                        SCALE == 1_000_000_000,
                ;
            }
            let cos0: i64 = nd.to_free().dot(&hit.normal.to_free());
            let cos: i64 = if cos0 > SCALE {
                SCALE
            } else {
                cos0
            };
            proof {
                lemma_fmul_bound(cos as int, cos as int, 4_000_000_000int, 4_000_000_000int);
                assert((4_000_000_000int * 4_000_000_000int) / (SCALE as int)
                    == 16_000_000_000int) by (nonlinear_arith)
                    requires
                        SCALE == 1_000_000_000,
                ;
                lemma_fmul_bound(ratio as int, ratio as int, 10_000_000_000int,
                    10_000_000_000int);
                assert((10_000_000_000int * 10_000_000_000int) / (SCALE as int)
                    == 100_000_000_000int) by (nonlinear_arith)
                    requires
                        SCALE == 1_000_000_000,
                ;
            }
            let sin2: i64 = SCALE - fx_mul(cos, cos);
            let r2: i64 = fx_mul(ratio, ratio);
            proof {
                lemma_fmul_bound(r2 as int, sin2 as int, 100_000_000_000int, 17_000_000_000int);
                assert((100_000_000_000int * 17_000_000_000int) / (SCALE as int)
                    == 1_700_000_000_000int) by (nonlinear_arith)
                    requires
                        SCALE == 1_000_000_000,
                ;
            }
            let cannot_refract: bool = fx_mul(r2, sin2) > SCALE;
            let ghost dw: int;
            let use_reflect: bool = if cannot_refract {
                proof {
                    dw = 0;
                }
                true
            } else {
                let rf: i64 = reflectance(cos, ratio);
                let d: i64 = crate::rng::rand_fx_unit(rng);
                proof {
                    dw = d as int;
                }
                rf > d
            };
            let dvec: FreeVec3 = if use_reflect {
                reflection(ray.direction, hit.normal)
            } else {
                refraction(ray.direction, hit.normal, ratio)
            };
            proof {
                crate::fixed::lemma_abs_mul(dvec.x as int, dvec.x as int, 150_000_000_000int,
                    150_000_000_000int);
                crate::fixed::lemma_abs_mul(dvec.y as int, dvec.y as int, 150_000_000_000int,
                    150_000_000_000int);
                crate::fixed::lemma_abs_mul(dvec.z as int, dvec.z as int, 150_000_000_000int,
                    150_000_000_000int);
                lemma_fmul_square_nonneg(dvec.x as int);
                lemma_fmul_square_nonneg(dvec.y as int);
                lemma_fmul_square_nonneg(dvec.z as int);
            }
            let q: i128 = (dvec.x as i128) * (dvec.x as i128) + (dvec.y as i128)
                * (dvec.y as i128) + (dvec.z as i128) * (dvec.z as i128);
            let dir: UnitVec3 = if q >= NORM_QMIN as i128 {
                dvec.to_unit()
            } else {
                ray.direction
            };
            let out = Some((Color::new(SCALE, SCALE, SCALE), Ray::new(&hit.p, &dir)));
            proof {
                assert(unit_wf(hit.normal) && 0 <= dw < SCALE && out == scatter_spec(*ray, *hit,
                    hit.normal, dw));
            }
            out
        },
    }
}

/// The refraction ratio stays within a factor of ten of one when the
/// refraction index does.
proof fn lemma_ratio_range(ri: int)
    requires
        100_000_000 <= ri <= 10_000_000_000int,
    ensures
        100_000_000 <= fdiv(SCALE as int, ri) <= 10_000_000_000int,
        fits64(fdiv(SCALE as int, ri)),
{
    let s = SCALE as int;
    assert(sdiv(s * s, ri) == (s * s) / ri);
    vstd::arithmetic::div_mod::lemma_div_is_ordered_by_denominator(s * s, 100_000_000, ri);
    vstd::arithmetic::div_mod::lemma_div_is_ordered_by_denominator(s * s, ri, 10_000_000_000int);
    assert((s * s) / 100_000_000 == 10_000_000_000int) by (nonlinear_arith)
        requires
            s == 1_000_000_000,
    ;
    assert((s * s) / 10_000_000_000int == 100_000_000) by (nonlinear_arith)
        requires
            s == 1_000_000_000,
    ;
}

} // verus!
