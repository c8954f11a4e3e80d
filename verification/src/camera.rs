//! The thin-lens camera: maps normalized image-plane coordinates, plus a
//! lens-aperture sample, to a world-space ray. Construction derives an
//! orthonormal basis and a viewport sized by the tangent of half the
//! vertical field of view, both scaled by the focus distance; malformed
//! parameters are rejected at construction.

use vstd::prelude::*;

use crate::fixed::{fmul, fx_div_int, fx_mul, iabs, lemma_fmul_bound, lemma_sdiv_abs, sdiv, SCALE};
use crate::point::{point_bounded, Point};
use crate::ray::{ray_wf, Ray};
use crate::vec3::{cross_spec, lemma_unit_comp_bound, normalize_or, raw_sq, unit_of, vec_bounded,
    FreeVec3, UnitVec3, NORM_QMIN};

verus! {

/// Largest coordinate magnitude of camera positions and target vectors.
pub const CAM_LIM: i64 = 1_024_000_000_000;

/// Largest accepted tangent of half the vertical field of view.
pub const TAN_LIM: i64 = 4_000_000_000;

/// Largest accepted aspect ratio.
pub const ASPECT_LIM: i64 = 8_000_000_000;

/// Largest accepted aperture.
pub const APERTURE_LIM: i64 = 64_000_000_000;

/// A camera: computed once at construction, immutable thereafter.
#[derive(Clone, Copy, Debug, PartialEq, Eq, Structural)]
pub struct Camera {
    pub origin: Point,
    pub lower_left_corner: Point,
    pub horizontal: FreeVec3,
    pub vertical: FreeVec3,
    pub u: FreeVec3,
    pub v: FreeVec3,
    pub lens_radius: i64,
}

/// The bounds a constructed camera's fields obey, which make every ray
/// it generates well-formed.
pub open spec fn camera_wf(c: Camera) -> bool {
    point_bounded(c.origin, CAM_LIM as int) && point_bounded(
        c.lower_left_corner,
        300_000_000_000_000int,
    ) && vec_bounded(c.horizontal, 140_000_000_000_000int) && vec_bounded(
        c.vertical,
        140_000_000_000_000int,
    ) && vec_bounded(c.u, (SCALE + 16) as int) && vec_bounded(c.v, 2_100_000_000int) && 0
        <= c.lens_radius <= 32_000_000_000int
}

/// Whether the scalar camera parameters are in range: a positive
/// field-of-view tangent, a positive aspect ratio, a nonnegative
/// aperture, a positive focus distance, and positions within camera
/// range.
pub open spec fn camera_params_ok(
    lookfrom: Point,
    lookat: FreeVec3,
    vup: FreeVec3,
    tan_half_vfov: int,
    aspect_ratio: int,
    aperture: int,
    focus_dist: int,
) -> bool {
    0 < tan_half_vfov <= TAN_LIM as int && 0 < aspect_ratio <= ASPECT_LIM as int && 0 <= aperture
        <= APERTURE_LIM as int && 0 < focus_dist <= CAM_LIM as int && point_bounded(
        lookfrom,
        CAM_LIM as int,
    ) && vec_bounded(lookat, CAM_LIM as int) && vec_bounded(vup, CAM_LIM as int)
}

/// The vector from the target to the camera: the direction the camera
/// looks against.
pub open spec fn camera_w_vec(lookfrom: Point, lookat: FreeVec3) -> FreeVec3 {
    FreeVec3 {
        x: (lookfrom.x - lookat.x) as i64,
        y: (lookfrom.y - lookat.y) as i64,
        z: (lookfrom.z - lookat.z) as i64,
    }
}

/// The constructed camera, given the already-normalized basis.
pub open spec fn camera_build(
    lookfrom: Point,
    tan_half_vfov: int,
    aspect_ratio: int,
    aperture: int,
    focus_dist: int,
    w: UnitVec3,
    u: UnitVec3,
) -> Camera {
    let v = cross_spec(w.to_free_spec(), u.to_free_spec());
    let vh = 2 * tan_half_vfov;
    let vw = fmul(vh, aspect_ratio);
    let hx = fmul(fmul(u.x as int, vw), focus_dist);
    let hy = fmul(fmul(u.y as int, vw), focus_dist);
    let hz = fmul(fmul(u.z as int, vw), focus_dist);
    let vx = fmul(fmul(v.0, vh), focus_dist);
    let vy = fmul(fmul(v.1, vh), focus_dist);
    let vz = fmul(fmul(v.2, vh), focus_dist);
    let wx = fmul(w.x as int, focus_dist);
    let wy = fmul(w.y as int, focus_dist);
    let wz = fmul(w.z as int, focus_dist);
    Camera {
        origin: lookfrom,
        lower_left_corner: Point {
            x: (lookfrom.x - wx - sdiv(hx, 2) - sdiv(vx, 2)) as i64,
            y: (lookfrom.y - wy - sdiv(hy, 2) - sdiv(vy, 2)) as i64,
            z: (lookfrom.z - wz - sdiv(hz, 2) - sdiv(vz, 2)) as i64,
        },
        horizontal: FreeVec3 { x: hx as i64, y: hy as i64, z: hz as i64 },
        vertical: FreeVec3 { x: vx as i64, y: vy as i64, z: vz as i64 },
        u: FreeVec3 { x: u.x, y: u.y, z: u.z },
        v: FreeVec3 { x: v.0 as i64, y: v.1 as i64, z: v.2 as i64 },
        lens_radius: sdiv(aperture, 2) as i64,
    }
}

/// The camera construction rule: `None` exactly when a scalar parameter
/// is out of range or the looking direction or its cross with the up
/// vector is too short to normalize.
pub open spec fn camera_spec(
    lookfrom: Point,
    lookat: FreeVec3,
    vup: FreeVec3,
    tan_half_vfov: int,
    aspect_ratio: int,
    aperture: int,
    focus_dist: int,
) -> Option<Camera> {
    if !camera_params_ok(lookfrom, lookat, vup, tan_half_vfov, aspect_ratio, aperture,
        focus_dist) {
        None
    } else {
        let wv = camera_w_vec(lookfrom, lookat);
        if raw_sq(wv.x as int, wv.y as int, wv.z as int) < NORM_QMIN as int {
            None
        } else {
            let w = unit_of(wv);
            let uc = cross_spec(vup, w.to_free_spec());
            if raw_sq(uc.0, uc.1, uc.2) < NORM_QMIN as int {
                None
            } else {
                let u = unit_of(FreeVec3 { x: uc.0 as i64, y: uc.1 as i64, z: uc.2 as i64 });
                Some(
                    camera_build(lookfrom, tan_half_vfov, aspect_ratio, aperture, focus_dist, w,
                        u),
                )
            }
        }
    }
}

/// The ray a camera generates for image-plane coordinates `(s, t)` and
/// the lens-disk sample `rd`: the origin is offset within the lens, and
/// the direction points at the focus-plane location for `(s, t)`.
pub open spec fn camera_ray_spec(cam: Camera, s: int, t: int, rd: FreeVec3) -> Ray {
    let rdx = fmul(rd.x as int, cam.lens_radius as int);
    let rdy = fmul(rd.y as int, cam.lens_radius as int);
    let offx = fmul(cam.u.x as int, rdx) + fmul(cam.v.x as int, rdy);
    let offy = fmul(cam.u.y as int, rdx) + fmul(cam.v.y as int, rdy);
    let offz = fmul(cam.u.z as int, rdx) + fmul(cam.v.z as int, rdy);
    let dirx = cam.lower_left_corner.x + fmul(cam.horizontal.x as int, s) + fmul(
        cam.vertical.x as int,
        t,
    ) - cam.origin.x - offx;
    let diry = cam.lower_left_corner.y + fmul(cam.horizontal.y as int, s) + fmul(
        cam.vertical.y as int,
        t,
    ) - cam.origin.y - offy;
    let dirz = cam.lower_left_corner.z + fmul(cam.horizontal.z as int, s) + fmul(
        cam.vertical.z as int,
        t,
    ) - cam.origin.z - offz;
    Ray {
        origin: Point {
            x: (cam.origin.x + offx) as i64,
            y: (cam.origin.y + offy) as i64,
            z: (cam.origin.z + offz) as i64,
        },
        direction: normalize_or(dirx, diry, dirz, UnitVec3 { x: 0, y: 0, z: (-(SCALE as int)) as i64 }),
    }
}

impl Camera {
    /// Build a camera, rejecting malformed parameters: the tangent of
    /// half the vertical field of view must be positive (a field of
    /// view strictly between zero and a straight angle), the aspect
    /// ratio and focus distance positive, the aperture nonnegative,
    /// and the viewing basis non-degenerate.
    #[verifier::rlimit(100)]
    pub fn new(
        lookfrom: Point,
        lookat: FreeVec3,
        vup: FreeVec3,
        tan_half_vfov: i64,
        aspect_ratio: i64,
        aperture: i64,
        focus_dist: i64,
    ) -> (cam: Option<Camera>)
        ensures
            cam == camera_spec(lookfrom, lookat, vup, tan_half_vfov as int, aspect_ratio as int,
                aperture as int, focus_dist as int),
            match cam {
                Some(c) => camera_wf(c),
                None => true,
            },
    {
        if !(0 < tan_half_vfov && tan_half_vfov <= TAN_LIM && 0 < aspect_ratio && aspect_ratio
            <= ASPECT_LIM && 0 <= aperture && aperture <= APERTURE_LIM && 0 < focus_dist
            && focus_dist <= CAM_LIM && -CAM_LIM <= lookfrom.x && lookfrom.x <= CAM_LIM && -CAM_LIM
            <= lookfrom.y && lookfrom.y <= CAM_LIM && -CAM_LIM <= lookfrom.z && lookfrom.z
            <= CAM_LIM && -CAM_LIM <= lookat.x && lookat.x <= CAM_LIM && -CAM_LIM <= lookat.y
            && lookat.y <= CAM_LIM && -CAM_LIM <= lookat.z && lookat.z <= CAM_LIM && -CAM_LIM
            <= vup.x && vup.x <= CAM_LIM && -CAM_LIM <= vup.y && vup.y <= CAM_LIM && -CAM_LIM
            <= vup.z && vup.z <= CAM_LIM) {
            return None;
        }
        let wv: FreeVec3 = FreeVec3::new(
            lookfrom.x - lookat.x,
            lookfrom.y - lookat.y,
            lookfrom.z - lookat.z,
        );
        proof {
            crate::fixed::lemma_abs_mul(wv.x as int, wv.x as int, 2_048_000_000_000int,
                2_048_000_000_000int);
            crate::fixed::lemma_abs_mul(wv.y as int, wv.y as int, 2_048_000_000_000int,
                2_048_000_000_000int);
            crate::fixed::lemma_abs_mul(wv.z as int, wv.z as int, 2_048_000_000_000int,
                2_048_000_000_000int);
            crate::vec3::lemma_fmul_square_nonneg(wv.x as int);
            crate::vec3::lemma_fmul_square_nonneg(wv.y as int);
            crate::vec3::lemma_fmul_square_nonneg(wv.z as int);
        }
        let wq: i128 = (wv.x as i128) * (wv.x as i128) + (wv.y as i128) * (wv.y as i128) + (
        wv.z as i128) * (wv.z as i128);
        if wq < NORM_QMIN as i128 {
            return None;
        }
        let w: UnitVec3 = wv.to_unit();
        proof {
            lemma_unit_comp_bound(w);
        }
        let uc: FreeVec3 = vup.cross(&w.to_free());
        proof {
            let cb = 2_100_000_000_000int;
            lemma_fmul_bound(vup.x as int, w.y as int, CAM_LIM as int, SCALE + 16);
            lemma_fmul_bound(vup.x as int, w.z as int, CAM_LIM as int, SCALE + 16);
            lemma_fmul_bound(vup.y as int, w.x as int, CAM_LIM as int, SCALE + 16);
            lemma_fmul_bound(vup.y as int, w.z as int, CAM_LIM as int, SCALE + 16);
            lemma_fmul_bound(vup.z as int, w.x as int, CAM_LIM as int, SCALE + 16);
            lemma_fmul_bound(vup.z as int, w.y as int, CAM_LIM as int, SCALE + 16);
            assert(((CAM_LIM as int) * (SCALE + 16)) / (SCALE as int) <= 1_050_000_000_000int)
                by (nonlinear_arith)
                requires
                    CAM_LIM == 1_024_000_000_000i64,
                    SCALE == 1_000_000_000,
            ;
            crate::fixed::lemma_abs_mul(uc.x as int, uc.x as int, cb, cb);
            crate::fixed::lemma_abs_mul(uc.y as int, uc.y as int, cb, cb);
            crate::fixed::lemma_abs_mul(uc.z as int, uc.z as int, cb, cb);
            crate::vec3::lemma_fmul_square_nonneg(uc.x as int);
            crate::vec3::lemma_fmul_square_nonneg(uc.y as int);
            crate::vec3::lemma_fmul_square_nonneg(uc.z as int);
        }
        let uq: i128 = (uc.x as i128) * (uc.x as i128) + (uc.y as i128) * (uc.y as i128) + (
        uc.z as i128) * (uc.z as i128);
        if uq < NORM_QMIN as i128 {
            return None;
        }
        let u: UnitVec3 = uc.to_unit();
        proof {
            lemma_unit_comp_bound(u);
        }
        let v: FreeVec3 = w.to_free().cross(&u.to_free());
        proof {
            lemma_fmul_bound(w.x as int, u.y as int, SCALE + 16, SCALE + 16);
            lemma_fmul_bound(w.x as int, u.z as int, SCALE + 16, SCALE + 16);
            lemma_fmul_bound(w.y as int, u.x as int, SCALE + 16, SCALE + 16);
            lemma_fmul_bound(w.y as int, u.z as int, SCALE + 16, SCALE + 16);
            lemma_fmul_bound(w.z as int, u.x as int, SCALE + 16, SCALE + 16);
            lemma_fmul_bound(w.z as int, u.y as int, SCALE + 16, SCALE + 16);
            assert(((SCALE + 16) * (SCALE + 16)) / (SCALE as int) <= SCALE + 33)
                by (nonlinear_arith)
                requires
                    SCALE == 1_000_000_000,
            ;
        }
        let viewport_height: i64 = 2 * tan_half_vfov;
        proof {
            lemma_fmul_bound(viewport_height as int, aspect_ratio as int, 8_000_000_000int,
                ASPECT_LIM as int);
            assert((8_000_000_000int * (ASPECT_LIM as int)) / (SCALE as int)
                <= 64_000_000_000int) by (nonlinear_arith)
                requires
                    ASPECT_LIM == 8_000_000_000i64,
                    SCALE == 1_000_000_000,
            ;
        }
        let viewport_width: i64 = fx_mul(viewport_height, aspect_ratio);
        let hx: i64 = cam_scale2(u.x, viewport_width, focus_dist);
        let hy: i64 = cam_scale2(u.y, viewport_width, focus_dist);
        let hz: i64 = cam_scale2(u.z, viewport_width, focus_dist);
        let vx: i64 = cam_scale2(v.x, viewport_height, focus_dist);
        let vy: i64 = cam_scale2(v.y, viewport_height, focus_dist);
        let vz: i64 = cam_scale2(v.z, viewport_height, focus_dist);
        proof {
            lemma_fmul_bound(w.x as int, focus_dist as int, SCALE + 16, CAM_LIM as int);
            lemma_fmul_bound(w.y as int, focus_dist as int, SCALE + 16, CAM_LIM as int);
            lemma_fmul_bound(w.z as int, focus_dist as int, SCALE + 16, CAM_LIM as int);
            assert(((SCALE + 16) * (CAM_LIM as int)) / (SCALE as int) <= 1_050_000_000_000int)
                by (nonlinear_arith)
                requires
                    CAM_LIM == 1_024_000_000_000i64,
                    SCALE == 1_000_000_000,
            ;
            lemma_sdiv_abs(hx as int, 2);
            lemma_sdiv_abs(hy as int, 2);
            lemma_sdiv_abs(hz as int, 2);
            lemma_sdiv_abs(vx as int, 2);
            lemma_sdiv_abs(vy as int, 2);
            lemma_sdiv_abs(vz as int, 2);
        }
        let wfx: i64 = fx_mul(w.x, focus_dist);
        let wfy: i64 = fx_mul(w.y, focus_dist);
        let wfz: i64 = fx_mul(w.z, focus_dist);
        let llx: i64 = lookfrom.x - wfx - fx_div_int(hx, 2) - fx_div_int(vx, 2);
        let lly: i64 = lookfrom.y - wfy - fx_div_int(hy, 2) - fx_div_int(vy, 2);
        let llz: i64 = lookfrom.z - wfz - fx_div_int(hz, 2) - fx_div_int(vz, 2);
        let lens_radius: i64 = fx_div_int(aperture, 2);
        proof {
            lemma_sdiv_abs(aperture as int, 2);
        }
        Some(
            Camera {
                origin: lookfrom,
                lower_left_corner: Point::new(llx, lly, llz),
                horizontal: FreeVec3::new(hx, hy, hz),
                vertical: FreeVec3::new(vx, vy, vz),
                u: u.to_free(),
                v,
                lens_radius,
            },
        )
    }

    /// Generate the world-space ray for normalized image-plane
    /// coordinates `(s, t)`, sampling the lens disk for depth of field.
    #[verifier::rlimit(100)]
    pub fn ray(&self, s: i64, t: i64, rng: &mut rand::rngs::StdRng) -> (r: Ray)
        requires
            camera_wf(*self),
            0 <= s <= 2 * (SCALE as int),
            0 <= t <= 2 * (SCALE as int),
        ensures
            ray_wf(r),
            exists|rd: FreeVec3|
                crate::vec3::in_unit_disk(rd) && r == camera_ray_spec(*self, s as int, t as int,
                    rd),
    {
        let rd: FreeVec3 = FreeVec3::random_in_unit_disk(rng);
        proof {
            lemma_fmul_bound(rd.x as int, self.lens_radius as int, SCALE as int,
                32_000_000_000int);
            lemma_fmul_bound(rd.y as int, self.lens_radius as int, SCALE as int,
                32_000_000_000int);
            assert(((SCALE as int) * 32_000_000_000int) / (SCALE as int) == 32_000_000_000int)
                by (nonlinear_arith)
                requires
                    SCALE == 1_000_000_000,
            ;
        }
        let rdx: i64 = fx_mul(rd.x, self.lens_radius);
        let rdy: i64 = fx_mul(rd.y, self.lens_radius);
        proof {
            lemma_fmul_bound(self.u.x as int, rdx as int, SCALE + 16, 32_000_000_000int);
            lemma_fmul_bound(self.u.y as int, rdx as int, SCALE + 16, 32_000_000_000int);
            lemma_fmul_bound(self.u.z as int, rdx as int, SCALE + 16, 32_000_000_000int);
            assert(((SCALE + 16) * 32_000_000_000int) / (SCALE as int) <= 33_000_000_000int)
                by (nonlinear_arith)
                requires
                    SCALE == 1_000_000_000,
            ;
            lemma_fmul_bound(self.v.x as int, rdy as int, 2_100_000_000int, 32_000_000_000int);
            lemma_fmul_bound(self.v.y as int, rdy as int, 2_100_000_000int, 32_000_000_000int);
            lemma_fmul_bound(self.v.z as int, rdy as int, 2_100_000_000int, 32_000_000_000int);
            assert((2_100_000_000int * 32_000_000_000int) / (SCALE as int) <= 68_000_000_000int)
                by (nonlinear_arith)
                requires
                    SCALE == 1_000_000_000,
            ;
        }
        let offx: i64 = fx_mul(self.u.x, rdx) + fx_mul(self.v.x, rdy);
        let offy: i64 = fx_mul(self.u.y, rdx) + fx_mul(self.v.y, rdy);
        let offz: i64 = fx_mul(self.u.z, rdx) + fx_mul(self.v.z, rdy);
        let origin: Point = Point::new(self.origin.x + offx, self.origin.y + offy, self.origin.z
            + offz);
        proof {
            lemma_fmul_bound(self.horizontal.x as int, s as int, 140_000_000_000_000int,
                2_000_000_000int);
            lemma_fmul_bound(self.horizontal.y as int, s as int, 140_000_000_000_000int,
                2_000_000_000int);
            lemma_fmul_bound(self.horizontal.z as int, s as int, 140_000_000_000_000int,
                2_000_000_000int);
            lemma_fmul_bound(self.vertical.x as int, t as int, 140_000_000_000_000int,
                2_000_000_000int);
            lemma_fmul_bound(self.vertical.y as int, t as int, 140_000_000_000_000int,
                2_000_000_000int);
            lemma_fmul_bound(self.vertical.z as int, t as int, 140_000_000_000_000int,
                2_000_000_000int);
            assert((140_000_000_000_000int * 2_000_000_000int) / (SCALE as int)
                == 280_000_000_000_000int) by (nonlinear_arith)
                requires
                    SCALE == 1_000_000_000,
            ;
        }
        let dirx: i64 = self.lower_left_corner.x + fx_mul(self.horizontal.x, s) + fx_mul(
            self.vertical.x,
            t,
        ) - self.origin.x - offx;
        let diry: i64 = self.lower_left_corner.y + fx_mul(self.horizontal.y, s) + fx_mul(
            self.vertical.y,
            t,
        ) - self.origin.y - offy;
        let dirz: i64 = self.lower_left_corner.z + fx_mul(self.horizontal.z, s) + fx_mul(
            self.vertical.z,
            t,
        ) - self.origin.z - offz;
        proof {
            crate::fixed::lemma_abs_mul(dirx as int, dirx as int, 900_000_000_000_000int,
                900_000_000_000_000int);
            crate::fixed::lemma_abs_mul(diry as int, diry as int, 900_000_000_000_000int,
                900_000_000_000_000int);
            crate::fixed::lemma_abs_mul(dirz as int, dirz as int, 900_000_000_000_000int,
                900_000_000_000_000int);
            crate::vec3::lemma_fmul_square_nonneg(dirx as int);
            crate::vec3::lemma_fmul_square_nonneg(diry as int);
            crate::vec3::lemma_fmul_square_nonneg(dirz as int);
        }
        let dq: i128 = (dirx as i128) * (dirx as i128) + (diry as i128) * (diry as i128) + (
        dirz as i128) * (dirz as i128);
        let direction: UnitVec3 = if dq >= NORM_QMIN as i128 {
            FreeVec3::new(dirx, diry, dirz).to_unit()
        } else {
            UnitVec3 { x: 0, y: 0, z: -SCALE }
        };
        proof {
            if dq < NORM_QMIN as i128 {
                assert(raw_sq(0, 0, -(SCALE as int)) == (SCALE as int) * (SCALE as int))
                    by (nonlinear_arith);
            }
        }
        let r = Ray { origin, direction };
        proof {
            assert(crate::vec3::in_unit_disk(rd) && r == camera_ray_spec(*self, s as int,
                t as int, rd));
        }
        r
    }
}

/// Scale a basis component by two fixed-point factors in turn.
fn cam_scale2(c: i64, f1: i64, f2: i64) -> (r: i64)
    requires
        iabs(c as int) <= 2_100_000_000int,
        iabs(f1 as int) <= 64_000_000_000int,
        iabs(f2 as int) <= CAM_LIM as int,
    ensures
        r as int == fmul(fmul(c as int, f1 as int), f2 as int),
        iabs(r as int) <= 140_000_000_000_000int,
{
    proof {
        lemma_fmul_bound(c as int, f1 as int, 2_100_000_000int, 64_000_000_000int);
        assert((2_100_000_000int * 64_000_000_000int) / (SCALE as int) <= 135_000_000_000int)
            by (nonlinear_arith)
            requires
                SCALE == 1_000_000_000,
        ;
        lemma_fmul_bound(fmul(c as int, f1 as int), f2 as int, 135_000_000_000int,
            CAM_LIM as int);
        assert((135_000_000_000int * (CAM_LIM as int)) / (SCALE as int)
            <= 140_000_000_000_000int) by (nonlinear_arith)
            requires
                CAM_LIM == 1_024_000_000_000i64,
                SCALE == 1_000_000_000,
        ;
    }
    fx_mul(fx_mul(c, f1), f2)
}

} // verus!
