//! The render driver: for each pixel, jittered camera rays are traced
//! through the radiance estimator, accumulated, and encoded to three
//! 8-bit channels. The buffer is row-major with the top row of the
//! image first, each pixel as consecutive R, G, B bytes, and its content
//! is pinned to the sampling pipeline by `render_trace_matches`: each
//! pixel's bytes encode the averaged radiance of its samples under the
//! trace of draws the run consumed.

use vstd::prelude::*;

use crate::camera::{camera_ray_spec, camera_wf, Camera};
use crate::color::{encode_channel, lemma_encode_zero, radiance_spec, ray_color, trace_wf, Color};
use crate::fixed::{fx_div_int, lemma_sdiv_exact, lemma_sdiv_mono, sdiv, SCALE};
use crate::objects::{list_wf, Object, ObjectList};
use crate::ray::Ray;
use crate::rng::{rand_fx_unit, rng_from_seed};
use crate::vec3::{in_unit_disk, FreeVec3, UnitVec3};

verus! {

/// The divisor that turns a pixel index plus jitter into an image-plane
/// coordinate: one less than the dimension, floored at one.
pub open spec fn jitter_den(dim: int) -> int {
    if dim >= 2 {
        dim - 1
    } else {
        1
    }
}

/// Well-formedness of the draws one radiance sample consumes: two
/// jitter draws in `[0, 1)`, a lens-disk sample, and a well-formed
/// bounce trace.
pub open spec fn sample_wf(rec: (int, int, FreeVec3, Seq<(UnitVec3, int)>)) -> bool {
    0 <= rec.0 < SCALE && 0 <= rec.1 < SCALE && in_unit_disk(rec.2) && trace_wf(rec.3)
}

/// The radiance estimate of one jittered sample of the pixel in column
/// `i` and image row `j`, counted from the bottom: the camera ray for
/// the jittered coordinates, evaluated through the radiance rule.
pub open spec fn sample_radiance(
    cam: Camera,
    objs: Seq<Object>,
    depth: int,
    w: int,
    h: int,
    i: int,
    j: int,
    rec: (int, int, FreeVec3, Seq<(UnitVec3, int)>),
) -> Color {
    let u = sdiv(i * (SCALE as int) + rec.0, jitter_den(w));
    let v = sdiv(j * (SCALE as int) + rec.1, jitter_den(h));
    radiance_spec(camera_ray_spec(cam, u, v, rec.2), objs, depth, rec.3)
}

/// The channel sums of one pixel over a sequence of sample draws.
pub open spec fn pixel_sum(
    cam: Camera,
    objs: Seq<Object>,
    depth: int,
    w: int,
    h: int,
    i: int,
    j: int,
    recs: Seq<(int, int, FreeVec3, Seq<(UnitVec3, int)>)>,
) -> (int, int, int)
    decreases recs.len(),
{
    if recs.len() == 0 {
        (0, 0, 0)
    } else {
        let prev = pixel_sum(cam, objs, depth, w, h, i, j, recs.drop_last());
        let c = sample_radiance(cam, objs, depth, w, h, i, j, recs.last());
        (prev.0 + c.r, prev.1 + c.g, prev.2 + c.b)
    }
}

/// Whether the three bytes of pixel `p` (row-major, top row first)
/// encode the averaged channel sums of its sample draws.
pub open spec fn pixel_ok(
    cam: Camera,
    objs: Seq<Object>,
    w: int,
    h: int,
    samples: int,
    depth: int,
    recs: Seq<(int, int, FreeVec3, Seq<(UnitVec3, int)>)>,
    bytes: Seq<u8>,
    p: int,
) -> bool {
    let i = p % w;
    let j = h - 1 - p / w;
    let sums = pixel_sum(cam, objs, depth, w, h, i, j, recs);
    &&& recs.len() == samples
    &&& (forall|k: int| 0 <= k < recs.len() ==> sample_wf(#[trigger] recs[k]))
    &&& 0 <= 3 * p && 3 * p + 2 < bytes.len()
    &&& bytes[3 * p] as int == encode_channel(sums.0, samples)
    &&& bytes[3 * p + 1] as int == encode_channel(sums.1, samples)
    &&& bytes[3 * p + 2] as int == encode_channel(sums.2, samples)
}

/// Whether `bytes` renders the scene under the given per-pixel sample
/// draws: one well-formed draw sequence per pixel, and every pixel's
/// bytes encode its averaged sample radiances.
pub open spec fn render_trace_matches(
    cam: Camera,
    objs: Seq<Object>,
    w: int,
    h: int,
    samples: int,
    depth: int,
    draws: Seq<Seq<(int, int, FreeVec3, Seq<(UnitVec3, int)>)>>,
    bytes: Seq<u8>,
) -> bool {
    &&& draws.len() == w * h
    &&& bytes.len() == 3 * (w * h)
    &&& forall|p: int|
        0 <= p < w * h ==> pixel_ok(cam, objs, w, h, samples, depth, #[trigger] draws[p], bytes,
            p)
}

/// A jittered image-plane coordinate stays within twice the unit
/// interval.
proof fn lemma_jitter_range(idx: int, den: int, xi: int)
    requires
        den >= 1,
        0 <= idx <= den,
        0 <= xi < SCALE,
    ensures
        0 <= sdiv(idx * (SCALE as int) + xi, den) <= 2 * (SCALE as int),
{
    let s = SCALE as int;
    assert(idx * s + xi <= den * (2 * s)) by (nonlinear_arith)
        requires
            0 <= idx <= den,
            0 <= xi < s,
            den >= 1,
            s == 1_000_000_000,
    ;
    lemma_sdiv_mono(idx * s + xi, den * (2 * s), den);
    lemma_sdiv_exact(2 * s, den);
    assert((2 * s) * den == den * (2 * s)) by (nonlinear_arith);
}

/// Render the scene seen by `camera` into a byte buffer of
/// `3 * image_width * image_height` interleaved 8-bit RGB values,
/// row-major with the top row first. Each pixel averages
/// `samples_per_pixel` jittered rays; the random stream is a function
/// of `seed`; the buffer's content is the pipeline's, under the trace
/// of draws the run consumed. A depth budget of zero or less yields an
/// all-black image.
#[verifier::rlimit(100)]
pub fn render(
    world: &ObjectList,
    camera: &Camera,
    image_width: u32,
    image_height: u32,
    samples_per_pixel: i32,
    max_depth: i32,
    seed: u64,
) -> (buf: Vec<u8>)
    requires
        list_wf(*world),
        camera_wf(*camera),
        1 <= image_width <= 65536,
        1 <= image_height <= 65536,
        samples_per_pixel >= 1,
    ensures
        buf@.len() == 3 * (image_width as int) * (image_height as int),
        exists|draws: Seq<Seq<(int, int, FreeVec3, Seq<(UnitVec3, int)>)>>|
            render_trace_matches(*camera, world.objects@, image_width as int,
                image_height as int, samples_per_pixel as int, max_depth as int, draws, buf@),
        max_depth <= 0 ==> forall|k: int| 0 <= k < buf@.len() ==> buf@[k] == 0u8,
{
    let ghost objs = world.objects@;
    let ghost cam = *camera;
    let mut rng = rng_from_seed(seed);
    let w: u32 = image_width;
    let h: u32 = image_height;
    let wden: i64 = if w >= 2 {
        (w - 1) as i64
    } else {
        1
    };
    let hden: i64 = if h >= 2 {
        (h - 1) as i64
    } else {
        1
    };
    let mut buf: Vec<u8> = Vec::new();
    let ghost mut draws: Seq<Seq<(int, int, FreeVec3, Seq<(UnitVec3, int)>)>> = Seq::empty();
    let mut row: u32 = 0;
    while row < h
        invariant
            list_wf(*world),
            camera_wf(*camera),
            objs == world.objects@,
            cam == *camera,
            1 <= w <= 65536,
            1 <= h <= 65536,
            samples_per_pixel >= 1,
            wden as int == jitter_den(w as int),
            hden as int == jitter_den(h as int),
            wden >= 1,
            hden >= 1,
            0 <= row <= h,
            buf@.len() == 3 * (row as int) * (w as int),
            draws.len() == (row as int) * (w as int),
            forall|p: int|
                0 <= p < draws.len() ==> pixel_ok(cam, objs, w as int, h as int,
                    samples_per_pixel as int, max_depth as int, #[trigger] draws[p], buf@, p),
            max_depth <= 0 ==> forall|k: int| 0 <= k < buf@.len() ==> buf@[k] == 0u8,
        decreases h - row,
    {
        let j: u32 = h - 1 - row;
        let mut i: u32 = 0;
        while i < w
            invariant
                list_wf(*world),
                camera_wf(*camera),
                objs == world.objects@,
                cam == *camera,
                1 <= w <= 65536,
                1 <= h <= 65536,
                samples_per_pixel >= 1,
                wden as int == jitter_den(w as int),
                hden as int == jitter_den(h as int),
                wden >= 1,
                hden >= 1,
                0 <= row < h,
                j == h - 1 - row,
                0 <= i <= w,
                buf@.len() == 3 * (row as int) * (w as int) + 3 * (i as int),
                draws.len() == (row as int) * (w as int) + (i as int),
                forall|p: int|
                    0 <= p < draws.len() ==> pixel_ok(cam, objs, w as int, h as int,
                        samples_per_pixel as int, max_depth as int, #[trigger] draws[p], buf@, p),
                max_depth <= 0 ==> forall|k: int| 0 <= k < buf@.len() ==> buf@[k] == 0u8,
            decreases w - i,
        {
            let mut sum: Color = Color::new(0, 0, 0);
            let mut s_done: i32 = 0;
            let ghost mut recs: Seq<(int, int, FreeVec3, Seq<(UnitVec3, int)>)> = Seq::empty();
            while s_done < samples_per_pixel
                invariant
                    list_wf(*world),
                    camera_wf(*camera),
                    objs == world.objects@,
                    cam == *camera,
                    samples_per_pixel >= 1,
                    wden as int == jitter_den(w as int),
                    hden as int == jitter_den(h as int),
                    wden >= 1,
                    hden >= 1,
                    1 <= w <= 65536,
                    1 <= h <= 65536,
                    0 <= i < w,
                    0 <= j < h,
                    0 <= s_done <= samples_per_pixel,
                    0 <= sum.r as int <= (s_done as int) * (SCALE as int),
                    0 <= sum.g as int <= (s_done as int) * (SCALE as int),
                    0 <= sum.b as int <= (s_done as int) * (SCALE as int),
                    recs.len() == s_done as int,
                    forall|k: int| 0 <= k < recs.len() ==> sample_wf(#[trigger] recs[k]),
                    sum.r as int == pixel_sum(cam, objs, max_depth as int, w as int, h as int,
                        i as int, j as int, recs).0,
                    sum.g as int == pixel_sum(cam, objs, max_depth as int, w as int, h as int,
                        i as int, j as int, recs).1,
                    sum.b as int == pixel_sum(cam, objs, max_depth as int, w as int, h as int,
                        i as int, j as int, recs).2,
                    max_depth <= 0 ==> sum == (Color { r: 0, g: 0, b: 0 }),
                decreases samples_per_pixel - s_done,
            {
                let ju: i64 = rand_fx_unit(&mut rng);
                let jv: i64 = rand_fx_unit(&mut rng);
                proof {
                    if w >= 2 {
                        lemma_jitter_range(i as int, wden as int, ju as int);
                    } else {
                        lemma_jitter_range(0, 1, ju as int);
                    }
                    if h >= 2 {
                        lemma_jitter_range(j as int, hden as int, jv as int);
                    } else {
                        lemma_jitter_range(0, 1, jv as int);
                    }
                }
                let un: i64 = (i as i64) * SCALE + ju;
                let vn: i64 = (j as i64) * SCALE + jv;
                let u: i64 = fx_div_int(un, wden);
                let v: i64 = fx_div_int(vn, hden);
                let r: Ray = camera.ray(u, v, &mut rng);
                let c: Color = ray_color(&r, world, max_depth, &mut rng);
                proof {
                    assert((s_done as int) * (SCALE as int) + (SCALE as int) == ((s_done as int)
                        + 1) * (SCALE as int)) by (nonlinear_arith);
                    assert((samples_per_pixel as int) * (SCALE as int)
                        <= 2_147_483_647_000_000_000int) by (nonlinear_arith)
                        requires
                            samples_per_pixel <= 2_147_483_647i32,
                            SCALE == 1_000_000_000,
                    ;
                    assert((s_done as int) * (SCALE as int) <= (samples_per_pixel as int) * (
                    SCALE as int)) by (nonlinear_arith)
                        requires
                            s_done < samples_per_pixel,
                    ;
                    let rd = choose|rd: FreeVec3|
                        in_unit_disk(rd) && r == camera_ray_spec(cam, u as int, v as int, rd);
                    let tr = choose|tr: Seq<(UnitVec3, int)>|
                        trace_wf(tr) && c == radiance_spec(r, objs, max_depth as int, tr);
                    let rec = (ju as int, jv as int, rd, tr);
                    assert(sample_wf(rec));
                    assert(sample_radiance(cam, objs, max_depth as int, w as int, h as int,
                        i as int, j as int, rec) == c);
                    let recs2 = recs.push(rec);
                    assert(recs2.drop_last() =~= recs);
                    assert(recs2.last() == rec);
                    recs = recs2;
                }
                sum = sum.add(c);
                s_done = s_done + 1;
            }
            let bytes: (u8, u8, u8) = sum.write(samples_per_pixel);
            proof {
                if max_depth <= 0 {
                    lemma_encode_zero(samples_per_pixel as int);
                }
            }
            let ghost oldbuf = buf@;
            buf.push(bytes.0);
            buf.push(bytes.1);
            buf.push(bytes.2);
            proof {
                let wi = w as int;
                let hi = h as int;
                let p = (row as int) * wi + (i as int);
                vstd::arithmetic::div_mod::lemma_fundamental_div_mod_converse(p, wi, row as int,
                    i as int);
                assert(p % wi == i as int && p / wi == row as int);
                assert(p >= 0) by (nonlinear_arith)
                    requires
                        p == (row as int) * wi + (i as int),
                        row as int >= 0,
                        wi >= 1,
                        i as int >= 0,
                ;
                assert(oldbuf.len() == 3 * p) by (nonlinear_arith)
                    requires
                        oldbuf.len() == 3 * (row as int) * wi + 3 * (i as int),
                        p == (row as int) * wi + (i as int),
                ;
                assert(buf@.len() == oldbuf.len() + 3);
                assert(buf@[3 * p] == bytes.0 && buf@[3 * p + 1] == bytes.1 && buf@[3 * p + 2]
                    == bytes.2);
                assert(forall|q: int| 0 <= q < oldbuf.len() ==> buf@[q] == oldbuf[q]);
                draws = draws.push(recs);
                assert(pixel_ok(cam, objs, wi, hi, samples_per_pixel as int, max_depth as int,
                    recs, buf@, p));
                assert forall|q: int| 0 <= q < draws.len() implies pixel_ok(cam, objs, wi, hi,
                    samples_per_pixel as int, max_depth as int, #[trigger] draws[q], buf@,
                    q) by {
                    if q < p {
                        assert(draws[q] == draws.drop_last()[q]);
                        assert(pixel_ok(cam, objs, wi, hi, samples_per_pixel as int,
                            max_depth as int, draws[q], oldbuf, q));
                    }
                }
            }
            i = i + 1;
        }
        proof {
            assert(3 * ((row as int) + 1) * (w as int) == 3 * (row as int) * (w as int) + 3 * (
            w as int)) by (nonlinear_arith);
            assert(((row as int) + 1) * (w as int) == (row as int) * (w as int) + (w as int))
                by (nonlinear_arith);
        }
        row = row + 1;
    }
    proof {
        assert((h as int) * (w as int) == (w as int) * (h as int)) by (nonlinear_arith);
        assert(3 * (h as int) * (w as int) == 3 * ((w as int) * (h as int))) by (nonlinear_arith);
        assert(3 * (h as int) * (w as int) == 3 * (w as int) * (h as int)) by (nonlinear_arith);
        assert(render_trace_matches(cam, objs, w as int, h as int, samples_per_pixel as int,
            max_depth as int, draws, buf@));
    }
    buf
}

} // verus!
