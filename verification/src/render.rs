//! Overall render logic: the intersection resolvers (`closest_hit`,
//! `any_hit`), the recursive shading engine (`light`), and the render loop
//! that maps viewport pixels to primary rays and fills the pixel buffer.

use vstd::prelude::*;

use crate::draw::{Color, Matrix, map_color, draw_pixel, s_map_color, s_pixel_index};
use crate::fixed::{fsub, fdiv, fpow, fx_sub, fx_div, fx_pow, SCALE};
use crate::scene::{Config, HitType, Light, LightType, Object, Ray, s_object_hit,
s_object_material, s_object_normal};
use crate::vec3::{Vec3, s_add, s_sub, s_neg, s_scale, s_mul_comp, s_dot, s_len, s_normalize,
s_clamp, s_reflect, s_zero};

verus! {

/// Parametric distance used as "no upper bound" for rays.
pub const T_MAX: i64 = i64::MAX;

/// Bias added to shadow and reflection ray ranges so a surface does not
/// occlude itself at its own origin (about 0.001 in fixed point).
pub const EPSILON: i64 = 66;

/// Distance from the camera to the viewport plane (0.5 in fixed point,
/// half of SCALE).
pub const VIEW_DIST: i64 = 32768;

/// The point `origin + t * direction` at ray parameter t.
pub open spec fn s_hit_point(r: Ray, t: int) -> Vec3 {
    s_add(r.o, s_scale(r.d, t))
}

/// Result of scanning the first n objects for the closest hit: the index and
/// ray parameter of the first object attaining the minimal t (a strictly
/// smaller t is needed to displace an earlier winner).
pub open spec fn s_closest_upto(r: Ray, objs: Seq<Object>, lim: (int, int), n: int) -> Option<
    (int, i64),
>
    decreases n,
{
    if n <= 0 {
        None
    } else {
        let prev = s_closest_upto(r, objs, lim, n - 1);
        match s_object_hit(objs[n - 1], r, lim) {
            HitType::Hit(t) => match prev {
                None => Some((n - 1, t)),
                Some(p) => if t < p.1 {
                    Some((n - 1, t))
                } else {
                    prev
                },
            },
            HitType::Miss => prev,
        }
    }
}

/// The closest hit over the whole object list, with the hit point computed.
pub open spec fn s_closest_hit(r: Ray, objs: Seq<Object>, lim: (int, int)) -> Option<(int, Vec3)> {
    match s_closest_upto(r, objs, lim, objs.len() as int) {
        None => None,
        Some(p) => Some((p.0, s_hit_point(r, p.1 as int))),
    }
}

/// The first object at index >= i (in storage order) that reports a hit.
pub open spec fn s_first_hit_from(r: Ray, objs: Seq<Object>, lim: (int, int), i: int) -> Option<
    (int, i64),
>
    decreases objs.len() - i,
{
    if i < 0 || i >= objs.len() {
        None
    } else {
        match s_object_hit(objs[i], r, lim) {
            HitType::Hit(t) => Some((i, t)),
            HitType::Miss => s_first_hit_from(r, objs, lim, i + 1),
        }
    }
}

/// The first hit in storage order, with the hit point computed.
pub open spec fn s_any_hit(r: Ray, objs: Seq<Object>, lim: (int, int)) -> Option<(int, Vec3)> {
    match s_first_hit_from(r, objs, lim, 0) {
        None => None,
        Some(p) => Some((p.0, s_hit_point(r, p.1 as int))),
    }
}

/// Scanning the first n objects finds a hit exactly when one of them hits.
proof fn lemma_closest_upto_exists(r: Ray, objs: Seq<Object>, lim: (int, int), n: int)
    requires
        n <= objs.len(),
    ensures
        s_closest_upto(r, objs, lim, n) is Some <==> exists|i: int|
            0 <= i < n && s_object_hit(objs[i], r, lim) is Hit,
        s_closest_upto(r, objs, lim, n) matches Some(p) ==> 0 <= p.0 < n && s_object_hit(
            objs[p.0],
            r,
            lim,
        ) == HitType::Hit(p.1),
    decreases n,
{
    if n > 0 {
        lemma_closest_upto_exists(r, objs, lim, n - 1);
        if s_object_hit(objs[n - 1], r, lim) is Hit {
            assert(s_closest_upto(r, objs, lim, n) is Some);
        }
    }
}

/// Scanning from index i onward finds a hit exactly when some object at or
/// after i hits.
proof fn lemma_first_hit_exists(r: Ray, objs: Seq<Object>, lim: (int, int), i: int)
    requires
        i >= 0,
    ensures
        s_first_hit_from(r, objs, lim, i) is Some <==> exists|j: int|
            i <= j < objs.len() && s_object_hit(objs[j], r, lim) is Hit,
        s_first_hit_from(r, objs, lim, i) matches Some(p) ==> i <= p.0 < objs.len()
            && s_object_hit(objs[p.0], r, lim) == HitType::Hit(p.1),
    decreases objs.len() - i,
{
    if i < objs.len() {
        lemma_first_hit_exists(r, objs, lim, i + 1);
    }
}

/// `any_hit` returns a hit exactly when a hit exists, and so never reports
/// a miss where `closest_hit` would report a hit over the same objects and
/// range (and the other way round).
pub proof fn lemma_any_hit_iff_closest_hit(r: Ray, objs: Seq<Object>, lim: (int, int))
    ensures
        s_any_hit(r, objs, lim) is Some <==> exists|i: int|
            0 <= i < objs.len() && s_object_hit(objs[i], r, lim) is Hit,
        s_any_hit(r, objs, lim) is Some <==> s_closest_hit(r, objs, lim) is Some,
{
    lemma_closest_upto_exists(r, objs, lim, objs.len() as int);
    lemma_first_hit_exists(r, objs, lim, 0);
}

/// When one object hits strictly closer than every other object does,
/// scanning any prefix that includes it yields exactly that object.
proof fn lemma_closest_upto_unique(
    r: Ray,
    objs: Seq<Object>,
    lim: (int, int),
    i: int,
    t: i64,
    n: int,
)
    requires
        0 <= i < objs.len(),
        n <= objs.len(),
        s_object_hit(objs[i], r, lim) == HitType::Hit(t),
        forall|j: int, u: i64|
            0 <= j < objs.len() && j != i && s_object_hit(objs[j], r, lim) == HitType::Hit(u)
                ==> u > t,
    ensures
        n > i ==> s_closest_upto(r, objs, lim, n) == Some((i, t)),
        n <= i ==> (s_closest_upto(r, objs, lim, n) matches Some(p) ==> p.1 > t),
    decreases n,
{
    if n > 0 {
        lemma_closest_upto_unique(r, objs, lim, i, t, n - 1);
    }
}

/// `closest_hit` over objects with a known strictly-nearest one returns
/// exactly that object's index and hit point.
pub proof fn lemma_closest_hit_unique_nearest(
    r: Ray,
    objs: Seq<Object>,
    lim: (int, int),
    i: int,
    t: i64,
)
    requires
        0 <= i < objs.len(),
        s_object_hit(objs[i], r, lim) == HitType::Hit(t),
        forall|j: int, u: i64|
            0 <= j < objs.len() && j != i && s_object_hit(objs[j], r, lim) == HitType::Hit(u)
                ==> u > t,
    ensures
        s_closest_hit(r, objs, lim) == Some((i, s_hit_point(r, t as int))),
{
    lemma_closest_upto_unique(r, objs, lim, i, t, objs.len() as int);
}

/// Permutation invariance of `closest_hit`: rearranging the other objects
/// around a strictly-nearest one moves only its index, never its identity.
/// `perm` maps each position of `objs2` to the position in `objs1` holding
/// the same object, injectively.
pub proof fn lemma_closest_hit_permutation(
    r: Ray,
    objs1: Seq<Object>,
    objs2: Seq<Object>,
    lim: (int, int),
    perm: Seq<int>,
    i1: int,
    i2: int,
    t: i64,
)
    requires
        objs2.len() == objs1.len(),
        perm.len() == objs1.len(),
        forall|k: int| 0 <= k < perm.len() ==> 0 <= #[trigger] perm[k] < objs1.len(),
        forall|k: int| 0 <= k < objs2.len() ==> objs2[k] == objs1[#[trigger] perm[k]],
        forall|k1: int, k2: int|
            0 <= k1 < perm.len() && 0 <= k2 < perm.len() && k1 != k2 ==> #[trigger] perm[k1]
                != #[trigger] perm[k2],
        0 <= i1 < objs1.len(),
        0 <= i2 < objs2.len(),
        perm[i2] == i1,
        s_object_hit(objs1[i1], r, lim) == HitType::Hit(t),
        forall|j: int, u: i64|
            0 <= j < objs1.len() && j != i1 && s_object_hit(objs1[j], r, lim) == HitType::Hit(u)
                ==> u > t,
    ensures
        s_closest_hit(r, objs2, lim) == Some((i2, s_hit_point(r, t as int))),
        s_closest_hit(r, objs1, lim) == Some((i1, s_hit_point(r, t as int))),
{
    assert(s_object_hit(objs2[i2], r, lim) == HitType::Hit(t));
    assert forall|k: int, u: i64|
        0 <= k < objs2.len() && k != i2 && s_object_hit(objs2[k], r, lim) == HitType::Hit(
            u,
        ) implies u > t by {
        assert(perm[k] != i1);
        assert(objs2[k] == objs1[perm[k]]);
    }
    lemma_closest_hit_unique_nearest(r, objs2, lim, i2, t);
    lemma_closest_hit_unique_nearest(r, objs1, lim, i1, t);
}

/// Contribution of one light at a surface point when the point is not in
/// shadow: a diffuse term max(0, dot(N, L)) and a specular term
/// (max(0, dot(R, V)))^specular, each scaling the light's color, where L is
/// the unit vector toward the light, N the surface normal, R the reflection
/// of L about N and V the unit vector back toward the ray origin.
pub open spec fn s_direct_light(
    objs: Seq<Object>,
    i: int,
    p: Vec3,
    d_in: Vec3,
    lcolor: Vec3,
    ldir: Vec3,
    tmax: int,
) -> Vec3 {
    let shadow_ray = Ray { o: p, d: ldir };
    if s_any_hit(shadow_ray, objs, (EPSILON as int, tmax)) is Some {
        s_zero()
    } else {
        let n = s_object_normal(objs[i], p);
        let diff = s_dot(n, ldir);
        let dterm = if diff > 0 {
            s_scale(lcolor, diff)
        } else {
            s_zero()
        };
        let rv = s_neg(s_reflect(ldir, n));
        let v = s_normalize(s_neg(d_in));
        let cos = s_dot(rv, v);
        let scos = if cos > 0 {
            cos
        } else {
            0
        };
        let sterm = s_scale(lcolor, fpow(scos, s_object_material(objs[i]).specular as nat));
        s_add(dterm, sterm)
    }
}

/// Local (non-reflective) contribution of one light: ambient light
/// contributes its color unconditionally; directional and point lights are
/// shadow-tested and then contribute diffuse and specular terms. A point
/// light's shadow ray stops at the light's distance; a directional light's
/// has no upper bound.
pub open spec fn s_local_light(objs: Seq<Object>, i: int, p: Vec3, d_in: Vec3, l: Light) -> Vec3 {
    match l.kind {
        LightType::Ambient => l.color,
        LightType::Directional(dir) => s_direct_light(
            objs,
            i,
            p,
            d_in,
            l.color,
            s_normalize(dir),
            T_MAX as int,
        ),
        LightType::Point(pos) => s_direct_light(
            objs,
            i,
            p,
            d_in,
            l.color,
            s_normalize(s_sub(pos, p)),
            s_len(s_sub(pos, p)),
        ),
    }
}

/// Full contribution of one light with the reflection recursion: when the
/// depth budget and the surface's reflectivity allow, a mirror ray is traced
/// through the scene, the reflected radiance (or the background on a miss)
/// is filtered by the struck object's base color, and the result is blended
/// as local*(1 - refl) + reflected*refl. At depth 0 the local term stands
/// alone whatever the reflectivity.
pub open spec fn s_light(
    objs: Seq<Object>,
    i: int,
    p: Vec3,
    d_in: Vec3,
    l: Light,
    background: Vec3,
    depth: nat,
) -> Vec3
    decreases depth,
{
    let local = s_local_light(objs, i, p, d_in, l);
    let refl = s_object_material(objs[i]).refl;
    if depth == 0 || refl <= 0 {
        local
    } else {
        let rdir = s_reflect(d_in, s_object_normal(objs[i], p));
        let rray = Ray { o: p, d: rdir };
        let reflected = match s_closest_hit(rray, objs, (EPSILON as int, T_MAX as int)) {
            Some(hit) => s_mul_comp(
                s_object_material(objs[hit.0]).color,
                s_light(objs, hit.0, hit.1, rdir, l, background, (depth - 1) as nat),
            ),
            None => background,
        };
        s_add(s_scale(local, fsub(SCALE as int, refl as int)), s_scale(reflected, refl as int))
    }
}

/// With a reflection budget of zero no reflected ray is traced: the shaded
/// color is exactly the local term, whatever the material's reflectivity.
pub proof fn lemma_no_reflection_at_depth_zero(
    objs: Seq<Object>,
    i: int,
    p: Vec3,
    d_in: Vec3,
    l: Light,
    background: Vec3,
)
    ensures
        s_light(objs, i, p, d_in, l, background, 0) == s_local_light(objs, i, p, d_in, l),
{
}

/// Diffuse and specular contribution of an unoccluded directional or point
/// light (zero if the shadow ray from p toward the light hits anything).
fn direct_light(
    objs: &Vec<Object>,
    i: usize,
    p: &Vec3,
    d_in: &Vec3,
    lcolor: &Vec3,
    ldir: &Vec3,
    tmax: i64,
) -> (r: Vec3)
    requires
        i < objs.len(),
    ensures
        r == s_direct_light(objs@, i as int, *p, *d_in, *lcolor, *ldir, tmax as int),
{
    let shadow_ray = Ray { o: *p, d: *ldir };
    match any_hit(&shadow_ray, objs, (EPSILON, tmax)) {
        Some(_) => Vec3::zero(),
        None => {
            let n: Vec3 = objs[i].normal(p);
            let diff: i64 = n.dot(*ldir);
            let dterm: Vec3 = if diff > 0 {
                lcolor.scale(diff)
            } else {
                Vec3::zero()
            };
            let rv: Vec3 = ldir.reflect(n).negate();
            let v: Vec3 = d_in.negate().normalize();
            let cos: i64 = rv.dot(v);
            let scos: i64 = if cos > 0 {
                cos
            } else {
                0
            };
            let sterm: Vec3 = lcolor.scale(fx_pow(scos, objs[i].material(p).specular));
            dterm.plus(sterm)
        },
    }
}

/// Local contribution of one light at a surface point, without reflection.
fn local_light(objs: &Vec<Object>, i: usize, p: &Vec3, d_in: &Vec3, l: &Light) -> (r: Vec3)
    requires
        i < objs.len(),
    ensures
        r == s_local_light(objs@, i as int, *p, *d_in, *l),
{
    match l.kind {
        LightType::Ambient => l.color,
        LightType::Directional(dir) => direct_light(
            objs,
            i,
            p,
            d_in,
            &l.color,
            &dir.normalize(),
            T_MAX,
        ),
        LightType::Point(pos) => {
            let lv: Vec3 = pos.minus(*p);
            direct_light(objs, i, p, d_in, &l.color, &lv.normalize(), lv.length())
        },
    }
}

/// Contribution of one light to the color at a surface point of object i,
/// including mirror reflections up to the remaining depth budget.
pub fn light(
    objs: &Vec<Object>,
    i: usize,
    p: &Vec3,
    d_in: &Vec3,
    l: &Light,
    background: &Vec3,
    depth: u32,
) -> (r: Vec3)
    requires
        i < objs.len(),
    ensures
        r == s_light(objs@, i as int, *p, *d_in, *l, *background, depth as nat),
    decreases depth,
{
    let local: Vec3 = local_light(objs, i, p, d_in, l);
    let refl: i64 = objs[i].material(p).refl;
    if depth == 0 || refl <= 0 {
        local
    } else {
        let rdir: Vec3 = d_in.reflect(objs[i].normal(p));
        let rray = Ray { o: *p, d: rdir };
        let reflected: Vec3 = match closest_hit(&rray, objs, (EPSILON, T_MAX)) {
            Some((j, q)) => objs[j].material(&q).color.mul_comp(
                light(objs, j, &q, &rdir, l, background, depth - 1),
            ),
            None => *background,
        };
        local.scale(fx_sub(SCALE, refl)).plus(reflected.scale(refl))
    }
}

/// Iterates through all objects and returns the index of the closest object
/// hit within [lim.0, lim.1] and the hit point, or None if nothing hits.
/// Ties on t keep the earliest object in storage order.
#[verifier::rlimit(60)]
pub fn closest_hit(r: &Ray, objs: &Vec<Object>, lim: (i64, i64)) -> (res: Option<(usize, Vec3)>)
    ensures
        (match res {
            Some((i, p)) => Some((i as int, p)),
            None => None,
        }) == s_closest_hit(*r, objs@, (lim.0 as int, lim.1 as int)),
        res matches Some((i, p)) ==> i < objs.len(),
{
    let ghost glim = (lim.0 as int, lim.1 as int);
    let mut best: Option<(usize, i64)> = None;
    let mut i: usize = 0;
    while i < objs.len()
        invariant
            glim == (lim.0 as int, lim.1 as int),
            i <= objs.len(),
            (match best {
                Some((bi, bt)) => Some((bi as int, bt)),
                None => None,
            }) == s_closest_upto(*r, objs@, glim, i as int),
            best matches Some((bi, bt)) ==> bi < i,
        decreases objs.len() - i,
    {
        proof {
            let n = i as int + 1;
            assert(s_closest_upto(*r, objs@, glim, n) == {
                let prev = s_closest_upto(*r, objs@, glim, n - 1);
                match s_object_hit(objs@[n - 1], *r, glim) {
                    HitType::Hit(t) => match prev {
                        None => Some((n - 1, t)),
                        Some(p) => if t < p.1 {
                            Some((n - 1, t))
                        } else {
                            prev
                        },
                    },
                    HitType::Miss => prev,
                }
            });
        }
        match objs[i].hit(r, lim) {
            HitType::Hit(t) => {
                let take: bool = match best {
                    None => true,
                    Some((_bi, bt)) => t < bt,
                };
                if take {
                    best = Some((i, t));
                }
            },
            HitType::Miss => {},
        }
        i = i + 1;
    }
    match best {
        Some((bi, bt)) => Some((bi, r.o.plus(r.d.scale(bt)))),
        None => None,
    }
}

/// Iterates through all objects and returns the index of the first object
/// (in storage order) hit within [lim.0, lim.1] and the hit point, or None
/// if nothing hits. Used for existence-only (shadow) tests.
#[verifier::rlimit(100)]
pub fn any_hit(r: &Ray, objs: &Vec<Object>, lim: (i64, i64)) -> (res: Option<(usize, Vec3)>)
    ensures
        (match res {
            Some((i, p)) => Some((i as int, p)),
            None => None,
        }) == s_any_hit(*r, objs@, (lim.0 as int, lim.1 as int)),
        res matches Some((i, p)) ==> i < objs.len(),
{
    let ghost glim = (lim.0 as int, lim.1 as int);
    let mut i: usize = 0;
    while i < objs.len()
        invariant
            glim == (lim.0 as int, lim.1 as int),
            0 <= i <= objs.len(),
            s_first_hit_from(*r, objs@, glim, 0) == s_first_hit_from(*r, objs@, glim, i as int),
        decreases objs.len() - i,
    {
        proof {
            assert(s_first_hit_from(*r, objs@, glim, i as int) == (match s_object_hit(
                objs@[i as int],
                *r,
                glim,
            ) {
                HitType::Hit(t) => Some((i as int, t)),
                HitType::Miss => s_first_hit_from(*r, objs@, glim, i as int + 1),
            }));
        }
        match objs[i].hit(r, lim) {
            HitType::Hit(t) => {
                return Some((i, r.o.plus(r.d.scale(t))));
            },
            HitType::Miss => {},
        }
        i = i + 1;
    }
    None
}

/// The primary ray through pixel (x, y) of a region whose top-left offset on
/// the full canvas is `start`: the viewport is a plane at VIEW_DIST from the
/// camera, scaled so one canvas column is SCALE/dims.0 wide on both axes
/// (square pixels whatever the output dimensions).
pub open spec fn s_view_ray(cam: Vec3, start: (int, int), dims: (int, int), x: int, y: int) -> Ray {
    Ray {
        o: cam,
        d: Vec3 {
            x: fdiv(x + start.0, dims.0) as i64,
            y: fdiv(y - start.1, dims.0) as i64,
            z: VIEW_DIST,
        },
    }
}

/// Sum of the contributions of the first n lights at a surface point.
pub open spec fn s_sum_lights(
    objs: Seq<Object>,
    i: int,
    p: Vec3,
    d_in: Vec3,
    lights: Seq<Light>,
    background: Vec3,
    depth: nat,
    n: int,
) -> Vec3
    decreases n,
{
    if n <= 0 {
        s_zero()
    } else {
        s_add(
            s_sum_lights(objs, i, p, d_in, lights, background, depth, n - 1),
            s_light(objs, i, p, d_in, lights[n - 1], background, depth),
        )
    }
}

/// The byte color a miss leaves in the buffer: the world's background color.
pub open spec fn s_background_color(cfg: Config) -> Color {
    s_map_color(cfg.world.background)
}

/// The color of one rendered pixel: trace the primary ray via closest_hit
/// with range (VIEW_DIST, T_MAX); on a hit, sum every light's (shadow-tested,
/// reflection-recursed) contribution, filter by the material's base color,
/// clamp to [0, 1] and map to bytes. None on a miss.
#[verifier::opaque]
pub open spec fn s_pixel_color(
    objs: Seq<Object>,
    lights: Seq<Light>,
    cfg: Config,
    start: (int, int),
    dims: (int, int),
    x: int,
    y: int,
) -> Option<Color> {
    let vray = s_view_ray(cfg.world.cam_pos, start, dims, x, y);
    match s_closest_hit(vray, objs, (VIEW_DIST as int, T_MAX as int)) {
        Some(hit) => Some(
            s_map_color(
                s_clamp(
                    s_mul_comp(
                        s_object_material(objs[hit.0]).color,
                        s_sum_lights(
                            objs,
                            hit.0,
                            hit.1,
                            vray.d,
                            lights,
                            cfg.world.background,
                            cfg.render.max_reflections as nat,
                            lights.len() as int,
                        ),
                    ),
                    0,
                    SCALE as int,
                ),
            ),
        ),
        None => None,
    }
}

/// Whether buffer index k lies in the rendered region: its column within
/// [0, 2*(dims.0/2)) and its row within (0, 2*(dims.1/2)] under the
/// row-major, stride-dims.0 layout of centered canvas coordinates.
pub open spec fn s_covered(dims: (int, int), k: int) -> bool {
    0 <= k % dims.0 < 2 * (dims.0 / 2) && 0 < k / dims.0 <= 2 * (dims.1 / 2)
}

/// The final value of buffer cell k: the rendered pixel color where k maps
/// to a rendered pixel that hits something, the background color everywhere
/// else (misses, and the border cells outside the centered coordinate range).
#[verifier::opaque]
pub open spec fn s_cell(
    objs: Seq<Object>,
    lights: Seq<Light>,
    cfg: Config,
    start: (int, int),
    dims: (int, int),
    k: int,
) -> Color {
    let x = k % dims.0 - dims.0 / 2;
    let y = dims.1 / 2 - k / dims.0;
    if s_covered(dims, k) {
        match s_pixel_color(objs, lights, cfg, start, dims, x, y) {
            Some(c) => c,
            None => s_background_color(cfg),
        }
    } else {
        s_background_color(cfg)
    }
}

/// The color of the pixel at centered coordinates (x, y) of the region, or
/// None where the primary ray misses every object.
#[verifier::loop_isolation(false)]
#[verifier::rlimit(100)]
fn render_pixel(
    x: i32,
    y: i32,
    start: (i32, i32),
    dims: (usize, usize),
    objs: &Vec<Object>,
    lights: &Vec<Light>,
    cfg: &Config,
) -> (res: Option<Color>)
    requires
        0 < dims.0 <= 16384,
    ensures
        (match res {
            Some(c) => Some(c),
            None => None,
        }) == s_pixel_color(
            objs@,
            lights@,
            *cfg,
            (start.0 as int, start.1 as int),
            (dims.0 as int, dims.1 as int),
            x as int,
            y as int,
        ),
{
    let ghost gstart = (start.0 as int, start.1 as int);
    let ghost gdims = (dims.0 as int, dims.1 as int);
    let xs: i64 = x as i64 + start.0 as i64;
    let ys: i64 = y as i64 - start.1 as i64;
    let vd = Vec3 { x: fx_div(xs, dims.0 as i64), y: fx_div(ys, dims.0 as i64), z: VIEW_DIST };
    let v_ray = Ray { o: cfg.world.cam_pos, d: vd };
    proof {
        reveal(s_pixel_color);
        assert(v_ray == s_view_ray(cfg.world.cam_pos, gstart, gdims, x as int, y as int));
    }
    match closest_hit(&v_ray, objs, (VIEW_DIST, T_MAX)) {
        Some((i, p)) => {
            let mut color_v: Vec3 = Vec3::zero();
            let mut li: usize = 0;
            while li < lights.len()
                invariant
                    li <= lights.len(),
                    i < objs.len(),
                    color_v == s_sum_lights(
                        objs@,
                        i as int,
                        p,
                        vd,
                        lights@,
                        cfg.world.background,
                        cfg.render.max_reflections as nat,
                        li as int,
                    ),
                decreases lights.len() - li,
            {
                let l: Light = lights[li];
                color_v = color_v.plus(
                    light(objs, i, &p, &vd, &l, &cfg.world.background, cfg.render.max_reflections),
                );
                li = li + 1;
            }
            let cv: Vec3 = objs[i].material(&p).color.mul_comp(color_v).clamp(0, SCALE);
            Some(map_color(cv))
        },
        None => None,
    }
}

/// The buffer state after every canvas row above `bound` has been rendered:
/// those covered cells hold their rendered color, everything else still
/// holds the background color.
pub open spec fn s_rows_done(
    objs: Seq<Object>,
    lights: Seq<Light>,
    cfg: Config,
    start: (int, int),
    dims: (int, int),
    bound: int,
    m: Seq<Color>,
) -> bool {
    forall|k: int|
        0 <= k < m.len() ==> m[k] == (if s_covered(dims, k) && k / dims.0 > bound {
            s_cell(objs, lights, cfg, start, dims, k)
        } else {
            s_background_color(cfg)
        })
}

/// The buffer state in the middle of rendering canvas row `rowbound`: rows
/// above it are done, and within it the first columns up to `xbound` are
/// done.
pub open spec fn s_row_partial(
    objs: Seq<Object>,
    lights: Seq<Light>,
    cfg: Config,
    start: (int, int),
    dims: (int, int),
    rowbound: int,
    xbound: int,
    m: Seq<Color>,
) -> bool {
    forall|k: int|
        0 <= k < m.len() ==> m[k] == (if s_covered(dims, k) && (k / dims.0 > rowbound || (k / dims.0
            == rowbound && k % dims.0 < xbound)) {
            s_cell(objs, lights, cfg, start, dims, k)
        } else {
            s_background_color(cfg)
        })
}

/// The buffer index of pixel (x, y) decomposes back to its row and column,
/// lies inside the buffer, and its final cell value is the pixel's color
/// (or the background on a miss).
proof fn lemma_cell_at(
    objs: Seq<Object>,
    lights: Seq<Light>,
    cfg: Config,
    start: (int, int),
    dims: (int, int),
    x: int,
    y: int,
)
    requires
        dims.0 > 0,
        dims.1 > 0,
        0 <= x + dims.0 / 2 < 2 * (dims.0 / 2),
        0 < dims.1 / 2 - y <= 2 * (dims.1 / 2),
    ensures
        0 <= s_pixel_index((x, y), dims) < dims.0 * dims.1 + dims.0 + dims.1 + 1,
        s_pixel_index((x, y), dims) % dims.0 == x + dims.0 / 2,
        s_pixel_index((x, y), dims) / dims.0 == dims.1 / 2 - y,
        s_covered(dims, s_pixel_index((x, y), dims)),
        s_cell(objs, lights, cfg, start, dims, s_pixel_index((x, y), dims)) == (
        match s_pixel_color(objs, lights, cfg, start, dims, x, y) {
            Some(c) => c,
            None => s_background_color(cfg),
        }),
{
    let idx = s_pixel_index((x, y), dims);
    let ay = dims.1 / 2 - y;
    let ax = x + dims.0 / 2;
    assert(ax < dims.0);
    assert(ay <= dims.1);
    assert(ay * dims.0 + ax < dims.0 * dims.1 + dims.0 + dims.1 + 1) by (nonlinear_arith)
        requires
            0 <= ax < dims.0,
            0 < ay,
            ay <= dims.1,
            dims.0 > 0,
            dims.1 > 0,
    ;
    assert(ay * dims.0 >= 0) by (nonlinear_arith)
        requires
            ay > 0 && dims.0 > 0,
    ;
    assert(idx == ay * dims.0 + ax);
    vstd::arithmetic::div_mod::lemma_fundamental_div_mod_converse(idx, dims.0, ay, ax);
    reveal(s_cell);
}

/// Any buffer index with the row and column of pixel (x, y) is that pixel's
/// index.
proof fn lemma_index_unique(dims: (int, int), k: int, x: int, y: int)
    requires
        dims.0 > 0,
        k / dims.0 == dims.1 / 2 - y,
        k % dims.0 == x + dims.0 / 2,
    ensures
        k == s_pixel_index((x, y), dims),
{
    vstd::arithmetic::div_mod::lemma_fundamental_div_mod(k, dims.0);
    assert(dims.0 * (dims.1 / 2 - y) == (dims.1 / 2 - y) * dims.0) by (nonlinear_arith);
}

/// Renders one canvas row y of the region: afterward every covered cell in
/// that row and above-processed rows holds its rendered color, and all other
/// cells still hold the background color.
#[verifier::loop_isolation(false)]
#[verifier::rlimit(100)]
fn render_row(
    buf: &mut Matrix<Color>,
    y: i32,
    start: (i32, i32),
    dims: (usize, usize),
    objs: &Vec<Object>,
    lights: &Vec<Light>,
    cfg: &Config,
)
    requires
        0 < dims.0 <= 16384,
        0 < dims.1 <= 16384,
        -((dims.1 / 2) as int) <= y < (dims.1 / 2) as int,
        old(buf).rlen == dims.0 + 1,
        old(buf).clen == dims.1 + 1,
        old(buf).mat@.len() == dims.0 * dims.1 + dims.0 + dims.1 + 1,
        s_rows_done(
            objs@,
            lights@,
            *cfg,
            (start.0 as int, start.1 as int),
            (dims.0 as int, dims.1 as int),
            (dims.1 / 2) as int - y,
            old(buf).mat@,
        ),
    ensures
        final(buf).rlen == old(buf).rlen,
        final(buf).clen == old(buf).clen,
        final(buf).mat@.len() == old(buf).mat@.len(),
        s_rows_done(
            objs@,
            lights@,
            *cfg,
            (start.0 as int, start.1 as int),
            (dims.0 as int, dims.1 as int),
            (dims.1 / 2) as int - y - 1,
            final(buf).mat@,
        ),
{
    let ghost gstart = (start.0 as int, start.1 as int);
    let ghost gdims = (dims.0 as int, dims.1 as int);
    let ghost pixels = old(buf).mat@.len() as int;
    let ghost gbg = s_background_color(*cfg);
    let w2: i32 = (dims.0 / 2) as i32;
    let h2: i32 = (dims.1 / 2) as i32;
    let mut x: i32 = -w2;
    proof {
        assert forall|k: int| 0 <= k < pixels implies buf.mat@[k] == (if s_covered(gdims, k) && (k
            / gdims.0 > h2 - y || (k / gdims.0 == h2 - y && k % gdims.0 < 0)) {
            s_cell(objs@, lights@, *cfg, gstart, gdims, k)
        } else {
            gbg
        }) by {
            if s_covered(gdims, k) {
                assert(0 <= k % gdims.0);
            }
        }
        assert(s_row_partial(objs@, lights@, *cfg, gstart, gdims, h2 - y, 0, buf.mat@));
    }
    while x < w2
        invariant
            -w2 <= x <= w2,
            buf.rlen == dims.0 + 1,
            buf.clen == dims.1 + 1,
            buf.mat@.len() == pixels,
            s_row_partial(objs@, lights@, *cfg, gstart, gdims, h2 - y, x + w2, buf.mat@),
        decreases w2 - x,
    {
        let ghost idx = s_pixel_index((x as int, y as int), gdims);
        proof {
            lemma_cell_at(objs@, lights@, *cfg, gstart, gdims, x as int, y as int);
        }
        let ghost pre = buf.mat@;
        match render_pixel(x, y, start, dims, objs, lights, cfg) {
            Some(c) => {
                draw_pixel(buf, (x, y), dims, c);
                proof {
                    assert(buf.mat@ == pre.update(idx, c));
                    assert(buf.mat@[idx] == s_cell(objs@, lights@, *cfg, gstart, gdims, idx));
                }
            },
            None => {
                proof {
                    assert(buf.mat@ == pre);
                    assert(pre[idx] == gbg);
                    assert(buf.mat@[idx] == s_cell(objs@, lights@, *cfg, gstart, gdims, idx));
                }
            },
        }
        proof {
            assert forall|k: int| 0 <= k < pixels implies buf.mat@[k] == (if s_covered(gdims, k)
                && (k / gdims.0 > h2 - y || (k / gdims.0 == h2 - y && k % gdims.0 < x + 1 + w2)) {
                s_cell(objs@, lights@, *cfg, gstart, gdims, k)
            } else {
                gbg
            }) by {
                if k == idx {
                    assert(s_covered(gdims, k) && k / gdims.0 == h2 - y && k % gdims.0 < x + 1
                        + w2);
                } else {
                    assert(buf.mat@[k] == pre[k]);
                    if k / gdims.0 == h2 - y && k % gdims.0 == x + w2 {
                        lemma_index_unique(gdims, k, x as int, y as int);
                        assert(false);
                    }
                }
            }
            assert(s_row_partial(objs@, lights@, *cfg, gstart, gdims, h2 - y, x + 1 + w2,
            buf.mat@));
        }
        x = x + 1;
    }
    proof {
        assert forall|k: int| 0 <= k < pixels implies buf.mat@[k] == (if s_covered(gdims, k) && k
            / gdims.0 > h2 - y - 1 {
            s_cell(objs@, lights@, *cfg, gstart, gdims, k)
        } else {
            gbg
        }) by {
            assert(buf.mat@[k] == (if s_covered(gdims, k) && (k / gdims.0 > h2 - y || (k / gdims.0
                == h2 - y && k % gdims.0 < w2 + w2)) {
                s_cell(objs@, lights@, *cfg, gstart, gdims, k)
            } else {
                gbg
            }));
            if s_covered(gdims, k) {
                assert(k % gdims.0 < 2 * (gdims.0 / 2));
            }
        }
        assert(s_rows_done(objs@, lights@, *cfg, gstart, gdims, h2 - y - 1, buf.mat@));
    }
}

/// Renders the region of `dims` pixels at offset `start` of the full canvas,
/// over the objects, lights and configuration given: every cell of the
/// returned buffer holds exactly the color `s_cell` states for it. The
/// buffer has one extra row and column so the canvas bounds stay symmetric.
#[verifier::loop_isolation(false)]
#[verifier::rlimit(100)]
pub fn render(
    start: (i32, i32),
    dims: (usize, usize),
    objs: &Vec<Object>,
    lights: &Vec<Light>,
    cfg: &Config,
) -> (buf: Matrix<Color>)
    requires
        0 < dims.0 <= 16384,
        0 < dims.1 <= 16384,
    ensures
        buf.rlen == dims.0 + 1,
        buf.clen == dims.1 + 1,
        buf.mat@.len() == dims.0 * dims.1 + dims.0 + dims.1 + 1,
        forall|k: int|
            0 <= k < buf.mat@.len() ==> buf.mat@[k] == s_cell(
                objs@,
                lights@,
                *cfg,
                (start.0 as int, start.1 as int),
                (dims.0 as int, dims.1 as int),
                k,
            ),
{
    let ghost gstart = (start.0 as int, start.1 as int);
    let ghost gdims = (dims.0 as int, dims.1 as int);
    proof {
        assert(dims.0 * dims.1 <= 16384 * 16384) by (nonlinear_arith)
            requires
                dims.0 <= 16384 && dims.1 <= 16384,
        ;
    }
    let pixels: usize = dims.0 * dims.1 + dims.0 + dims.1 + 1;
    let bg: Color = map_color(cfg.world.background);
    let mut cells: Vec<Color> = Vec::new();
    while cells.len() < pixels
        invariant
            cells@.len() <= pixels,
            forall|j: int| 0 <= j < cells@.len() ==> cells@[j] == bg,
        decreases pixels - cells.len(),
    {
        cells.push(bg);
    }
    let mut buf = Matrix { mat: cells, rlen: dims.0 + 1, clen: dims.1 + 1 };
    let h2: i32 = (dims.1 / 2) as i32;
    proof {
        assert forall|k: int| 0 <= k < buf.mat@.len() implies buf.mat@[k] == (if s_covered(
            gdims,
            k,
        ) && k / gdims.0 > 2 * (h2 as int) {
            s_cell(objs@, lights@, *cfg, gstart, gdims, k)
        } else {
            s_background_color(*cfg)
        }) by {
            if s_covered(gdims, k) {
                assert(k / gdims.0 <= 2 * (gdims.1 / 2));
            }
        }
        assert(s_rows_done(objs@, lights@, *cfg, gstart, gdims, 2 * (h2 as int), buf.mat@));
    }
    let mut y: i32 = -h2;
    while y < h2
        invariant
            -h2 <= y <= h2,
            buf.rlen == dims.0 + 1,
            buf.clen == dims.1 + 1,
            buf.mat@.len() == dims.0 * dims.1 + dims.0 + dims.1 + 1,
            s_rows_done(objs@, lights@, *cfg, gstart, gdims, h2 - y, buf.mat@),
        decreases h2 - y,
    {
        render_row(&mut buf, y, start, dims, objs, lights, cfg);
        y = y + 1;
    }
    proof {
        reveal(s_cell);
        assert forall|k: int| 0 <= k < buf.mat@.len() implies buf.mat@[k] == s_cell(
            objs@,
            lights@,
            *cfg,
            gstart,
            gdims,
            k,
        ) by {
            assert(buf.mat@[k] == (if s_covered(gdims, k) && k / gdims.0 > 0 {
                s_cell(objs@, lights@, *cfg, gstart, gdims, k)
            } else {
                s_background_color(*cfg)
            }));
            if !(s_covered(gdims, k) && k / gdims.0 > 0) {
                assert(s_cell(objs@, lights@, *cfg, gstart, gdims, k) == s_background_color(*cfg));
            }
        }
    }
    buf
}

/// Rendering is deterministic:/// Rendering is deterministic: two buffers that both satisfy the render
/// contract for the same scene and region are identical, cell for cell.
/// Rendering the same scene twice therefore yields a byte-identical image.
pub proof fn lemma_render_deterministic(
    m1: Seq<Color>,
    m2: Seq<Color>,
    objs: Seq<Object>,
    lights: Seq<Light>,
    cfg: Config,
    start: (int, int),
    dims: (int, int),
)
    requires
        m1.len() == m2.len(),
        forall|k: int| 0 <= k < m1.len() ==> m1[k] == s_cell(objs, lights, cfg, start, dims, k),
        forall|k: int| 0 <= k < m2.len() ==> m2[k] == s_cell(objs, lights, cfg, start, dims, k),
    ensures
        m1 == m2,
{
    assert(m1 =~= m2);
}

/// Thread-count invariance: a pixel's color does not depend on how the
/// canvas was cut into full-width regions. Two regions of the same canvas
/// width assign the same color to pixels at the same absolute canvas
/// position (column x + start.0, row y - start.1), so disjoint horizontal
/// bands assemble into exactly the image a single region would produce.
pub proof fn lemma_band_pixel_matches_full(
    objs: Seq<Object>,
    lights: Seq<Light>,
    cfg: Config,
    start1: (int, int),
    dims1: (int, int),
    x1: int,
    y1: int,
    start2: (int, int),
    dims2: (int, int),
    x2: int,
    y2: int,
)
    requires
        dims1.0 == dims2.0,
        x1 + start1.0 == x2 + start2.0,
        y1 - start1.1 == y2 - start2.1,
    ensures
        s_pixel_color(objs, lights, cfg, start1, dims1, x1, y1) == s_pixel_color(
            objs,
            lights,
            cfg,
            start2,
            dims2,
            x2,
            y2,
        ),
{
    reveal(s_pixel_color);
    assert(s_view_ray(cfg.world.cam_pos, start1, dims1, x1, y1) == s_view_ray(
        cfg.world.cam_pos,
        start2,
        dims2,
        x2,
        y2,
    ));
}

} // verus!
