use raytracer::draw::{map_color, Color, Matrix};
use raytracer::fixed::SCALE;
use raytracer::render::{light, render};
use raytracer::scene::{Config, Light, LightType, Material, Object, Ray, RenderOpts, World};
use raytracer::vec3::Vec3;

fn v(x: i64, y: i64, z: i64) -> Vec3 {
    Vec3 { x, y, z }
}

fn world(background: Vec3) -> World {
    World { cam_pos: v(0, 0, 0), background, fog: (SCALE, 10 * SCALE) }
}

fn config(background: Vec3, max_reflections: u32, threads: usize) -> Config {
    Config { world: world(background), render: RenderOpts { max_reflections, threads } }
}

/// Cell of the rendered buffer at centered canvas coordinates (x, y).
fn at(buf: &Matrix<Color>, dims: (usize, usize), x: i32, y: i32) -> Color {
    let ax = (x + (dims.0 as i32) / 2) as usize;
    let ay = ((dims.1 as i32) / 2 - y) as usize;
    buf.mat[ay * dims.0 + ax]
}

fn luminance(c: Color) -> u32 {
    c.r as u32 + c.g as u32 + c.b as u32
}

#[test]
fn map_color_scales_and_saturates() {
    let c = map_color(v(SCALE, 0, SCALE / 2));
    assert_eq!((c.r, c.g, c.b), (255, 0, 127));
    let over = map_color(v(3 * SCALE, -SCALE, SCALE));
    assert_eq!((over.r, over.g, over.b), (255, 0, 255));
}

#[test]
fn rendering_twice_is_byte_identical() {
    let objs = vec![
        Object::Sphere {
            center: v(0, 0, 3 * SCALE),
            radius: SCALE,
            material: Material { color: v(SCALE / 2, SCALE / 2, SCALE / 2), specular: 1, refl: 0 },
        },
    ];
    let lights = vec![Light { kind: LightType::Point(v(0, 4 * SCALE, 3 * SCALE)), color: v(SCALE, SCALE, SCALE) }];
    let cfg = config(v(0, 0, SCALE / 2), 2, 1);
    let a = render((0, 0), (16, 16), &objs, &lights, &cfg);
    let b = render((0, 0), (16, 16), &objs, &lights, &cfg);
    assert_eq!(a.mat, b.mat);
    assert_eq!(a.rlen, b.rlen);
    assert_eq!(a.clen, b.clen);
}

#[test]
fn full_width_bands_assemble_into_the_full_image() {
    let objs = vec![
        Object::Sphere {
            center: v(0, 0, 3 * SCALE),
            radius: SCALE,
            material: Material { color: v(SCALE / 2, SCALE / 2, SCALE / 2), specular: 1, refl: 0 },
        },
        Object::Plane {
            point: v(0, -SCALE, 0),
            normal: v(0, SCALE, 0),
            material: Material { color: v(SCALE / 2, SCALE / 4, SCALE / 4), specular: 1, refl: 0 },
        },
    ];
    let lights = vec![Light { kind: LightType::Point(v(0, 4 * SCALE, 3 * SCALE)), color: v(SCALE, SCALE, SCALE) }];
    let cfg = config(v(0, 0, SCALE / 2), 1, 1);

    let full = render((0, 0), (8, 8), &objs, &lights, &cfg);
    // lower half: band pixel (x, y) corresponds to full pixel (x, y - 2)
    let lower = render((0, 2), (8, 4), &objs, &lights, &cfg);
    // upper half: band pixel (x, y) corresponds to full pixel (x, y + 2)
    let upper = render((0, -2), (8, 4), &objs, &lights, &cfg);

    for x in -4i32..4 {
        for y in -2i32..2 {
            assert_eq!(at(&lower, (8, 4), x, y), at(&full, (8, 8), x, y - 2));
            assert_eq!(at(&upper, (8, 4), x, y), at(&full, (8, 8), x, y + 2));
        }
    }
}

#[test]
fn depth_zero_traces_no_reflection() {
    let mirror = Material { color: v(SCALE, SCALE, SCALE), specular: 1, refl: SCALE };
    let matte = Material { color: v(SCALE, SCALE, SCALE), specular: 1, refl: 0 };
    let objs_mirror = vec![
        Object::Sphere { center: v(0, 0, 3 * SCALE), radius: SCALE, material: mirror },
        Object::Plane {
            point: v(0, -2 * SCALE, 0),
            normal: v(0, SCALE, 0),
            material: Material { color: v(SCALE, 0, 0), specular: 1, refl: 0 },
        },
    ];
    let objs_matte = vec![
        Object::Sphere { center: v(0, 0, 3 * SCALE), radius: SCALE, material: matte },
        objs_mirror[1],
    ];
    let l = Light { kind: LightType::Ambient, color: v(SCALE, SCALE, SCALE) };
    let bg = v(0, 0, 0);
    let p = v(0, 0, 2 * SCALE);
    let d = v(0, 0, SCALE);
    // At depth 0 the mirror material shades exactly like a matte one: the
    // local term alone, whatever the reflectivity.
    let with_budget_zero = light(&objs_mirror, 0, &p, &d, &l, &bg, 0);
    let matte_any_depth = light(&objs_matte, 0, &p, &d, &l, &bg, 5);
    assert_eq!(with_budget_zero, matte_any_depth);
    // With a budget the mirror sees the red plane instead.
    let with_budget = light(&objs_mirror, 0, &p, &d, &l, &bg, 1);
    assert_ne!(with_budget, with_budget_zero);
}

#[test]
fn point_light_above_lights_the_top_and_shadows_the_bottom() {
    let objs = vec![
        Object::Sphere {
            center: v(0, 0, 3 * SCALE),
            radius: SCALE,
            material: Material { color: v(SCALE / 2, SCALE / 2, SCALE / 2), specular: 1, refl: 0 },
        },
        Object::Plane {
            point: v(0, -SCALE, 0),
            normal: v(0, SCALE, 0),
            material: Material { color: v(SCALE / 2, SCALE / 2, SCALE / 2), specular: 1, refl: 0 },
        },
    ];
    let lights = vec![Light { kind: LightType::Point(v(0, 4 * SCALE, 3 * SCALE)), color: v(SCALE, SCALE, SCALE) }];
    let background = v(0, 0, SCALE / 2);
    let cfg = config(background, 0, 1);
    let buf = render((0, 0), (16, 16), &objs, &lights, &cfg);

    // the pixel toward the lit top of the sphere is brighter than the
    // shadowed bottom
    let top = at(&buf, (16, 16), 0, 2);
    let bottom = at(&buf, (16, 16), 0, -2);
    assert!(luminance(top) > luminance(bottom));

    // a pixel outside both silhouettes holds exactly the background color
    let corner = at(&buf, (16, 16), 7, 7);
    let bg = map_color(background);
    assert_eq!(corner, bg);
}

#[test]
fn mirror_sphere_shows_the_plane_behind_the_reflection_angle() {
    let objs = vec![
        Object::Sphere {
            center: v(0, 0, 3 * SCALE),
            radius: SCALE,
            material: Material { color: v(SCALE, SCALE, SCALE), specular: 0, refl: SCALE },
        },
        Object::Plane {
            point: v(0, -2 * SCALE, 0),
            normal: v(0, SCALE, 0),
            material: Material { color: v(SCALE, 0, 0), specular: 0, refl: 0 },
        },
    ];
    // ambient light only: every surface is lit by its own color
    let lights = vec![Light { kind: LightType::Ambient, color: v(SCALE, SCALE, SCALE) }];
    let cfg = config(v(0, 0, 0), 1, 1);
    let buf = render((0, 0), (16, 16), &objs, &lights, &cfg);

    // a pixel on the lower half of the mirror sphere reflects the red plane:
    // red dominates even though the sphere's own color is white
    let reflected = at(&buf, (16, 16), 0, -2);
    assert!(reflected.r > 200);
    assert_eq!(reflected.g, 0);
    assert_eq!(reflected.b, 0);
}
