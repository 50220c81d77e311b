use bezier_render::fixed::SCALE;
use bezier_render::canvas::{Canvas, DEPTH_FAR};
use bezier_render::color::Color;
use bezier_render::light::Light;
use bezier_render::material::{Coloring, Material};
use bezier_render::point::{Point3, Vector3};
use bezier_render::texture::Texture;
use bezier_render::triangle::{Triangle, Vertex};

fn flat_vertex(x: i64, y: i64) -> Vertex {
    Vertex::new(
        Point3::new(x, y, 0),
        Vector3::new(0, 0, SCALE),
        Vector3::new(SCALE, 0, 0),
        Vector3::new(0, SCALE, 0),
        0,
        0,
    )
}

fn white_material() -> Material {
    Material {
        coloring: Coloring::Solid(Color::new(SCALE, SCALE, SCALE)),
        normal_map: None,
        kd: SCALE,
        ks: 0,
        m: 1,
    }
}

#[test]
fn depth_test_keeps_nearest() {
    let mut c = Canvas::new(4, 4);
    c.put_pixel(1, 1, 5, [10, 0, 0, 255]);
    c.put_pixel(1, 1, 3, [0, 20, 0, 255]);
    c.put_pixel(1, 1, 10, [0, 0, 30, 255]);
    assert_eq!(c.pixel_at(1, 1), [0, 20, 0, 255]);
    assert_eq!(c.depth_at(1, 1), 3);
    // other pixels untouched
    assert_eq!(c.pixel_at(0, 0), [0, 0, 0, 0]);
    assert_eq!(c.depth_at(0, 0), DEPTH_FAR);
}

#[test]
fn equal_depth_does_not_overwrite() {
    let mut c = Canvas::new(2, 2);
    c.put_pixel(0, 0, 7, [1, 2, 3, 255]);
    c.put_pixel(0, 0, 7, [9, 9, 9, 255]);
    assert_eq!(c.pixel_at(0, 0), [1, 2, 3, 255]);
}

#[test]
fn clear_resets_colour_and_depth() {
    let mut c = Canvas::new(3, 2);
    c.put_pixel(2, 1, 1, [5, 6, 7, 255]);
    c.clear(Some([8, 9, 10, 11]));
    let mut y = 0;
    while y < 2 {
        let mut x = 0;
        while x < 3 {
            assert_eq!(c.pixel_at(x, y), [8, 9, 10, 11]);
            assert_eq!(c.depth_at(x, y), DEPTH_FAR);
            x += 1;
        }
        y += 1;
    }
    c.clear(None);
    assert_eq!(c.pixel_at(2, 1), [0, 0, 0, 0]);
}

#[test]
fn facing_light_gives_full_brightness() {
    let mut canvas = Canvas::new(64, 64);
    let a = 10 * SCALE;
    let tri = Triangle::new(flat_vertex(-a, -a), flat_vertex(a, -a), flat_vertex(0, a));
    let mut light = Light::new(Point3::new(0, 0, 300 * SCALE), Color::new(SCALE, SCALE, SCALE));
    light.is_animating = false;
    let material = white_material();
    tri.draw_filling(&mut canvas, &light, &material, false);
    // the centre pixel faces the light head on: full brightness
    assert_eq!(canvas.pixel_at(32, 32), [255, 255, 255, 255]);
    assert_eq!(canvas.depth_at(32, 32), 0);
}

#[test]
fn triangle_outside_canvas_writes_nothing() {
    let mut canvas = Canvas::new(8, 8);
    let before = canvas.data().clone();
    let far = 100 * SCALE;
    let tri = Triangle::new(
        flat_vertex(far, -SCALE),
        flat_vertex(far + 2 * SCALE, -SCALE),
        flat_vertex(far, 2 * SCALE),
    );
    let light = Light::new(Point3::new(0, 0, 300 * SCALE), Color::new(SCALE, SCALE, SCALE));
    tri.draw_filling(&mut canvas, &light, &white_material(), false);
    assert_eq!(*canvas.data(), before);
    let mut y = 0;
    while y < 8 {
        let mut x = 0;
        while x < 8 {
            assert_eq!(canvas.depth_at(x, y), DEPTH_FAR);
            x += 1;
        }
        y += 1;
    }
}

#[test]
fn colinear_triangle_writes_nothing() {
    let mut canvas = Canvas::new(16, 16);
    let before = canvas.data().clone();
    let tri = Triangle::new(
        flat_vertex(0, 0),
        flat_vertex(SCALE, SCALE),
        flat_vertex(2 * SCALE, 2 * SCALE),
    );
    let light = Light::new(Point3::new(0, 0, 300 * SCALE), Color::new(SCALE, SCALE, SCALE));
    tri.draw_filling(&mut canvas, &light, &white_material(), false);
    assert_eq!(*canvas.data(), before);
}

#[test]
fn flat_triangle_writes_nothing() {
    let mut canvas = Canvas::new(16, 16);
    let before = canvas.data().clone();
    // spans a two-hundredth of a pixel vertically: under the flatness
    // threshold
    let tri = Triangle::new(
        flat_vertex(-SCALE, 0),
        flat_vertex(SCALE, 0),
        flat_vertex(0, SCALE / 200),
    );
    let light = Light::new(Point3::new(0, 0, 300 * SCALE), Color::new(SCALE, SCALE, SCALE));
    tri.draw_filling(&mut canvas, &light, &white_material(), false);
    assert_eq!(*canvas.data(), before);
}

#[test]
fn unlit_side_is_black() {
    let mut canvas = Canvas::new(64, 64);
    let a = 10 * SCALE;
    let tri = Triangle::new(flat_vertex(-a, -a), flat_vertex(a, -a), flat_vertex(0, a));
    // light far below: the normal points away, diffuse clamps to zero
    let light = Light::new(Point3::new(0, 0, -300 * SCALE), Color::new(SCALE, SCALE, SCALE));
    tri.draw_filling(&mut canvas, &light, &white_material(), false);
    assert_eq!(canvas.pixel_at(32, 32), [0, 0, 0, 255]);
}

#[test]
fn shading_scales_with_diffuse_fraction() {
    let mut canvas = Canvas::new(64, 64);
    let a = 10 * SCALE;
    let tri = Triangle::new(flat_vertex(-a, -a), flat_vertex(a, -a), flat_vertex(0, a));
    let light = Light::new(Point3::new(0, 0, 300 * SCALE), Color::new(SCALE, SCALE, SCALE));
    let mut material = white_material();
    material.kd = SCALE / 2;
    tri.draw_filling(&mut canvas, &light, &material, false);
    let px = canvas.pixel_at(32, 32);
    assert_eq!(px, [127, 127, 127, 255]);
}

#[test]
fn specular_highlight_at_full_gloss() {
    let mut canvas = Canvas::new(64, 64);
    let a = 10 * SCALE;
    let tri = Triangle::new(flat_vertex(-a, -a), flat_vertex(a, -a), flat_vertex(0, a));
    let light = Light::new(Point3::new(0, 0, 300 * SCALE), Color::new(SCALE, SCALE, SCALE));
    let mut material = white_material();
    material.kd = 0;
    material.ks = SCALE;
    material.m = 1;
    tri.draw_filling(&mut canvas, &light, &material, false);
    // head-on: the reflected ray leaves straight up, full specular
    assert_eq!(canvas.pixel_at(32, 32), [255, 255, 255, 255]);
}

#[test]
fn reflector_darkens_sideways_light() {
    let a = 10 * SCALE;
    let tri = Triangle::new(flat_vertex(-a, -a), flat_vertex(a, -a), flat_vertex(0, a));
    // the light sits at forty-five degrees; its ray is tilted off the
    // reflector's downward axis
    let mut light = Light::new(
        Point3::new(300 * SCALE, 0, 300 * SCALE),
        Color::new(SCALE, SCALE, SCALE),
    );
    let material = white_material();

    let mut plain = Canvas::new(64, 64);
    tri.draw_filling(&mut plain, &light, &material, false);
    let unattenuated = plain.pixel_at(32, 32)[0];

    light.r = 3;
    let mut coned = Canvas::new(64, 64);
    tri.draw_filling(&mut coned, &light, &material, false);
    let attenuated = coned.pixel_at(32, 32)[0];

    assert!(unattenuated > 0);
    assert!(attenuated < unattenuated);
}

#[test]
fn normal_markers_only_add_writes() {
    let a = 20 * SCALE;
    let tri = Triangle::new(flat_vertex(-a, -a), flat_vertex(a, -a), flat_vertex(0, a));
    let light = Light::new(Point3::new(0, 0, 300 * SCALE), Color::new(SCALE, SCALE, SCALE));
    let material = white_material();

    let mut plain = Canvas::new(64, 64);
    tri.draw_filling(&mut plain, &light, &material, false);
    let mut diag = Canvas::new(64, 64);
    tri.draw_filling(&mut diag, &light, &material, true);

    let mut plain_writes = 0u32;
    let mut diag_writes = 0u32;
    let mut y = 0;
    while y < 64 {
        let mut x = 0;
        while x < 64 {
            if plain.depth_at(x, y) < DEPTH_FAR {
                plain_writes += 1;
                // every written pixel is opaque, marker or shade
                assert_eq!(plain.pixel_at(x, y)[3], 255);
            }
            if diag.depth_at(x, y) < DEPTH_FAR {
                diag_writes += 1;
                assert_eq!(diag.pixel_at(x, y)[3], 255);
            }
            x += 1;
        }
        y += 1;
    }
    assert!(plain_writes > 0);
    assert!(diag_writes >= plain_writes);
}

#[test]
fn texture_rejects_bad_dimensions() {
    assert!(Texture::from_rgba(0, 1, Vec::new()).is_none());
    assert!(Texture::from_rgba(2, 2, vec![0u8; 15]).is_none());
    assert!(Texture::from_rgba(2, 2, vec![0u8; 16]).is_some());
}

#[test]
fn texture_sampling_picks_texels() {
    let mut data = Vec::new();
    let texels: [[u8; 4]; 4] = [
        [10, 11, 12, 255],
        [20, 21, 22, 255],
        [30, 31, 32, 255],
        [40, 41, 42, 255],
    ];
    for t in texels.iter() {
        for b in t.iter() {
            data.push(*b);
        }
    }
    let t = Texture::from_rgba(2, 2, data).unwrap();
    // v is flipped: v == SCALE is the top row
    assert_eq!(t.sample(0, SCALE), [10, 11, 12, 255]);
    assert_eq!(t.sample(SCALE, SCALE), [20, 21, 22, 255]);
    assert_eq!(t.sample(0, 0), [30, 31, 32, 255]);
    assert_eq!(t.sample(SCALE, 0), [40, 41, 42, 255]);
    // out-of-range coordinates clamp
    assert_eq!(t.sample(-SCALE, 3 * SCALE), [10, 11, 12, 255]);
}

#[test]
fn normal_map_decodes_channels() {
    let data = vec![255, 128, 0, 255];
    let t = Texture::from_rgba(1, 1, data).unwrap();
    let n = t.sample_normal(SCALE / 2, SCALE / 2);
    assert_eq!(n.x, SCALE);
    // 128 maps just above zero
    assert!(n.y.abs() < SCALE / 100);
    // blue channel 0 maps to -1, clamped to 0
    assert_eq!(n.z, 0);
}

#[test]
fn material_colour_lookup() {
    let solid = Material {
        coloring: Coloring::Solid(Color::new(SCALE / 4, SCALE / 2, SCALE)),
        normal_map: None,
        kd: SCALE,
        ks: 0,
        m: 1,
    };
    let c = solid.color_at(0, 0);
    assert_eq!(c.r(), SCALE / 4);
    assert_eq!(c.g(), SCALE / 2);
    assert_eq!(c.b(), SCALE);

    let t = Texture::from_rgba(1, 1, vec![255, 0, 255, 255]).unwrap();
    let textured = Material { coloring: Coloring::Texture(t), normal_map: None, kd: SCALE, ks: 0, m: 1 };
    let c2 = textured.color_at(SCALE / 2, SCALE / 2);
    assert_eq!(c2.r(), SCALE);
    assert_eq!(c2.g(), 0);
    assert_eq!(c2.b(), SCALE);
}

#[test]
fn normal_map_bends_the_normal() {
    let up = Vector3::new(0, 0, SCALE);
    let pu = Vector3::new(SCALE, 0, 0);
    let pv = Vector3::new(0, SCALE, 0);
    let plain = white_material();
    assert_eq!(plain.normal_at(0, 0, pu, pv, up), up);

    // a map pointing fully along +x in tangent space
    let t = Texture::from_rgba(1, 1, vec![255, 128, 128, 255]).unwrap();
    let mut mapped = white_material();
    mapped.normal_map = Some(t);
    let n = mapped.normal_at(0, 0, pu, pv, up);
    assert_eq!(n.x, SCALE);
    assert!(n.y.abs() < SCALE / 100);
    assert!(n.z.abs() < SCALE / 100);
}
