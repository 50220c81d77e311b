use bezier_render::fixed::{SCALE, QUARTER_TURN};
use bezier_render::color::Color;
use bezier_render::light::Light;
use bezier_render::material::Coloring;
use bezier_render::parse::{parse_points, ParseError};
use bezier_render::point::Point3;
use bezier_render::scene::Scene;
use bezier_render::canvas::Canvas;

fn sixteen_lines() -> String {
    let mut s = String::new();
    let mut i = 0;
    while i < 16 {
        s.push_str("1.5 -2 0.25\n");
        i += 1;
    }
    s
}

#[test]
fn light_advance_steady_when_paused() {
    let mut l = Light::new(Point3::new(0, 0, 5 * SCALE), Color::new(SCALE, SCALE, SCALE));
    l.is_animating = false;
    l.t = SCALE / 3;
    l.advance_animation(1000);
    let pos = l.pos;
    let t = l.t;
    l.advance_animation(1000);
    l.advance_animation(50000);
    assert_eq!(l.pos, pos);
    assert_eq!(l.t, t);
    assert_eq!(l.t, SCALE / 3);
}

#[test]
fn light_phase_wraps_without_exceeding_one() {
    let mut l = Light::new(Point3::new(0, 0, 0), Color::new(SCALE, SCALE, SCALE));
    l.t = SCALE - 3;
    l.advance_animation(10 * SCALE);
    assert_eq!(l.t, 0);
    let mut steps = 0;
    while steps < 500 {
        l.advance_animation(9000);
        assert!(0 <= l.t && l.t <= SCALE);
        steps += 1;
    }
}

#[test]
fn light_orbit_radius() {
    let mut l = Light::new(Point3::new(0, 0, 77), Color::new(SCALE, SCALE, SCALE));
    l.advance_animation(0);
    // phase zero: the light sits on the positive x axis at the base radius
    assert_eq!(l.pos.x, 300 * SCALE);
    assert_eq!(l.pos.y, 0);
    assert_eq!(l.pos.z, 77);
}

#[test]
fn parse_sixteen_points() {
    let text = sixteen_lines();
    let pts = parse_points(text.as_bytes()).unwrap();
    assert_eq!(pts.len(), 16);
    for p in pts.iter() {
        assert_eq!(p.x, 3 * SCALE / 2);
        assert_eq!(p.y, -2 * SCALE);
        assert_eq!(p.z, SCALE / 4);
    }
}

#[test]
fn parse_skips_blank_lines() {
    let text = "\n\n1 2 3\n..\n1 2 3\n1 2 3\n1 2 3\n1 2 3\n1 2 3\n1 2 3\n1 2 3\n1 2 3\n1 2 3\n1 2 3\n1 2 3\n1 2 3\n1 2 3\n1 2 3\n1 2 3\n";
    let pts = parse_points(text.as_bytes()).unwrap();
    assert_eq!(pts.len(), 16);
    assert_eq!(pts[0].x, SCALE);
}

#[test]
fn parse_too_few_points_fails() {
    let mut text = String::new();
    for _ in 0..15 {
        text.push_str("1 2 3\n");
    }
    let e = parse_points(text.as_bytes()).unwrap_err();
    assert_eq!(e, ParseError::MissingPoint { index: 15 });
}

#[test]
fn parse_missing_coordinate_fails() {
    let mut text = String::new();
    text.push_str("1 2 3\n");
    text.push_str("4 5\n");
    let e = parse_points(text.as_bytes()).unwrap_err();
    assert_eq!(e, ParseError::MissingCoordinate { index: 1, axis: 2 });
}

#[test]
fn parse_bad_number_fails() {
    let text = "1 oak 3\n";
    let e = parse_points(text.as_bytes()).unwrap_err();
    assert_eq!(e, ParseError::InvalidNumber { index: 0, axis: 1 });
}

#[test]
fn parse_extra_tokens_fail() {
    let text = "1 2 3 4\n";
    let e = parse_points(text.as_bytes()).unwrap_err();
    assert_eq!(e, ParseError::ExtraTokens { index: 0 });
}

#[test]
fn parse_number_shapes() {
    let ok = "600.0 -0.5 +.25\n";
    let mut text = String::new();
    for _ in 0..16 {
        text.push_str(ok);
    }
    let pts = parse_points(text.as_bytes()).unwrap();
    assert_eq!(pts[0].x, 600 * SCALE);
    assert_eq!(pts[0].y, -SCALE / 2);
    assert_eq!(pts[0].z, SCALE / 4);
    // a second decimal point is not a number
    assert!(parse_points(b"1.2.3 1 1\n").is_err());
    // a bare sign is not a number
    assert!(parse_points(b"- 1 1\n").is_err());
    // exponent forms are outside the grammar and rejected loudly
    assert_eq!(
        parse_points(b"1e3 1 1\n").unwrap_err(),
        ParseError::InvalidNumber { index: 0, axis: 0 }
    );
}

#[test]
fn error_messages_name_the_coordinate() {
    assert!(!ParseError::MissingPoint { index: 3 }.message().is_empty());
    assert!(!ParseError::OutOfRange.message().is_empty());
    let mx = ParseError::MissingCoordinate { index: 0, axis: 0 }.message();
    let my = ParseError::MissingCoordinate { index: 0, axis: 1 }.message();
    let mz = ParseError::MissingCoordinate { index: 0, axis: 2 }.message();
    assert!(mx.contains('x') && my.contains('y') && mz.contains('z'));
    assert_ne!(mx, my);
    assert_ne!(my, mz);
    let bx = ParseError::InvalidNumber { index: 0, axis: 0 }.message();
    let bz = ParseError::InvalidNumber { index: 0, axis: 2 }.message();
    assert!(bx.contains('x') && bz.contains('z'));
    assert_ne!(bx, bz);
}

#[test]
fn scene_from_text_tessellates() {
    let text = sixteen_lines();
    let sc = Scene::from_text(text.as_bytes()).unwrap();
    assert_eq!(sc.mesh_resolution(), 30);
    assert_eq!(sc.mesh.triangles().len(), 2 * 29 * 29);
    assert_eq!(sc.rot_ox(), 0);
    assert_eq!(sc.rot_oz(), 0);
    // the surface holds exactly the parsed points
    assert_eq!(sc.surface.pts.len(), 16);
    for p in sc.surface.pts.iter() {
        assert_eq!(p.x, 3 * SCALE / 2);
        assert_eq!(p.y, -2 * SCALE);
        assert_eq!(p.z, SCALE / 4);
    }
    // the starting light and material
    assert_eq!(sc.light.pos.z, 300 * SCALE);
    assert!(sc.light.is_animating);
    assert_eq!(sc.material.m, 4);
}

#[test]
fn scene_rejects_far_points() {
    let mut text = String::new();
    for _ in 0..16 {
        text.push_str("99999999 0 0\n");
    }
    let e = Scene::from_text(text.as_bytes()).unwrap_err();
    assert_eq!(e, ParseError::OutOfRange);
}

#[test]
fn scene_rotation_bookkeeping() {
    let text = sixteen_lines();
    let mut sc = Scene::from_text(text.as_bytes()).unwrap();
    assert!(sc.rotate_ox(5000));
    assert_eq!(sc.rot_ox(), 5000);
    assert!(sc.rotate_ox(-5000));
    assert_eq!(sc.rot_ox(), 0);
    // stepping past the boundary flips by half a turn
    assert!(sc.rotate_oz(QUARTER_TURN));
    assert!(sc.rotate_oz(QUARTER_TURN / 2));
    assert_eq!(sc.rot_oz(), QUARTER_TURN + QUARTER_TURN / 2 - 2 * QUARTER_TURN);
}

#[test]
fn scene_roundtrip_restores_points() {
    let text = sixteen_lines();
    let mut sc = Scene::from_text(text.as_bytes()).unwrap();
    let pts_before = sc.surface.pts.clone();
    let tris_before = sc.mesh.triangles().clone();
    assert!(sc.rotate_ox(8000));
    assert!(sc.rotate_ox(-8000));
    assert_eq!(sc.surface.pts, pts_before);
    assert_eq!(*sc.mesh.triangles(), tris_before);
}

#[test]
fn scene_resolution_change() {
    let text = sixteen_lines();
    let mut sc = Scene::from_text(text.as_bytes()).unwrap();
    assert!(sc.set_mesh_resolution(4));
    assert_eq!(sc.mesh_resolution(), 4);
    assert_eq!(sc.mesh.triangles().len(), 18);
    // resolutions under two are rejected and nothing changes
    assert!(!sc.set_mesh_resolution(1));
    assert_eq!(sc.mesh_resolution(), 4);
}

#[test]
fn scene_material_and_light_settings() {
    let text = sixteen_lines();
    let mut sc = Scene::from_text(text.as_bytes()).unwrap();
    sc.set_material_color([SCALE, 0, SCALE / 2]);
    assert_eq!(sc.material_color(), [SCALE, 0, SCALE / 2]);
    sc.set_light_color([0, SCALE, 0]);
    assert_eq!(sc.light_color(), [0, SCALE, 0]);
    sc.set_material_params(SCALE / 4, SCALE / 8, 9);
    assert_eq!(sc.material.kd, SCALE / 4);
    assert_eq!(sc.material.ks, SCALE / 8);
    assert_eq!(sc.material.m, 9);
    sc.set_light_z(123456);
    assert_eq!(sc.light.pos.z, 123456);
    sc.set_light_animating(false);
    assert!(!sc.light.is_animating);
    sc.set_light_phase(SCALE / 2);
    assert_eq!(sc.light.t, SCALE / 2);
    sc.set_reflector(3);
    assert_eq!(sc.light.r, 3);
}

fn grid_text() -> String {
    let mut s = String::new();
    for row in 0..4 {
        for col in 0..4 {
            s.push_str(&format!("{} {} 10\n", -150 + col * 100, -150 + row * 100));
        }
    }
    s
}

#[test]
fn scene_renders_into_canvas() {
    let text = grid_text();
    let sc = Scene::from_text(text.as_bytes()).unwrap();
    let mut canvas = Canvas::new(64, 64);
    sc.draw_fillings(&mut canvas, false);
    // a flat patch at z = 0.25 facing +z under the default light: the
    // canvas gained some content
    let mut lit = 0u32;
    let mut y = 0;
    while y < 64 {
        let mut x = 0;
        while x < 64 {
            if canvas.pixel_at(x, y)[3] == 255 {
                lit += 1;
            }
            x += 1;
        }
        y += 1;
    }
    assert!(lit > 0);
}

#[test]
fn scene_texture_and_normal_map() {
    let text = sixteen_lines();
    let mut sc = Scene::from_text(text.as_bytes()).unwrap();
    let t = bezier_render::texture::Texture::from_rgba(1, 1, vec![9, 9, 9, 255]).unwrap();
    sc.set_texture(t);
    assert!(matches!(sc.material.coloring, Coloring::Texture(_)));
    let nm = bezier_render::texture::Texture::from_rgba(1, 1, vec![128, 128, 255, 255]).unwrap();
    sc.set_normal_map(nm);
    assert!(sc.material.normal_map.is_some());
    sc.clear_normal_map();
    assert!(sc.material.normal_map.is_none());
}
