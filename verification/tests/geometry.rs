use bezier_render::fixed::{SCALE, QUARTER_TURN, isqrt, pow_fixed, clamp_i64};
use bezier_render::trig::{sin_bam, cos_bam, tan_half_bam};
use bezier_render::point::{Point3, Vector3};
use bezier_render::surface::{BezierSurface, BEZ_ONE};

fn grid_16() -> Vec<Point3> {
    // a gently curved 4x4 patch, coordinates in ticks
    let mut pts = Vec::new();
    let step: i64 = 100 * SCALE;
    let mut row: i64 = 0;
    while row < 4 {
        let mut col: i64 = 0;
        while col < 4 {
            let x = -150 * SCALE + col * step;
            let y = -150 * SCALE + row * step;
            let z = (row * 4 + col) * SCALE * 7;
            pts.push(Point3::new(x, y, z));
            col += 1;
        }
        row += 1;
    }
    pts
}

#[test]
fn evaluate_corner_interpolation() {
    let pts = grid_16();
    let p00 = pts[0];
    let p33 = pts[15];
    let s = BezierSurface::from_points(pts).unwrap();
    let a = s.evaluate(0, 0);
    assert_eq!(a.pos, p00);
    let b = s.evaluate(BEZ_ONE, BEZ_ONE);
    assert_eq!(b.pos, p33);
}

#[test]
fn evaluate_other_corners() {
    let pts = grid_16();
    let p03 = pts[3];
    let p30 = pts[12];
    let s = BezierSurface::from_points(pts).unwrap();
    assert_eq!(s.evaluate(BEZ_ONE, 0).pos, p03);
    assert_eq!(s.evaluate(0, BEZ_ONE).pos, p30);
}

#[test]
fn evaluate_within_hull() {
    let pts = grid_16();
    let s = BezierSurface::from_points(pts).unwrap();
    let mut u: i64 = 0;
    while u <= BEZ_ONE {
        let mut v: i64 = 0;
        while v <= BEZ_ONE {
            let p = s.evaluate(u, v).pos;
            assert!(-150 * SCALE <= p.x && p.x <= 150 * SCALE);
            assert!(-150 * SCALE <= p.y && p.y <= 150 * SCALE);
            assert!(0 <= p.z && p.z <= 15 * 7 * SCALE);
            v += 128;
        }
        u += 128;
    }
}

#[test]
fn evaluate_unit_normal() {
    let pts = grid_16();
    let s = BezierSurface::from_points(pts).unwrap();
    let n = s.evaluate(512, 512).normal;
    let len2 = (n.x as i128) * (n.x as i128) + (n.y as i128) * (n.y as i128) + (n.z as i128) * (n.z
        as i128);
    let unit = (SCALE as i128) * (SCALE as i128);
    // within one percent of unit length
    assert!(len2 > unit - unit / 100);
    assert!(len2 < unit + unit / 100);
}

#[test]
fn constant_patch_evaluates_to_the_point() {
    // partition of unity in action: when all sixteen control points
    // coincide, every blend of them returns that very point
    let p = Point3::new(12345 * 16, -777 * 64, 31);
    let mut pts = Vec::new();
    for _ in 0..16 {
        pts.push(p);
    }
    let s = BezierSurface::from_points(pts).unwrap();
    let mut u: i64 = 0;
    while u <= BEZ_ONE {
        assert_eq!(s.evaluate(u, BEZ_ONE - u).pos, p);
        assert_eq!(s.evaluate(u, u / 2).pos, p);
        u += 97;
    }
}

#[test]
fn triangulate_counts() {
    let pts = grid_16();
    let s = BezierSurface::from_points(pts).unwrap();
    let m2 = s.triangulate(2);
    assert_eq!(m2.triangles().len(), 2);
    let m5 = s.triangulate(5);
    assert_eq!(m5.triangles().len(), 32);
    let m30 = s.triangulate(30);
    assert_eq!(m30.triangles().len(), 2 * 29 * 29);
    assert_eq!(m30.resolution(), 30);
}

#[test]
fn triangulate_two_spans_corners() {
    let pts = grid_16();
    let c00 = pts[0];
    let c03 = pts[3];
    let c30 = pts[12];
    let c33 = pts[15];
    let s = BezierSurface::from_points(pts).unwrap();
    let m = s.triangulate(2);
    let t0 = m.triangles()[0];
    let t1 = m.triangles()[1];
    assert_eq!(t0.p0.pos, c00);
    assert_eq!(t0.p1.pos, c03);
    assert_eq!(t0.p2.pos, c33);
    assert_eq!(t1.p0.pos, c00);
    assert_eq!(t1.p1.pos, c33);
    assert_eq!(t1.p2.pos, c30);
}

#[test]
fn from_points_needs_sixteen() {
    let mut pts = grid_16();
    pts.pop();
    assert!(BezierSurface::from_points(pts).is_none());
}

#[test]
fn point_rotation_roundtrip() {
    let mut p = Point3::new(123456, -654321, 999999);
    let orig = p;
    p.rotate_ox(5000);
    p.rotate_ox(-5000);
    assert_eq!(p, orig);
    p.rotate_oz(QUARTER_TURN);
    p.rotate_oz(-QUARTER_TURN);
    assert_eq!(p, orig);
}

#[test]
fn vector_rotation_roundtrip() {
    let mut v = Vector3::new(SCALE, -SCALE / 3, 7777);
    let orig = v;
    v.rotate_ox(-12000);
    v.rotate_ox(12000);
    assert_eq!(v, orig);
}

#[test]
fn surface_and_mesh_rotation_roundtrip() {
    let pts = grid_16();
    let mut s = BezierSurface::from_points(pts).unwrap();
    let before = s.pts.clone();
    let mut m = s.triangulate(4);
    let tris_before = m.triangles().clone();
    s.rotate_ox(9000);
    m.rotate_ox(9000);
    s.rotate_ox(-9000);
    m.rotate_ox(-9000);
    assert_eq!(s.pts, before);
    assert_eq!(*m.triangles(), tris_before);
}

#[test]
fn rotation_quarter_turn_moves_axes() {
    // a quarter turn about X carries +Y near +Z
    let mut p = Point3::new(0, 100 * SCALE, 0);
    p.rotate_ox(QUARTER_TURN);
    assert_eq!(p.x, 0);
    assert!(p.y.abs() < SCALE);
    assert!((p.z - 100 * SCALE).abs() < SCALE);
}

#[test]
fn trig_exact_landmarks() {
    assert_eq!(sin_bam(0), 0);
    assert_eq!(sin_bam(QUARTER_TURN), SCALE);
    assert_eq!(sin_bam(2 * QUARTER_TURN), 0);
    assert_eq!(sin_bam(3 * QUARTER_TURN), -SCALE);
    assert_eq!(cos_bam(0), SCALE);
    assert_eq!(cos_bam(QUARTER_TURN), 0);
    assert_eq!(tan_half_bam(0), 0);
    // the half-angle tangent of a quarter turn is one
    assert_eq!(tan_half_bam(QUARTER_TURN), SCALE);
}

#[test]
fn trig_odd_symmetry() {
    let mut a: i64 = -QUARTER_TURN;
    while a <= QUARTER_TURN {
        assert_eq!(sin_bam(-a), -sin_bam(a));
        assert_eq!(cos_bam(-a), cos_bam(a));
        assert_eq!(tan_half_bam(-a), -tan_half_bam(a));
        a += 1234;
    }
}

#[test]
fn fixed_helpers() {
    assert_eq!(isqrt(144), 12);
    assert_eq!(isqrt(145), 12);
    assert_eq!(isqrt(0), 0);
    assert_eq!(isqrt(u64::MAX), 4294967295);
    assert_eq!(pow_fixed(SCALE, 7), SCALE);
    assert_eq!(pow_fixed(SCALE / 2, 2), SCALE / 4);
    assert_eq!(pow_fixed(-SCALE, 0), SCALE);
    assert_eq!(clamp_i64(300, 0, 255), 255);
    assert_eq!(clamp_i64(-4, 0, 255), 0);
}

#[test]
fn vector_algebra() {
    let a = Vector3::new(SCALE, 0, 0);
    let b = Vector3::new(0, SCALE, 0);
    assert_eq!(a.dot(b), 0);
    assert_eq!(a.dot(a), SCALE);
    let c = a.cross(b);
    assert_eq!(c, Vector3::new(0, 0, SCALE));
    let n = Vector3::new(3 * SCALE, 4 * SCALE, 0).normalized();
    assert_eq!(n.x, 3 * SCALE / 5);
    assert_eq!(n.y, 4 * SCALE / 5);
    assert_eq!(Vector3::zeros().normalized(), Vector3::zeros());
}
