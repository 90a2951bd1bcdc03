use tracer::canvas::Canvas;
use tracer::color::Color;
use tracer::image::create_ppm_header;
use tracer::intersection::Intersection;
use tracer::intersection::Intersections;
use tracer::lights::lighting;
use tracer::lights::PointLight;
use tracer::material::Material;
use tracer::matrix::Matrix;
use tracer::rational::Rat;
use tracer::ray::Intersect;
use tracer::ray::Ray;
use tracer::sphere::Sphere;
use tracer::transformations::rotation_x;
use tracer::transformations::rotation_y;
use tracer::transformations::rotation_z;
use tracer::transformations::scaling;
use tracer::transformations::shearing;
use tracer::transformations::translation;
use tracer::tuple::Tuple;

use std::f64::consts::PI;

fn rf(x: f64) -> Rat {
    Rat::new((x * 100_000_000.0).round() as i64, 100_000_000)
}

fn pt(x: f64, y: f64, z: f64) -> Tuple {
    Tuple::point(rf(x), rf(y), rf(z))
}

fn vc(x: f64, y: f64, z: f64) -> Tuple {
    Tuple::vector(rf(x), rf(y), rf(z))
}

fn col(r: f64, g: f64, b: f64) -> Color {
    Color::new(rf(r), rf(g), rf(b))
}

fn mat(values: &[f64], rows: usize, columns: usize) -> Matrix {
    let v: Vec<Rat> = values.iter().map(|x| rf(*x)).collect();
    Matrix::new(v, rows, columns)
}

fn rot_x(r: f64) -> Matrix {
    rotation_x(rf(r.cos()), rf(r.sin()))
}

fn rot_y(r: f64) -> Matrix {
    rotation_y(rf(r.cos()), rf(r.sin()))
}

fn rot_z(r: f64) -> Matrix {
    rotation_z(rf(r.cos()), rf(r.sin()))
}

// ---- tuples ----

#[test]
fn test_tuple_point() {
    let a = Tuple::new(rf(4.3), rf(-4.2), rf(3.1), 1);
    assert!(a.x.approx_eq(&rf(4.3)));
    assert!(a.y.approx_eq(&rf(-4.2)));
    assert!(a.z.approx_eq(&rf(3.1)));
    assert!(a.is_point());
    assert!(!a.is_vector());
}

#[test]
fn test_tuple_vector() {
    let a = Tuple::new(rf(4.3), rf(-4.2), rf(3.1), 0);
    assert!(a.x.approx_eq(&rf(4.3)));
    assert!(a.y.approx_eq(&rf(-4.2)));
    assert!(a.z.approx_eq(&rf(3.1)));
    assert!(!a.is_point());
    assert!(a.is_vector());
}

#[test]
fn test_point() {
    let a = pt(4.3, -4.2, 3.1);
    assert!(a.is_point());
    assert!(!a.is_vector());
}

#[test]
fn test_vector() {
    let a = vc(4.3, -4.2, 3.1);
    assert!(!a.is_point());
    assert!(a.is_vector());
}

#[test]
fn test_equality() {
    let a = Tuple::new(rf(4.3), rf(-4.2), rf(3.1), 1);
    let b = Tuple::new(rf(4.3), rf(-4.2), rf(3.1), 0);
    let c = Tuple::new(rf(4.3), rf(-4.20002), rf(3.1), 0);
    assert_ne!(a, b);
    assert!(c != a && c != b && c == c);
}

#[test]
fn test_add_tuples() {
    let a = Tuple::new(rf(4.3), rf(-4.2), rf(3.1), 1);
    let b = Tuple::new(rf(1.0), rf(0.0), rf(1.0), 0);
    let c = Tuple::new(rf(5.3), rf(-4.2), rf(4.1), 1);
    assert_eq!(a.add(&b).unwrap(), c);
}

#[test]
fn test_subtract_points_gives_vector() {
    let a = pt(3.0, 2.0, 1.0);
    let b = pt(5.0, 6.0, 7.0);
    let c = vc(-2.0, -4.0, -6.0);
    assert_eq!(a.sub(&b).unwrap(), c);
}

#[test]
fn test_subtract_vector_from_point_gives_point() {
    let a = pt(3.0, 2.0, 1.0);
    let b = vc(5.0, 6.0, 7.0);
    let c = pt(-2.0, -4.0, -6.0);
    assert_eq!(a.sub(&b).unwrap(), c);
}

#[test]
fn test_subtract_vector_from_vector_gives_vector() {
    let a = vc(3.0, 2.0, 1.0);
    let b = vc(5.0, 6.0, 7.0);
    let c = vc(-2.0, -4.0, -6.0);
    assert_eq!(a.sub(&b).unwrap(), c);
}

#[test]
fn test_negation() {
    let a = vc(3.0, 2.0, 1.0);
    let b = vc(-3.0, -2.0, -1.0);
    assert_eq!(a.neg(), b);
    assert!(a.neg().is_vector());
}

#[test]
fn test_scalar_multiplication() {
    let a = vc(3.0, 2.0, 1.0);
    let x = rf(2.0);
    let c = vc(6.0, 4.0, 2.0);
    assert_eq!(a.mul(&x).unwrap(), c);
}

#[test]
fn test_scalar_division() {
    let a = vc(3.0, 2.0, 1.0);
    let x = rf(2.0);
    let c = vc(1.5, 1.0, 0.5);
    assert_eq!(a.div(&x).unwrap(), c);
}

#[test]
fn test_abs() {
    assert!(vc(1.0, 0.0, 0.0).abs().unwrap().approx_eq(&rf(1.0)));
    assert!(vc(0.0, 1.0, 0.0).abs().unwrap().approx_eq(&rf(1.0)));
    assert!(vc(0.0, 0.0, 1.0).abs().unwrap().approx_eq(&rf(1.0)));
    assert!(vc(1.0, 2.0, 3.0).abs().unwrap().approx_eq(&rf(14.0f64.sqrt())));
    assert!(vc(-1.0, -2.0, -3.0).abs().unwrap().approx_eq(&rf(14.0f64.sqrt())));
}

#[test]
fn test_normalize() {
    let a = vc(4.0, 0.0, 0.0);
    let b = vc(1.0, 0.0, 0.0);
    assert_eq!(a.norm().unwrap(), b);
    let c = vc(1.0, 2.0, 3.0);
    let s = 14.0f64.sqrt();
    assert_eq!(c.norm().unwrap(), c.div(&rf(s)).unwrap());
    assert!(c.norm().unwrap().abs().unwrap().approx_eq(&rf(1.0)));
}

#[test]
fn test_dot_product() {
    let a = vc(1.0, 2.0, 3.0);
    let b = vc(2.0, 3.0, 4.0);
    assert!(a.dot(&b).unwrap().approx_eq(&rf(20.0)));
}

#[test]
fn test_cross_product() {
    let a = vc(1.0, 2.0, 3.0);
    let b = vc(2.0, 3.0, 4.0);
    let c = vc(-1.0, 2.0, -1.0);
    assert_eq!(a.cross(&b).unwrap(), c);
    assert_eq!(b.cross(&a).unwrap(), c.neg());
}

// ---- colors ----

#[test]
fn colors_are_tuples() {
    let c = col(-0.5, 0.4, 1.7);
    assert!(c.red.approx_eq(&rf(-0.5)));
    assert!(c.green.approx_eq(&rf(0.4)));
    assert!(c.blue.approx_eq(&rf(1.7)));
}

#[test]
fn add_colors() {
    let c1 = col(0.9, 0.6, 0.75);
    let c2 = col(0.7, 0.1, 0.25);
    assert_eq!(c1.add(&c2).unwrap(), col(1.6, 0.7, 1.0));
}

#[test]
fn subtract_colors() {
    let c1 = col(0.9, 0.6, 0.75);
    let c2 = col(0.7, 0.1, 0.25);
    assert_eq!(c1.sub(&c2).unwrap(), col(0.2, 0.5, 0.5));
}

#[test]
fn scalar_multiplication() {
    let c1 = col(0.9, 0.6, 0.75);
    assert_eq!(c1.mul_rat(&rf(2.0)).unwrap(), col(1.8, 1.2, 1.5));
}

#[test]
fn color_multiplication() {
    let c1 = col(0.9, 0.6, 0.75);
    let c2 = col(0.7, 0.1, 0.25);
    assert_eq!(c1.mul(&c2).unwrap(), col(0.63, 0.06, 0.1875));
}

// ---- matrices ----

#[test]
fn construct_matrix() {
    let m = mat(&[-3.0, 5.0, 1.0, -2.0], 2, 2);
    assert!(m.get(0, 0).approx_eq(&rf(-3.0)));
    assert!(m.get(0, 1).approx_eq(&rf(5.0)));
    assert!(m.get(1, 0).approx_eq(&rf(1.0)));
    assert!(m.get(1, 1).approx_eq(&rf(-2.0)));
}

#[test]
fn matrix_comparison() {
    let m1 = mat(&[-3.0, 5.0, 1.0, -2.0], 2, 2);
    let m2 = mat(&[-3.0001, 5.0, 1.0, -2.0], 2, 2);
    let m3 = mat(&[-3.0, 5.0, 1.0, -2.0, 1.0, 1.0], 3, 2);
    let m4 = mat(&[-3.0, 5.0, 1.0, -2.0, 1.0, 1.0], 2, 3);
    assert_eq!(m1, m1);
    assert_ne!(m1, m3);
    assert_ne!(m1, m2);
    assert_ne!(m3, m4);
}

#[test]
fn matrix_multiplication() {
    let m1 = mat(
        &[1.0, 2.0, 3.0, 4.0, 5.0, 6.0, 7.0, 8.0, 9.0, 8.0, 7.0, 6.0, 5.0, 4.0, 3.0, 2.0],
        4,
        4,
    );
    let m2 = mat(
        &[-2.0, 1.0, 2.0, 3.0, 3.0, 2.0, 1.0, -1.0, 4.0, 3.0, 6.0, 5.0, 1.0, 2.0, 7.0, 8.0],
        4,
        4,
    );
    let m3 = mat(
        &[
            20.0, 22.0, 50.0, 48.0, 44.0, 54.0, 114.0, 108.0, 40.0, 58.0, 110.0, 102.0, 16.0,
            26.0, 46.0, 42.0,
        ],
        4,
        4,
    );
    assert_eq!(m1.mul(&m2).unwrap(), m3);
}

#[test]
fn matrix_tuple_multiplication() {
    let m = mat(
        &[1.0, 2.0, 3.0, 4.0, 2.0, 4.0, 4.0, 2.0, 8.0, 6.0, 4.0, 1.0, 0.0, 0.0, 0.0, 1.0],
        4,
        4,
    );
    let b = Tuple::new(rf(1.0), rf(2.0), rf(3.0), 1);
    assert_eq!(m.mul_tuple(&b).unwrap(), Tuple::new(rf(18.0), rf(24.0), rf(33.0), 1));
}

#[test]
fn identity_matrix_matrix_multiplication() {
    let m = mat(
        &[1.0, 2.0, 3.0, 4.0, 2.0, 4.0, 4.0, 2.0, 8.0, 6.0, 4.0, 1.0, 0.0, 0.0, 0.0, 1.0],
        4,
        4,
    );
    let i = Matrix::identity(4);
    assert_eq!(m.mul(&i).unwrap(), m);
}

#[test]
fn identity_matrix_tuple_multiplication() {
    let b = Tuple::new(rf(1.0), rf(2.0), rf(3.0), 1);
    let i = Matrix::identity(4);
    assert_eq!(i.mul_tuple(&b).unwrap(), b);
}

#[test]
fn test_transposition() {
    let m = mat(&[1.0, 2.0, 3.0, 4.0, 5.0, 6.0], 3, 2);
    let n = mat(&[1.0, 3.0, 5.0, 2.0, 4.0, 6.0], 2, 3);
    assert_eq!(m.transpose(), n);
}

#[test]
fn test_identity_transposition() {
    let i = Matrix::identity(10);
    assert_eq!(i.transpose(), i);
}

#[test]
fn test_2x2_determinant() {
    let m = mat(&[1.0, 2.0, 3.0, 4.0], 2, 2);
    assert!(m.det().unwrap().approx_eq(&rf(-2.0)));
}

#[test]
fn test_remove_row() {
    let m = mat(&[1.0, 2.0, 3.0, 4.0, 5.0, 6.0], 2, 3);
    let n = mat(&[4.0, 5.0, 6.0], 1, 3);
    assert_eq!(m.remove_row(0), n);
}

#[test]
fn test_remove_column() {
    let m = mat(&[1.0, 2.0, 3.0, 4.0, 5.0, 6.0], 2, 3);
    let n = mat(&[2.0, 3.0, 5.0, 6.0], 2, 2);
    assert_eq!(m.remove_column(0), n);
}

#[test]
fn test_2x2_submatrix() {
    let m = mat(&[1.0, 5.0, 0.0, -3.0, 2.0, 7.0, 0.0, 6.0, -3.0], 3, 3);
    let s = mat(&[-3.0, 2.0, 0.0, 6.0], 2, 2);
    assert_eq!(m.submatrix(0, 2), s);
}

#[test]
fn test_3x3_submatrix() {
    let m = mat(
        &[-6.0, 1.0, 1.0, 6.0, -8.0, 5.0, 8.0, 6.0, -1.0, 0.0, 8.0, 2.0, -7.0, 1.0, -1.0, 1.0],
        4,
        4,
    );
    let s = mat(&[5.0, 8.0, 6.0, 0.0, 8.0, 2.0, 1.0, -1.0, 1.0], 3, 3);
    assert_eq!(m.submatrix(0, 0), s);
}

#[test]
fn test_3x3_minor() {
    let m = mat(&[3.0, 5.0, 0.0, 2.0, -1.0, -7.0, 6.0, -1.0, 5.0], 3, 3);
    assert!(m.submatrix(1, 0).det().unwrap().approx_eq(&rf(25.0)));
    assert!(m.minor(1, 0).unwrap().approx_eq(&rf(25.0)));
}

#[test]
fn test_2x2_cofactor() {
    let m = mat(&[3.0, 5.0, 0.0, 2.0, -1.0, -7.0, 6.0, -1.0, 5.0], 3, 3);
    assert!(m.minor(0, 0).unwrap().approx_eq(&rf(-12.0)));
    assert!(m.cofactor(0, 0).unwrap().approx_eq(&rf(-12.0)));
    assert!(m.minor(1, 0).unwrap().approx_eq(&rf(25.0)));
    assert!(m.cofactor(1, 0).unwrap().approx_eq(&rf(-25.0)));
}

#[test]
fn test_3x3_determinant() {
    let m = mat(&[1.0, 2.0, 6.0, -5.0, 8.0, -4.0, 2.0, 6.0, 4.0], 3, 3);
    assert!(m.cofactor(0, 0).unwrap().approx_eq(&rf(56.0)));
    assert!(m.cofactor(0, 1).unwrap().approx_eq(&rf(12.0)));
    assert!(m.cofactor(0, 2).unwrap().approx_eq(&rf(-46.0)));
    assert!(m.det().unwrap().approx_eq(&rf(-196.0)));
}

#[test]
fn test_4x4_determinant() {
    let m = mat(
        &[-2.0, -8.0, 3.0, 5.0, -3.0, 1.0, 7.0, 3.0, 1.0, 2.0, -9.0, 6.0, -6.0, 7.0, 7.0, -9.0],
        4,
        4,
    );
    assert!(m.cofactor(0, 0).unwrap().approx_eq(&rf(690.0)));
    assert!(m.cofactor(0, 1).unwrap().approx_eq(&rf(447.0)));
    assert!(m.cofactor(0, 2).unwrap().approx_eq(&rf(210.0)));
    assert!(m.cofactor(0, 3).unwrap().approx_eq(&rf(51.0)));
    assert!(m.det().unwrap().approx_eq(&rf(-4071.0)));
}

#[test]
fn test_inverse() {
    let m = mat(
        &[
            -5.0, 2.0, 6.0, -8.0, 3.0, 1.0, -5.0, 3.0, 9.0, 0.0, 1.3, 2.3, 1.9, 2.0, 1.1, 0.0,
        ],
        4,
        4,
    );
    assert_eq!(m.mul(&m.inverse().unwrap()).unwrap(), Matrix::identity(4));
}

#[test]
fn test_inverse_identity() {
    let i = Matrix::identity(4);
    assert_eq!(i.inverse().unwrap(), i);
}

#[test]
fn test_inverse_equation() {
    // a product times the inverse of a factor recovers the other factor
    let m = mat(
        &[
            1.0, 3.0, -1.0, 2.0, 3.2, 3.1, -1.1, 99.0, 12.0, 0.0, 1.0, 2.0, 12.0, 13.0, 1.0, 2.0,
        ],
        4,
        4,
    );
    let n = m.transpose();
    let c = m.mul(&n).unwrap();
    assert_eq!(c.mul(&n.inverse().unwrap()).unwrap(), m);
}

// ---- transformations ----

#[test]
fn multiply_by_translation_matrix() {
    let p = pt(-3.0, 4.0, 5.0);
    let t = translation(rf(5.0), rf(-3.0), rf(2.0));
    assert_eq!(t.mul_tuple(&p).unwrap(), pt(2.0, 1.0, 7.0));
}

#[test]
fn multiply_by_inverse_translation() {
    let t = translation(rf(5.0), rf(-3.0), rf(2.0));
    let p = pt(-3.0, 4.0, 5.0);
    assert_eq!(t.inverse().unwrap().mul_tuple(&p).unwrap(), pt(-8.0, 7.0, 3.0));
}

#[test]
fn translate_vector_does_not_change_it() {
    let t = translation(rf(5.0), rf(-3.0), rf(2.0));
    let v = vc(-3.0, 4.0, 5.0);
    assert_eq!(t.mul_tuple(&v).unwrap(), v);
}

#[test]
fn scaling_a_point() {
    let t = scaling(rf(2.0), rf(3.0), rf(4.0));
    let p = pt(-4.0, 6.0, 8.0);
    assert_eq!(t.mul_tuple(&p).unwrap(), pt(-8.0, 18.0, 32.0));
}

#[test]
fn scaling_a_vector() {
    let t = scaling(rf(2.0), rf(3.0), rf(4.0));
    let v = vc(-4.0, 6.0, 8.0);
    assert_eq!(t.mul_tuple(&v).unwrap(), vc(-8.0, 18.0, 32.0));
}

#[test]
fn inverse_scaling() {
    let t = scaling(rf(2.0), rf(3.0), rf(4.0));
    let v = vc(-4.0, 6.0, 8.0);
    assert_eq!(t.inverse().unwrap().mul_tuple(&v).unwrap(), vc(-2.0, 2.0, 2.0));
}

#[test]
fn reflection_is_negative_scaling() {
    let t = scaling(rf(-1.0), rf(1.0), rf(1.0));
    let p = pt(2.0, 3.0, 4.0);
    assert_eq!(t.mul_tuple(&p).unwrap(), pt(-2.0, 3.0, 4.0));
}

#[test]
fn rotate_around_x_axis() {
    let p = pt(0.0, 1.0, 0.0);
    let r1 = rot_x(PI / 4.0);
    let r2 = rot_x(PI / 2.0);
    let h = 2.0f64.sqrt() / 2.0;
    assert_eq!(r1.mul_tuple(&p).unwrap(), pt(0.0, h, h));
    assert_eq!(r2.mul_tuple(&p).unwrap(), pt(0.0, 0.0, 1.0));
}

#[test]
fn inverse_rotate_around_x_axis() {
    let p = pt(0.0, 1.0, 0.0);
    let r1 = rot_x(PI / 4.0);
    let h = 2.0f64.sqrt() / 2.0;
    assert_eq!(r1.inverse().unwrap().mul_tuple(&p).unwrap(), pt(0.0, h, -h));
}

#[test]
fn rotate_around_y_axis() {
    let p = pt(0.0, 0.0, 1.0);
    let r1 = rot_y(PI / 4.0);
    let r2 = rot_y(PI / 2.0);
    let h = 2.0f64.sqrt() / 2.0;
    assert_eq!(r1.mul_tuple(&p).unwrap(), pt(h, 0.0, h));
    assert_eq!(r2.mul_tuple(&p).unwrap(), pt(1.0, 0.0, 0.0));
}

#[test]
fn rotate_around_z_axis() {
    let p = pt(0.0, 1.0, 0.0);
    let r1 = rot_z(PI / 4.0);
    let r2 = rot_z(PI / 2.0);
    let h = 2.0f64.sqrt() / 2.0;
    assert_eq!(r1.mul_tuple(&p).unwrap(), pt(-h, h, 0.0));
    assert_eq!(r2.mul_tuple(&p).unwrap(), pt(-1.0, 0.0, 0.0));
}

#[test]
fn shear_x_rel_y() {
    let t = shearing(rf(1.0), rf(0.0), rf(0.0), rf(0.0), rf(0.0), rf(0.0));
    let p = pt(2.0, 3.0, 4.0);
    assert_eq!(t.mul_tuple(&p).unwrap(), pt(5.0, 3.0, 4.0));
}

#[test]
fn shear_x_rel_z() {
    let t = shearing(rf(0.0), rf(1.0), rf(0.0), rf(0.0), rf(0.0), rf(0.0));
    let p = pt(2.0, 3.0, 4.0);
    assert_eq!(t.mul_tuple(&p).unwrap(), pt(6.0, 3.0, 4.0));
}

#[test]
fn shear_y_rel_x() {
    let t = shearing(rf(0.0), rf(0.0), rf(1.0), rf(0.0), rf(0.0), rf(0.0));
    let p = pt(2.0, 3.0, 4.0);
    assert_eq!(t.mul_tuple(&p).unwrap(), pt(2.0, 5.0, 4.0));
}

#[test]
fn shear_y_rel_z() {
    let t = shearing(rf(0.0), rf(0.0), rf(0.0), rf(1.0), rf(0.0), rf(0.0));
    let p = pt(2.0, 3.0, 4.0);
    assert_eq!(t.mul_tuple(&p).unwrap(), pt(2.0, 7.0, 4.0));
}

#[test]
fn shear_z_rel_x() {
    let t = shearing(rf(0.0), rf(0.0), rf(0.0), rf(0.0), rf(1.0), rf(0.0));
    let p = pt(2.0, 3.0, 4.0);
    assert_eq!(t.mul_tuple(&p).unwrap(), pt(2.0, 3.0, 6.0));
}

#[test]
fn shear_z_rel_y() {
    let t = shearing(rf(0.0), rf(0.0), rf(0.0), rf(0.0), rf(0.0), rf(1.0));
    let p = pt(2.0, 3.0, 4.0);
    assert_eq!(t.mul_tuple(&p).unwrap(), pt(2.0, 3.0, 7.0));
}

#[test]
fn apply_transformations_in_sequence() {
    let p = pt(1.0, 0.0, 1.0);
    let a = rot_x(PI / 2.0);
    let b = scaling(rf(5.0), rf(5.0), rf(5.0));
    let c = translation(rf(10.0), rf(5.0), rf(7.0));
    let p2 = a.mul_tuple(&p).unwrap();
    assert_eq!(p2, pt(1.0, -1.0, 0.0));
    let p3 = b.mul_tuple(&p2).unwrap();
    assert_eq!(p3, pt(5.0, -5.0, 0.0));
    let p4 = c.mul_tuple(&p3).unwrap();
    assert_eq!(p4, pt(15.0, 0.0, 7.0));
}

// ---- rays ----

#[test]
fn create_ray() {
    let origin = pt(1.0, 2.0, 3.0);
    let direction = vc(4.0, 5.0, 6.0);
    let r = Ray::new(origin, direction).unwrap();
    assert_eq!(r.origin(), origin);
    assert_eq!(r.direction(), direction);
}

#[test]
fn compute_position() {
    let origin = pt(2.0, 3.0, 4.0);
    let direction = vc(1.0, 0.0, 0.0);
    let r = Ray::new(origin, direction).unwrap();
    assert_eq!(r.position(&rf(0.0)).unwrap(), origin);
    assert_eq!(r.position(&rf(1.0)).unwrap(), pt(3.0, 3.0, 4.0));
    assert_eq!(r.position(&rf(-1.0)).unwrap(), pt(1.0, 3.0, 4.0));
    assert_eq!(r.position(&rf(2.5)).unwrap(), pt(4.5, 3.0, 4.0));
}

#[test]
fn test_intersect_sphere() {
    let r = Ray::new(pt(0.0, 0.0, -5.0), vc(0.0, 0.0, 1.0)).unwrap();
    let s = Sphere::unit();
    let xs = r.intersect(&s).unwrap();
    assert_eq!(xs.len(), 2);
    assert!(xs.get(0).time.approx_eq(&rf(4.0)));
    assert!(xs.get(1).time.approx_eq(&rf(6.0)));
}

#[test]
fn test_intersect_sphere_at_tangent() {
    let r = Ray::new(pt(0.0, 1.0, -5.0), vc(0.0, 0.0, 1.0)).unwrap();
    let s = Sphere::unit();
    let xs = r.intersect(&s).unwrap();
    assert_eq!(xs.len(), 2);
    assert!(xs.get(0).time.approx_eq(&rf(5.0)));
    assert!(xs.get(1).time.approx_eq(&rf(5.0)));
}

#[test]
fn test_does_not_intersect_sphere() {
    let r = Ray::new(pt(0.0, 1.1, -5.0), vc(0.0, 0.0, 1.0)).unwrap();
    let s = Sphere::unit();
    let xs = r.intersect(&s).unwrap();
    assert_eq!(xs.len(), 0);
}

#[test]
fn test_intersect_from_inside() {
    let r = Ray::new(pt(0.0, 0.0, 0.0), vc(0.0, 0.0, 1.0)).unwrap();
    let s = Sphere::unit();
    let xs = r.intersect(&s).unwrap();
    assert_eq!(xs.len(), 2);
    assert!(xs.get(0).time.approx_eq(&rf(-1.0)));
    assert!(xs.get(1).time.approx_eq(&rf(1.0)));
}

#[test]
fn test_intersect_from_behind() {
    let r = Ray::new(pt(0.0, 0.0, 5.0), vc(0.0, 0.0, 1.0)).unwrap();
    let s = Sphere::unit();
    let xs = r.intersect(&s).unwrap();
    assert_eq!(xs.len(), 2);
    assert!(xs.get(0).time.approx_eq(&rf(-6.0)));
    assert!(xs.get(1).time.approx_eq(&rf(-4.0)));
}

#[test]
fn test_intersection_has_object_reference() {
    let r = Ray::new(pt(0.0, 0.0, -0.5), vc(0.0, 0.0, 1.0)).unwrap();
    let s = Sphere::unit();
    let xs = r.intersect(&s).unwrap();
    assert_eq!(xs.len(), 2);
    assert_eq!(xs.get(0).object, s);
    assert_eq!(xs.get(1).object, s);
}

#[test]
fn translate_ray() {
    let ray = Ray::new(pt(1.0, 2.0, 3.0), vc(0.0, 1.0, 0.0)).unwrap();
    let m = translation(rf(3.0), rf(4.0), rf(5.0));
    let r2 = ray.transform(&m).unwrap();
    assert_eq!(r2.origin(), pt(4.0, 6.0, 8.0));
    assert_eq!(r2.direction(), vc(0.0, 1.0, 0.0));
}

#[test]
fn scale_ray() {
    let ray = Ray::new(pt(1.0, 2.0, 3.0), vc(0.0, 1.0, 0.0)).unwrap();
    let m = scaling(rf(2.0), rf(3.0), rf(4.0));
    let r2 = ray.transform(&m).unwrap();
    assert_eq!(r2.origin(), pt(2.0, 6.0, 12.0));
    assert_eq!(r2.direction(), vc(0.0, 3.0, 0.0));
}

#[test]
fn test_intersection_with_scaled_sphere() {
    let r = Ray::new(pt(0.0, 0.0, -5.0), vc(0.0, 0.0, 1.0)).unwrap();
    let mut s = Sphere::unit();
    s.set_transform(&scaling(rf(2.0), rf(2.0), rf(2.0)));
    let xs = r.intersect(&s).unwrap();
    assert_eq!(xs.len(), 2);
    assert_eq!(xs.get(0).object, s);
    assert_eq!(xs.get(1).object, s);
    assert!(xs.get(0).time.approx_eq(&rf(3.0)));
    assert!(xs.get(1).time.approx_eq(&rf(7.0)));
}

#[test]
fn test_intersection_with_translated_sphere() {
    let r = Ray::new(pt(0.0, 0.0, -5.0), vc(0.0, 0.0, 1.0)).unwrap();
    let mut s = Sphere::unit();
    s.set_transform(&translation(rf(5.0), rf(0.0), rf(0.0)));
    let xs = r.intersect(&s).unwrap();
    assert_eq!(xs.len(), 0);
}

// ---- intersections ----

#[test]
fn intersection_stores_time_and_object() {
    let i = Intersection { time: rf(1.3), object: Sphere::unit() };
    assert!(i.time.approx_eq(&rf(1.3)));
    assert_eq!(i.object, Sphere::unit());
}

#[test]
fn intersection_aggregates_are_accessible() {
    let i1 = Intersection { time: rf(1.3), object: Sphere::unit() };
    let i2 = Intersection { time: rf(1.4), object: Sphere::unit() };
    let i = Intersections::new(vec![i1.clone(), i2.clone()]);
    assert_eq!(*i.get(0), i1);
    assert_eq!(*i.get(1), i2);
}

#[test]
fn intersections_yields_hit() {
    let i1 = Intersection { time: rf(1.0), object: Sphere::unit() };
    let i2 = Intersection { time: rf(2.0), object: Sphere::unit() };
    let i = Intersections::new(vec![i1.clone(), i2]);
    let hit = i.get_hit().unwrap();
    assert_eq!(i1, hit);
}

#[test]
fn intersections_yields_hit_some_negative() {
    let i1 = Intersection { time: rf(-1.0), object: Sphere::unit() };
    let i2 = Intersection { time: rf(2.0), object: Sphere::unit() };
    let i = Intersections::new(vec![i1, i2.clone()]);
    let hit = i.get_hit().unwrap();
    assert_eq!(i2, hit);
}

#[test]
fn intersections_yields_hit_all_negative() {
    let i1 = Intersection { time: rf(-1.0), object: Sphere::unit() };
    let i2 = Intersection { time: rf(-2.0), object: Sphere::unit() };
    let i = Intersections::new(vec![i1, i2]);
    let hit = i.get_hit();
    assert!(hit.is_none());
}

#[test]
fn intersection_hits_lowest_nonnegative() {
    let i1 = Intersection { time: rf(5.0), object: Sphere::unit() };
    let i2 = Intersection { time: rf(7.0), object: Sphere::unit() };
    let i3 = Intersection { time: rf(-3.0), object: Sphere::unit() };
    let i4 = Intersection { time: rf(2.0), object: Sphere::unit() };
    let i = Intersections::new(vec![i1, i2, i3, i4.clone()]);
    let hit = i.get_hit().unwrap();
    assert_eq!(hit, i4);
}

// ---- spheres ----

#[test]
fn test_sphere_default_transform() {
    let s = Sphere::unit();
    assert_eq!(s.get_transform().unwrap(), Matrix::identity(4));
}

#[test]
fn test_sphere_set_transform() {
    let mut s = Sphere::unit();
    let t = scaling(rf(1.0), rf(2.0), rf(0.0));
    s.set_transform(&t);
    assert_eq!(s.get_transform().unwrap(), t);
}

#[test]
fn test_sphere_normal_on_x() {
    let s = Sphere::unit();
    let n = s.normal_at(&pt(1.0, 0.0, 0.0)).unwrap();
    assert_eq!(n, vc(1.0, 0.0, 0.0));
}

#[test]
fn test_sphere_normal_on_y() {
    let s = Sphere::unit();
    let n = s.normal_at(&pt(0.0, 1.0, 0.0)).unwrap();
    assert_eq!(n, vc(0.0, 1.0, 0.0));
}

#[test]
fn test_sphere_normal_on_z() {
    let s = Sphere::unit();
    let n = s.normal_at(&pt(0.0, 0.0, 1.0)).unwrap();
    assert_eq!(n, vc(0.0, 0.0, 1.0));
}

#[test]
fn test_sphere_normal_on_nonaxial_point() {
    let x = 3.0f64.sqrt() / 3.0;
    let s = Sphere::unit();
    let n = s.normal_at(&pt(x, x, x)).unwrap();
    assert_eq!(n, vc(x, x, x));
    assert_eq!(n, n.norm().unwrap());
}

#[test]
fn test_sphere_normal_after_translate() {
    let mut s = Sphere::unit();
    s.set_transform(&translation(rf(0.0), rf(1.0), rf(0.0)));
    let n = s.normal_at(&pt(0.0, 1.70711, -0.70711)).unwrap();
    assert_eq!(n, vc(0.0, 0.7071067811865475, -0.7071067811865476));
    assert_eq!(n, n.norm().unwrap());
}

#[test]
fn test_sphere_normal_after_transform() {
    let mut s = Sphere::unit();
    let t = scaling(rf(1.0), rf(0.5), rf(1.0)).mul(&rot_z(PI / 5.0)).unwrap();
    s.set_transform(&t);
    let a = 2.0f64.sqrt() / 2.0;
    let n = s.normal_at(&pt(0.0, a, -a)).unwrap();
    assert_eq!(n, vc(0.0, 0.9701425001453319, -0.24253562503633294));
    assert_eq!(n, n.norm().unwrap());
}

#[test]
fn sphere_has_default_material() {
    let s = Sphere::unit();
    assert_eq!(s.get_material().unwrap(), Material::default());
}

#[test]
fn sphere_can_be_assigned_material() {
    let mut s = Sphere::unit();
    let m = Material::new(col(1.0, 0.0, 1.0), rf(1.0), rf(2.0), rf(3.0), 4);
    s.set_material(m);
    assert_eq!(s.get_material().unwrap(), m);
}

// ---- lights and shading ----

#[test]
fn test_point_light_has_intensity_and_position() {
    let l = PointLight::new(Tuple::origin(), col(0.0, 0.0, 0.0));
    assert_eq!(l.intensity, col(0.0, 0.0, 0.0));
    assert_eq!(l.position, Tuple::origin());
}

#[test]
fn lighting_eye_between_source_and_surface() {
    let m = Material::default();
    let pos = Tuple::origin();
    let eye = vc(0.0, 0.0, -1.0);
    let normal = vc(0.0, 0.0, -1.0);
    let l = PointLight::new(pt(0.0, 0.0, -10.0), col(1.0, 1.0, 1.0));
    let result = lighting(&m, &l, &pos, &eye, &normal).unwrap();
    assert_eq!(result, col(1.9, 1.9, 1.9));
}

#[test]
fn lighting_eye_offset_45_degrees() {
    let m = Material::default();
    let pos = Tuple::origin();
    let h = 2.0f64.sqrt() / 2.0;
    let eye = vc(0.0, h, h);
    let normal = vc(0.0, 0.0, -1.0);
    let l = PointLight::new(pt(0.0, 0.0, -10.0), col(1.0, 1.0, 1.0));
    let result = lighting(&m, &l, &pos, &eye, &normal).unwrap();
    assert_eq!(result, col(1.0, 1.0, 1.0));
}

#[test]
fn lighting_light_offset_45_degrees() {
    let m = Material::default();
    let pos = Tuple::origin();
    let eye = vc(0.0, 0.0, -1.0);
    let normal = vc(0.0, 0.0, -1.0);
    let l = PointLight::new(pt(0.0, 10.0, -10.0), col(1.0, 1.0, 1.0));
    let result = lighting(&m, &l, &pos, &eye, &normal).unwrap();
    assert_eq!(result, col(0.7363961030678927, 0.7363961030678927, 0.7363961030678927));
}

#[test]
fn lighting_eye_in_reflection_vector() {
    let m = Material::default();
    let pos = Tuple::origin();
    let h = 2.0f64.sqrt() / 2.0;
    let eye = vc(0.0, -h, -h);
    let normal = vc(0.0, 0.0, -1.0);
    let l = PointLight::new(pt(0.0, 10.0, -10.0), col(1.0, 1.0, 1.0));
    let result = lighting(&m, &l, &pos, &eye, &normal).unwrap();
    assert_eq!(result, col(1.6363961030678928, 1.6363961030678928, 1.6363961030678928));
}

#[test]
fn lighting_light_behind_surface() {
    let m = Material::default();
    let pos = Tuple::origin();
    let eye = vc(0.0, 0.0, -1.0);
    let normal = vc(0.0, 0.0, -1.0);
    let l = PointLight::new(pt(0.0, 0.0, 10.0), col(1.0, 1.0, 1.0));
    let result = lighting(&m, &l, &pos, &eye, &normal).unwrap();
    assert_eq!(result, col(0.1, 0.1, 0.1));
}

// ---- canvas and image text ----

#[test]
fn test_create_canvas() {
    let c = Canvas::new(10, 20);
    let o = col(0.0, 0.0, 0.0);
    assert_eq!(c.width(), 10);
    assert_eq!(c.height(), 20);
    for x in 0..10 {
        for y in 0..20 {
            assert_eq!(c.pixel(x, y), o);
        }
    }
}

#[test]
fn test_index_canvas() {
    let c = Canvas::new(2, 3);
    let o = col(0.0, 0.0, 0.0);
    for i in 0..3 {
        assert_eq!(c.pixel(0, i), o);
    }
    assert_eq!(c.pixel(0, 0), o);
}

#[test]
fn test_write_pixel() {
    let mut c = Canvas::new(10, 20);
    let o = col(1.0, 1.0, 1.0);
    c.write_pixel(2, 4, &o);
    assert_eq!(c.pixel(2, 4), o);
}

#[test]
fn canvas_test_create_ppm_header() {
    let header = create_ppm_header(10, 20);
    assert_eq!(header, "\nP3\n10 20\n255\n".to_string());
}

#[test]
fn image_test_create_ppm_header() {
    let header = create_ppm_header(10, 20);
    assert_eq!(header, "\nP3\n10 20\n255\n".to_string());
}

// ---- demo scenes ----

#[test]
fn clock_paints_a_square_canvas() {
    let c = tracer::clock::clock().unwrap();
    assert_eq!(c.width(), 100);
    assert_eq!(c.height(), 100);
}

#[test]
fn projectile_paints_its_flight() {
    let c = tracer::projectile::projectile().unwrap();
    assert_eq!(c.width(), 900);
    assert_eq!(c.height(), 550);
    let mut lit = 0u64;
    for x in 0..900 {
        for y in 0..550 {
            let p = c.pixel(x, y);
            if !p.red.approx_eq(&rf(0.0)) {
                lit += 1;
            }
        }
    }
    assert!(lit > 0);
}

#[test]
fn ppm_pixel_lines_are_wrapped() {
    // forty pixels give a body well over one line's width
    let c = Canvas::new(40, 1);
    let lines = tracer::image::ppm_pixel_lines(&c);
    assert!(lines.len() > 1);
    let mut total = String::new();
    for line in &lines {
        assert!(line.len() <= 70);
        total.push_str(line);
        total.push(' ');
    }
    // the wrapped lines carry the same pixel text, word for word
    let body = tracer::image::ppm_body(&c);
    let words: Vec<&str> = body.split_whitespace().collect();
    let rewords: Vec<&str> = total.split_whitespace().collect();
    assert_eq!(words, rewords);
}

#[test]
fn rotating_twice_by_a_quarter_turn_is_a_half_turn() {
    let p = pt(0.0, 1.0, 0.0);
    let quarter = rot_x(PI / 2.0);
    let half = rot_x(PI);
    let twice = quarter
        .mul_tuple(&quarter.mul_tuple(&p).unwrap())
        .unwrap();
    let once = half.mul_tuple(&p).unwrap();
    assert_eq!(twice, once);
    assert_eq!(twice, pt(0.0, -1.0, 0.0));
}
