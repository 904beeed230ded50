use raytracer::fixed::Fixed;
use raytracer::vec3::Vec3;

fn fx(value: f64) -> Fixed {
    Fixed::from_raw((value * 4294967296.0).round() as i64)
}

fn to_f64(value: Fixed) -> f64 {
    value.raw as f64 / 4294967296.0
}

fn assert_close(expected: f64, actual: f64) {
    let tolerance = 0.0001;
    assert!(
        (expected - actual).abs() <= tolerance,
        "expected {} but got {}",
        expected,
        actual
    );
}

fn assert_vec3_equal(expected: Vec3, actual: Vec3) {
    assert_close(to_f64(expected.x), to_f64(actual.x));
    assert_close(to_f64(expected.y), to_f64(actual.y));
    assert_close(to_f64(expected.z), to_f64(actual.z));
}

#[test]
fn negation() {
    let vector = Vec3::new(fx(1.0), fx(2.5), fx(4.0));
    let result = -vector;
    let expected = Vec3::new(fx(-1.0), fx(-2.5), fx(-4.0));
    assert_vec3_equal(expected, result);
    assert_eq!(expected, result);
}

#[test]
fn addition() {
    let vector1 = Vec3::new(fx(1.0), fx(2.0), fx(3.0));
    let vector2 = Vec3::new(fx(4.0), fx(5.0), fx(6.0));
    let result = vector1 + vector2;
    let expected = Vec3::new(fx(5.0), fx(7.0), fx(9.0));
    assert_vec3_equal(expected, result);
    assert_eq!(expected, result);
}

#[test]
fn substraction() {
    let vector1 = Vec3::new(fx(1.0), fx(2.0), fx(3.0));
    let vector2 = Vec3::new(fx(6.0), fx(5.0), fx(4.0));
    let result = vector1 - vector2;
    let expected = Vec3::new(fx(-5.0), fx(-3.0), fx(-1.0));
    assert_vec3_equal(expected, result);
    assert_eq!(expected, result);
}

#[test]
fn multiplication() {
    let vector = Vec3::new(fx(1.0), fx(2.0), fx(3.0));
    let factor = fx(3.0);
    let result1 = factor * vector;
    let result2 = vector * factor;
    let expected = Vec3::new(fx(3.0), fx(6.0), fx(9.0));
    assert_vec3_equal(expected, result1);
    assert_vec3_equal(expected, result2);
    assert_eq!(expected, result1);
    assert_eq!(expected, result2);
}

#[test]
fn division() {
    let vector = Vec3::new(fx(1.0), fx(2.0), fx(3.0));
    let divider = fx(2.0);
    let result = vector / divider;
    let expected = Vec3::new(fx(0.5), fx(1.0), fx(1.5));
    assert_vec3_equal(expected, result);
    assert_eq!(expected, result);
}

#[test]
fn length() {
    let vector = Vec3::new(fx(1.0), fx(2.0), fx(3.0));
    let result = vector.length();
    let expected = fx(14.0).sqrt();
    assert_eq!(expected, result);
    assert_eq!(result.raw, 16070296109);
    assert!((to_f64(result) - 14.0_f64.sqrt()).abs() < 1e-9);
}

#[test]
fn unit_vector() {
    let vector = Vec3::new(fx(1.0), fx(2.0), fx(3.0));
    let result = vector.unit_vector();
    let expected = vector / fx(14.0).sqrt();
    assert_vec3_equal(expected, result);
    assert_eq!(expected, result);
    assert_close(1.0 / 14.0_f64.sqrt(), to_f64(result.x));
}

#[test]
fn dot() {
    let vector1 = Vec3::new(fx(1.0), fx(2.0), fx(3.0));
    let vector2 = Vec3::new(fx(4.0), fx(5.0), fx(6.0));
    let result = vector1.dot(vector2);
    let expected = fx(32.0);
    assert_eq!(expected, result);
}
