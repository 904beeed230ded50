use raytracer::color::Color;
use raytracer::fixed::Fixed;
use raytracer::hittable::HitRecord;
use raytracer::hittable::Hittable;
use raytracer::material::Lambertian;
use raytracer::ray::Ray;
use raytracer::sphere::Sphere;
use raytracer::vec3::Point3;
use raytracer::vec3::Vec3;

fn fx(value: f64) -> Fixed {
    Fixed::from_raw((value * 4294967296.0).round() as i64)
}

fn to_f64(value: Fixed) -> f64 {
    value.raw as f64 / 4294967296.0
}

fn assert_close(expected: f64, actual: f64) {
    let tolerance = 0.0001;
    assert!(
        (expected - actual).abs() <= tolerance,
        "expected {} but got {}",
        expected,
        actual
    );
}

fn assert_vec3_equal(expected: Vec3, actual: Vec3) {
    assert_close(to_f64(expected.x), to_f64(actual.x));
    assert_close(to_f64(expected.y), to_f64(actual.y));
    assert_close(to_f64(expected.z), to_f64(actual.z));
}

fn assert_hit_record_equal(expected: &HitRecord<Lambertian>, actual: &HitRecord<Lambertian>) {
    assert_close(to_f64(expected.t), to_f64(actual.t));
    assert_vec3_equal(expected.p, actual.p);
    assert_vec3_equal(expected.normal, actual.normal);
    assert!(expected.front_face == actual.front_face)
}

#[test]
fn at() {
    let origin = Point3::new(fx(2.0), fx(4.0), fx(7.0));
    let direction = Vec3::new(fx(1.0), fx(2.0), fx(3.0));
    let ray = Ray::new(origin, direction);
    let result = ray.at(fx(5.0));
    let expected = Vec3::new(fx(7.0), fx(14.0), fx(22.0));
    assert_vec3_equal(expected, result);
    assert_eq!(expected, result);
}

#[test]
fn hit_first_point() {
    let origin = Point3::new(fx(0.0), fx(0.0), fx(0.0));
    let direction = Vec3::new(fx(0.0), fx(0.0), fx(-1.0));
    let ray = Ray::new(origin, direction);
    let material = Lambertian::new(Color::new(fx(0.7), fx(0.3), fx(0.3)));
    let mock_material = Lambertian::new(Color::new(fx(0.7), fx(0.3), fx(0.3)));

    let sphere = Sphere::new(Point3::new(fx(0.0), fx(0.0), fx(-1.0)), fx(0.5), material);

    let result = sphere.hit(&ray, fx(3.0), fx(0.0));
    let expected = HitRecord::new(
        Point3::new(fx(0.0), fx(0.0), fx(-0.5)),
        Vec3::new(fx(0.0), fx(0.0), fx(1.0)),
        fx(0.5),
        true,
        &mock_material,
    );

    match result {
        Some(record) => {
            assert_hit_record_equal(&expected, &record);
            assert_eq!(record.t, fx(0.5));
            assert_eq!(record.p, expected.p);
            assert_eq!(record.normal, expected.normal);
        }
        None => {
            panic!("Should have hit")
        }
    }
}

#[test]
fn hit_second_point() {
    let origin = Point3::new(fx(0.0), fx(0.0), fx(0.0));
    let direction = Vec3::new(fx(0.0), fx(0.0), fx(-1.0));
    let ray = Ray::new(origin, direction);
    let material = Lambertian::new(Color::new(fx(0.7), fx(0.3), fx(0.3)));
    let mock_material = Lambertian::new(Color::new(fx(0.7), fx(0.3), fx(0.3)));

    let sphere = Sphere::new(Point3::new(fx(0.0), fx(0.0), fx(-1.0)), fx(0.5), material);

    let result = sphere.hit(&ray, fx(3.0), fx(1.0));
    let expected = HitRecord::new(
        Point3::new(fx(0.0), fx(0.0), fx(-1.5)),
        Vec3::new(fx(0.0), fx(0.0), fx(-1.0)),
        fx(1.5),
        false,
        &mock_material,
    );

    match result {
        Some(record) => {
            assert_hit_record_equal(&expected, &record);
            assert_eq!(record.t, fx(1.5));
            assert_eq!(record.p, expected.p);
            assert_eq!(record.normal, expected.normal);
        }
        None => {
            panic!("Should have hit")
        }
    }
}

#[test]
fn hit_none_range() {
    let origin = Point3::new(fx(0.0), fx(0.0), fx(0.0));
    let direction = Vec3::new(fx(0.0), fx(0.0), fx(-1.0));
    let ray = Ray::new(origin, direction);
    let material = Lambertian::new(Color::new(fx(0.7), fx(0.3), fx(0.3)));

    let sphere = Sphere::new(Point3::new(fx(0.0), fx(0.0), fx(-1.0)), fx(0.5), material);

    let result = sphere.hit(&ray, fx(0.4), fx(0.0));

    assert!(result.is_none());
}

#[test]
fn hit_none_direction() {
    let origin = Point3::new(fx(0.0), fx(0.0), fx(0.0));
    let direction = Vec3::new(fx(0.0), fx(1.0), fx(0.0));
    let ray = Ray::new(origin, direction);
    let material = Lambertian::new(Color::new(fx(0.7), fx(0.3), fx(0.3)));

    let sphere = Sphere::new(Point3::new(fx(0.0), fx(0.0), fx(-1.0)), fx(0.5), material);

    let result = sphere.hit(&ray, fx(0.4), fx(0.0));

    assert!(result.is_none());
}

#[test]
fn hit_none_direction_in_any_interval() {
    let ray = Ray::new(
        Point3::new(fx(0.0), fx(0.0), fx(0.0)),
        Vec3::new(fx(0.0), fx(1.0), fx(0.0)),
    );
    let sphere = Sphere::new(
        Point3::new(fx(0.0), fx(0.0), fx(-1.0)),
        fx(0.5),
        Lambertian::new(Color::new(fx(0.7), fx(0.3), fx(0.3))),
    );
    assert!(sphere.hit(&ray, Fixed::max_value(), fx(0.0)).is_none());
    assert!(sphere.hit(&ray, fx(3.0), fx(-3.0)).is_none());
    assert!(sphere
        .hit(&ray, Fixed::max_value(), Fixed::from_raw(-i64::MAX))
        .is_none());
}

#[test]
fn hit_excludes_the_ends_of_the_interval() {
    let ray = Ray::new(
        Point3::new(fx(0.0), fx(0.0), fx(0.0)),
        Vec3::new(fx(0.0), fx(0.0), fx(-1.0)),
    );
    let sphere = Sphere::new(
        Point3::new(fx(0.0), fx(0.0), fx(-1.0)),
        fx(0.5),
        Lambertian::new(Color::new(fx(0.7), fx(0.3), fx(0.3))),
    );
    // The roots are 0.5 and 1.5.
    let far = sphere.hit(&ray, fx(3.0), fx(0.5)).expect("the far root");
    assert_eq!(far.t, fx(1.5));
    assert!(sphere.hit(&ray, fx(1.5), fx(0.5)).is_none());
    let near = sphere.hit(&ray, fx(1.5), fx(0.0)).expect("the near root");
    assert_eq!(near.t, fx(0.5));
    assert!(sphere.hit(&ray, fx(0.5), fx(0.0)).is_none());
}

#[test]
fn hit_normal_points_against_the_ray() {
    let sphere = Sphere::new(
        Point3::new(fx(0.25), fx(-0.5), fx(-2.0)),
        fx(1.25),
        Lambertian::new(Color::new(fx(0.7), fx(0.3), fx(0.3))),
    );
    let origins = [
        Point3::new(fx(0.0), fx(0.0), fx(0.0)),
        Point3::new(fx(0.25), fx(-0.5), fx(-2.0)),
        Point3::new(fx(0.5), fx(0.0), fx(-1.5)),
    ];
    let directions = [
        Vec3::new(fx(0.0), fx(0.0), fx(-1.0)),
        Vec3::new(fx(0.1), fx(-0.2), fx(-1.0)),
        Vec3::new(fx(0.3), fx(0.1), fx(-0.9)),
    ];
    let mut hits = 0;
    for origin in origins {
        for direction in directions {
            let ray = Ray::new(origin, direction);
            if let Some(record) = sphere.hit(&ray, Fixed::max_value(), fx(0.001)) {
                hits += 1;
                assert!(ray.direction.dot(record.normal).raw <= 0);
                assert!(fx(0.001).raw < record.t.raw);
                assert_eq!(record.p, ray.at(record.t));
                let outward = (record.p - sphere.center) / sphere.radius;
                assert_eq!(record.front_face, ray.direction.dot(outward).raw < 0);
            }
        }
    }
    assert!(hits >= 6);
}

#[test]
fn hit_of_a_tiny_sphere_has_a_unit_normal() {
    let material = Lambertian::new(Color::new(fx(0.5), fx(0.5), fx(0.5)));
    let sphere = Sphere::new(Point3::new(fx(0.0), fx(0.0), fx(0.0)), fx(0.00002), material);
    assert_eq!(sphere.radius.raw, 85899);
    let ray = Ray::new(
        Point3::new(fx(0.0), fx(0.0), fx(1.0)),
        Vec3::new(fx(0.0), fx(0.0), fx(-1.0)),
    );
    let record = sphere.hit(&ray, fx(3.0), fx(0.0)).expect("a hit");
    assert_eq!(record.t.raw, 4294967296 - 85899);
    assert_eq!(record.p, Point3::new(fx(0.0), fx(0.0), Fixed::from_raw(85899)));
    assert_eq!(record.normal, Vec3::new(fx(0.0), fx(0.0), fx(1.0)));
    assert!(record.front_face);
    let far = sphere.hit(&ray, fx(3.0), fx(1.0)).expect("a hit");
    assert_eq!(far.t.raw, 4294967296 + 85899);
    assert_eq!(far.normal, Vec3::new(fx(0.0), fx(0.0), fx(1.0)));
    assert!(!far.front_face);
}

#[test]
fn hit_of_a_tiny_sphere_off_the_axes() {
    let material = Lambertian::new(Color::new(fx(0.5), fx(0.5), fx(0.5)));
    let sphere = Sphere::new(Point3::new(fx(0.3), fx(-0.2), fx(0.1)), fx(0.00002), material);
    let ray = Ray::new(
        Point3::new(fx(0.3), fx(-0.2), fx(2.1)),
        Vec3::new(fx(0.0000001), fx(0.0), fx(-1.0)),
    );
    let record = sphere.hit(&ray, fx(3.0), fx(0.0)).expect("a hit");
    assert_eq!(record.t.raw, 8589848697);
    assert_eq!(
        record.normal,
        Vec3::new(Fixed::from_raw(42850172), fx(0.0), Fixed::from_raw(4294767295))
    );
    let length = record.normal.length().raw;
    assert!((length - 4294967296).abs() < 4294967296 / 10000);
}

#[test]
fn hit_normals_are_one_long() {
    let material = Lambertian::new(Color::new(fx(0.5), fx(0.5), fx(0.5)));
    let sphere = Sphere::new(Point3::new(fx(0.25), fx(-0.5), fx(-2.0)), fx(1.25), material);
    let directions = [
        Vec3::new(fx(0.0), fx(0.0), fx(-1.0)),
        Vec3::new(fx(0.1), fx(-0.2), fx(-1.0)),
        Vec3::new(fx(0.3), fx(0.1), fx(-0.9)),
        Vec3::new(fx(3.0), fx(-5.0), fx(-30.0)),
        Vec3::new(fx(0.001), fx(-0.002), fx(-0.01)),
    ];
    let mut hits = 0;
    for direction in directions {
        let ray = Ray::new(Point3::new(fx(0.0), fx(0.0), fx(0.0)), direction);
        if let Some(record) = sphere.hit(&ray, Fixed::max_value(), fx(0.001)) {
            hits += 1;
            let length = record.normal.length().raw;
            assert!((length - 4294967296).abs() <= 64);
        }
    }
    assert_eq!(hits, 5);
}

fn raw_vec(x: i64, y: i64, z: i64) -> Vec3 {
    Vec3::new(Fixed::from_raw(x), Fixed::from_raw(y), Fixed::from_raw(z))
}

fn matte() -> Lambertian {
    Lambertian::new(Color::new(fx(0.5), fx(0.5), fx(0.5)))
}

#[test]
fn hit_of_a_large_sphere_from_afar() {
    let sphere = Sphere::new(Point3::new(fx(0.0), fx(-1000.0), fx(0.0)), fx(1000.0), matte());
    let ray = Ray::new(
        Point3::new(fx(13.0), fx(2.0), fx(3.0)),
        Vec3::new(fx(-13.0), fx(-2.5), fx(-3.0)),
    );
    let record = sphere.hit(&ray, Fixed::max_value(), fx(0.001)).expect("a hit");
    assert_eq!(record.t.raw, 3442004308);
    assert_eq!(record.p, raw_vec(11088518844, -15076178, 2558888964));
    assert_eq!(record.normal, raw_vec(11088518, 4294952219, 2558888));
    assert!(record.front_face);
    assert!((record.normal.length().raw - 4294967296).abs() <= 2);
}

#[test]
fn hit_with_coordinates_at_the_end_of_the_range() {
    let sphere = Sphere::new(raw_vec(1 << 62, 0, 0), Fixed::from_raw(1 << 61), matte());
    let ray = Ray::new(raw_vec(0, 0, 0), raw_vec(1 << 62, 0, 0));
    let record = sphere.hit(&ray, Fixed::max_value(), fx(0.0)).expect("a hit");
    assert_eq!(record.t, fx(0.5));
    assert_eq!(record.p, raw_vec(1 << 61, 0, 0));
    assert_eq!(record.normal, Vec3::new(fx(-1.0), fx(0.0), fx(0.0)));
    assert!(record.front_face);
    let sphere = Sphere::new(
        raw_vec(i64::MAX, -i64::MAX, i64::MAX),
        Fixed::from_raw(i64::MAX),
        matte(),
    );
    let ray = Ray::new(
        raw_vec(-i64::MAX, i64::MAX, -i64::MAX),
        raw_vec(i64::MAX, -i64::MAX, i64::MAX),
    );
    let record = sphere.hit(&ray, Fixed::max_value(), fx(0.0)).expect("a hit");
    assert_eq!(record.t, fx(1.0));
    assert_eq!(record.p, raw_vec(0, 0, 0));
    assert_eq!(record.normal, Vec3::new(fx(-1.0), fx(1.0), fx(-1.0)));
}

#[test]
fn hit_along_no_direction() {
    let sphere = Sphere::new(Point3::new(fx(0.0), fx(0.0), fx(0.0)), fx(1.0), matte());
    let still = Ray::new(Point3::new(fx(0.5), fx(0.0), fx(0.0)), raw_vec(0, 0, 0));
    // Every coefficient but the constant one is zero: both roots are zero.
    let record = sphere
        .hit(&still, Fixed::max_value(), Fixed::from_raw(-i64::MAX))
        .expect("a hit");
    assert_eq!(record.t, Fixed::zero());
    assert_eq!(record.p, still.origin);
    assert!(sphere.hit(&still, Fixed::max_value(), fx(0.0)).is_none());
    assert!(sphere.hit(&still, Fixed::max_value(), fx(0.001)).is_none());
}

#[test]
fn hit_along_a_direction_of_the_last_place() {
    let sphere = Sphere::new(Point3::new(fx(0.0), fx(0.0), fx(-1.0)), fx(0.5), matte());
    // The parameter of the hit would be 2^31: it saturates and is no hit.
    let slow = Ray::new(raw_vec(0, 0, 0), raw_vec(0, 0, -1));
    assert!(sphere.hit(&slow, Fixed::max_value(), fx(0.0)).is_none());
    let faster = Ray::new(raw_vec(0, 0, 0), raw_vec(0, 0, -1000));
    let record = sphere.hit(&faster, Fixed::max_value(), fx(0.0)).expect("a hit");
    assert_eq!(record.t.raw, 9223372036854775);
    assert_eq!(record.p, raw_vec(0, 0, -2147483647));
    assert_eq!(record.normal, raw_vec(0, 0, 4294967298));
}

#[test]
fn hit_that_grazes_the_sphere() {
    let sphere = Sphere::new(Point3::new(fx(0.0), fx(0.0), fx(-1.0)), fx(0.5), matte());
    let grazing = Ray::new(
        Point3::new(fx(0.5), fx(0.0), fx(0.0)),
        Vec3::new(fx(0.0), fx(0.0), fx(-1.0)),
    );
    let record = sphere.hit(&grazing, Fixed::max_value(), fx(0.0)).expect("a hit");
    assert_eq!(record.t, fx(1.0));
    assert_eq!(record.normal, Vec3::new(fx(-1.0), fx(0.0), fx(0.0)));
    let beside = Ray::new(
        Point3::new(fx(0.5000001), fx(0.0), fx(0.0)),
        Vec3::new(fx(0.0), fx(0.0), fx(-1.0)),
    );
    assert!(sphere.hit(&beside, Fixed::max_value(), fx(0.0)).is_none());
}

#[test]
fn hit_normal_is_one_long_within_the_tolerance() {
    let scale: i128 = 4294967296;
    let radii = [65536i64, 85899, 1 << 20, 1 << 28, 1 << 32, 5 << 32, 1000 << 32];
    let directions = [
        Vec3::new(fx(0.0), fx(0.0), fx(-1.0)),
        Vec3::new(fx(0.0), fx(0.0), fx(-30.0)),
        Vec3::new(fx(0.0), fx(0.0), fx(-0.01)),
        raw_vec(3, -2, -(1 << 32)),
    ];
    let mut hits = 0;
    for radius in radii {
        let sphere = Sphere::new(
            Point3::new(fx(0.25), fx(-0.5), fx(-2.0)),
            Fixed::from_raw(radius),
            matte(),
        );
        for direction in directions {
            for offset in [0i64, 1, -3] {
                let origin = Point3::new(
                    Fixed::from_raw(fx(0.25).raw + offset * (radius / 7)),
                    Fixed::from_raw(fx(-0.5).raw - offset * (radius / 9)),
                    fx(3.0),
                );
                let ray = Ray::new(origin, direction);
                let first = match sphere.hit(&ray, Fixed::max_value(), fx(0.0)) {
                    Some(record) => record,
                    None => continue,
                };
                let mut records = Vec::new();
                if let Some(second) = sphere.hit(&ray, Fixed::max_value(), first.t) {
                    assert!(first.front_face && !second.front_face);
                    records.push(second);
                }
                records.push(first);
                for record in records {
                    hits += 1;
                    let r = radius as i128;
                    let bound = direction.length().raw as i128 + 1;
                    let tolerance = 16 * scale * scale * r
                        + 2 * scale * bound * r
                        + bound * bound
                        + 3 * scale * scale
                        + 12 * scale * r * r;
                    let norm = record.normal.norm() as i128;
                    assert!((norm - scale * scale).abs() * r * r <= tolerance);
                    let length = record.normal.length().raw as i128;
                    assert!((length - scale) * scale * r * r <= tolerance);
                    assert!((scale - 1 - length) * scale * r * r <= tolerance);
                }
            }
        }
    }
    assert!(hits >= 100);
}
