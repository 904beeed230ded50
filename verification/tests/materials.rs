use raytracer::color::Color;
use raytracer::config::ConfigError;
use raytracer::fixed::Fixed;
use raytracer::hittable::HitRecord;
use raytracer::material::AnyMaterial;
use raytracer::material::Dielectric;
use raytracer::material::Lambertian;
use raytracer::material::Material;
use raytracer::material::Metal;
use raytracer::random::Sampler;
use raytracer::ray::Ray;
use raytracer::vec3::Point3;
use raytracer::vec3::Vec3;

fn fx(value: f64) -> Fixed {
    Fixed::from_raw((value * 4294967296.0).round() as i64)
}

fn raw_vec(x: i64, y: i64, z: i64) -> Vec3 {
    Vec3::new(Fixed::from_raw(x), Fixed::from_raw(y), Fixed::from_raw(z))
}

fn point() -> Point3 {
    Point3::new(fx(1.0), fx(2.0), fx(3.0))
}

fn incoming() -> Ray {
    Ray::new(
        Point3::new(fx(0.0), fx(3.0), fx(3.0)),
        Vec3::new(fx(1.0), fx(-1.0), fx(0.0)),
    )
}

fn up() -> Vec3 {
    Vec3::new(fx(0.0), fx(1.0), fx(0.0))
}

const HALF: u32 = 1 << 31;
const THREE_QUARTERS: u32 = 3 << 30;
const QUARTER: u32 = 1 << 30;

#[test]
fn lambertian_scatters_along_the_displaced_normal() {
    let material = Lambertian::new(Color::new(fx(0.7), fx(0.3), fx(0.3)));
    let normal = Vec3::new(fx(0.0), fx(0.0), fx(1.0));
    let record = HitRecord::new(point(), normal, fx(1.0), true, &material);
    let unit = Vec3::new(fx(0.5), fx(0.0), fx(-0.5)).unit_vector();
    let (attenuation, scattered, ok) = material.scatter_along(record, unit);
    assert!(ok);
    assert_eq!(attenuation, material.albedo);
    assert_eq!(scattered.origin, point());
    assert_eq!(scattered.direction, raw_vec(3037000500, 0, 1257966796));
}

#[test]
fn lambertian_falls_back_to_the_normal() {
    let material = Lambertian::new(Color::new(fx(0.7), fx(0.3), fx(0.3)));
    let normal = Vec3::new(fx(0.0), fx(0.0), fx(1.0));
    let record = HitRecord::new(point(), normal, fx(1.0), true, &material);
    let (_, scattered, ok) = material.scatter_along(record, -normal);
    assert!(ok);
    assert_eq!(scattered.direction, normal);
    let record = HitRecord::new(point(), normal, fx(1.0), true, &material);
    let nearly = Vec3::new(Fixed::from_raw(2000), Fixed::from_raw(-3000), fx(-1.0));
    let (_, scattered, _) = material.scatter_along(record, nearly);
    assert_eq!(scattered.direction, normal);
    let record = HitRecord::new(point(), normal, fx(1.0), true, &material);
    let apart = Vec3::new(Fixed::from_raw(70000), Fixed::from_raw(0), fx(-1.0));
    let (_, scattered, _) = material.scatter_along(record, apart);
    assert_eq!(scattered.direction, raw_vec(70000, 0, 0));
}

#[test]
fn lambertian_always_scatters_with_its_albedo() {
    let albedo = Color::new(fx(0.7), fx(0.3), fx(0.3));
    let material = Lambertian::new(albedo);
    let mut rng = Sampler::from_entropy();
    for _ in 0..200 {
        let record = HitRecord::new(point(), up(), fx(1.0), true, &material);
        let (attenuation, scattered, ok) = material.scatter(&incoming(), record, &mut rng);
        assert!(ok);
        assert_eq!(attenuation, albedo);
        assert_eq!(scattered.origin, point());
        assert!(!scattered.direction.near_zero());
    }
}

#[test]
fn lambertian_scatter_follows_the_draws() {
    let material = Lambertian::new(Color::new(fx(0.7), fx(0.3), fx(0.3)));
    let normal = Vec3::new(fx(0.0), fx(0.0), fx(1.0));
    let record = HitRecord::new(point(), normal, fx(1.0), true, &material);
    let mut rng = Sampler::replay(vec![THREE_QUARTERS, HALF, QUARTER]);
    let (_, scattered, _) = material.scatter(&incoming(), record, &mut rng);
    assert_eq!(scattered.direction, raw_vec(3037000500, 0, 1257966796));
}

#[test]
fn metal_without_fuzz_is_a_mirror() {
    let material = Metal::new(Color::new(fx(0.8), fx(0.6), fx(0.2)), fx(0.0));
    let record = HitRecord::new(point(), up(), fx(1.0), true, &material);
    let sample = Vec3::new(fx(0.5), fx(0.0), fx(-0.5));
    let (attenuation, scattered, ok) = material.scatter_with(&incoming(), record, sample);
    assert!(ok);
    assert_eq!(attenuation, material.albedo);
    assert_eq!(scattered.origin, point());
    assert_eq!(scattered.direction, raw_vec(3037000500, 3037000500, 0));
}

#[test]
fn metal_displaces_the_mirror_direction_by_its_fuzz() {
    let material = Metal::new(Color::new(fx(0.8), fx(0.6), fx(0.2)), fx(0.5));
    let record = HitRecord::new(point(), up(), fx(1.0), true, &material);
    let sample = Vec3::new(fx(0.5), fx(0.0), fx(-0.5));
    let (_, scattered, ok) = material.scatter_with(&incoming(), record, sample);
    assert!(ok);
    assert_eq!(
        scattered.direction,
        raw_vec(4110742324, 3037000500, -1073741824)
    );
}

#[test]
fn metal_absorbs_what_would_enter_the_surface() {
    let material = Metal::new(Color::new(fx(0.8), fx(0.6), fx(0.2)), fx(1.0));
    let record = HitRecord::new(point(), up(), fx(1.0), true, &material);
    let sample = Vec3::new(fx(0.0), fx(-0.75), fx(0.0));
    let (attenuation, scattered, ok) = material.scatter_with(&incoming(), record, sample);
    assert!(!ok);
    assert_eq!(attenuation, material.albedo);
    assert_eq!(scattered.direction, raw_vec(3037000500, -184224972, 0));
}

#[test]
fn metal_scatter_reports_whether_the_ray_leaves() {
    let material = Metal::new(Color::new(fx(0.8), fx(0.6), fx(0.2)), fx(1.0));
    let mut rng = Sampler::from_entropy();
    let mut left = 0;
    for _ in 0..200 {
        let record = HitRecord::new(point(), up(), fx(1.0), true, &material);
        let (attenuation, scattered, ok) = material.scatter(&incoming(), record, &mut rng);
        assert_eq!(attenuation, material.albedo);
        assert_eq!(scattered.origin, point());
        assert_eq!(ok, scattered.direction.dot(up()).raw > 0);
        if ok {
            left += 1;
        }
    }
    assert!(left > 0);
}

#[test]
fn reflectance_along_the_normal_is_the_base_reflectance() {
    // ((1 - 1.5) / (1 + 1.5))^2 = 0.04
    let r0 = Dielectric::reflectance(Fixed::one(), fx(1.5));
    assert_eq!(r0.raw, 171798691);
    for index in [fx(1.0), fx(1.33), fx(2.4), Fixed::from_raw(1), Fixed::max_value()] {
        let t = (Fixed::one() - index) / (Fixed::one() + index);
        assert_eq!(Dielectric::reflectance(Fixed::one(), index), t * t);
    }
}

#[test]
fn reflectance_has_its_exact_values() {
    assert_eq!(Dielectric::reflectance(fx(0.0), fx(1.5)).raw, 4294967296);
    assert_eq!(Dielectric::reflectance(fx(0.25), fx(1.5)).raw, 1150245928);
    assert_eq!(Dielectric::reflectance(fx(0.5), fx(1.5)).raw, 300647709);
    assert_eq!(Dielectric::reflectance(fx(0.75), fx(1.5)).raw, 175825222);
    assert_eq!(
        Dielectric::reflectance(Fixed::from_raw(3037000500), fx(1.5)).raw,
        180686151
    );
}

#[test]
fn reflectance_does_not_fall_as_the_cosine_falls() {
    for index in [fx(1.0), fx(1.33), fx(1.5), fx(2.4)] {
        let mut before = Dielectric::reflectance(Fixed::one(), index);
        for step in 1..=64 {
            let cosine = Fixed::one() - Fixed::from_ratio(step, 64);
            let here = Dielectric::reflectance(cosine, index);
            assert!(here.raw >= before.raw);
            before = here;
        }
    }
}

#[test]
fn dielectric_refracts_or_reflects_by_the_draw() {
    let material = Dielectric::new(fx(1.5));
    let record = HitRecord::new(point(), up(), fx(1.0), true, &material);
    assert!(!material.cannot_refract(&incoming(), &record));
    // The reflectance at this angle has the raw value 180686151.
    let (attenuation, scattered, ok) =
        material.scatter_with(&incoming(), record, Fixed::from_raw(180686151));
    assert!(ok);
    assert_eq!(attenuation, Color::new(fx(1.0), fx(1.0), fx(1.0)));
    assert_eq!(scattered.origin, point());
    assert_eq!(scattered.direction, raw_vec(2024666999, -3787805119, 0));
    let record = HitRecord::new(point(), up(), fx(1.0), true, &material);
    let (_, scattered, ok) =
        material.scatter_with(&incoming(), record, Fixed::from_raw(180686150));
    assert!(ok);
    assert_eq!(scattered.direction, raw_vec(3037000500, 3037000500, 0));
}

#[test]
fn dielectric_reflects_totally_from_inside() {
    let material = Dielectric::new(fx(1.5));
    // A ray from inside: the outward normal points along the ray.
    let outward = Vec3::new(fx(0.0), fx(-1.0), fx(0.0));
    let record = HitRecord::new(point(), outward, fx(1.0), false, &material);
    assert_eq!(record.normal, up());
    assert!(material.cannot_refract(&incoming(), &record));
    let (_, scattered, ok) = material.scatter_with(&incoming(), record, Fixed::from_raw(4294967295));
    assert!(ok);
    assert_eq!(scattered.direction, raw_vec(3037000500, 3037000500, 0));
    let mut rng = Sampler::replay(vec![77]);
    let record = HitRecord::new(point(), outward, fx(1.0), false, &material);
    let (_, scattered, _) = material.scatter(&incoming(), record, &mut rng);
    assert_eq!(scattered.direction, raw_vec(3037000500, 3037000500, 0));
    // Total reflection takes no draw.
    assert_eq!(rng.next_word(), 77);
}

#[test]
fn dielectric_refracts_a_steep_ray_from_inside() {
    let material = Dielectric::new(fx(1.5));
    let steep = Ray::new(
        Point3::new(fx(0.0), fx(3.0), fx(3.0)),
        Vec3::new(fx(1.0), fx(-3.0), fx(0.0)),
    );
    let outward = Vec3::new(fx(0.0), fx(-1.0), fx(0.0));
    let record = HitRecord::new(point(), outward, fx(1.0), false, &material);
    assert!(!material.cannot_refract(&steep, &record));
    let (_, scattered, _) = material.scatter_with(&steep, record, Fixed::from_raw(4294967295));
    assert_eq!(scattered.direction, raw_vec(2037281869, -3781035131, 0));
}

#[test]
fn dielectric_scatter_always_goes_on_unattenuated() {
    let material = Dielectric::new(fx(1.5));
    let mut rng = Sampler::from_entropy();
    let mut refracted = 0;
    for _ in 0..200 {
        let record = HitRecord::new(point(), up(), fx(1.0), true, &material);
        let (attenuation, scattered, ok) = material.scatter(&incoming(), record, &mut rng);
        assert!(ok);
        assert_eq!(attenuation, Color::new(fx(1.0), fx(1.0), fx(1.0)));
        assert_eq!(scattered.origin, point());
        if scattered.direction.y.raw < 0 {
            refracted += 1;
        }
    }
    assert!(refracted > 100);
}

#[test]
fn dielectric_scatters_a_short_incoming_direction_along_a_unit_vector() {
    let material = Dielectric::new(fx(1.5));
    let short = Ray::new(
        Point3::new(fx(0.0), fx(3.0), fx(3.0)),
        Vec3::new(fx(0.00002), fx(0.0), fx(0.0)),
    );
    let normal = Vec3::new(fx(-1.0), fx(0.0), fx(0.0));
    for draw in [0i64, 171798690, 171798691, 4294967295] {
        let record = HitRecord::new(point(), normal, fx(1.0), true, &material);
        let (_, scattered, ok) = material.scatter_with(&short, record, Fixed::from_raw(draw));
        assert!(ok);
        assert_eq!(scattered.direction.length(), Fixed::one());
    }
    let record = HitRecord::new(point(), normal, fx(1.0), true, &material);
    let (_, reflected, _) = material.scatter_with(&short, record, Fixed::from_raw(0));
    assert_eq!(reflected.direction, Vec3::new(fx(-1.0), fx(0.0), fx(0.0)));
    let record = HitRecord::new(point(), normal, fx(1.0), true, &material);
    let (_, refracted, _) = material.scatter_with(&short, record, Fixed::from_raw(4294967295));
    assert_eq!(refracted.direction, Vec3::new(fx(1.0), fx(0.0), fx(0.0)));
}

#[test]
fn any_material_scatters_as_what_it_holds() {
    let lambertian = Lambertian::new(Color::new(fx(0.7), fx(0.3), fx(0.3)));
    let any = AnyMaterial::Lambertian(Lambertian::new(Color::new(fx(0.7), fx(0.3), fx(0.3))));
    let normal = Vec3::new(fx(0.0), fx(0.0), fx(1.0));
    let words = vec![THREE_QUARTERS, HALF, QUARTER];
    let expected = lambertian.scatter(
        &incoming(),
        HitRecord::new(point(), normal, fx(1.0), true, &lambertian),
        &mut Sampler::replay(words.clone()),
    );
    let actual = any.scatter(
        &incoming(),
        HitRecord::new(point(), normal, fx(1.0), true, &any),
        &mut Sampler::replay(words),
    );
    assert_eq!(expected, actual);

    let metal = Metal::new(Color::new(fx(0.8), fx(0.6), fx(0.2)), fx(0.5));
    let any = AnyMaterial::Metal(Metal::new(Color::new(fx(0.8), fx(0.6), fx(0.2)), fx(0.5)));
    let words = vec![THREE_QUARTERS, HALF, QUARTER];
    let expected = metal.scatter(
        &incoming(),
        HitRecord::new(point(), up(), fx(1.0), true, &metal),
        &mut Sampler::replay(words.clone()),
    );
    let actual = any.scatter(
        &incoming(),
        HitRecord::new(point(), up(), fx(1.0), true, &any),
        &mut Sampler::replay(words),
    );
    assert_eq!(expected, actual);
    assert_eq!(actual.1.direction, raw_vec(4110742324, 3037000500, -1073741824));

    let glass = Dielectric::new(fx(1.5));
    let any = AnyMaterial::Dielectric(Dielectric::new(fx(1.5)));
    let words = vec![180686151];
    let expected = glass.scatter(
        &incoming(),
        HitRecord::new(point(), up(), fx(1.0), true, &glass),
        &mut Sampler::replay(words.clone()),
    );
    let actual = any.scatter(
        &incoming(),
        HitRecord::new(point(), up(), fx(1.0), true, &any),
        &mut Sampler::replay(words),
    );
    assert_eq!(expected, actual);
    assert_eq!(actual.1.direction, raw_vec(2024666999, -3787805119, 0));
}

#[test]
fn materials_check_their_parameters() {
    assert_eq!(Lambertian::new(Color::new(fx(7.0), fx(-1.0), fx(0.3))).check(), Ok(()));
    let albedo = Color::new(fx(0.8), fx(0.6), fx(0.2));
    assert_eq!(Metal::new(albedo, fx(0.0)).check(), Ok(()));
    assert_eq!(Metal::new(albedo, fx(1.0)).check(), Ok(()));
    assert_eq!(
        Metal::new(albedo, Fixed::from_raw(4294967297)).check(),
        Err(ConfigError::FuzzOutOfRange)
    );
    assert_eq!(
        Metal::new(albedo, Fixed::from_raw(-1)).check(),
        Err(ConfigError::FuzzOutOfRange)
    );
    assert_eq!(Dielectric::new(fx(1.5)).check(), Ok(()));
    assert_eq!(Dielectric::new(Fixed::from_raw(1)).check(), Ok(()));
    assert_eq!(
        Dielectric::new(fx(0.0)).check(),
        Err(ConfigError::IndexNotPositive)
    );
    assert_eq!(
        Dielectric::new(fx(-1.5)).check(),
        Err(ConfigError::IndexNotPositive)
    );
    assert_eq!(AnyMaterial::Dielectric(Dielectric::new(fx(1.5))).check(), Ok(()));
    assert_eq!(
        AnyMaterial::Dielectric(Dielectric::new(fx(0.0))).check(),
        Err(ConfigError::IndexNotPositive)
    );
    assert_eq!(
        AnyMaterial::Metal(Metal::new(albedo, fx(2.0))).check(),
        Err(ConfigError::FuzzOutOfRange)
    );
    assert_eq!(
        AnyMaterial::Lambertian(Lambertian::new(albedo)).check(),
        Ok(())
    );
}
