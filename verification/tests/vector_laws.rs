use raytracer::fixed::Fixed;
use raytracer::vec3::Vec3;

fn fx(value: f64) -> Fixed {
    Fixed::from_raw((value * 4294967296.0).round() as i64)
}

fn to_f64(value: Fixed) -> f64 {
    value.raw as f64 / 4294967296.0
}

fn raw_vec(x: i64, y: i64, z: i64) -> Vec3 {
    Vec3::new(Fixed::from_raw(x), Fixed::from_raw(y), Fixed::from_raw(z))
}

fn samples() -> Vec<Vec3> {
    vec![
        Vec3::new(fx(1.0), fx(2.0), fx(3.0)),
        Vec3::new(fx(4.0), fx(5.0), fx(6.0)),
        Vec3::new(fx(-0.3), fx(0.7), fx(-1000.25)),
        Vec3::new(fx(0.000001), fx(-0.000002), fx(0.5)),
        raw_vec(1, -1, 7),
        raw_vec(i64::MAX, -i64::MAX, 12345),
        raw_vec(i64::MIN, 3, i64::MAX),
        Vec3::zero(),
    ]
}

#[test]
fn cross_product_has_its_exact_value() {
    let a = Vec3::new(fx(1.0), fx(2.0), fx(3.0));
    let b = Vec3::new(fx(4.0), fx(5.0), fx(6.0));
    assert_eq!(a.cross(b), Vec3::new(fx(-3.0), fx(6.0), fx(-3.0)));
    let x = Vec3::new(fx(1.0), fx(0.0), fx(0.0));
    let y = Vec3::new(fx(0.0), fx(1.0), fx(0.0));
    let z = Vec3::new(fx(0.0), fx(0.0), fx(1.0));
    assert_eq!(x.cross(y), z);
    assert_eq!(y.cross(z), x);
    assert_eq!(z.cross(x), y);
}

#[test]
fn dot_product_commutes() {
    for a in samples() {
        for b in samples() {
            assert_eq!(a.dot(b), b.dot(a));
        }
    }
}

#[test]
fn cross_product_anticommutes() {
    for a in samples() {
        for b in samples() {
            assert_eq!(a.cross(b), -b.cross(a));
        }
    }
}

#[test]
fn dot_product_follows_negation() {
    for a in samples() {
        for b in samples() {
            if b.x.raw == i64::MIN || b.y.raw == i64::MIN || b.z.raw == i64::MIN {
                continue;
            }
            assert_eq!(a.dot(-b), -a.dot(b));
        }
    }
}

#[test]
fn length_scales_where_the_arithmetic_is_exact() {
    let a = Vec3::new(fx(3.0), fx(4.0), fx(0.0));
    assert_eq!(a.length(), fx(5.0));
    for k in [fx(2.0), fx(-2.0), fx(0.5), fx(-0.25), fx(0.0), fx(1.0), fx(-1.0)] {
        assert_eq!((k * a).length(), k.abs() * a.length());
        assert_eq!((a * k).length(), k.abs() * a.length());
    }
    let b = Vec3::new(fx(2.0), fx(-3.0), fx(6.0));
    assert_eq!(b.length(), fx(7.0));
    assert_eq!((fx(-3.0) * b).length(), fx(21.0));
}

#[test]
fn length_scales_within_rounding_elsewhere() {
    let a = Vec3::new(fx(1.0), fx(2.0), fx(3.0));
    let k = fx(0.3);
    let scaled = (k * a).length();
    let expected = k.abs() * a.length();
    assert!((scaled.raw - expected.raw).abs() <= 4);
    assert!((to_f64(scaled) - 0.3 * 14.0_f64.sqrt()).abs() < 1e-9);
}

#[test]
fn length_squared_is_the_dot_product_with_itself() {
    let a = Vec3::new(fx(1.0), fx(2.0), fx(3.0));
    assert_eq!(a.length_squared(), fx(14.0));
    for v in samples() {
        assert_eq!(v.length_squared(), v.dot(v));
        assert!(v.length_squared().raw >= 0);
    }
}

#[test]
fn length_is_the_root_of_the_exact_sum_of_squares() {
    for v in samples() {
        let exact = (v.x.raw as i128).pow(2) as u128
            + (v.y.raw as i128).pow(2) as u128
            + (v.z.raw as i128).pow(2) as u128;
        assert_eq!(v.norm(), exact);
        let length = v.length().raw as u128;
        if length < i64::MAX as u128 {
            assert!(length * length <= exact);
            assert!(exact < (length + 1) * (length + 1));
        } else {
            assert!(length * length <= exact);
        }
    }
    assert_eq!(raw_vec(3, 4, 0).length().raw, 5);
    assert_eq!(raw_vec(1, 1, 1).length().raw, 1);
    assert_eq!(raw_vec(1, 0, 0).length().raw, 1);
    assert_eq!(raw_vec(85899, 0, 0).length().raw, 85899);
    assert_eq!(raw_vec(i64::MAX, i64::MAX, 0).length().raw, i64::MAX);
    assert_eq!(raw_vec(i64::MIN, 0, 0).length().raw, i64::MAX);
}

#[test]
fn unit_vector_is_one_long_within_a_ten_thousandth() {
    let vectors = [
        Vec3::new(fx(1.0), fx(2.0), fx(3.0)),
        Vec3::new(fx(-0.3), fx(0.7), fx(-1000.25)),
        Vec3::new(fx(0.01), fx(-0.02), fx(0.005)),
        Vec3::new(fx(13.0), fx(2.0), fx(3.0)),
        Vec3::new(fx(0.0), fx(0.0), fx(-40000.0)),
    ];
    for v in vectors {
        let unit = v.unit_vector();
        assert!((to_f64(unit.length()) - 1.0).abs() < 0.0001);
        let exact = (to_f64(v.x).powi(2) + to_f64(v.y).powi(2) + to_f64(v.z).powi(2)).sqrt();
        assert!((to_f64(unit.x) - to_f64(v.x) / exact).abs() < 0.0001);
        assert!((to_f64(unit.y) - to_f64(v.y) / exact).abs() < 0.0001);
        assert!((to_f64(unit.z) - to_f64(v.z) / exact).abs() < 0.0001);
    }
    assert_eq!(
        Vec3::new(fx(1.0), fx(2.0), fx(3.0)).unit_vector(),
        raw_vec(1147878293, 2295756587, 3443634880)
    );
}

#[test]
fn unit_vector_of_a_tiny_vector_is_one_long() {
    for raw in [1i64, 7, 42950, 70000, 85899, 8388608] {
        let tiny = raw_vec(raw, 0, 0);
        assert_eq!(tiny.length().raw, raw);
        assert_eq!(tiny.unit_vector(), Vec3::new(fx(1.0), fx(0.0), fx(0.0)));
        assert_eq!(tiny.unit_vector().length(), Fixed::one());
        let turned = raw_vec(0, 0, -raw);
        assert_eq!(turned.unit_vector(), Vec3::new(fx(0.0), fx(0.0), fx(-1.0)));
    }
    // The square of a length below 2^-16 rounds to zero; the length does not.
    let short = raw_vec(42950, 0, 0);
    assert_eq!(short.length_squared(), Fixed::zero());
    assert!(!short.near_zero());
}

#[test]
fn unit_vector_is_one_long_up_to_rounding_for_every_length() {
    let vectors = [
        raw_vec(3, 4, 0),
        raw_vec(1, 1, 1),
        raw_vec(5, -5, 0),
        raw_vec(70000, -30000, 12345),
        raw_vec(4843500, 4843500, 4843500),
        raw_vec(1 << 30, 1 << 29, -(1 << 28)),
        raw_vec(1 << 40, -(1 << 41), 12345),
        raw_vec(i64::MAX / 2, -(i64::MAX / 2), i64::MAX / 3),
    ];
    for v in vectors {
        let length = v.length().raw as i128;
        let unit = v.unit_vector().length().raw as i128;
        assert!(unit >= 4294967296 - 4);
        assert!((unit - 4294967296) * length < 4294967296);
        if length >= 1 << 30 {
            assert!(unit <= 4294967296 + 3);
        }
    }
}

#[test]
fn unit_vector_of_nothing_saturates() {
    assert_eq!(Vec3::zero().unit_vector(), Vec3::zero());
    assert_eq!(Vec3::zero().length(), Fixed::zero());
    // A vector of the length 7 in the last place.
    assert_eq!(raw_vec(5, -5, 0).length().raw, 7);
    assert_eq!(
        raw_vec(5, -5, 0).unit_vector(),
        raw_vec(3067833782, -3067833782, 0)
    );
}

#[test]
fn near_zero_compares_the_length_with_a_millionth() {
    assert!(Vec3::zero().near_zero());
    assert!(raw_vec(4000, 0, 0).near_zero());
    assert!(raw_vec(4293, 0, 0).near_zero());
    assert!(raw_vec(4294, 0, 0).near_zero());
    assert!(raw_vec(0, -3000, 3000).near_zero());
    assert!(raw_vec(4292, -42, 154).near_zero());
    assert!(!raw_vec(4291, -92, 160).near_zero());
    assert!(!raw_vec(4295, 0, 0).near_zero());
    assert!(!raw_vec(0, -3100, 3100).near_zero());
    assert!(!raw_vec(65535, -65535, 65535).near_zero());
    assert!(Vec3::new(fx(0.0000009), fx(0.0), fx(0.0)).near_zero());
    assert!(!Vec3::new(fx(0.0000011), fx(0.0), fx(0.0)).near_zero());
    assert!(!Vec3::new(fx(0.00002), fx(0.0), fx(0.0)).near_zero());
    assert!(!Vec3::new(fx(1.0), fx(0.0), fx(0.0)).near_zero());
}

#[test]
fn reflect_mirrors_at_the_plane() {
    let v = Vec3::new(fx(1.0), fx(-1.0), fx(0.0));
    let n = Vec3::new(fx(0.0), fx(1.0), fx(0.0));
    assert_eq!(v.reflect(n), Vec3::new(fx(1.0), fx(1.0), fx(0.0)));
    let w = Vec3::new(fx(0.5), fx(0.25), fx(-2.0));
    let m = Vec3::new(fx(0.0), fx(0.0), fx(-1.0));
    assert_eq!(w.reflect(m), Vec3::new(fx(0.5), fx(0.25), fx(2.0)));
    // v - 2 (v . n) n with v . n = 3 and n = (1, 1, 1)
    let u = Vec3::new(fx(1.0), fx(1.0), fx(1.0));
    assert_eq!(u.reflect(u), Vec3::new(fx(-5.0), fx(-5.0), fx(-5.0)));
}

#[test]
fn reflecting_twice_at_an_axis_gives_the_vector_back() {
    let axes = [
        Vec3::new(fx(1.0), fx(0.0), fx(0.0)),
        Vec3::new(fx(-1.0), fx(0.0), fx(0.0)),
        Vec3::new(fx(0.0), fx(1.0), fx(0.0)),
        Vec3::new(fx(0.0), fx(-1.0), fx(0.0)),
        Vec3::new(fx(0.0), fx(0.0), fx(1.0)),
        Vec3::new(fx(0.0), fx(0.0), fx(-1.0)),
    ];
    let vectors = [
        Vec3::new(fx(1.0), fx(2.0), fx(3.0)),
        Vec3::new(fx(-0.3), fx(0.7), fx(-1000.25)),
        raw_vec(1, -1, 7),
        raw_vec(i64::MAX / 2, -(i64::MAX / 2), 0),
        raw_vec(0, i64::MAX / 2, -(i64::MAX / 2)),
    ];
    for n in axes {
        for v in vectors {
            assert_eq!(v.reflect(n).reflect(n), v);
            assert_eq!(v.reflect(n).length_squared(), v.length_squared());
        }
    }
}

#[test]
fn reflecting_twice_keeps_what_lies_across_a_large_vector() {
    let n = Vec3::new(fx(0.0), fx(1.0), fx(0.0));
    let v = raw_vec(i64::MAX, 5, -i64::MAX);
    assert_eq!(v.reflect(n), raw_vec(i64::MAX, -5, -i64::MAX));
    assert_eq!(v.reflect(n).reflect(n), v);
    // Along the normal the vector may only be half as large.
    let w = raw_vec(5, i64::MAX, 0);
    assert_eq!(w.reflect(n), Vec3::new(Fixed::from_raw(5), Fixed::zero(), Fixed::zero()));
    assert!(w.reflect(n).reflect(n) != w);
}

#[test]
fn reflecting_twice_at_a_slanted_normal_is_only_near() {
    let n = Vec3::new(fx(0.6), fx(0.8), fx(0.0));
    let v = Vec3::new(fx(1.0), fx(0.0), fx(0.0));
    let back = v.reflect(n).reflect(n);
    assert!(back != v);
    assert!((to_f64(back.x) - 1.0).abs() < 1e-8);
    assert!(to_f64(back.y).abs() < 1e-8);
    assert_eq!(back.z, Fixed::zero());
}

#[test]
fn refract_follows_snell() {
    let v = Vec3::new(fx(1.0), fx(-1.0), fx(0.0)).unit_vector();
    let n = Vec3::new(fx(0.0), fx(1.0), fx(0.0));
    let eta = Fixed::one() / fx(1.5);
    let refracted = v.refract(n, eta);
    assert_eq!(refracted, raw_vec(2024666999, -3787805119, 0));
    // sin(out) = sin(in) / 1.5
    let sine_in = to_f64(v.x);
    assert!((to_f64(refracted.x) - sine_in / 1.5).abs() < 1e-8);
    assert!((to_f64(refracted.length()) - 1.0).abs() < 1e-8);
    // Straight through along the normal.
    let down = Vec3::new(fx(0.0), fx(-1.0), fx(0.0));
    assert_eq!(down.refract(n, eta), down);
}

#[test]
fn vector_operations_saturate_by_component() {
    let big = raw_vec(i64::MAX, -i64::MAX, 0);
    assert_eq!(big + big, big);
    assert_eq!(big - (-big), big);
    assert_eq!(big * fx(2.0), big);
    assert_eq!(fx(2.0) * big, big);
    assert_eq!(big * big, raw_vec(i64::MAX, i64::MAX, 0));
    assert_eq!(big / Fixed::zero(), big);
    assert_eq!(big / fx(0.5), big);
}

#[test]
fn product_by_component_attenuates() {
    let albedo = Vec3::new(fx(0.5), fx(0.25), fx(1.0));
    let light = Vec3::new(fx(0.5), fx(0.5), fx(0.75));
    assert_eq!(albedo * light, Vec3::new(fx(0.25), fx(0.125), fx(0.75)));
}

#[test]
fn length_scales_up_to_rounding_for_every_factor() {
    let factors = [
        fx(0.3),
        fx(-0.3),
        fx(2.0),
        fx(-7.25),
        fx(1000.5),
        fx(0.000001),
        Fixed::from_raw(1),
        Fixed::zero(),
    ];
    let vectors = [
        Vec3::new(fx(1.0), fx(2.0), fx(3.0)),
        Vec3::new(fx(-0.3), fx(0.7), fx(-1000.25)),
        raw_vec(1, -1, 7),
        raw_vec(70000, -30000, 12345),
        Vec3::new(fx(0.000001), fx(-0.000002), fx(0.5)),
    ];
    for k in factors {
        for a in vectors {
            let scaled = (k * a).length().raw as i128;
            let product = (k.abs() * a.length()).raw as i128;
            assert!(scaled >= product - 3);
            assert!((scaled - product - 1) * 4294967296 < k.raw.abs() as i128);
        }
    }
}

#[test]
fn reflecting_twice_at_a_unit_normal_gives_the_vector_back_up_to_rounding() {
    let normals = [
        Vec3::new(fx(0.6), fx(0.8), fx(0.0)),
        Vec3::new(fx(1.0), fx(2.0), fx(3.0)).unit_vector(),
        Vec3::new(fx(-0.3), fx(0.7), fx(-1000.25)).unit_vector(),
        raw_vec(70000, -30000, 12345 << 20).unit_vector(),
        Vec3::new(fx(0.0), fx(0.0), fx(-1.0)),
    ];
    let vectors = [
        Vec3::new(fx(1.0), fx(0.0), fx(0.0)),
        Vec3::new(fx(1.0), fx(2.0), fx(-2.0)),
        Vec3::new(fx(-2.0), fx(2.0), fx(2.0)),
        Vec3::new(fx(0.3), fx(-0.1), fx(0.9)).unit_vector(),
        raw_vec(1, -1, 7),
    ];
    for n in normals {
        let norm = n.norm() as i128;
        let one = 4294967296i128 * 4294967296i128;
        assert!((norm - one).abs() <= 16 * 4294967296);
        for v in vectors {
            let back = v.reflect(n).reflect(n);
            for (before, after) in [(v.x, back.x), (v.y, back.y), (v.z, back.z)] {
                assert!((after.raw - before.raw).abs() <= 420);
            }
        }
    }
}

#[test]
fn refracting_a_unit_vector_gives_its_exact_value() {
    let v = raw_vec(3037000500, -3037000500, 0);
    let n = raw_vec(0, 4294967296, 0);
    let refracted = v.refract(n, Fixed::from_raw(2863311531));
    assert_eq!(refracted, raw_vec(2024667000, -3787805118, 0));
    let tiny = Vec3::new(fx(0.00001), fx(-0.00002), fx(0.00001)).unit_vector();
    assert_eq!(tiny, raw_vec(1753439463, -3506838102, 1753439463));
    assert_eq!(
        tiny.refract(n, Fixed::from_raw(2863311531)),
        raw_vec(1168959642, -3964064932, 1168959642)
    );
}

#[test]
fn refracting_a_unit_vector_gives_a_unit_vector_up_to_rounding() {
    let one = 4294967296i128 * 4294967296i128;
    let normals = [
        Vec3::new(fx(0.0), fx(1.0), fx(0.0)),
        Vec3::new(fx(1.0), fx(2.0), fx(2.0)).unit_vector(),
        Vec3::new(fx(-0.3), fx(0.7), fx(-1000.25)).unit_vector(),
        raw_vec(70000, -30000, 12345 << 20).unit_vector(),
    ];
    let directions = [
        Vec3::new(fx(1.0), fx(-1.0), fx(0.0)).unit_vector(),
        Vec3::new(fx(0.5), fx(-2.0), fx(0.25)).unit_vector(),
        Vec3::new(fx(-3.0), fx(-4.0), fx(1.0)).unit_vector(),
        Vec3::new(fx(0.3), fx(-0.1), fx(0.9)).unit_vector(),
        raw_vec(-70000, 30000, -(12345 << 20)).unit_vector(),
    ];
    let ratios = [fx(1.0 / 1.5), fx(1.5), fx(1.0), fx(0.25), fx(4.0), fx(0.0)];
    let mut covered = 0;
    for n in normals {
        assert!((n.norm() as i128 - one).abs() <= 16 * 4294967296);
        for v in directions {
            assert!((v.norm() as i128 - one).abs() <= 16 * 4294967296);
            for ratio in ratios {
                let across = ratio * (v + (-v).dot(n).min(Fixed::one()) * n);
                if across.length_squared().raw <= 4294967296 {
                    covered += 1;
                    let refracted = v.refract(n, ratio);
                    assert!((refracted.norm() as i128 - one).abs() <= 330 * 4294967296);
                }
            }
        }
    }
    assert!(covered >= 40);
}

#[test]
fn reflecting_at_a_unit_normal_keeps_the_length_and_turns_the_part_along_the_normal() {
    let normals = [
        Vec3::new(fx(0.6), fx(0.8), fx(0.0)),
        Vec3::new(fx(1.0), fx(2.0), fx(3.0)).unit_vector(),
        Vec3::new(fx(-0.3), fx(0.7), fx(-1000.25)).unit_vector(),
        raw_vec(70000, -30000, 12345 << 20).unit_vector(),
        Vec3::new(fx(0.0), fx(0.0), fx(-1.0)),
    ];
    let vectors = [
        Vec3::new(fx(1.0), fx(0.0), fx(0.0)),
        Vec3::new(fx(1.0), fx(2.0), fx(-2.0)),
        Vec3::new(fx(-2.0), fx(2.0), fx(2.0)),
        Vec3::new(fx(0.3), fx(-0.1), fx(0.9)).unit_vector(),
        raw_vec(1, -1, 7),
    ];
    let exact_dot = |a: Vec3, b: Vec3| {
        a.x.raw as i128 * b.x.raw as i128
            + a.y.raw as i128 * b.y.raw as i128
            + a.z.raw as i128 * b.z.raw as i128
    };
    for n in normals {
        for v in vectors {
            let reflected = v.reflect(n);
            let change = reflected.norm() as i128 - v.norm() as i128;
            assert!(change.abs() <= 4000 * 4294967296);
            let turned = exact_dot(reflected, n) + exact_dot(v, n);
            assert!(turned.abs() <= 400 * 4294967296);
        }
    }
    let mirrored = Vec3::new(fx(1.0), fx(-1.0), fx(0.0)).reflect(Vec3::new(fx(0.0), fx(1.0), fx(0.0)));
    assert_eq!(mirrored, Vec3::new(fx(1.0), fx(1.0), fx(0.0)));
}
