use raytracer::fixed::Fixed;
use raytracer::random::Sampler;
use raytracer::vec3::Vec3;
use raytracer::vec3::MAX_TRIES;

fn fx(value: f64) -> Fixed {
    Fixed::from_raw((value * 4294967296.0).round() as i64)
}

const HALF: u32 = 1 << 31;
const THREE_QUARTERS: u32 = 3 << 30;
const QUARTER: u32 = 1 << 30;

#[test]
fn replay_yields_its_words_in_order_and_starts_over() {
    let mut rng = Sampler::replay(vec![7, 11, 13]);
    assert_eq!(rng.next_word(), 7);
    assert_eq!(rng.next_word(), 11);
    assert_eq!(rng.next_word(), 13);
    assert_eq!(rng.next_word(), 7);
    assert_eq!(rng.next_unit().raw, 11);
    assert_eq!(rng.next_unit().raw, 13);
}

#[test]
fn replay_of_nothing_yields_zero() {
    let mut rng = Sampler::replay(vec![]);
    assert_eq!(rng.next_word(), 0);
    assert_eq!(rng.next_word(), 0);
    assert_eq!(rng.next_unit().raw, 0);
}

#[test]
fn units_lie_between_zero_and_one() {
    let mut rng = Sampler::replay(vec![0, u32::MAX, HALF]);
    assert_eq!(rng.next_unit().raw, 0);
    assert_eq!(rng.next_unit().raw, 4294967295);
    assert_eq!(rng.next_unit().raw, 2147483648);
    let mut entropy = Sampler::from_entropy();
    for _ in 0..1000 {
        let unit = entropy.next_unit();
        assert!(0 <= unit.raw && unit.raw < 4294967296);
    }
}

#[test]
fn entropy_does_not_repeat_one_word() {
    let mut rng = Sampler::from_entropy();
    let first = rng.next_word();
    let mut differs = false;
    for _ in 0..64 {
        if rng.next_word() != first {
            differs = true;
        }
    }
    assert!(differs);
}

#[test]
fn spread_maps_a_unit_onto_minus_one_to_one() {
    assert_eq!(Vec3::spread(Fixed::zero()), Fixed::from_int(-1));
    assert_eq!(Vec3::spread(fx(0.5)), Fixed::zero());
    assert_eq!(Vec3::spread(fx(0.75)), fx(0.5));
    assert_eq!(Vec3::spread(Fixed::from_raw(4294967295)).raw, 4294967294);
    assert_eq!(Vec3::spread(fx(3.0)), fx(5.0));
    assert_eq!(Vec3::spread(fx(-3.0)), fx(-7.0));
    assert_eq!(Vec3::spread(Fixed::max_value()), Fixed::max_value() - Fixed::one());
}

#[test]
fn random_vector_takes_three_draws() {
    let mut rng = Sampler::replay(vec![HALF, THREE_QUARTERS, QUARTER, 99]);
    let vector = Vec3::random(&mut rng);
    assert_eq!(vector, Vec3::new(fx(0.0), fx(0.5), fx(-0.5)));
    assert_eq!(rng.next_word(), 99);
}

#[test]
fn random_vector_lies_in_the_cube() {
    let mut rng = Sampler::from_entropy();
    let one = Fixed::one().raw;
    for _ in 0..200 {
        let vector = Vec3::random(&mut rng);
        for component in [vector.x, vector.y, vector.z] {
            assert!(-one <= component.raw && component.raw < one);
        }
    }
}

#[test]
fn random_in_unit_sphere_rejects_what_is_too_long() {
    // The first candidate is the corner (-1, -1, -1); the second is accepted.
    let mut rng = Sampler::replay(vec![0, 0, 0, THREE_QUARTERS, HALF, QUARTER, 5]);
    let vector = Vec3::random_in_unit_sphere(&mut rng);
    assert_eq!(vector, Vec3::new(fx(0.5), fx(0.0), fx(-0.5)));
    assert_eq!(rng.next_word(), 5);
}

#[test]
fn random_in_unit_sphere_lies_in_the_ball() {
    let mut rng = Sampler::from_entropy();
    for _ in 0..200 {
        let vector = Vec3::random_in_unit_sphere(&mut rng);
        assert!(vector.length_squared().raw <= Fixed::one().raw);
    }
}

#[test]
fn random_in_unit_sphere_gives_up_at_the_centre() {
    let mut rng = Sampler::replay(vec![0]);
    assert_eq!(Vec3::random_in_unit_sphere(&mut rng), Vec3::zero());
    // Each rejected candidate took three draws of a list of four words.
    let mut rng = Sampler::replay(vec![0, 0, 0, 0]);
    assert_eq!(Vec3::random_in_unit_sphere(&mut rng), Vec3::zero());
    assert_eq!(MAX_TRIES, 128);
}

#[test]
fn random_in_unit_disk_lies_in_the_disk() {
    let mut rng = Sampler::replay(vec![0, 0, THREE_QUARTERS, QUARTER, 5]);
    let vector = Vec3::random_in_unit_disk(&mut rng);
    assert_eq!(vector, Vec3::new(fx(0.5), fx(-0.5), fx(0.0)));
    assert_eq!(rng.next_word(), 5);
    let mut entropy = Sampler::from_entropy();
    for _ in 0..200 {
        let vector = Vec3::random_in_unit_disk(&mut entropy);
        assert_eq!(vector.z, Fixed::zero());
        assert!(vector.length_squared().raw <= Fixed::one().raw);
    }
    let mut stuck = Sampler::replay(vec![0]);
    assert_eq!(Vec3::random_in_unit_disk(&mut stuck), Vec3::zero());
}

#[test]
fn random_unit_vector_is_one_long() {
    let mut rng = Sampler::replay(vec![THREE_QUARTERS, HALF, QUARTER]);
    let vector = Vec3::random_unit_vector(&mut rng);
    assert_eq!(vector, Vec3::new(fx(0.5), fx(0.0), fx(-0.5)).unit_vector());
    let mut entropy = Sampler::from_entropy();
    for _ in 0..200 {
        let sample = Vec3::random_in_unit_sphere(&mut entropy);
        if sample.length().raw < Fixed::from_ratio(1, 100).raw {
            continue;
        }
        let length = sample.unit_vector().length().raw;
        assert!((length - 4294967296).abs() < 4294967296 / 10000);
    }
}

#[test]
fn random_in_hemisphere_points_along_the_normal() {
    let normal = Vec3::new(fx(0.0), fx(0.0), fx(1.0));
    let mut rng = Sampler::replay(vec![THREE_QUARTERS, HALF, QUARTER]);
    let vector = Vec3::random_in_hemishpere(normal, &mut rng);
    assert_eq!(vector, Vec3::new(fx(-0.5), fx(0.0), fx(0.5)));
    let mut rng = Sampler::replay(vec![THREE_QUARTERS, HALF, THREE_QUARTERS]);
    let vector = Vec3::random_in_hemishpere(normal, &mut rng);
    assert_eq!(vector, Vec3::new(fx(0.5), fx(0.0), fx(0.5)));
    let mut entropy = Sampler::from_entropy();
    for _ in 0..200 {
        let vector = Vec3::random_in_hemishpere(normal, &mut entropy);
        assert!(vector.dot(normal).raw >= 0);
        assert!(vector.length_squared().raw <= Fixed::one().raw);
    }
}

#[test]
fn toward_keeps_what_lies_in_the_plane() {
    let normal = Vec3::new(fx(0.0), fx(0.0), fx(1.0));
    let flat = Vec3::new(fx(0.5), fx(-0.25), fx(0.0));
    assert_eq!(flat.toward(normal), flat);
    let away = Vec3::new(fx(0.5), fx(-0.25), fx(-0.125));
    assert_eq!(away.toward(normal), -away);
    let along = Vec3::new(fx(0.5), fx(-0.25), fx(0.125));
    assert_eq!(along.toward(normal), along);
}
