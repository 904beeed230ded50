use raytracer::fixed::Fixed;
use raytracer::fixed::RAW_MAX;
use raytracer::fixed::SCALE;

fn raw(value: i64) -> Fixed {
    Fixed::from_raw(value)
}

#[test]
fn constants_have_their_raw_values() {
    assert_eq!(SCALE, 4294967296);
    assert_eq!(RAW_MAX, i64::MAX);
    assert_eq!(Fixed::zero().raw, 0);
    assert_eq!(Fixed::one().raw, 4294967296);
    assert_eq!(Fixed::max_value().raw, i64::MAX);
    assert_eq!(Fixed::from_raw(-17).raw, -17);
}

#[test]
fn from_int_scales_and_saturates() {
    assert_eq!(Fixed::from_int(3).raw, 3 * 4294967296);
    assert_eq!(Fixed::from_int(-3).raw, -3 * 4294967296);
    assert_eq!(Fixed::from_int(0).raw, 0);
    assert_eq!(Fixed::from_int(i32::MAX).raw, 2147483647 * 4294967296);
    assert_eq!(Fixed::from_int(i32::MIN).raw, -i64::MAX);
}

#[test]
fn from_ratio_rounds_toward_zero() {
    assert_eq!(Fixed::from_ratio(1, 2).raw, 2147483648);
    assert_eq!(Fixed::from_ratio(7, 10).raw, 3006477107);
    assert_eq!(Fixed::from_ratio(-7, 10).raw, -3006477107);
    assert_eq!(Fixed::from_ratio(7, -10).raw, -3006477107);
    assert_eq!(Fixed::from_ratio(-7, -10).raw, 3006477107);
    assert_eq!(Fixed::from_ratio(1, 1000).raw, 4294967);
    assert_eq!(Fixed::from_ratio(1, 1000000).raw, 4294);
    assert_eq!(Fixed::from_ratio(999, 1000).raw, 4290672328);
}

#[test]
fn addition_and_subtraction_saturate() {
    assert_eq!((raw(5) + raw(7)).raw, 12);
    assert_eq!((raw(5) - raw(7)).raw, -2);
    assert_eq!((raw(i64::MAX) + raw(1)).raw, i64::MAX);
    assert_eq!((raw(-i64::MAX) - raw(1)).raw, -i64::MAX);
    assert_eq!((raw(i64::MAX) - raw(-1)).raw, i64::MAX);
    assert_eq!((raw(i64::MIN) + raw(0)).raw, -i64::MAX);
    assert_eq!((raw(i64::MAX) + raw(i64::MIN)).raw, -1);
}

#[test]
fn negation_is_exact_but_for_the_lowest_raw_value() {
    assert_eq!((-raw(5)).raw, -5);
    assert_eq!((-raw(-5)).raw, 5);
    assert_eq!((-raw(0)).raw, 0);
    assert_eq!((-raw(i64::MAX)).raw, -i64::MAX);
    assert_eq!((-raw(i64::MIN)).raw, i64::MAX);
}

#[test]
fn multiplication_rounds_toward_zero_and_saturates() {
    let one_and_a_half = Fixed::from_ratio(3, 2);
    let two_and_a_half = Fixed::from_ratio(5, 2);
    assert_eq!((one_and_a_half * two_and_a_half).raw, 16106127360);
    assert_eq!(((-one_and_a_half) * two_and_a_half).raw, -16106127360);
    assert_eq!(((-one_and_a_half) * (-two_and_a_half)).raw, 16106127360);
    assert_eq!((raw(1) * raw(1)).raw, 0);
    assert_eq!((raw(-1) * raw(4294967295)).raw, 0);
    assert_eq!((raw(-3) * raw(4294967296)).raw, -3);
    assert_eq!((raw(i64::MAX) * Fixed::from_int(2)).raw, i64::MAX);
    assert_eq!((raw(-i64::MAX) * Fixed::from_int(2)).raw, -i64::MAX);
    assert_eq!((raw(i64::MIN) * raw(i64::MIN)).raw, i64::MAX);
    assert_eq!((raw(i64::MIN) * Fixed::one()).raw, -i64::MAX);
    assert_eq!((raw(12345) * Fixed::zero()).raw, 0);
}

#[test]
fn division_rounds_toward_zero_and_saturates() {
    assert_eq!((Fixed::from_int(1) / Fixed::from_int(3)).raw, 1431655765);
    assert_eq!((Fixed::from_int(-1) / Fixed::from_int(3)).raw, -1431655765);
    assert_eq!((Fixed::from_int(1) / Fixed::from_int(-3)).raw, -1431655765);
    assert_eq!((Fixed::from_int(6) / Fixed::from_int(3)).raw, 2 * 4294967296);
    assert_eq!((Fixed::from_int(1) / raw(1)).raw, i64::MAX);
    assert_eq!((Fixed::from_int(-1) / raw(1)).raw, -i64::MAX);
}

#[test]
fn division_by_zero_saturates_by_the_sign_of_the_dividend() {
    assert_eq!((raw(1) / Fixed::zero()).raw, i64::MAX);
    assert_eq!((raw(-1) / Fixed::zero()).raw, -i64::MAX);
    assert_eq!((Fixed::zero() / Fixed::zero()).raw, 0);
}

#[test]
fn square_root_rounds_down() {
    assert_eq!(Fixed::from_int(4).sqrt().raw, 2 * 4294967296);
    assert_eq!(Fixed::from_int(2).sqrt().raw, 6074000999);
    assert_eq!(Fixed::from_int(14).sqrt().raw, 16070296109);
    assert_eq!(Fixed::one().sqrt().raw, 4294967296);
    assert_eq!(raw(1).sqrt().raw, 65536);
    assert_eq!(raw(i64::MAX).sqrt().raw, 199032864766430);
    assert_eq!(Fixed::from_ratio(1, 4).sqrt().raw, 2147483648);
}

#[test]
fn square_root_of_what_is_not_positive_is_zero() {
    assert_eq!(Fixed::zero().sqrt().raw, 0);
    assert_eq!(raw(-1).sqrt().raw, 0);
    assert_eq!(Fixed::from_int(-4).sqrt().raw, 0);
    assert_eq!(raw(i64::MIN).sqrt().raw, 0);
}

#[test]
fn square_root_is_the_largest_root_below() {
    for value in [1i64, 2, 3, 1000, 4294967295, 4294967297, 1 << 40, i64::MAX] {
        let root = raw(value).sqrt().raw as i128;
        let radicand = (value as i128) << 32;
        assert!(root * root <= radicand);
        assert!(radicand < (root + 1) * (root + 1));
    }
}

#[test]
fn absolute_value_minimum_and_clamp() {
    assert_eq!(raw(-5).abs().raw, 5);
    assert_eq!(raw(5).abs().raw, 5);
    assert_eq!(raw(i64::MIN).abs().raw, i64::MAX);
    assert_eq!(raw(3).min(raw(4)).raw, 3);
    assert_eq!(raw(4).min(raw(3)).raw, 3);
    assert_eq!(raw(-4).min(raw(3)).raw, -4);
    assert_eq!(raw(5).clamp(raw(0), raw(3)).raw, 3);
    assert_eq!(raw(-5).clamp(raw(0), raw(3)).raw, 0);
    assert_eq!(raw(2).clamp(raw(0), raw(3)).raw, 2);
}

#[test]
fn operations_keep_the_order_of_their_arguments() {
    let values = [-i64::MAX, -4294967296 * 3, -1, 0, 1, 4294967296, i64::MAX];
    let divisors = [0i64, 1, 4294967296, 3 * 4294967296, i64::MAX];
    for pair in values.windows(2) {
        for d in divisors {
            assert!((raw(pair[0]) / raw(d)).raw <= (raw(pair[1]) / raw(d)).raw);
            assert!((raw(pair[0]) * raw(d)).raw <= (raw(pair[1]) * raw(d)).raw);
            assert!((raw(d) * raw(pair[0])).raw <= (raw(d) * raw(pair[1])).raw);
        }
    }
}

#[test]
fn multiplication_commutes_and_follows_negation() {
    let values = [-i64::MAX, -7 * 4294967296, -3, 0, 5, 1 << 33, i64::MAX];
    for a in values {
        for b in values {
            assert_eq!(raw(a) * raw(b), raw(b) * raw(a));
            assert_eq!(raw(a) * (-raw(b)), -(raw(a) * raw(b)));
        }
    }
}
