use path_tracer::fixed::{Fixed, LIMIT, SCALE};

fn fx(raw: i64) -> Fixed {
    Fixed::from_raw(raw)
}

#[test]
fn addition_saturates_at_the_limit() {
    let big = Fixed::max_value();
    assert_eq!((big + Fixed::one()).to_raw(), LIMIT);
    assert_eq!((big.neg() - Fixed::one()).to_raw(), -LIMIT);
    assert_eq!((fx(5) + fx(-7)).to_raw(), -2);
    assert_eq!((fx(5) - fx(-7)).to_raw(), 12);
}

#[test]
fn the_lowest_machine_value_reads_as_the_lower_limit() {
    assert_eq!(fx(i64::MIN).to_raw(), -LIMIT);
    assert_eq!((Fixed { raw: i64::MIN }).to_raw(), -LIMIT);
    assert_eq!((Fixed { raw: i64::MIN }).neg().to_raw(), LIMIT);
    assert_eq!(((Fixed { raw: i64::MIN }) + Fixed::one()).to_raw(), -LIMIT + SCALE);
}

#[test]
fn product_rounds_toward_zero() {
    let a = fx(1_500_000_000);
    let b = fx(-333_333_333);
    assert_eq!((a * b).to_raw(), -499_999_999);
    assert_eq!((b * a).to_raw(), -499_999_999);
    assert_eq!((a * b.neg()).to_raw(), 499_999_999);
    assert_eq!((fx(3) * fx(333_333_333)).to_raw(), 0);
}

#[test]
fn product_saturates() {
    assert_eq!((Fixed::max_value() * Fixed::from_int(2)).to_raw(), LIMIT);
    assert_eq!((Fixed::max_value().neg() * Fixed::from_int(2)).to_raw(), -LIMIT);
    assert_eq!((Fixed::max_value().neg() * Fixed::from_int(-2)).to_raw(), LIMIT);
}

#[test]
fn quotient_rounds_toward_zero_and_saturates() {
    assert_eq!((Fixed::one() / fx(3)).to_raw(), 333_333_333_333_333_333);
    assert_eq!((Fixed::from_int(10) / Fixed::from_int(4)).to_raw(), 2_500_000_000);
    assert_eq!((Fixed::from_int(-7) / Fixed::from_int(2)).to_raw(), -3_500_000_000);
    assert_eq!((Fixed::from_int(7) / Fixed::from_int(-2)).to_raw(), -3_500_000_000);
    assert_eq!((Fixed::one() / Fixed::from_int(3)).to_raw(), 333_333_333);
    assert_eq!((Fixed::one().neg() / Fixed::from_int(3)).to_raw(), -333_333_333);
    assert_eq!((Fixed::max_value() / fx(1)).to_raw(), LIMIT);
    assert_eq!((Fixed::max_value().neg() / fx(1)).to_raw(), -LIMIT);
    assert_eq!((Fixed::one() / Fixed::max_value()).to_raw(), 0);
}

#[test]
fn square_root_rounds_down() {
    assert_eq!(Fixed::zero().sqrt().to_raw(), 0);
    assert_eq!(fx(1).sqrt().to_raw(), 31_622);
    assert_eq!(Fixed::from_int(4).sqrt().to_raw(), 2_000_000_000);
    assert_eq!(Fixed::from_int(2).sqrt().to_raw(), 1_414_213_562);
    assert_eq!(fx(250_000_000).sqrt().to_raw(), 500_000_000);
    assert_eq!(Fixed::max_value().sqrt().to_raw(), 96_038_388_349_944);
}

#[test]
fn square_root_is_the_largest_whose_square_fits() {
    let samples: [i64; 6] = [0, 1, 999_999_999, 1_000_000_000, 123_456_789_012, LIMIT];
    for raw in samples {
        let r: i128 = fx(raw).sqrt().to_raw() as i128;
        let n: i128 = raw as i128 * SCALE as i128;
        assert!(r >= 0);
        assert!(r * r <= n);
        assert!((r + 1) * (r + 1) > n);
    }
}

#[test]
fn square_root_or_zero_of_a_negative_number_is_zero() {
    assert_eq!(fx(-1).sqrt_or_zero().to_raw(), 0);
    assert_eq!(Fixed::max_value().neg().sqrt_or_zero().to_raw(), 0);
    assert_eq!(Fixed::from_int(9).sqrt_or_zero().to_raw(), 3_000_000_000);
}

#[test]
fn whole_numbers_and_their_whole_part() {
    assert_eq!(Fixed::from_int(3).to_raw(), 3_000_000_000);
    assert_eq!(Fixed::from_int(-3).to_raw(), -3_000_000_000);
    assert_eq!(Fixed::from_int(i64::MAX).to_raw(), LIMIT);
    assert_eq!(Fixed::from_int(i64::MIN).to_raw(), -LIMIT);
    assert_eq!(fx(2_999_999_999).trunc(), 2);
    assert_eq!(fx(-2_999_999_999).trunc(), -2);
    assert_eq!(fx(-999_999_999).trunc(), 0);
    assert_eq!(Fixed::zero().to_raw(), 0);
    assert_eq!(Fixed::one().to_raw(), SCALE);
}

#[test]
fn order_and_minimum() {
    let a = fx(-5);
    let b = fx(7);
    assert!(a.lt(b) && a.le(b) && b.gt(a));
    assert!(!b.lt(a) && !b.le(a) && !a.gt(b));
    assert!(a.le(a) && !a.lt(a) && !a.gt(a));
    assert_eq!(a.min(b), a);
    assert_eq!(b.min(a), a);
    assert_eq!(b.min(b), b);
}

#[test]
fn negating_a_factor_negates_the_product() {
    let samples: [i64; 7] = [0, 1, -1, 333_333_333, -1_500_000_001, LIMIT, -LIMIT];
    for x in samples {
        for y in samples {
            let a = fx(x);
            let b = fx(y);
            assert_eq!((a * b.neg()).to_raw(), -(a * b).to_raw());
        }
    }
}
