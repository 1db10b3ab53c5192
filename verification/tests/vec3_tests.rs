use path_tracer::fixed::{Fixed, LIMIT, SCALE};
use path_tracer::ray::Ray;
use path_tracer::sampler::Sampler;
use path_tracer::vec3::{random_ranged, ranged, Vec3, NEAR_ZERO};

fn fx(raw: i64) -> Fixed {
    Fixed::from_raw(raw)
}

fn v(x: i64, y: i64, z: i64) -> Vec3 {
    Vec3::new(Fixed::from_int(x), Fixed::from_int(y), Fixed::from_int(z))
}

fn raw(x: i64, y: i64, z: i64) -> Vec3 {
    Vec3::new(fx(x), fx(y), fx(z))
}

#[test]
fn componentwise_arithmetic() {
    let a = v(1, 2, 3);
    let b = v(4, -5, 6);
    assert_eq!(a + b, v(5, -3, 9));
    assert_eq!(a - b, v(-3, 7, -3));
    assert_eq!(a * b, v(4, -10, 18));
    assert_eq!(a * Fixed::from_int(-2), v(-2, -4, -6));
    assert_eq!(Fixed::from_int(-2) * a, v(-2, -4, -6));
    assert_eq!(fx(1_500_000_000) * b, raw(6_000_000_000, -7_500_000_000, 9_000_000_000));
    assert_eq!(b / Fixed::from_int(2), raw(2_000_000_000, -2_500_000_000, 3_000_000_000));
    assert_eq!(a.inverse(), v(-1, -2, -3));
    assert_eq!(Vec3::default(), v(0, 0, 0));
}

#[test]
fn dot_and_cross_products() {
    let a = v(1, 2, 3);
    let b = v(4, -5, 6);
    assert_eq!(a.dot(&b).to_raw(), 12_000_000_000);
    assert_eq!(b.dot(&a).to_raw(), 12_000_000_000);
    assert_eq!(a.cross(&b), v(27, 6, -13));
    assert_eq!(b.cross(&a), v(-27, -6, 13));
    assert_eq!(a.dot(&a.cross(&b)).to_raw(), 0);
}

#[test]
fn length_and_unit_vector() {
    let a = v(3, 4, 0);
    assert_eq!(a.length_squared().to_raw(), 25_000_000_000);
    assert_eq!(a.length().to_raw(), 5_000_000_000);
    assert_eq!(a.unit_vector(), raw(600_000_000, 800_000_000, 0));
    let d = v(1, 1, 1);
    assert_eq!(d.length().to_raw(), 1_732_050_807);
    assert_eq!(d.unit_vector(), raw(577_350_269, 577_350_269, 577_350_269));
}

#[test]
fn short_vectors_are_measured_to_the_raw_unit() {
    assert_eq!(raw(30_000, 0, 0).length().to_raw(), 30_000);
    assert_eq!(raw(30_000, 0, 0).length_squared().to_raw(), 0);
    assert_eq!(raw(30_000, 0, 0).normalized_or_zero(), v(1, 0, 0));
    assert_eq!(raw(1, 0, 0).normalized_or_zero(), v(1, 0, 0));
    assert_eq!(raw(1, 1, 0).unit_vector(), raw(707_106_781, 707_106_781, 0));
    assert_eq!(raw(1, 2, 2).unit_vector(), raw(333_333_333, 666_666_666, 666_666_666));
    assert_eq!(raw(12_345, -6_789, 1).unit_vector(), raw(876_238_384, -481_877_877, 70_979));
    assert_eq!(v(16, 0, 0).unit_vector(), v(1, 0, 0));
    assert_eq!(v(18, 0, 0).unit_vector(), v(1, 0, 0));
    assert_eq!(raw(0, -3, 4).unit_vector(), raw(0, -600_000_000, 800_000_000));
    assert_eq!(Vec3::default().length().to_raw(), 0);
    assert_eq!(Vec3::default().normalized_or_zero(), raw(0, 0, 0));
    assert_eq!(v(0, -2, 0).normalized_or_zero(), v(0, -1, 0));
}

#[test]
fn long_vectors_are_measured_without_saturating_squares() {
    let far = v(1_000_000, 0, 0);
    assert_eq!(far.length().to_raw(), 1_000_000_000_000_000);
    assert_eq!(far.unit_vector(), v(1, 0, 0));
    assert_eq!(far.normalized_or_zero(), v(1, 0, 0));
    assert_eq!(v(3_000_000, -4_000_000, 0).length(), Fixed::from_int(5_000_000));
    assert_eq!(v(3_000_000, -4_000_000, 0).unit_vector(), raw(600_000_000, -800_000_000, 0));
    assert_eq!(far.length_squared().to_raw(), LIMIT);
    assert_eq!(v(96_038, 0, 0).length_squared().to_raw(), 9_223_297_444_000_000_000);
    let corner = raw(LIMIT, -LIMIT, LIMIT);
    assert_eq!(corner.length().to_raw(), LIMIT);
    assert_eq!(corner.unit_vector(), raw(577_350_269, -577_350_269, 577_350_269));
}

#[test]
fn unit_vectors_have_unit_length() {
    let samples = [
        raw(1, 1, 0),
        raw(1, -1, 1),
        raw(12_345, -6_789, 1),
        v(1, 2, 3),
        v(-17, 1, 0),
        raw(17_320_508_075, 3, -1),
        v(1_000_000, -2_000_000, 3),
        raw(LIMIT, -LIMIT, LIMIT),
        raw(LIMIT, 1, 0),
    ];
    for sample in samples {
        let u = sample.unit_vector();
        let mut total: i128 = 0;
        for c in [u.x, u.y, u.z] {
            let k: i128 = c.to_raw() as i128;
            assert!(k.abs() <= SCALE as i128);
            total += k * k;
        }
        let one: i128 = SCALE as i128 * SCALE as i128;
        assert!(one - 6 * SCALE as i128 <= total && total <= one + 2 * SCALE as i128 + 1);
        assert_eq!(sample.normalized_or_zero(), u);
    }
}

#[test]
fn components_within_a_bound() {
    assert!(raw(5, -5, 0).is_within(5));
    assert!(!raw(5, -6, 0).is_within(5));
    assert!(!raw(6, 0, 0).is_within(5));
    assert!(!raw(0, 0, -6).is_within(5));
    assert!(Vec3::default().is_within(0));
    assert!(raw(LIMIT, -LIMIT, 0).is_within(LIMIT));
}

#[test]
fn near_zero_looks_at_both_sides_of_zero() {
    assert!(Vec3::default().near_zero());
    assert!(raw(NEAR_ZERO - 1, -(NEAR_ZERO - 1), 0).near_zero());
    assert!(!raw(NEAR_ZERO, 0, 0).near_zero());
    assert!(!raw(0, -NEAR_ZERO, 0).near_zero());
    assert!(!v(-100_000_000, -100_000_000, -100_000_000).near_zero());
    assert!(!raw(0, 0, 11).near_zero());
}

#[test]
fn with_direction_builds_the_ray() {
    let origin = v(1, 2, 3);
    let direction = v(0, 0, -1);
    let ray: Ray = origin.with_direction(direction);
    assert_eq!(ray.origin, origin);
    assert_eq!(ray.direction, direction);
}

#[test]
fn ranged_picks_by_fraction() {
    let low = Fixed::from_int(-1);
    let high = Fixed::one();
    assert_eq!(ranged(low, high, Fixed::zero()).to_raw(), -1_000_000_000);
    assert_eq!(ranged(low, high, fx(SCALE - 1)).to_raw(), 999_999_998);
    assert_eq!(ranged(Fixed::from_int(2), Fixed::from_int(5), fx(250_000_000)).to_raw(), 2_750_000_000);
    assert_eq!(ranged(Fixed::from_int(5), Fixed::from_int(2), fx(250_000_000)).to_raw(), 4_250_000_000);
}

#[test]
fn random_ranged_stays_in_its_range() {
    let mut sampler = Sampler::ambient();
    let low = Fixed::from_int(-3);
    let high = Fixed::from_int(2);
    for _ in 0..2000 {
        let r = random_ranged(low, high, &mut sampler);
        assert!(low.le(r) && r.lt(high));
    }
    let mut pinned = Sampler::constant(fx(250_000_000));
    assert_eq!(random_ranged(low, high, &mut pinned).to_raw(), -1_750_000_000);
}

#[test]
fn random_vectors_stay_in_their_cube() {
    let mut sampler = Sampler::seeded(7);
    for _ in 0..500 {
        let p = Vec3::random(&mut sampler);
        for c in [p.x, p.y, p.z] {
            assert!(Fixed::zero().le(c) && c.lt(Fixed::one()));
        }
        let q = Vec3::random_ranged(Fixed::from_int(10), Fixed::from_int(11), &mut sampler);
        for c in [q.x, q.y, q.z] {
            assert!(Fixed::from_int(10).le(c) && c.lt(Fixed::from_int(11)));
        }
    }
    let mut pinned = Sampler::constant(fx(500_000_000));
    assert_eq!(Vec3::random(&mut pinned), raw(500_000_000, 500_000_000, 500_000_000));
    assert_eq!(
        Vec3::random_ranged(Fixed::from_int(10), Fixed::from_int(12), &mut pinned),
        v(11, 11, 11)
    );
}

#[test]
fn points_drawn_in_the_unit_sphere_are_inside_it() {
    let mut sampler = Sampler::ambient();
    let mut distinct: bool = false;
    let first = Vec3::random_in_unit_sphere(&mut sampler);
    for _ in 0..1000 {
        let p = Vec3::random_in_unit_sphere(&mut sampler);
        assert!(p.length_squared().lt(Fixed::one()));
        if p != first {
            distinct = true;
        }
    }
    assert!(distinct);
}

#[test]
fn pinned_draws_in_the_unit_sphere() {
    let mut accepted = Sampler::constant(fx(750_000_000));
    assert_eq!(
        Vec3::random_in_unit_sphere(&mut accepted),
        raw(500_000_000, 500_000_000, 500_000_000)
    );
    assert_eq!(
        Vec3::random_unit_vector(&mut accepted),
        raw(577_350_269, 577_350_269, 577_350_269)
    );
    let mut rejected = Sampler::constant(Fixed::zero());
    assert_eq!(Vec3::random_in_unit_sphere(&mut rejected), raw(0, 0, 0));
    assert_eq!(Vec3::random_unit_vector(&mut rejected), raw(0, 0, 0));
    let mut centre = Sampler::constant(fx(500_000_000));
    assert_eq!(Vec3::random_unit_vector(&mut centre), raw(0, 0, 0));
}

#[test]
fn drawn_directions_have_about_unit_length() {
    let mut sampler = Sampler::seeded(11);
    for _ in 0..500 {
        let d = Vec3::random_unit_vector(&mut sampler);
        let l: i64 = d.length().to_raw();
        assert!(l == 0 || (l - SCALE).abs() < 1_000_000);
    }
}

#[test]
fn directions_drawn_on_a_hemisphere_lie_on_its_side() {
    let mut sampler = Sampler::seeded(3);
    let normals = [v(0, 1, 0), v(0, 0, -1), raw(577_350_269, -577_350_269, 577_350_269)];
    for _ in 0..300 {
        for normal in normals {
            let d = Vec3::random_on_hemisphere(&normal, &mut sampler);
            assert!(d.dot(&normal).to_raw() >= 0);
        }
    }
    let mut pinned = Sampler::constant(fx(750_000_000));
    assert_eq!(
        Vec3::random_on_hemisphere(&v(0, -1, 0), &mut pinned),
        raw(-577_350_269, -577_350_269, -577_350_269)
    );
    assert_eq!(
        Vec3::random_on_hemisphere(&v(0, 1, 0), &mut pinned),
        raw(577_350_269, 577_350_269, 577_350_269)
    );
}

#[test]
fn points_drawn_in_the_unit_disk_are_inside_it() {
    let mut sampler = Sampler::ambient();
    for _ in 0..1000 {
        let p = Vec3::random_in_unit_disk(&mut sampler);
        assert_eq!(p.z.to_raw(), 0);
        assert!(p.length_squared().lt(Fixed::one()));
    }
    let mut accepted = Sampler::constant(fx(750_000_000));
    assert_eq!(Vec3::random_in_unit_disk(&mut accepted), raw(500_000_000, 500_000_000, 0));
    let mut rejected = Sampler::constant(fx(900_000_000));
    assert_eq!(Vec3::random_in_unit_disk(&mut rejected), raw(0, 0, 0));
}
