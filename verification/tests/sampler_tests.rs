use path_tracer::fixed::{Fixed, SCALE};
use path_tracer::sampler::{unit_clamp, unit_of_word, Sampler};

#[test]
fn a_word_gives_its_last_nine_digits() {
    assert_eq!(unit_of_word(0).to_raw(), 0);
    assert_eq!(unit_of_word(999_999_999).to_raw(), 999_999_999);
    assert_eq!(unit_of_word(1_000_000_000).to_raw(), 0);
    assert_eq!(unit_of_word(1_234_567_890_123).to_raw(), 567_890_123);
    assert_eq!(unit_of_word(u64::MAX).to_raw(), 709_551_615);
}

#[test]
fn clamping_into_the_unit_range() {
    assert_eq!(unit_clamp(Fixed::from_raw(-1)).to_raw(), 0);
    assert_eq!(unit_clamp(Fixed::zero()).to_raw(), 0);
    assert_eq!(unit_clamp(Fixed::from_raw(123)).to_raw(), 123);
    assert_eq!(unit_clamp(Fixed::one()).to_raw(), SCALE - 1);
    assert_eq!(unit_clamp(Fixed::max_value()).to_raw(), SCALE - 1);
}

#[test]
fn a_pinned_sampler_repeats_its_fraction() {
    let mut sampler = Sampler::constant(Fixed::from_raw(250_000_000));
    for _ in 0..10 {
        assert_eq!(sampler.next_unit().to_raw(), 250_000_000);
    }
    let mut high = Sampler::constant(Fixed::from_int(5));
    assert_eq!(high.next_unit().to_raw(), SCALE - 1);
    let mut low = Sampler::constant(Fixed::from_int(-5));
    assert_eq!(low.next_unit().to_raw(), 0);
}

#[test]
fn ambient_draws_are_fractions_and_vary() {
    let mut sampler = Sampler::ambient();
    let first: i64 = sampler.next_unit().to_raw();
    let mut varied: bool = false;
    for _ in 0..1000 {
        let u: i64 = sampler.next_unit().to_raw();
        assert!(0 <= u && u < SCALE);
        if u != first {
            varied = true;
        }
    }
    assert!(varied);
}

#[test]
fn seeded_draws_repeat_for_the_same_seed() {
    let mut a = Sampler::seeded(42);
    let mut b = Sampler::seeded(42);
    let mut c = Sampler::seeded(43);
    let mut differs: bool = false;
    let mut varied: bool = false;
    let first: i64 = Sampler::seeded(42).next_unit().to_raw();
    for _ in 0..200 {
        let x: i64 = a.next_unit().to_raw();
        let y: i64 = b.next_unit().to_raw();
        let z: i64 = c.next_unit().to_raw();
        assert!(0 <= x && x < SCALE);
        assert_eq!(x, y);
        if x != z {
            differs = true;
        }
        if x != first {
            varied = true;
        }
    }
    assert!(differs);
    assert!(varied);
}
