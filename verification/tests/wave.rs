use synth_core::fixed::{Fixed, ONE_RAW};
use synth_core::wave::{cyclic_lookup, lerp, make_table, ranged_lookup};

#[test]
fn table_is_bounded_by_one() {
    let table = make_table(vec![Fixed::from_int(3), Fixed::from_ratio(1, 2), Fixed::from_int(-3)]);
    assert_eq!(table, vec![Fixed::one(), Fixed::from_ratio(1, 2), Fixed::from_int(-1)]);
    assert_eq!(make_table(vec![]), vec![Fixed::zero()]);
}

#[test]
fn cyclic_lookup_interpolates_and_wraps() {
    let table = vec![Fixed::zero(), Fixed::one(), Fixed::zero(), Fixed::from_int(-1)];
    let quarter = (ONE_RAW / 4) as u64;
    assert_eq!(cyclic_lookup(&table, 0), Fixed::zero());
    assert_eq!(cyclic_lookup(&table, quarter), Fixed::one());
    assert_eq!(cyclic_lookup(&table, quarter / 2), Fixed::from_ratio(1, 2));
    assert_eq!(cyclic_lookup(&table, 3 * quarter), Fixed::from_int(-1));
    // between the last value and the first
    assert_eq!(cyclic_lookup(&table, 3 * quarter + quarter / 2), Fixed::from_ratio(-1, 2));
    assert_eq!(cyclic_lookup(&table, (ONE_RAW - 1) as u64).raw, -4);
}

#[test]
fn ranged_lookup_interpolates_and_clamps() {
    let table = vec![Fixed::from_int(-1), Fixed::zero(), Fixed::from_ratio(1, 2)];
    let two = Fixed::from_int(2);
    assert_eq!(ranged_lookup(&table, two, Fixed::from_int(-2)), Fixed::from_int(-1));
    assert_eq!(ranged_lookup(&table, two, Fixed::zero()), Fixed::zero());
    assert_eq!(ranged_lookup(&table, two, two), Fixed::from_ratio(1, 2));
    assert_eq!(ranged_lookup(&table, two, Fixed::from_int(-1)), Fixed::from_ratio(-1, 2));
    assert_eq!(ranged_lookup(&table, two, Fixed::from_int(1)), Fixed::from_ratio(1, 4));
    assert_eq!(ranged_lookup(&table, two, Fixed::from_int(50)), Fixed::from_ratio(1, 2));
    assert_eq!(ranged_lookup(&table, two, Fixed::from_int(-50)), Fixed::from_int(-1));
}

#[test]
fn lerp_at_the_ends_is_the_ends() {
    let a = Fixed::from_ratio(-3, 4);
    let b = Fixed::from_ratio(1, 3);
    assert_eq!(lerp(a, b, Fixed::zero()), a);
    assert_eq!(lerp(a, b, Fixed::one()), b);
}
