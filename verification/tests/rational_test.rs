use casper_node::rational::Rational;

fn ratio(numer: u64, denom: u64) -> Rational {
    Rational::new(numer, denom)
}

#[test]
fn new_reduces_to_lowest_terms() {
    let r = ratio(34, 100);
    assert_eq!((r.numer, r.denom), (17, 50));
    let zero = ratio(0, 7);
    assert_eq!((zero.numer, zero.denom), (0, 1));
}

#[test]
fn integers_have_denominator_one() {
    let r = Rational::from_integer(42);
    assert_eq!((r.numer, r.denom), (42, 1));
    assert_eq!(Rational::from_integer(0), ratio(0, 3));
}

#[test]
fn adds() {
    assert_eq!(ratio(1, 6).checked_add(ratio(1, 3)), Some(ratio(1, 2)));
    assert_eq!(ratio(3, 4).checked_add(ratio(5, 6)), Some(ratio(19, 12)));
}

#[test]
fn adding_beyond_the_range_gives_nothing() {
    let max = Rational::from_integer(u64::MAX);
    assert_eq!(max.checked_add(Rational::from_integer(1)), None);
    assert_eq!(max.checked_add(Rational::from_integer(0)), Some(max));
    // The common denominator does not fit.
    assert_eq!(ratio(1, u64::MAX).checked_add(ratio(1, u64::MAX - 1)), None);
}

#[test]
fn subtracts() {
    assert_eq!(ratio(1, 2).checked_sub(ratio(1, 3)), Some(ratio(1, 6)));
    assert_eq!(ratio(1, 1).checked_sub(ratio(1, 1)), Some(ratio(0, 1)));
    assert_eq!(ratio(1, 3).checked_sub(ratio(1, 2)), None);
}

#[test]
fn multiplies() {
    assert_eq!(ratio(2, 3).checked_mul(ratio(9, 4)), Some(ratio(3, 2)));
    assert_eq!(ratio(0, 1).checked_mul(ratio(9, 4)), Some(ratio(0, 1)));
    let max = Rational::from_integer(u64::MAX);
    assert_eq!(max.checked_mul(Rational::from_integer(2)), None);
    // What cancels out first does not overflow.
    assert_eq!(max.checked_mul(ratio(1, u64::MAX)), Some(ratio(1, 1)));
}

#[test]
fn divides_by_an_integer() {
    assert_eq!(ratio(6, 5).checked_div(4), Some(ratio(3, 10)));
    assert_eq!(ratio(6, 5).checked_div(0), None);
    assert_eq!(ratio(1, u64::MAX).checked_div(2), None);
}

#[test]
fn equal_values_are_held_alike() {
    assert_eq!(ratio(10, 15), ratio(2, 3));
    assert_ne!(ratio(10, 15), ratio(3, 2));
}

#[test]
fn difference_undoes_sum() {
    let (a, b) = (ratio(7, 12), ratio(5, 18));
    let sum = a.checked_add(b).unwrap();
    assert_eq!(sum, ratio(31, 36));
    assert_eq!(sum.checked_sub(b), Some(a));
}
