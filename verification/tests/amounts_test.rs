use casper_node::u512::U512;

#[test]
fn small_amounts_fit_in_a_u64() {
    assert_eq!(U512::zero().to_u64(), Some(0));
    assert_eq!(U512::from_u64(u64::MAX).to_u64(), Some(u64::MAX));
    assert_eq!(U512::from_u128(u64::MAX as u128 + 1).to_u64(), None);
}

#[test]
fn higher_limbs_do_not_fit_in_a_u64() {
    assert_eq!(U512 { l0: 1, l1: 0, l2: 0, l3: 1 }.to_u64(), None);
    assert_eq!(U512 { l0: 1, l1: 1, l2: 0, l3: 0 }.to_u64(), None);
}

#[test]
fn products_carry_into_higher_limbs() {
    // (2^128 - 1) * 3 = 2 * 2^128 + (2^128 - 3)
    let product = U512::from_u128(u128::MAX).times(3);
    assert_eq!(product, U512 { l0: u128::MAX - 2, l1: 2, l2: 0, l3: 0 });
    let wide = U512 { l0: u128::MAX, l1: u128::MAX, l2: 0, l3: 0 }.times(2);
    assert_eq!(wide, U512 { l0: u128::MAX - 1, l1: u128::MAX, l2: 1, l3: 0 });
}

#[test]
fn product_with_the_greatest_factor() {
    // (2^128 - 1) * (2^64 - 1) = (2^64 - 2) * 2^128 + (2^128 - 2^64 + 1)
    let product = U512::from_u128(u128::MAX).times(u64::MAX);
    assert_eq!(product.l1, (u64::MAX - 1) as u128);
    assert_eq!(product.l0, u128::MAX - u64::MAX as u128 + 1);
}

#[test]
fn amounts_are_compared_from_the_top() {
    let low = U512 { l0: u128::MAX, l1: 0, l2: 0, l3: 0 };
    let high = U512 { l0: 0, l1: 1, l2: 0, l3: 0 };
    assert!(high.at_least(&low));
    assert!(!low.at_least(&high));
    assert!(low.at_least(&low));
    let top = U512 { l0: 0, l1: 0, l2: 0, l3: 1 };
    let below = U512 { l0: u128::MAX, l1: u128::MAX, l2: u128::MAX, l3: 0 };
    assert!(top.at_least(&below));
    assert!(!below.at_least(&top));
}
