use primitives::gcd_stein::gcd;

#[test]
fn lib_it_works() {
    assert_eq!(gcd(0, 0), 0);
    assert_eq!(gcd(3, 0), 3);
    assert_eq!(gcd(0, 3), 3);
    assert_eq!(gcd(1, 1), 1);
    assert_eq!(gcd(8 * 3, 8 * 5), 8);
    assert_eq!(gcd(8 * 3, 8 * 2 * 5), 8);
    assert_eq!(gcd(5, 3), 1);
    assert_eq!(gcd(7, 7), 7);
}

#[test]
fn gcd_of_powers_of_two() {
    assert_eq!(gcd(1 << 63, 1 << 20), 1 << 20);
    assert_eq!(gcd(1 << 63, 1 << 63), 1 << 63);
    assert_eq!(gcd(u64::MAX, 1 << 63), 1);
}

#[test]
fn gcd_divides_both_and_is_symmetric() {
    let pairs: [(u64, u64); 5] = [(40, 48), (12, 18), (17, 5), (1_000_000, 48), (u64::MAX, 15)];
    for (a, b) in pairs {
        let g = gcd(a, b);
        assert_eq!(a % g, 0);
        assert_eq!(b % g, 0);
        assert_eq!(gcd(b, a), g);
    }
    assert_eq!(gcd(40, 48), 8);
    assert_eq!(gcd(u64::MAX, 15), 15);
}
