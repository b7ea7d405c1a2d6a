use secretary::modular::{is_coprime, mod_inv, rem_euclid};

#[test]
fn inverse_of_three_modulo_26_is_nine() {
    assert_eq!(mod_inv(3, 26), Some(9));
}

#[test]
fn every_unit_modulo_26_times_its_inverse_is_one() {
    for a in 0..26 {
        match mod_inv(a, 26) {
            Some(x) => {
                assert!(a % 2 != 0 && a % 13 != 0);
                assert!((0..26).contains(&x));
                assert_eq!((a * x) % 26, 1);
            }
            None => assert!(a % 2 == 0 || a % 13 == 0),
        }
    }
}

#[test]
fn inverse_of_a_negative_value_lies_in_range() {
    // -3 is 23 modulo 26, and 23 * 17 == 391 == 15 * 26 + 1
    assert_eq!(mod_inv(-3, 26), Some(17));
}

#[test]
fn no_inverse_without_a_positive_modulus() {
    assert_eq!(mod_inv(3, 0), None);
    assert_eq!(mod_inv(3, -26), None);
}

#[test]
fn modulus_one_inverts_everything_to_zero() {
    assert_eq!(mod_inv(5, 1), Some(0));
}

#[test]
fn coprimality_follows_the_inverse() {
    assert!(is_coprime(25, 26));
    assert!(!is_coprime(13, 26));
    assert!(!is_coprime(0, 26));
    assert!(is_coprime(255, 256));
    assert!(!is_coprime(254, 256));
}

#[test]
fn remainder_is_never_negative() {
    assert_eq!(rem_euclid(-1, 26), 25);
    assert_eq!(rem_euclid(-26, 26), 0);
    assert_eq!(rem_euclid(27, 26), 1);
    assert_eq!(rem_euclid(i64::MIN, 256), 0);
}
