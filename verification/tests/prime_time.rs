use protohackers::prime_time::{is_prime, prime_time_response};

#[test]
fn test_is_prime_small_values() {
    assert!(!is_prime(-7));
    assert!(!is_prime(0));
    assert!(!is_prime(1));
    assert!(is_prime(2));
    assert!(is_prime(3));
    assert!(!is_prime(4));
    assert!(is_prime(17));
    assert!(!is_prime(21));
    assert!(is_prime(7919));
    assert!(!is_prime(7917));
}

#[test]
fn test_is_prime_large_values() {
    assert!(is_prime(1_000_003));
    assert!(!is_prime(1_000_001)); // 101 * 9901
    assert!(is_prime(999_999_999_989));
    assert!(!is_prime(999_999_999_991)); // 43 * 23_255_813_953
}

#[test]
fn test_response_for_prime_number() {
    assert_eq!(
        prime_time_response("isPrime", Some(7)),
        Some("{\"method\":\"isPrime\",\"prime\":true}".to_string())
    );
}

#[test]
fn test_response_for_composite_number() {
    assert_eq!(
        prime_time_response("isPrime", Some(8)),
        Some("{\"method\":\"isPrime\",\"prime\":false}".to_string())
    );
}

#[test]
fn test_response_for_non_integer_number() {
    // A request whose number is not a whole number is never prime.
    assert_eq!(
        prime_time_response("isPrime", None),
        Some("{\"method\":\"isPrime\",\"prime\":false}".to_string())
    );
}

#[test]
fn test_response_for_wrong_method() {
    assert_eq!(prime_time_response("isComposite", Some(7)), None);
    assert_eq!(prime_time_response("", None), None);
}
