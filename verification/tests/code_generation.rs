use device_code_broker::generate_random_string;

const ALPHABET: &str = "ABCDEFGHIJKLMNOPQRSTUVWXYZ0123456789";

#[test]
fn generated_string_has_requested_length() {
    for len in [0usize, 1, 6, 8, 32] {
        let s = generate_random_string(len);
        assert_eq!(s.chars().count(), len);
    }
}

#[test]
fn generated_string_draws_from_the_alphabet() {
    let s = generate_random_string(256);
    for c in s.chars() {
        assert!(ALPHABET.contains(c), "unexpected character {c:?}");
    }
}

#[test]
fn generation_is_not_constant() {
    // 16 alphanumeric characters colliding twice is vanishingly unlikely,
    // so a repeated draw distinguishes a real random source from a stub
    let a = generate_random_string(16);
    let b = generate_random_string(16);
    assert_ne!(a, b);
}
