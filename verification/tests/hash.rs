use lagoon::hash::{address, MAX_MEMBER_LEN};

#[test]
fn address_reduces_the_murmur3_hash() {
    let zero_seed: u128 = 121118445609844952839898260755277781762;
    let seed_123: u128 = 19243349499071459060235768594146641163;
    let len: usize = 1_000_003;
    assert_eq!(address(b"hello", 0, len) as u128, zero_seed % len as u128);
    assert_eq!(address(b"hello", 123, len) as u128, seed_123 % len as u128);
    assert_eq!(address(b"hello", 123, 4294967295) as u128, seed_123 % 4294967295);
    assert_eq!(address(b"hello", 0, 1), 0);
}

#[test]
fn address_depends_on_the_member_and_the_round() {
    let len: usize = 4294967295;
    assert_ne!(address(b"hello", 0, len), address(b"hello", 1, len));
    assert_ne!(address(b"hello", 0, len), address(b"world", 0, len));
    assert_eq!(address(b"hello", 5, len), address(b"hello", 5, len));
}

#[test]
fn member_length_limit_is_that_of_a_signed_word() {
    assert_eq!(MAX_MEMBER_LEN, i32::MAX as usize);
}

#[test]
fn rounds_past_the_seed_width_wrap_around() {
    if usize::BITS == 64 {
        let len: usize = 1_000_003;
        let wrapped = (1u64 << 32) as usize + 123;
        assert_eq!(address(b"hello", wrapped, len), address(b"hello", 123, len));
    }
}
