use commit_reveal::bytes::{bytes_equal, bytes_less, u64_from_be_prefix, u64_to_be_bytes, xor_bytes_exec};

#[test]
fn big_endian_bytes() {
    assert_eq!(u64_to_be_bytes(0x0102_0304_0506_0708), vec![1, 2, 3, 4, 5, 6, 7, 8]);
    assert_eq!(u64_to_be_bytes(u64::MAX), vec![0xff; 8]);
    assert_eq!(u64_from_be_prefix(&[1, 2, 3, 4, 5, 6, 7, 8, 9]), 0x0102_0304_0506_0708);
    assert_eq!(u64_from_be_prefix(&u64_to_be_bytes(987654321)), 987654321);
}

#[test]
fn byte_order_is_lexicographic() {
    assert!(bytes_less(&[1, 2], &[1, 3]));
    assert!(bytes_less(&[1], &[1, 0]));
    assert!(!bytes_less(&[2], &[1, 9]));
    assert!(!bytes_less(&[4, 4], &[4, 4]));
    assert!(bytes_equal(&[4, 4], &[4, 4]));
    assert!(!bytes_equal(&[4], &[4, 4]));
}

#[test]
fn xor_of_byte_strings() {
    assert_eq!(xor_bytes_exec(&vec![0xf0, 0x0f], &vec![0xff, 0xff]), vec![0x0f, 0xf0]);
}
