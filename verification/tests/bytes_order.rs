use crownfi_cw_common::bytes::{bytes_le, bytes_lt};
use crownfi_cw_common::utils::lexicographic_next;

#[test]
fn bytes_lt_orders_lexicographically() {
    assert!(bytes_lt(b"", b"a"));
    assert!(!bytes_lt(b"", b""));
    assert!(bytes_lt(b"a", b"ab"));
    assert!(bytes_lt(b"ab", b"b"));
    assert!(!bytes_lt(b"b", b"ab"));
    assert!(bytes_lt(&[1, 255], &[2]));
    assert!(bytes_le(b"abc", b"abc"));
    assert!(!bytes_le(b"abd", b"abc"));
}

#[test]
fn lexicographic_next_increments_with_carry() {
    assert_eq!(lexicographic_next(b"abc"), b"abd".to_vec());
    assert_eq!(lexicographic_next(&[1, 255]), vec![2, 0]);
    assert_eq!(lexicographic_next(&[1, 255, 255]), vec![2, 0, 0]);
    assert_eq!(lexicographic_next(&[0, 7]), vec![0, 8]);
}

#[test]
fn lexicographic_next_of_all_max_appends_zero() {
    assert_eq!(lexicographic_next(&[]), vec![0]);
    assert_eq!(lexicographic_next(&[255]), vec![255, 0]);
    assert_eq!(lexicographic_next(&[255, 255]), vec![255, 255, 0]);
}
