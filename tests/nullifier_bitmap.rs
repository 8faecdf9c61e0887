use tornado_solana::errors::ErrorCode;
use tornado_solana::nullifier_bitmap::NullifierBitmap;

#[test]
fn bitmap_marks_once() {
    let mut b = NullifierBitmap::initialize();
    let n = [7u8; 32];
    assert!(!b.is_nullifier_spent(&n));
    assert_eq!(b.mark_nullifier_spent(&n), Ok(()));
    assert!(b.is_nullifier_spent(&n));
    assert_eq!(b.mark_nullifier_spent(&n), Err(ErrorCode::NullifierAlreadyUsed));
}

#[test]
fn bitmap_slot_collision_is_a_false_rejection() {
    let mut b = NullifierBitmap::initialize();
    let mut first = [0u8; 32];
    first[0] = 1;
    first[31] = 0xaa;
    let mut second = [0u8; 32];
    second[0] = 1;
    second[31] = 0xbb;
    assert_eq!(b.mark_nullifier_spent(&first), Ok(()));
    assert!(b.is_nullifier_spent(&second));
    assert_eq!(b.mark_nullifier_spent(&second), Err(ErrorCode::NullifierAlreadyUsed));
}

#[test]
fn bitmap_slot_wraps_modulo_its_size() {
    let mut b = NullifierBitmap::initialize();
    let zero = [0u8; 32];
    let mut wrapped = [0u8; 32];
    wrapped[2] = 0x10;
    let mut next = [0u8; 32];
    next[0] = 1;
    assert_eq!(b.mark_nullifier_spent(&zero), Ok(()));
    assert!(b.is_nullifier_spent(&wrapped));
    assert!(!b.is_nullifier_spent(&next));
}
