use tornado_solana::errors::ErrorCode;
use tornado_solana::nullifier::NullifierSet;

#[test]
fn nullifier_is_spent_once() {
    let mut s = NullifierSet::initialize(10);
    assert!(!s.contains(&[1u8; 32]));
    assert_eq!(s.add_nullifier([1u8; 32]), Ok(()));
    assert!(s.contains(&[1u8; 32]));
    assert_eq!(s.add_nullifier([1u8; 32]), Err(ErrorCode::NullifierAlreadyUsed));
    assert_eq!(s.len(), 1);
}

#[test]
fn unrelated_nullifiers_do_not_interfere() {
    let mut s = NullifierSet::initialize(10);
    assert_eq!(s.add_nullifier([1u8; 32]), Ok(()));
    assert_eq!(s.add_nullifier([2u8; 32]), Ok(()));
    assert_eq!(s.add_nullifier([3u8; 32]), Ok(()));
    assert_eq!(s.add_nullifier([2u8; 32]), Err(ErrorCode::NullifierAlreadyUsed));
    assert_eq!(s.add_nullifier([1u8; 32]), Err(ErrorCode::NullifierAlreadyUsed));
    assert_eq!(s.len(), 3);
}

#[test]
fn full_registry_fails_closed() {
    let mut s = NullifierSet::initialize(2);
    assert_eq!(s.add_nullifier([1u8; 32]), Ok(()));
    assert_eq!(s.add_nullifier([2u8; 32]), Ok(()));
    assert_eq!(s.add_nullifier([3u8; 32]), Err(ErrorCode::NullifierSetFull));
    assert!(!s.contains(&[3u8; 32]));
    assert_eq!(s.add_nullifier([1u8; 32]), Err(ErrorCode::NullifierAlreadyUsed));
}
