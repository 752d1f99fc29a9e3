use shadow_ranch::identity::IDENTITY_LEN;
use shadow_ranch::Identity;

#[test]
fn identity_has_thirty_two_bytes() {
    assert_eq!(IDENTITY_LEN, 32);
    assert_eq!(Identity::new([0; 32]).to_bytes().len(), 32);
}

#[test]
fn identity_keeps_its_bytes() {
    let mut bytes = [0u8; 32];
    for (i, byte) in bytes.iter_mut().enumerate() {
        *byte = (i * 7) as u8;
    }
    let id = Identity::new(bytes);
    assert_eq!(id.bytes, bytes);
    assert_eq!(id.to_bytes(), bytes);
}

#[test]
fn identities_with_the_same_bytes_are_equal() {
    assert!(Identity::new([9; 32]) == Identity::new([9; 32]));
    assert_eq!(Identity::new([0; 32]), Identity::new([0; 32]));
}

#[test]
fn identities_that_differ_in_one_byte_are_different() {
    for position in 0..32 {
        let mut bytes = [5u8; 32];
        bytes[position] = 6;
        assert!(Identity::new(bytes) != Identity::new([5; 32]));
        assert!(Identity::new([5; 32]) != Identity::new(bytes));
    }
}

#[test]
fn identities_that_differ_only_in_the_last_byte_are_different() {
    let mut bytes = [0u8; 32];
    bytes[31] = 1;
    assert_ne!(Identity::new(bytes), Identity::new([0; 32]));
}
