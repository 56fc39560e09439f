use svm_storage::state::State;

#[test]
fn state_zeros() {
    assert_eq!([0; 32], State::zeros().0);

    assert!(State::zeros().is_zeros());
}

#[test]
fn state_from_slice() {
    let raw: [u8; 32] = [
        01, 02, 03, 04, 05, 06, 07, 08, 09, 10, 20, 30, 40, 50, 60, 70, 80, 90, 11, 22, 33, 44,
        55, 66, 77, 88, 99, 251, 252, 253, 254, 255,
    ];

    let state = State::from(raw.as_ref());

    assert_eq!(
        State([
            01, 02, 03, 04, 05, 06, 07, 08, 09, 10, 20, 30, 40, 50, 60, 70, 80, 90, 11, 22, 33,
            44, 55, 66, 77, 88, 99, 251, 252, 253, 254, 255
        ]),
        state
    );
}

#[test]
fn state_from_exact_rejects_other_lengths() {
    assert!(State::from_exact(&[0u8; 10]).is_none());
    assert!(State::from_exact(&[0u8; 33]).is_none());
    let s = State::from_exact(&[7u8; 32]).unwrap();
    assert_eq!(s.0, [7u8; 32]);
    assert!(!s.is_zeros());
}

#[test]
fn state_from_short_slice_pads_with_zeros() {
    let s = State::from([1u8, 2, 3].as_ref());
    let mut expected = [0u8; 32];
    expected[0] = 1;
    expected[1] = 2;
    expected[2] = 3;
    assert_eq!(s.0, expected);
    assert_eq!(s.as_bytes(), expected.to_vec());
}
