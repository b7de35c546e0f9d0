use hematite::statistics::savestate::{decode_state, encode_state, StateError};

#[test]
fn encode_state_matches_native_little_endian() {
    let words = vec![1.5f32.to_le_bytes(), (-2.0f32).to_le_bytes()];
    let bytes = encode_state([3, 4, 5], &words);
    let mut expected: Vec<u8> = vec![];
    for d in [3usize, 4, 5] {
        expected.extend_from_slice(&d.to_le_bytes());
    }
    expected.extend_from_slice(&1.5f32.to_le_bytes());
    expected.extend_from_slice(&(-2.0f32).to_le_bytes());
    assert_eq!(bytes, expected);
}

#[test]
fn save_then_load_roundtrip() {
    let words = vec![[1, 2, 3, 4], [5, 6, 7, 8], [255, 0, 255, 0]];
    let dims = [usize::MAX, 0, 123456789];
    let bytes = encode_state(dims, &words);
    assert_eq!(decode_state(&bytes), Ok((dims, words)));
}

#[test]
fn load_refuses_partial_word() {
    let mut bytes = encode_state([1, 1, 1], &[[9, 9, 9, 9]]);
    bytes.push(0);
    assert_eq!(decode_state(&bytes), Err(StateError::InvalidLength));
}

#[test]
fn load_of_dimensions_only() {
    let bytes = encode_state([2, 3, 4], &[]);
    assert_eq!(bytes.len(), 3 * std::mem::size_of::<usize>());
    assert_eq!(decode_state(&bytes), Ok(([2, 3, 4], vec![])));
}
