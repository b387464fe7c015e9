use atomic_recall::embedding::{embedding_from_blob, embedding_to_blob};

#[test]
fn blob_is_little_endian_floats() {
    let floats = [1.0f32, -2.5, 0.0, f32::MAX];
    let bits: Vec<u32> = floats.iter().map(|f| f.to_bits()).collect();
    let expected: Vec<u8> = floats.iter().flat_map(|f| f.to_le_bytes()).collect();
    assert_eq!(embedding_to_blob(&bits), expected);
}

#[test]
fn blob_reads_back_as_stored() {
    let bits = vec![0u32, 1, 0xdead_beef, u32::MAX, 0x3f80_0000];
    assert_eq!(embedding_from_blob(&embedding_to_blob(&bits)), bits);
    assert_eq!(embedding_from_blob(&embedding_to_blob(&vec![])), Vec::<u32>::new());
}

#[test]
fn trailing_bytes_are_ignored() {
    let blob = vec![0, 0, 0x80, 0x3f, 1, 2, 3];
    assert_eq!(embedding_from_blob(&blob), vec![0x3f80_0000]);
    assert_eq!(embedding_from_blob(&vec![1, 2, 3]), Vec::<u32>::new());
}
