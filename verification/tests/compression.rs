use backroll::input_value::InputBytes;
use backroll::protocol::compression::{decode, encode, DecodeError, EncodeError};
use rand::RngCore;

type Input = InputBytes<8>;

fn input(x: i32, y: i32) -> Input {
    let mut bytes = [0u8; 8];
    bytes[0..4].copy_from_slice(&x.to_ne_bytes());
    bytes[4..8].copy_from_slice(&y.to_ne_bytes());
    InputBytes(bytes)
}

#[test]
fn compression_test_same_input_compresses_down() {
    let mut buf: Vec<Input> = Vec::new();
    let base = input(120, 120);
    for _ in 0..100 {
        buf.push(input(420, 1337));
    }

    let encoded = encode(&base, &buf).unwrap();
    let decoded = decode(&base, &encoded).unwrap();
    assert_eq!(encoded, vec![4, 220, 1, 9, 4, 65, 5, 233, 24]);
    assert_eq!(decoded, buf);
}

#[test]
fn compression_test_empty_buffer() {
    let buf: Vec<Input> = Vec::new();
    let base = input(120, 120);

    let encoded = encode(&base, &buf).unwrap();
    let decoded = decode(&base, &encoded).unwrap();
    assert_eq!(encoded, vec![0]);
    assert_eq!(decoded, buf);
}

#[test]
fn compression_test_random_data() {
    let mut rng = rand::thread_rng();
    for _ in 0..100 {
        let mut buf: Vec<Input> = Vec::new();
        let base = input(rng.next_u32() as i32, rng.next_u32() as i32);
        for _ in 0..100 {
            if rng.next_u32() > u32::MAX / 4 {
                buf.push(base);
            } else {
                buf.push(input(rng.next_u32() as i32, rng.next_u32() as i32));
            }
        }

        let encoded = encode(&base, &buf).unwrap();
        let decoded = decode(&base, &encoded).unwrap();
        assert!(encoded.len() <= std::mem::size_of::<Input>() * buf.len());
        assert_eq!(decoded, buf);
    }
}

#[test]
fn values_are_told_by_their_differences() {
    let base = InputBytes([0b1100]);
    let buf = vec![InputBytes([0b1010]), InputBytes([0b1010]), InputBytes([0b1011])];
    let encoded = encode(&base, &buf).unwrap();
    assert_eq!(encoded, vec![2, 0b0110, 5, 2, 0b0001]);
    assert_eq!(decode(&base, &encoded).unwrap(), buf);
    let other = decode(&InputBytes([0]), &encoded).unwrap();
    assert_eq!(other, vec![InputBytes([0b0110]), InputBytes([0b0110]), InputBytes([0b0111])]);
}

#[test]
fn too_many_values_are_not_encoded() {
    let base = InputBytes([0u8; 5]);
    let fits = vec![base; 13107];
    let bits = encode(&base, &fits).unwrap();
    assert_eq!(decode(&base, &bits).unwrap(), fits);
    let full = vec![base; 13108];
    match encode(&base, &full) {
        Err(EncodeError::TooBig { len }) => assert_eq!(len, 65540),
        other => panic!("{:?}", other),
    }
    let overflowing = vec![InputBytes([0u8; 4]); 20000];
    match encode(&InputBytes([0u8; 4]), &overflowing) {
        Err(EncodeError::TooBig { len }) => assert_eq!(len, 65536),
        other => panic!("{:?}", other),
    }
}

#[test]
fn too_long_a_buffer_is_not_decoded() {
    let base = InputBytes([0u8]);
    let bits = backroll::protocol::bitfield::encode(&vec![0u8; 65536]);
    match decode(&base, &bits) {
        Err(DecodeError::TooBig { len }) => assert_eq!(len, 65536),
        other => panic!("{:?}", other),
    }
}

#[test]
fn a_cut_buffer_is_not_decoded() {
    let base = InputBytes([0u8]);
    match decode(&base, &[6, 1, 2]) {
        Err(DecodeError::InvalidRLEBitfield { offset, len }) => {
            assert_eq!(offset, 4);
            assert_eq!(len, 3);
        }
        other => panic!("{:?}", other),
    }
}
