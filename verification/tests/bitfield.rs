use backroll::protocol::bitfield::{
    decode, decode_len, encode, encode_len_with_offset, encode_with_offset,
};

#[test]
fn test_should_encode_decode() {
    let mut bits: Vec<u8> = vec![0; 16];
    bits[8] = 0b00000001;

    let enc = encode(&bits);
    assert_eq!(enc.len(), 4);

    let res = decode(&enc).unwrap();

    assert_eq!(res[8], 0b00000001);
    assert_eq!(res, bits);
}

#[test]
fn test_encode() {
    let bitfield = vec![255, 255, 85, 84, 0, 0, 0, 183];
    let enc = encode(&bitfield);
    let correct = vec![11, 4, 85, 84, 13, 2, 183];
    assert_eq!(enc.len(), correct.len());
    assert_eq!(enc, correct);
}

#[test]
fn test_decode_len() {
    let enc = [11, 4, 85, 84, 13, 2, 183];
    assert_eq!(8, decode_len(&enc).unwrap());
}

#[test]
fn test_decode() {
    let enc = [11, 4, 85, 84, 13, 2, 183];
    let res = decode(&enc).unwrap();
    let correct = vec![255, 255, 85, 84, 0, 0, 0, 183];
    assert_eq!(res, correct);
}

#[test]
fn test_not_power_of_two() {
    let deflated = encode(&vec![255, 255, 255, 240]);
    let inflated = decode(&deflated).unwrap();
    assert_eq!(inflated, vec![255, 255, 255, 240]);
}

#[test]
fn test_encodes_empty_bitfield() {
    assert_eq!(decode(&encode(&vec![])).unwrap(), vec![]);
    assert_eq!(decode(&vec![]).unwrap(), vec![]);
    assert_eq!(decode(&vec![0]).unwrap(), vec![]);
    assert_eq!(encode(&vec![]), vec![0]);
}

#[test]
fn test_does_not_trims_remaining_bytes() {
    let mut bitfield = vec![0; 1024];
    bitfield[0] = 64;
    assert_eq!(encode(&bitfield), vec![2, 64, 253, 31]);
}

#[test]
fn the_length_from_the_start_is_that_of_the_whole() {
    for buf in [vec![], vec![0], vec![255, 255, 3], vec![1, 0, 0, 2, 2, 255]] {
        let encoded = encode(&buf);
        assert_eq!(encode_len_with_offset(&buf, 0), encoded.len());
        assert_eq!(encode_with_offset(&buf, 0), (encoded, buf.len()));
    }
}
