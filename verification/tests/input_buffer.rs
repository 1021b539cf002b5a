use backroll::input::FrameInput;
use backroll::input_value::InputBytes;
use backroll::protocol::input_buffer::{InputDecoder, InputEncoder};
use rand::RngCore;

type Input = InputBytes<8>;

fn input(x: i32, y: i32) -> Input {
    let mut bytes = [0u8; 8];
    bytes[0..4].copy_from_slice(&x.to_ne_bytes());
    bytes[4..8].copy_from_slice(&y.to_ne_bytes());
    InputBytes(bytes)
}

#[test]
fn input_buffer_test_same_input_compresses_down() {
    let mut encoder = InputEncoder::<Input>::default();
    let mut decoder = InputDecoder::<Input>::default();
    let mut buf: Vec<Input> = Vec::new();
    for frame in 0..100 {
        let input = input(420, 1337);
        buf.push(input);
        encoder.push(FrameInput::<Input> { frame, input });
    }

    let (start, encoded) = encoder.encode().unwrap();
    let decoded = decoder.decode(start, &encoded).unwrap();
    assert_eq!(start, 0);
    assert_eq!(encoded, vec![4, 164, 1, 9, 4, 57, 5, 233, 24]);
    assert_eq!(
        decoded.into_iter().map(|f| f.input).collect::<Vec<Input>>(),
        buf
    );
    assert_eq!(decoder.last_decoded_frame(), 99);
}

#[test]
fn input_buffer_test_empty_buffer() {
    let mut encoder = InputEncoder::<Input>::default();
    let mut decoder = InputDecoder::<Input>::default();
    let buf: Vec<Input> = Vec::new();

    let (start, encoded) = encoder.encode().unwrap();
    let decoded = decoder.decode(start, &encoded).unwrap();
    assert_eq!(start, -1);
    assert_eq!(
        decoded.into_iter().map(|f| f.input).collect::<Vec<Input>>(),
        buf
    );
    assert_eq!(decoder.last_decoded_frame(), -1);
}

#[test]
fn test_encodes_the_same_until_acknowledged() {
    let mut rng = rand::thread_rng();
    let mut encoder = InputEncoder::<Input>::default();
    let mut buf: Vec<Input> = Vec::new();
    let base = input(rng.next_u32() as i32, rng.next_u32() as i32);
    for frame in 0..100 {
        let input = if rng.next_u32() > u32::MAX / 4 {
            base
        } else {
            input(rng.next_u32() as i32, rng.next_u32() as i32)
        };
        buf.push(input);
        encoder.push(FrameInput::<Input> { frame, input });
    }

    let (start_1, encoded_1) = encoder.encode().unwrap();
    let (start_2, encoded_2) = encoder.encode().unwrap();
    assert_eq!(start_1, start_2);
    assert_eq!(encoded_1, encoded_2);
    encoder.acknowledge_frame(53);
    let (start_3, encoded_3) = encoder.encode().unwrap();
    assert!(start_3 != start_1);
    assert!(encoded_3 != encoded_1);
    assert!(start_3 != start_2);
    assert!(encoded_3 != encoded_2);
}

#[test]
fn input_buffer_test_random_data() {
    let mut rng = rand::thread_rng();
    for _ in 0..100 {
        let mut encoder = InputEncoder::<Input>::default();
        let mut decoder = InputDecoder::<Input>::default();
        let mut buf: Vec<Input> = Vec::new();
        let base = input(rng.next_u32() as i32, rng.next_u32() as i32);
        for frame in 0..100 {
            let input = if rng.next_u32() > u32::MAX / 4 {
                base
            } else {
                input(rng.next_u32() as i32, rng.next_u32() as i32)
            };
            buf.push(input);
            encoder.push(FrameInput::<Input> { frame, input });
        }

        let (start, encoded) = encoder.encode().unwrap();
        let decoded = decoder.decode(start, &encoded).unwrap();
        assert_eq!(start, 0);
        assert!(encoded.len() <= std::mem::size_of::<Input>() * buf.len());
        assert_eq!(decoded.len(), buf.len());
        assert_eq!(decoder.last_decoded_frame(), 99);
        assert_eq!(
            decoded.into_iter().map(|f| f.input).collect::<Vec<Input>>(),
            buf
        );
    }
}

fn small(frame: i32, value: u8) -> FrameInput<InputBytes<1>> {
    FrameInput { frame, input: InputBytes([value]) }
}

#[test]
fn acknowledged_inputs_are_not_sent_again() {
    let mut encoder = InputEncoder::<InputBytes<1>>::default();
    assert_eq!(encoder.last_encoded_frame(), -1);
    for frame in 0..5 {
        encoder.push(small(frame, 10 + frame as u8));
    }
    let (start, bits) = encoder.encode().unwrap();
    assert_eq!(start, 0);
    assert_eq!(bits, vec![10, 10, 1, 7, 1, 3]);
    assert_eq!(encoder.last_encoded_frame(), 4);

    encoder.acknowledge_frame(0);
    assert_eq!(encoder.encode().unwrap(), (0, vec![10, 10, 1, 7, 1, 3]));
    encoder.acknowledge_frame(3);
    assert_eq!(encoder.encode().unwrap(), (3, vec![4, 1, 3]));
    encoder.acknowledge_frame(9);
    assert_eq!(encoder.encode().unwrap(), (4, vec![]));
    assert_eq!(encoder.last_encoded_frame(), 4);
}

#[test]
fn inputs_that_have_come_are_skipped() {
    let mut encoder = InputEncoder::<InputBytes<1>>::default();
    let mut decoder = InputDecoder::<InputBytes<1>>::default();
    encoder.push(small(0, 1));
    encoder.push(small(1, 1));
    let (start, bits) = encoder.encode().unwrap();
    assert!(decoder.admits(start, &bits));
    assert_eq!(decoder.decode(start, &bits).unwrap().len(), 2);
    assert!(decoder.decode(start, &bits).unwrap().is_empty());
    assert_eq!(decoder.last_decoded_frame(), 1);
    let later = decoder.decode(1, &[4, 0, 6]).unwrap();
    assert_eq!(later.len(), 1);
    assert_eq!(later[0].frame, 2);
    assert_eq!(later[0].input, InputBytes([7]));
    decoder.reset();
    assert_eq!(decoder.last_decoded_frame(), -1);
}

#[test]
fn buffers_that_cannot_be_decoded_are_told() {
    let decoder = InputDecoder::<InputBytes<1>>::default();
    assert!(!decoder.admits(0, &[128]));
    assert!(!decoder.admits(i32::MIN, &[0]));
    assert!(!decoder.admits(i32::MAX, &[4, 1, 1]));
    assert!(decoder.admits(i32::MAX - 1, &[4, 1, 1]));
    assert!(!InputDecoder::<InputBytes<0>>::default().admits(0, &[0]));
}

#[test]
fn inputs_that_were_decoded_before_are_passed_over() {
    let mut encoder = InputEncoder::<InputBytes<1>>::default();
    let mut decoder = InputDecoder::<InputBytes<1>>::default();
    let one = FrameInput { frame: 0, input: InputBytes([1]) };
    let two = FrameInput { frame: 1, input: InputBytes([2]) };
    let three = FrameInput { frame: 2, input: InputBytes([7]) };

    encoder.push(one);
    let (start, bits) = encoder.encode().unwrap();
    assert_eq!(decoder.decode(start, &bits).unwrap(), vec![one]);

    encoder.push(two);
    let (start, bits) = encoder.encode().unwrap();
    assert_eq!(start, 0);
    assert_eq!(decoder.decode(start, &bits).unwrap(), vec![two]);
    assert!(decoder.decode(start, &bits).unwrap().is_empty());
    assert_eq!(decoder.last_decoded_frame(), 1);

    encoder.acknowledge_frame(1);
    encoder.push(three);
    let (start, bits) = encoder.encode().unwrap();
    assert_eq!(start, 1);
    assert_eq!(decoder.decode(start, &bits).unwrap(), vec![three]);
    assert_eq!(decoder.last_decoded_frame(), 2);
}

#[test]
fn room_for_inputs_is_told() {
    let mut encoder = InputEncoder::<InputBytes<1000>>::default();
    assert!(encoder.is_sendable(65));
    assert!(!encoder.is_sendable(66));
    assert!(!encoder.is_sendable(usize::MAX));
    encoder.push(FrameInput { frame: 0, input: InputBytes([3; 1000]) });
    assert!(encoder.is_sendable(64));
    assert!(!encoder.is_sendable(65));
    assert!(!encoder.is_sendable(usize::MAX));
    assert!(InputEncoder::<InputBytes<0>>::default().is_sendable(usize::MAX));
}
