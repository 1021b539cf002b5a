use backroll::input::{FetchedInput, FrameInput, GameInput, InputQueue};
use backroll::input_value::{InputBytes, InputValue};

type Input = InputBytes<1>;

fn input(frame: i32, value: u8) -> FrameInput<Input> {
    FrameInput { frame, input: InputBytes([value]) }
}

fn fetch(queue: &mut InputQueue<Input>, frame: i32) -> (bool, u8) {
    let fetched = queue.get_input(frame);
    let is_prediction = fetched.is_prediction();
    let unwrapped = fetched.unwrap();
    assert_eq!(unwrapped.frame, frame);
    (is_prediction, unwrapped.input.0[0])
}

#[test]
fn frame_inputs_default_to_nothing() {
    let mut none: FrameInput<Input> = FrameInput::default();
    assert_eq!(none, input(-1, 0));
    none.input = InputBytes([4]);
    none.clear();
    assert_eq!(none, input(-1, 0));
    assert!(input(1, 2) == input(1, 2));
    assert!(input(1, 2) != input(2, 2));
    assert!(input(1, 2) != input(1, 3));
}

#[test]
fn game_inputs_default_to_nothing() {
    let mut game: GameInput<Input> = GameInput::default();
    assert_eq!(game.frame, -1);
    assert_eq!(game.disconnected, 0);
    assert_eq!(game.inputs, [InputBytes([0]); 8]);
    game.frame = 3;
    game.disconnected = 5;
    game.inputs[2] = InputBytes([9]);
    game.clear();
    assert_eq!(game.frame, 3);
    assert_eq!(game.disconnected, 5);
    assert_eq!(game.inputs, [InputBytes([0]); 8]);
}

#[test]
fn input_values_are_their_bytes() {
    let value = InputBytes([1u8, 2, 3]);
    assert_eq!(value.to_bytes(), vec![1, 2, 3]);
    assert_eq!(InputBytes::<3>::from_bytes(&[1, 2, 3]).unwrap(), value);
    assert!(InputBytes::<3>::from_bytes(&[1, 2]).is_err());
    assert!(InputBytes::<3>::from_bytes(&[1, 2, 3, 4]).is_err());
    assert_eq!(InputBytes::<3>::zeroed(), InputBytes([0, 0, 0]));
    assert!(value != InputBytes([1, 2, 4]));
}

#[test]
fn fetched_inputs_tell_predictions() {
    assert!(!FetchedInput::Normal(input(1, 2)).is_prediction());
    assert!(FetchedInput::Prediction(input(1, 2)).is_prediction());
    assert_eq!(FetchedInput::Prediction(input(1, 2)).unwrap(), input(1, 2));
}

#[test]
fn added_inputs_are_fetched() {
    let mut queue: InputQueue<Input> = InputQueue::new();
    assert_eq!(queue.len(), 0);
    assert_eq!(queue.last_confirmed_frame(), -1);
    for frame in 0..10 {
        assert_eq!(queue.add_input(input(frame, 20 + frame as u8)), frame);
    }
    assert_eq!(queue.len(), 10);
    assert_eq!(queue.last_confirmed_frame(), 9);
    for frame in 0..10 {
        assert_eq!(fetch(&mut queue, frame), (false, 20 + frame as u8));
    }
    assert_eq!(queue.get_confirmed_input(4), Some(&input(4, 24)));
    assert_eq!(queue.get_confirmed_input(10), Some(&input(-1, 0)));
}

#[test]
fn missing_inputs_are_predicted() {
    let mut queue: InputQueue<Input> = InputQueue::new();
    queue.add_input(input(0, 7));
    assert_eq!(fetch(&mut queue, 0), (false, 7));
    assert_eq!(fetch(&mut queue, 1), (true, 7));
    assert_eq!(fetch(&mut queue, 2), (true, 7));
    queue.add_input(input(1, 7));
    queue.add_input(input(2, 7));
    assert_eq!(queue.first_incorrect_frame(), -1);
    queue.add_input(input(3, 8));
    assert_eq!(queue.first_incorrect_frame(), -1);
    assert_eq!(fetch(&mut queue, 3), (false, 8));
}

#[test]
fn players_without_inputs_do_nothing() {
    let mut queue: InputQueue<Input> = InputQueue::new();
    assert_eq!(fetch(&mut queue, 7), (true, 0));
    assert_eq!(fetch(&mut queue, i32::MAX), (true, 0));
}

#[test]
fn the_first_frame_is_predicted_as_zero() {
    let mut queue: InputQueue<Input> = InputQueue::new();
    assert_eq!(fetch(&mut queue, 0), (true, 0));
    queue.add_input(input(0, 3));
    assert_eq!(queue.first_incorrect_frame(), 0);
}

#[test]
fn the_first_wrong_prediction_is_found() {
    let mut queue: InputQueue<Input> = InputQueue::new();
    queue.add_input(input(0, 1));
    for frame in 0..6 {
        fetch(&mut queue, frame);
    }
    queue.add_input(input(1, 1));
    queue.add_input(input(2, 5));
    assert_eq!(queue.first_incorrect_frame(), 2);
    queue.add_input(input(3, 6));
    assert_eq!(queue.first_incorrect_frame(), 2);
    queue.reset_prediction(2);
    assert_eq!(queue.first_incorrect_frame(), -1);
    assert_eq!(fetch(&mut queue, 2), (false, 5));
    assert_eq!(fetch(&mut queue, 3), (false, 6));
    assert_eq!(fetch(&mut queue, 4), (true, 6));
}

#[test]
fn delayed_inputs_are_padded() {
    let mut queue: InputQueue<Input> = InputQueue::new();
    queue.set_frame_delay(2);
    assert_eq!(queue.add_input(input(0, 5)), 2);
    assert_eq!(queue.len(), 3);
    assert_eq!(fetch(&mut queue, 0), (false, 0));
    assert_eq!(fetch(&mut queue, 1), (false, 0));
    assert_eq!(fetch(&mut queue, 2), (false, 5));
    queue.set_frame_delay(4);
    assert_eq!(queue.add_input(input(1, 6)), 5);
    assert_eq!(fetch(&mut queue, 3), (false, 5));
    assert_eq!(fetch(&mut queue, 4), (false, 5));
    assert_eq!(fetch(&mut queue, 5), (false, 6));
}

#[test]
fn inputs_are_dropped_when_the_delay_shrinks() {
    let mut queue: InputQueue<Input> = InputQueue::new();
    queue.set_frame_delay(2);
    queue.add_input(input(0, 5));
    queue.set_frame_delay(0);
    assert_eq!(queue.add_input(input(1, 6)), -1);
    assert_eq!(queue.add_input(input(2, 7)), -1);
    assert_eq!(queue.add_input(input(3, 8)), 3);
    assert_eq!(queue.last_confirmed_frame(), 3);
    assert_eq!(fetch(&mut queue, 2), (false, 5));
    assert_eq!(fetch(&mut queue, 3), (false, 8));
}

#[test]
fn confirmed_inputs_are_discarded() {
    let mut queue: InputQueue<Input> = InputQueue::new();
    for frame in 0..300 {
        queue.add_input(input(frame, frame as u8));
        assert_eq!(fetch(&mut queue, frame), (false, frame as u8));
        if frame > 0 {
            queue.discard_confirmed_frames(frame - 1);
        }
    }
    assert_eq!(queue.len(), 1);
    assert_eq!(queue.last_confirmed_frame(), 299);
    assert_eq!(fetch(&mut queue, 299), (false, 299i32 as u8));
    queue.discard_confirmed_frames(299);
    assert_eq!(queue.len(), 1);
}

#[test]
fn nothing_is_discarded_before_anything_is_asked_for() {
    let mut queue: InputQueue<Input> = InputQueue::new();
    queue.add_input(input(0, 1));
    queue.add_input(input(1, 2));
    queue.discard_confirmed_frames(0);
    assert_eq!(queue.len(), 2);
    assert_eq!(fetch(&mut queue, 0), (false, 1));
    queue.discard_confirmed_frames(0);
    assert_eq!(queue.len(), 1);
}
