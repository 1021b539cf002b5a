use backroll::command::{Command, Commands, LoadState, SaveState};
use backroll::input::FrameInput;
use backroll::input_value::InputBytes;
use backroll::protocol::ConnectionStatus;
use backroll::sync::{PlayerConfig, SavedCell, SavedFrame, SavedState, Sync, SAVED_FRAMES};
use backroll::{BackrollError, Config};

struct Game;

impl Config for Game {
    type Input = InputBytes<1>;
    type State = u64;
}

fn session(players: usize, frame_delay: i32) -> Sync<Game> {
    Sync::new(
        PlayerConfig { player_count: players, frame_delay },
        vec![ConnectionStatus::default(); players],
    )
}

fn remote(frame: i32, value: u8) -> FrameInput<InputBytes<1>> {
    FrameInput { frame, input: InputBytes([value]) }
}

/// Executes commands on a state that is a digest of all inputs so far.
fn execute(session: &mut Sync<Game>, commands: Commands<Game>, state: &mut u64) -> Vec<String> {
    let mut log = Vec::new();
    for command in commands {
        match command {
            Command::Save(save) => {
                log.push(format!("save {}", save.frame));
                save.save_without_hash(session.saved_state_mut(), *state);
            }
            Command::Load(load) => {
                *state = load.load(session.saved_state());
                log.push(format!("load {}", *state));
            }
            Command::AdvanceFrame(inputs) => {
                log.push(format!(
                    "advance {} {} {} {}",
                    inputs.frame, inputs.disconnected, inputs.inputs[0].0[0], inputs.inputs[1].0[0]
                ));
                *state = *state * 1000
                    + inputs.inputs[0].0[0] as u64 * 10
                    + inputs.inputs[1].0[0] as u64;
            }
            Command::Event(event) => log.push(format!("{:?}", event)),
        }
    }
    log
}

#[test]
fn a_new_session_is_at_its_first_frame() {
    let session = session(2, 0);
    assert_eq!(session.player_count(), 2);
    assert_eq!(session.frame_count(), 0);
    assert!(!session.in_rollback());
    assert_eq!(session.check_simulation_consistency(), None);
}

#[test]
fn each_frame_is_simulated_and_saved() {
    let mut session = session(2, 0);
    let mut state = 0;
    session.add_remote_input(0, remote(0, 3));
    session.add_remote_input(1, remote(0, 4));
    let mut commands = Commands::default();
    session.increment_frame(&mut commands);
    let log = execute(&mut session, commands, &mut state);
    assert_eq!(log, vec!["save 0", "advance 0 0 3 4", "save 1"]);
    let mut commands = Commands::default();
    session.increment_frame(&mut commands);
    let log = execute(&mut session, commands, &mut state);
    assert_eq!(log, vec!["advance 1 0 3 4", "save 2"]);
    assert_eq!(session.frame_count(), 2);
}

#[test]
fn a_wrong_prediction_is_rolled_back() {
    let mut session = session(2, 0);
    let mut state = 0;
    for frame in 0..5 {
        session.add_local_input(0, InputBytes([frame as u8 + 1])).unwrap();
        let mut commands = Commands::default();
        session.increment_frame(&mut commands);
        execute(&mut session, commands, &mut state);
    }
    assert_eq!(state, 10_020_030_040_050);

    session.add_remote_input(1, remote(0, 0));
    session.add_remote_input(1, remote(1, 0));
    let mut commands = Commands::default();
    session.check_simulation(&mut commands);
    assert!(execute(&mut session, commands, &mut state).is_empty());

    session.add_remote_input(1, remote(2, 7));
    session.add_remote_input(1, remote(3, 8));
    assert_eq!(session.check_simulation_consistency(), Some(2));
    let mut commands = Commands::default();
    session.check_simulation(&mut commands);
    let log = execute(&mut session, commands, &mut state);
    assert_eq!(
        log,
        vec![
            "load 10020",
            "advance 2 0 3 7",
            "save 3",
            "advance 3 0 4 8",
            "save 4",
            "advance 4 0 5 8",
            "save 5",
        ]
    );
    assert_eq!(state, 10_020_037_048_058);
    assert_eq!(session.frame_count(), 5);
    assert!(!session.in_rollback());
    assert_eq!(session.check_simulation_consistency(), None);
}

#[test]
fn a_rollback_to_the_first_frame_saves_it_again() {
    let mut session = session(2, 0);
    let mut state = 0;
    session.add_local_input(0, InputBytes([1])).unwrap();
    let mut commands = Commands::default();
    session.increment_frame(&mut commands);
    execute(&mut session, commands, &mut state);
    session.add_remote_input(1, remote(0, 9));
    let mut commands = Commands::default();
    session.check_simulation(&mut commands);
    let log = execute(&mut session, commands, &mut state);
    assert_eq!(log, vec!["load 0", "save 0", "advance 0 0 1 9", "save 1"]);
    assert_eq!(state, 19);
}

#[test]
fn the_session_can_go_back_to_each_of_the_last_frames() {
    for back in 0..9 {
        let mut session = session(1, 0);
        let mut state = 0;
        for frame in 0..40 {
            session.add_remote_input(0, remote(frame, 1));
            let mut commands = Commands::default();
            session.increment_frame(&mut commands);
            execute(&mut session, commands, &mut state);
            state %= 1_000_000;
        }
        let mut commands = Commands::default();
        session.adjust_simulation(&mut commands, 40 - back);
        let mut frames = Vec::new();
        for command in commands {
            if let Command::AdvanceFrame(inputs) = command {
                frames.push(inputs.frame);
            }
        }
        assert_eq!(frames, (40 - back..40).collect::<Vec<i32>>());
        assert_eq!(session.frame_count(), 40);
    }
}

#[test]
fn inputs_are_refused_at_the_prediction_barrier() {
    let mut session = session(2, 0);
    for frame in 0..8 {
        assert_eq!(session.add_local_input(0, InputBytes([1])), Ok(frame));
        let mut commands = Commands::default();
        session.increment_frame(&mut commands);
    }
    assert_eq!(
        session.add_local_input(0, InputBytes([1])),
        Err(BackrollError::ReachedPredictionBarrier)
    );
    session.add_remote_input(1, remote(0, 0));
    session.add_remote_input(1, remote(1, 0));
    session.set_last_confirmed_frame(1);
    assert_eq!(session.add_local_input(0, InputBytes([1])), Ok(8));
}

#[test]
fn players_that_are_gone_give_no_inputs() {
    let mut session = session(2, 0);
    let mut state = 0;
    session.add_remote_input(0, remote(0, 3));
    session.add_remote_input(1, remote(0, 4));
    session.set_connect_status(1, ConnectionStatus { disconnected: true, last_frame: 0 });
    let mut commands = Commands::default();
    session.increment_frame(&mut commands);
    session.increment_frame(&mut commands);
    let log = execute(&mut session, commands, &mut state);
    assert_eq!(
        log,
        vec!["save 0", "advance 0 0 3 4", "save 1", "advance 1 2 3 0", "save 2"]
    );
    let confirmed = session.get_confirmed_inputs(0);
    assert_eq!(confirmed.frame, -1);
    assert_eq!(confirmed.disconnected, 2);
    assert_eq!(confirmed.inputs[0], InputBytes([3]));
    assert_eq!(confirmed.inputs[1], InputBytes([0]));
}

#[test]
fn inputs_are_delayed_per_player() {
    let mut session = session(2, 1);
    let mut state = 0;
    session.set_frame_delay(1, 0);
    session.add_remote_input(0, remote(0, 3));
    session.add_remote_input(1, remote(0, 4));
    let mut commands = Commands::default();
    session.increment_frame(&mut commands);
    session.increment_frame(&mut commands);
    let log = execute(&mut session, commands, &mut state);
    assert_eq!(log[1], "advance 0 0 0 4");
    assert_eq!(log[3], "advance 1 0 3 4");
}

#[test]
fn loading_the_next_frame_does_nothing() {
    let mut session = session(1, 0);
    let mut commands = Commands::default();
    session.load_frame(&mut commands, 0);
    assert!(commands.into_iter().next().is_none());
}

#[test]
fn the_latest_saved_frame_is_found() {
    let mut session = session(1, 0);
    let mut commands = Commands::default();
    for _ in 0..3 {
        session.increment_frame(&mut commands);
    }
    let slot = session.get_last_saved_frame();
    assert_eq!(slot, 3);
    assert_eq!(session.saved_state().cell(slot).0.frame, 3);
}

#[test]
fn saved_cells_keep_their_frame() {
    let mut cell: SavedCell<u32> = SavedCell::default();
    assert!(!cell.is_valid());
    cell.reset(4);
    assert!(!cell.is_valid());
    cell.save(SavedFrame { frame: 9, data: Some(Box::new(77)), checksum: Some(5) });
    assert!(cell.is_valid());
    assert_eq!(cell.0.frame, 4);
    assert_eq!(cell.0.checksum, Some(5));
    assert_eq!(cell.load(), 77);
    cell.reset(-1);
    assert!(!cell.is_valid());
}

#[test]
fn saved_states_are_kept_in_a_ring() {
    let mut saved: SavedState<u32> = SavedState::default();
    for frame in 0..13 {
        assert_eq!(saved.push(frame), frame as usize % SAVED_FRAMES);
    }
    assert_eq!(saved.latest(), Some(2));
    assert_eq!(saved.reset_to(5), 5);
    assert_eq!(saved.push(40), 5);
    assert_eq!(saved.cell(5).0.frame, 40);
}

#[test]
fn what_is_saved_is_loaded() {
    let mut saved: SavedState<u32> = SavedState::default();
    let slot = saved.push(0);
    SaveState { slot, frame: 0 }.save(&mut saved, 17);
    assert!(saved.cell(slot).0.checksum.is_some());
    assert_eq!(LoadState { slot }.load(&saved), 17);

    let other = saved.push(1);
    SaveState { slot: other, frame: 1 }.save_with_hash(&mut saved, 18, 99);
    assert_eq!(saved.cell(other).0.checksum, Some(99));
    SaveState { slot: other, frame: 1 }.save_without_hash(&mut saved, 19);
    assert_eq!(saved.cell(other).0.checksum, None);
    assert_eq!(LoadState { slot: other }.load(&saved), 19);
    assert_eq!(LoadState { slot }.load(&saved), 17);
}

#[test]
fn equal_states_have_equal_checksums() {
    let mut saved: SavedState<u32> = SavedState::default();
    for (frame, value) in [(0, 5), (1, 5), (2, 6)] {
        let slot = saved.push(frame);
        SaveState { slot, frame }.save(&mut saved, value);
    }
    assert_eq!(saved.cell(0).0.checksum, saved.cell(1).0.checksum);
    assert_ne!(saved.cell(0).0.checksum, saved.cell(2).0.checksum);
}

#[test]
fn a_rolled_back_client_is_where_it_would_have_been() {
    let value = |frame: i32| ((frame * 7 + 3) % 9) as u8;
    for late in 0..8 {
        let mut session = session(2, 0);
        let mut state = 1;
        for frame in 0..30 {
            if frame >= late {
                session.add_remote_input(1, remote(frame - late, value(frame - late)));
                let mut commands = Commands::default();
                session.check_simulation(&mut commands);
                execute(&mut session, commands, &mut state);
            }
            session.add_remote_input(0, remote(frame, 2));
            let mut commands = Commands::default();
            session.increment_frame(&mut commands);
            execute(&mut session, commands, &mut state);
            state %= 1_000_000_007;
        }
        for frame in 30 - late..30 {
            session.add_remote_input(1, remote(frame, value(frame)));
            let mut commands = Commands::default();
            session.check_simulation(&mut commands);
            execute(&mut session, commands, &mut state);
        }
        let last = session.get_last_saved_frame();
        assert_eq!(session.saved_state().cell(last).0.frame, 30);
        assert_eq!(session.frame_count(), 30);
    }
}
