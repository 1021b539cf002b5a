use backroll::input::FrameInput;
use backroll::input_value::InputBytes;
use backroll::protocol::event::Event;
use backroll::protocol::message::{
    Input, InputAck, Message, MessageData, QualityReply, QualityReport, SyncReply, SyncRequest,
};
use backroll::protocol::peer::{Peer, PeerConfig, Task};
use backroll::protocol::{ConnectionStatus, PeerError, PeerState};
use backroll::time_sync::{Millis, Nanos, UnixMillis};
use backroll::Config;

struct Game;

impl Config for Game {
    type Input = InputBytes<1>;
    type State = u32;
}

fn at(millis: u64) -> UnixMillis {
    UnixMillis::from_millis(millis)
}

fn peer() -> Peer<Game> {
    Peer::new(
        1,
        PeerConfig {
            disconnect_timeout: Nanos::from_millis(5000),
            disconnect_notify_start: Nanos::from_millis(750),
        },
        vec![ConnectionStatus::default(); 2],
        at(1000),
    )
}

fn message(magic: u16, data: MessageData) -> Message {
    Message { magic, sequence_number: 0, data }
}

fn reply(peer: &Peer<Game>) -> MessageData {
    MessageData::from(SyncReply { random: peer.state().random().unwrap() })
}

fn running_peer(magic: u16) -> Peer<Game> {
    let mut peer = peer();
    for _ in 0..6 {
        let answer = reply(&peer);
        assert_eq!(peer.receive(message(magic, answer), at(1000)), Ok(()));
    }
    peer.take_messages();
    peer.take_events();
    peer.take_tasks();
    peer
}

fn input(frame: i32, value: u8) -> FrameInput<InputBytes<1>> {
    FrameInput { frame, input: InputBytes([value]) }
}

fn names(messages: &[MessageData]) -> Vec<&'static str> {
    messages
        .iter()
        .map(|m| match m {
            MessageData::KeepAlive => "keep alive",
            MessageData::SyncRequest(_) => "request",
            MessageData::SyncReply(_) => "reply",
            MessageData::Input(_) => "input",
            MessageData::InputAck(_) => "ack",
            MessageData::QualityReport(_) => "report",
            MessageData::QualityReply(_) => "quality reply",
        })
        .collect()
}

#[test]
fn states_begin_with_a_number_to_send_back() {
    let state = PeerState::default();
    let random = state.random().unwrap();
    assert_ne!(random, 0);
    assert_eq!(state.create_sync_request(), SyncRequest { random });
    assert!(!state.is_running());
    let numbers: Vec<u32> = (0..20).map(|_| PeerState::default().random().unwrap()).collect();
    assert!(numbers.iter().any(|n| *n != numbers[0]));
}

#[test]
fn states_follow_one_another() {
    let mut state = PeerState::Connecting { random: 7 };
    assert!(!state.interrupt());
    assert!(!state.resume());
    state.start_syncing(3);
    assert_eq!(state, PeerState::Syncing { random: 7, roundtrips_remaining: 3 });
    assert_eq!(state.random(), Some(7));
    state.start_syncing(4);
    assert_eq!(state, PeerState::Syncing { random: 7, roundtrips_remaining: 3 });

    let mut state = PeerState::Running { remote_magic: 9 };
    assert!(state.is_running() && !state.is_interrupted());
    assert!(!state.resume());
    assert!(state.interrupt());
    assert_eq!(state, PeerState::Interrupted { remote_magic: 9 });
    assert!(state.is_running() && state.is_interrupted());
    assert!(!state.interrupt());
    assert!(state.resume());
    assert_eq!(state, PeerState::Running { remote_magic: 9 });
    assert_eq!(state.random(), None);
    assert!(PeerState::Disconnected.is_disconnected());
    assert!(!state.is_disconnected());
}

#[test]
fn a_handshake_takes_its_answers() {
    let mut peer = peer();
    assert_eq!(peer.queue(), 1);
    let asked = peer.state().random().unwrap();
    for remaining in (1..=5).rev() {
        let answer = reply(&peer);
        assert_eq!(peer.receive(message(77, answer), at(2000)), Ok(()));
        let random = peer.state().random().unwrap();
        assert_eq!(peer.state(), PeerState::Syncing { random, roundtrips_remaining: remaining });
        assert!(!peer.is_running());
    }
    let answer = reply(&peer);
    assert_eq!(peer.receive(message(77, answer), at(2500)), Ok(()));
    assert_eq!(peer.state(), PeerState::Running { remote_magic: 77 });
    assert!(peer.is_running());
    assert_eq!(peer.stats().last_input_packet_recv_time, at(2500));

    let requests = peer.take_messages();
    assert_eq!(requests.len(), 5);
    for request in requests {
        match request {
            MessageData::SyncRequest(SyncRequest { random }) => assert_eq!(random, asked),
            other => panic!("{:?}", other),
        }
    }
    let events = peer.take_events();
    assert_eq!(events.len(), 6);
    assert!(matches!(events[0], Event::Connected));
    assert!(matches!(events[1], Event::Synchronizing { total: 5, count: 1 }));
    assert!(matches!(events[4], Event::Synchronizing { total: 5, count: 4 }));
    assert!(matches!(events[5], Event::Synchronized));
    assert_eq!(
        peer.take_tasks(),
        vec![
            Task::Heartbeat { interval: Millis(200) },
            Task::SendQualityReports { interval: Millis(1000) },
            Task::ResendInputs { interval: Millis(1000) },
            Task::UpdateNetworkStats { interval: Millis(1000) },
        ]
    );
}

#[test]
fn wrong_answers_are_ignored() {
    let mut peer = peer();
    let state = peer.state();
    let random = state.random().unwrap().wrapping_add(1);
    let wrong = MessageData::from(SyncReply { random });
    assert_eq!(peer.receive(message(1, wrong), at(1500)), Ok(()));
    assert_eq!(peer.state(), state);
    assert!(peer.take_events().is_empty());
}

#[test]
fn what_is_wrong_with_a_message_is_told_before_it_is_passed_over() {
    let mut peer = peer();
    let random = peer.state().random().unwrap().wrapping_add(1);
    let wrong = message(1, MessageData::from(SyncReply { random }));
    let result = peer.handle_message(wrong, at(1500));
    assert_eq!(result, Err(PeerError::InvalidMessage));
    assert_eq!(peer.conclude(result, at(1500)), Ok(()));
    assert!(peer.is_listening());

    peer.close_messages();
    let answer = reply(&peer);
    let result = peer.handle_message(message(1, answer), at(1500));
    assert_eq!(result, Err(PeerError::RemoteDisconnected));
    assert_eq!(peer.conclude(result, at(1500)), Err(PeerError::RemoteDisconnected));
    assert_eq!(peer.state(), PeerState::Disconnected);
}

#[test]
fn requests_are_answered() {
    let mut peer = running_peer(5);
    peer.receive(message(5, MessageData::from(SyncRequest { random: 40 })), at(1000)).unwrap();
    peer.receive(message(6, MessageData::from(SyncRequest { random: 41 })), at(1000)).unwrap();
    let messages = peer.take_messages();
    assert_eq!(messages.len(), 1);
    assert!(matches!(messages[0], MessageData::SyncReply(SyncReply { random: 40 })));
}

#[test]
fn two_peers_find_each_other() {
    let mut a = peer();
    let mut b = peer();
    a.tick(at(1100)).unwrap();
    b.tick(at(1100)).unwrap();
    for _ in 0..20 {
        for data in a.take_messages() {
            b.receive(message(10, data), at(1100)).unwrap();
        }
        for data in b.take_messages() {
            a.receive(message(20, data), at(1100)).unwrap();
        }
    }
    assert_eq!(a.state(), PeerState::Running { remote_magic: 20 });
    assert_eq!(b.state(), PeerState::Running { remote_magic: 10 });
}

#[test]
fn requests_are_sent_again() {
    let mut peer = peer();
    peer.tick(at(1001)).unwrap();
    assert_eq!(names(&peer.take_messages()), vec!["request"]);
    peer.on_sent(30, at(1010));
    peer.tick(at(1510)).unwrap();
    assert!(peer.take_messages().is_empty());
    peer.tick(at(1511)).unwrap();
    assert_eq!(names(&peer.take_messages()), vec!["request"]);

    let answer = reply(&peer);
    peer.receive(message(3, answer), at(1600)).unwrap();
    peer.take_messages();
    peer.on_sent(30, at(1600));
    peer.tick(at(2300)).unwrap();
    assert!(peer.take_messages().is_empty());
    assert_eq!(peer.stats().packets_sent, 2);
    assert_eq!(peer.stats().bytes_sent, 60);
    assert_eq!(peer.stats().last_send_time, Some(at(1600)));
}

#[test]
fn silence_is_told_and_ends_the_connection() {
    let mut peer = running_peer(5);
    assert_eq!(peer.tick(at(1750)), Ok(()));
    assert!(peer.take_events().is_empty());
    assert_eq!(peer.tick(at(1751)), Ok(()));
    let events = peer.take_events();
    assert_eq!(events.len(), 1);
    assert!(matches!(
        events[0],
        Event::NetworkInterrupted { disconnect_timeout: Nanos(4_250_000_000) }
    ));
    assert_eq!(peer.state(), PeerState::Interrupted { remote_magic: 5 });
    assert_eq!(peer.tick(at(6000)), Ok(()));
    assert!(peer.take_events().is_empty());
    assert_eq!(peer.tick(at(6001)), Err(PeerError::RemoteDisconnected));
    assert_eq!(peer.state(), PeerState::Disconnected);
    assert!(!peer.is_listening());
    assert_eq!(peer.heartbeat(), Err(PeerError::RemoteDisconnected));
    assert_eq!(
        peer.receive(message(5, MessageData::from(SyncRequest { random: 1 })), at(6001)),
        Err(PeerError::RemoteDisconnected)
    );
    assert!(peer.take_messages().is_empty());
}

#[test]
fn parts_of_a_millisecond_are_told_but_not_waited_for() {
    let config = PeerConfig {
        disconnect_timeout: Nanos(5_000_900_000),
        disconnect_notify_start: Nanos(750_500_000),
    };
    let mut peer: Peer<Game> = Peer::new(1, config, vec![], at(1000));
    for _ in 0..6 {
        let answer = reply(&peer);
        peer.receive(message(5, answer), at(1000)).unwrap();
    }
    peer.take_events();
    assert_eq!(peer.tick(at(1750)), Ok(()));
    assert!(peer.take_events().is_empty());
    assert_eq!(peer.tick(at(1751)), Ok(()));
    assert!(matches!(
        peer.take_events()[..],
        [Event::NetworkInterrupted { disconnect_timeout: Nanos(4_250_400_000) }]
    ));
    assert_eq!(peer.tick(at(6000)), Ok(()));
    assert_eq!(peer.tick(at(6001)), Err(PeerError::RemoteDisconnected));
}

#[test]
fn what_is_sent_twice_arrives_once() {
    let mut a = running_peer(5);
    let mut b = running_peer(6);
    for frame in 0..4 {
        a.send_input(input(frame, frame as u8 + 1)).unwrap();
        for data in a.take_messages() {
            b.receive(message(5, data), at(1000)).unwrap();
        }
        match &b.take_events()[..] {
            [Event::Inputs(inputs)] => assert_eq!(inputs, &vec![input(frame, frame as u8 + 1)]),
            other => panic!("{:?}", other),
        }
        let acks = b.take_messages();
        if frame == 2 {
            for ack in acks {
                a.receive(message(6, ack), at(1000)).unwrap();
            }
        }
    }
}

#[test]
fn a_message_ends_an_interruption() {
    let mut peer = running_peer(5);
    peer.tick(at(2000)).unwrap();
    peer.take_events();
    peer.receive(message(5, MessageData::KeepAlive), at(2100)).unwrap();
    assert_eq!(peer.state(), PeerState::Running { remote_magic: 5 });
    assert!(matches!(peer.take_events()[..], [Event::NetworkResumed]));
    peer.tick(at(2850)).unwrap();
    assert!(peer.take_events().is_empty());

    let mut peer = running_peer(5);
    peer.tick(at(2000)).unwrap();
    peer.take_events();
    peer.receive(message(5, input_message(vec![], vec![4, 1, 2])), at(2100)).unwrap();
    assert_eq!(peer.state(), PeerState::Running { remote_magic: 5 });
    assert!(matches!(peer.take_events()[..], [Event::Inputs(_), Event::NetworkResumed]));
    assert_eq!(names(&peer.take_messages()), vec!["ack"]);
}

#[test]
fn a_session_that_does_not_listen_ends_the_connection() {
    let mut peer = peer();
    peer.close_events();
    let answer = reply(&peer);
    assert_eq!(peer.receive(message(1, answer), at(1000)), Err(PeerError::LocalDisconnected));
    assert_eq!(peer.state(), PeerState::Disconnected);

    let mut peer = running_peer(5);
    peer.close_events();
    assert_eq!(peer.tick(at(2000)), Err(PeerError::LocalDisconnected));
    assert_eq!(peer.state(), PeerState::Interrupted { remote_magic: 5 });

    let mut peer = running_peer(5);
    peer.close_messages();
    assert_eq!(peer.send_quality_report(at(2000)), Err(PeerError::RemoteDisconnected));
    assert_eq!(
        peer.receive(message(5, MessageData::from(SyncRequest { random: 1 })), at(2000)),
        Err(PeerError::RemoteDisconnected)
    );
    assert_eq!(peer.state(), PeerState::Disconnected);
}

#[test]
fn sent_inputs_arrive_and_are_acknowledged() {
    let mut a = running_peer(5);
    let mut b = running_peer(6);
    a.send_input(input(0, 40)).unwrap();
    a.send_input(input(1, 41)).unwrap();
    let mut messages = a.take_messages();
    assert_eq!(names(&messages), vec!["input", "input"]);
    b.receive(message(5, messages.pop().unwrap()), at(1200)).unwrap();
    let events = b.take_events();
    assert_eq!(events.len(), 1);
    match &events[0] {
        Event::Inputs(inputs) => assert_eq!(inputs, &vec![input(0, 40), input(1, 41)]),
        other => panic!("{:?}", other),
    }
    assert_eq!(b.stats().last_input_packet_recv_time, at(1200));
    let acks = b.take_messages();
    assert_eq!(acks.len(), 1);
    assert!(matches!(acks[0], MessageData::InputAck(InputAck { ack_frame: 1 })));

    b.receive(message(5, messages.pop().unwrap()), at(1300)).unwrap();
    assert!(b.take_events().is_empty());

    for ack in acks {
        a.receive(message(6, ack), at(1300)).unwrap();
    }
    assert_eq!(a.resend_inputs(at(1500)), Ok(true));
    match &a.take_messages()[..] {
        [MessageData::Input(again)] => {
            assert_eq!(again.start_frame, 1);
            assert_eq!(again.ack_frame, -1);
            assert_eq!(again.bits, vec![2, 1]);
            assert_eq!(again.peer_connect_status, vec![ConnectionStatus::default(); 2]);
        }
        other => panic!("{:?}", other),
    }
}

#[test]
fn inputs_are_not_taken_before_the_connection_runs() {
    let mut peer = peer();
    peer.send_input(input(0, 1)).unwrap();
    match &peer.take_messages()[..] {
        [MessageData::Input(sent)] => {
            assert_eq!(sent.start_frame, -1);
            assert!(sent.bits.is_empty());
        }
        other => panic!("{:?}", other),
    }
    assert_eq!(peer.resend_inputs(at(9000)), Ok(false));
    assert_eq!(peer.send_quality_report(at(9000)), Ok(false));
    assert!(peer.is_sendable(65535));
    assert!(!peer.is_sendable(65536));
}

#[test]
fn inputs_are_resent_when_none_have_come() {
    let mut peer = running_peer(5);
    assert_eq!(peer.resend_inputs(at(1200)), Ok(true));
    assert!(peer.take_messages().is_empty());
    assert_eq!(peer.resend_inputs(at(1201)), Ok(true));
    assert_eq!(names(&peer.take_messages()), vec!["input"]);
    assert_eq!(peer.stats().last_input_packet_recv_time, at(1201));
}

fn input_message(status: Vec<ConnectionStatus>, bits: Vec<u8>) -> MessageData {
    MessageData::from(Input { peer_connect_status: status, start_frame: 0, ack_frame: -1, bits })
}

#[test]
fn the_status_of_players_only_grows() {
    let mut peer = running_peer(5);
    let gone = ConnectionStatus { disconnected: true, last_frame: 3 };
    let behind = ConnectionStatus { disconnected: false, last_frame: 7 };
    peer.receive(message(5, input_message(vec![gone], vec![0])), at(1000)).unwrap();
    assert_eq!(*peer.get_peer_connect_status(0), gone);
    assert_eq!(*peer.get_peer_connect_status(1), ConnectionStatus::default());
    peer.receive(message(5, input_message(vec![behind, gone, behind], vec![0])), at(1000)).unwrap();
    assert_eq!(
        *peer.get_peer_connect_status(0),
        ConnectionStatus { disconnected: true, last_frame: 7 }
    );
    assert_eq!(*peer.get_peer_connect_status(1), gone);
    assert_eq!(*peer.get_peer_connect_status(2), behind);
    assert_eq!(peer.local_player_count(), 2);
    assert_eq!(peer.peer_player_count(), 3);
    assert!(peer.take_events().is_empty());
}

#[test]
fn inputs_that_cannot_be_read_are_ignored() {
    let mut peer = running_peer(5);
    let cut = message(5, input_message(vec![], vec![6, 1]));
    assert!(peer.admits(&cut, at(4000)));
    assert_eq!(peer.receive(cut, at(1400)), Ok(()));
    assert!(peer.take_events().is_empty());
    peer.tick(at(1751)).unwrap();
    assert_eq!(peer.take_events().len(), 1);
    assert!(!peer.admits(&message(5, input_message(vec![], vec![128])), at(4000)));
}

#[test]
fn reports_measure_the_way() {
    let mut a = running_peer(5);
    let mut b = running_peer(6);
    assert_eq!(a.send_quality_report(at(3000)), Ok(true));
    for data in a.take_messages() {
        assert!(matches!(
            data,
            MessageData::QualityReport(QualityReport { frame_advantage: 0, ping: UnixMillis(3000) })
        ));
        b.receive(message(5, data), at(3020)).unwrap();
    }
    for data in b.take_messages() {
        assert!(matches!(data, MessageData::QualityReply(QualityReply { pong: UnixMillis(3000) })));
        let answer = message(6, data);
        assert!(!a.admits(&answer, at(2999)));
        assert!(a.admits(&answer, at(3060)));
        a.receive(answer, at(3060)).unwrap();
    }
    let stats = a.get_network_stats(4, 5);
    assert_eq!(stats.ping, Millis(60));
    assert_eq!(stats.send_queue_len, 4);
    assert_eq!(stats.recv_queue_len, 5);
}

#[test]
fn frame_advantages_are_estimated() {
    let mut peer = running_peer(5);
    peer.receive(message(5, input_message(vec![], vec![4, 1, 2])), at(1000)).unwrap();
    peer.set_local_frame_number(9);
    assert_eq!(peer.get_network_stats(0, 0).local_frames_behind, 1 - 9);
    peer.receive(
        message(5, MessageData::from(QualityReply { pong: at(1000) })),
        at(5999),
    )
    .unwrap();
    peer.set_local_frame_number(9);
    assert_eq!(peer.get_network_stats(0, 0).local_frames_behind, 1 + 2 * 60 - 9);
    peer.receive(
        message(
            5,
            MessageData::from(QualityReport { frame_advantage: -4, ping: at(1) }),
        ),
        at(1000),
    )
    .unwrap();
    assert_eq!(peer.get_network_stats(0, 0).remote_frames_behind, -4);

    peer.send_input(input(0, 1)).unwrap();
    assert_eq!(peer.frame_advantages(), Some((112, -4)));
    assert_eq!(peer.recommend_frame_delay(false, 8), 0);
    assert_eq!(peer.recommend_frame_delay(true, 2), 0);
    assert_eq!(peer.recommend_frame_delay(true, 8), 8);
    assert_eq!(peer.recommend_frame_delay(true, 80), 9);
}

#[test]
fn times_that_cannot_be_added_up_are_told() {
    let config = PeerConfig {
        disconnect_timeout: Nanos::from_millis(500),
        disconnect_notify_start: Nanos::from_millis(900),
    };
    let peer: Peer<Game> = Peer::new(0, config, vec![], at(1000));
    assert!(peer.can_tick(at(1900)));
    assert!(!peer.can_tick(at(1901)));
    assert!(peer.can_resend(at(9000)));
    let late: Peer<Game> = Peer::new(0, config, vec![], at(u64::MAX - 600));
    assert!(!late.can_tick(at(0)));
    let mut sent: Peer<Game> = Peer::new(0, config, vec![], at(1000));
    sent.on_sent(1, at(u64::MAX - 499));
    assert!(!sent.can_tick(at(1000)));
    sent.disconnect();
    assert!(sent.can_tick(at(1000)));
    assert!(peer.can_set_local_frame_number(i32::MAX));
    assert!(peer.can_set_local_frame_number(i32::MIN));
    let mut running = running_peer(5);
    running.receive(message(5, input_message(vec![], vec![4, 1, 2])), at(1000)).unwrap();
    assert!(!running.can_set_local_frame_number(i32::MIN));
    assert!(peer.can_recommend());
}

#[test]
fn traffic_is_measured_while_the_connection_runs() {
    let mut peer = peer();
    assert_eq!(peer.measure_traffic(None, at(5)), None);
    let mut peer_running = running_peer(5);
    peer_running.on_sent(100, at(2000));
    peer_running.on_sent(50, at(2000));
    let traffic = peer_running.measure_traffic(None, at(3000)).unwrap();
    assert_eq!(traffic.start_time, at(3000));
    assert_eq!(traffic.elapsed, Millis(0));
    let traffic = peer_running.measure_traffic(Some(at(3000)), at(4500)).unwrap();
    assert_eq!(traffic.start_time, at(3000));
    assert_eq!(traffic.elapsed, Millis(1500));
    assert_eq!(traffic.total_bytes_sent, 150 + 2 * 28);
    peer_running.set_kbps_sent(12);
    assert_eq!(peer_running.get_network_stats(0, 0).kbps_sent, 12);
    peer.disconnect();
    assert_eq!(peer.state(), PeerState::Disconnected);
}

#[test]
fn local_status_is_sent_along() {
    let mut peer = running_peer(5);
    let status = ConnectionStatus { disconnected: true, last_frame: 12 };
    peer.set_local_connect_status(1, status);
    peer.send_input(input(0, 1)).unwrap();
    match &peer.take_messages()[..] {
        [MessageData::Input(sent)] => {
            assert_eq!(sent.peer_connect_status, vec![ConnectionStatus::default(), status]);
        }
        other => panic!("{:?}", other),
    }
}
