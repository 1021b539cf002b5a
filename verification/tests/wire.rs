use backroll::protocol::message::{MessageData, SyncRequest};
use backroll::protocol::wire::{MessageFilter, Numbering};
use backroll::protocol::PeerState;

fn request() -> MessageData {
    MessageData::from(SyncRequest { random: 1 })
}

#[test]
fn messages_are_numbered() {
    let mut numbering = Numbering::with_magic(9);
    let first = numbering.wrap(MessageData::KeepAlive);
    let second = numbering.wrap(request());
    assert_eq!((first.magic, first.sequence_number), (9, 0));
    assert_eq!((second.magic, second.sequence_number), (9, 1));
    assert!(!first.data.is_sync_message());
    assert!(second.data.is_sync_message());

    let mut last = Numbering { magic: 9, next_send_seq: u16::MAX };
    assert_eq!(last.wrap(request()).sequence_number, u16::MAX);
    assert_eq!(last.wrap(request()).sequence_number, 0);
}

#[test]
fn senders_choose_their_numbers() {
    let chosen: Vec<u16> = (0..40).map(|_| Numbering::new().magic).collect();
    assert!(chosen.iter().any(|magic| *magic != chosen[0]));
    assert_eq!(Numbering::new().next_send_seq, 0);
}

#[test]
fn the_low_half_of_a_drawn_number_is_taken() {
    assert_eq!(
        Numbering::from_random(0x1234_5678),
        Numbering { magic: 0x5678, next_send_seq: 0 }
    );
    assert_eq!(Numbering::from_random(0x0001_0000).magic, 0);
    assert_eq!(Numbering::from_random(u32::MAX).magic, u16::MAX);
}

#[test]
fn messages_in_order_are_let_in() {
    let mut numbering = Numbering::with_magic(9);
    let mut filter = MessageFilter::default();
    let state = PeerState::Running { remote_magic: 9 };
    for i in 0..70000u32 {
        let message = numbering.wrap(request());
        if i % 3 != 1 {
            assert!(filter.accept(&state, &message));
            assert_eq!(filter.next_recv_seq, message.sequence_number);
        }
    }
}

#[test]
fn late_messages_of_the_handshake_are_kept_out() {
    let mut numbering = Numbering::with_magic(9);
    let early = numbering.wrap(request());
    let alive = numbering.wrap(MessageData::KeepAlive);
    let mut filter = MessageFilter { next_recv_seq: 100 };
    let state = PeerState::Connecting { random: 1 };
    assert!(!filter.accept(&state, &early));
    assert_eq!(filter.next_recv_seq, 100);
    assert!(filter.accept(&state, &alive));
    assert_eq!(filter.next_recv_seq, 1);

    let mut edge = Numbering { magic: 9, next_send_seq: 32768 };
    assert!(MessageFilter::default().accept(&state, &edge.wrap(request())));
    assert!(!MessageFilter::default().accept(&state, &edge.wrap(request())));
}

#[test]
fn strangers_are_kept_out_while_the_connection_runs() {
    let mut numbering = Numbering::with_magic(8);
    let message = numbering.wrap(request());
    let alive = numbering.wrap(MessageData::KeepAlive);
    let mut filter = MessageFilter::default();
    let running = PeerState::Running { remote_magic: 9 };
    assert!(!filter.accept(&running, &message));
    assert!(filter.accept(&running, &alive));
    assert!(MessageFilter::default().accept(&PeerState::Interrupted { remote_magic: 9 }, &message));
}
