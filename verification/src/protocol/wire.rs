//! The numbers by which the messages of a connection are told apart.
use super::message::{Message, MessageData};
use super::{random, PeerState, MAX_SEQ_DISTANCE};
use vstd::prelude::*;

verus! {

/// The number after a sequence number.
pub open spec fn next_number(seq: u16) -> u16 {
    if seq == u16::MAX {
        0
    } else {
        (seq + 1) as u16
    }
}

/// How many steps a sequence number is ahead of another one.
pub open spec fn distance(from: u16, to: u16) -> int {
    (to - from) % 0x1_0000
}

/// Numbers the messages that are sent.
#[derive(Clone, Copy, Debug, PartialEq, Eq, Structural)]
pub struct Numbering {
    /// The number that the sender has chosen for itself.
    pub magic: u16,
    /// The number of the next message.
    pub next_send_seq: u16,
}

impl Numbering {
    /// A numbering that begins with zero, for a sender that chooses its number by chance:
    /// see `from_random`. Any number may come of it, zero too.
    pub fn new() -> (r: Self)
        ensures
            r.next_send_seq == 0,
    {
        Self::from_random(random())
    }

    /// A numbering that begins with zero, for a sender that takes the low half of a number
    /// that was drawn.
    pub fn from_random(drawn: u32) -> (r: Self)
        ensures
            r.magic == drawn % 0x1_0000,
            r.next_send_seq == 0,
    {
        let magic: u16 =
            #[verifier::truncate]
            (drawn as u16);
        assert(drawn as u16 == drawn % 0x1_0000) by (bit_vector);
        Self::with_magic(magic)
    }

    /// A numbering that begins with zero, for a sender that has chosen its number.
    pub fn with_magic(magic: u16) -> (r: Self)
        ensures
            r == (Numbering { magic, next_send_seq: 0 }),
    {
        Self { magic, next_send_seq: 0 }
    }

    /// Makes a message of what is to be said. The number is used up, whether or not the
    /// message is sent in the end.
    pub fn wrap(&mut self, data: MessageData) -> (r: Message)
        ensures
            r == (Message {
                magic: old(self).magic,
                sequence_number: old(self).next_send_seq,
                data,
            }),
            *final(self) == (Numbering {
                next_send_seq: next_number(old(self).next_send_seq),
                ..*old(self)
            }),
    {
        let message = Message { magic: self.magic, sequence_number: self.next_send_seq, data };
        self.next_send_seq = self.next_send_seq.wrapping_add(1);
        message
    }
}

/// Keeps out the messages that should not be heeded.
#[derive(Clone, Copy, Debug, PartialEq, Eq, Structural)]
pub struct MessageFilter {
    /// The number of the last message that was let in.
    pub next_recv_seq: u16,
}

impl Default for MessageFilter {
    fn default() -> (r: Self)
        ensures
            r.next_recv_seq == 0,
    {
        Self { next_recv_seq: 0 }
    }
}

impl MessageFilter {
    /// Whether a message should be heeded. One of the handshake should not if it comes from
    /// somebody else than the peer that the connection runs with, or if it comes too late.
    pub open spec fn lets_in(self, state: PeerState, message: Message) -> bool {
        message.data is SyncRequest || message.data is SyncReply ==> {
            &&& state matches PeerState::Running { remote_magic } ==> message.magic == remote_magic
            &&& distance(self.next_recv_seq, message.sequence_number) <= MAX_SEQ_DISTANCE
        }
    }

    /// Tells whether a message should be heeded, and if so, remembers its number.
    pub fn accept(&mut self, state: &PeerState, message: &Message) -> (r: bool)
        ensures
            r == old(self).lets_in(*state, *message),
            final(self).next_recv_seq == (if r {
                message.sequence_number
            } else {
                old(self).next_recv_seq
            }),
    {
        let seq: u16 = message.sequence_number;
        if message.data.is_sync_message() {
            if let PeerState::Running { remote_magic } = *state {
                if message.magic != remote_magic {
                    return false;
                }
            }
            let skipped: u16 = seq.wrapping_sub(self.next_recv_seq);
            if skipped > MAX_SEQ_DISTANCE {
                return false;
            }
        }
        self.next_recv_seq = seq;
        true
    }
}

/// Messages that come in the order in which they were sent are let in, also where some
/// of those in between were lost.
pub proof fn law_messages_in_order_are_let_in(
    filter: MessageFilter,
    state: PeerState,
    message: Message,
    lost: int,
)
    requires
        0 <= lost < MAX_SEQ_DISTANCE,
        message.sequence_number == (filter.next_recv_seq + 1 + lost) % 0x1_0000,
        state matches PeerState::Running { remote_magic } ==> message.magic == remote_magic,
    ensures
        filter.lets_in(state, message),
{
}

/// A message of the handshake that was sent before the last one that was let in is not let
/// in, unless it is older by half of all numbers or more.
pub proof fn law_late_messages_are_kept_out(
    filter: MessageFilter,
    state: PeerState,
    message: Message,
    late: int,
)
    requires
        message.data is SyncRequest || message.data is SyncReply,
        0 < late < MAX_SEQ_DISTANCE,
        message.sequence_number == (filter.next_recv_seq - late) % 0x1_0000,
    ensures
        !filter.lets_in(state, message),
{
}

/// Consecutive messages have consecutive numbers.
pub proof fn law_numbers_are_consecutive(seq: u16)
    ensures
        distance(seq, next_number(seq)) == 1,
{
}

/// Numbers go up by one, and begin again with zero behind 65535.
pub proof fn law_numbers_go_round(seq: u16)
    ensures
        next_number(seq) == (if seq == 65535 {
            0
        } else {
            seq + 1
        }),
{
}

/// Only messages of the handshake are kept out. While the connection runs, those of a
/// stranger are; and in any state those whose number is not among the 32768 that follow the
/// last one that was let in, and not that one again.
pub proof fn law_filter_keeps_out_strangers_and_late_messages(
    filter: MessageFilter,
    state: PeerState,
    message: Message,
)
    ensures
        !(message.data is SyncRequest || message.data is SyncReply) ==> filter.lets_in(
            state,
            message,
        ),
        message.data is SyncRequest || message.data is SyncReply ==> {
            let ahead = if message.sequence_number >= filter.next_recv_seq {
                message.sequence_number - filter.next_recv_seq
            } else {
                message.sequence_number - filter.next_recv_seq + 65536
            };
            let is_stranger = state matches PeerState::Running { remote_magic } && message.magic
                != remote_magic;
            filter.lets_in(state, message) <==> !is_stranger && ahead <= 32768
        },
{
}

} // verus!
