//! What the two ends of a connection say to each other.
use super::ConnectionStatus;
use crate::time_sync::UnixMillis;
use crate::Frame;
use vstd::prelude::*;

verus! {

/// A message, with what tells its sender and its place in the order.
#[derive(Clone, Debug)]
pub struct Message {
    /// A number that the sender has chosen for itself.
    pub magic: u16,
    /// How many messages were sent before; wraps around.
    pub sequence_number: u16,
    pub data: MessageData,
}

/// What a message says.
#[derive(Clone, Debug)]
pub enum MessageData {
    /// Nothing, but that the sender is there.
    KeepAlive,
    /// A request to answer, to begin with.
    SyncRequest(SyncRequest),
    /// The answer to such a request.
    SyncReply(SyncReply),
    /// Inputs of the local player.
    Input(Input),
    /// Up to which frame inputs have come.
    InputAck(InputAck),
    /// How far the sender is ahead, and when it says so.
    QualityReport(QualityReport),
    /// The answer to such a report.
    QualityReply(QualityReply),
}

/// Inputs of the local player, and what it knows of the others.
#[derive(Clone, Debug)]
pub struct Input {
    pub peer_connect_status: Vec<ConnectionStatus>,
    pub start_frame: Frame,
    pub ack_frame: Frame,
    pub bits: Vec<u8>,
}

/// Up to which frame inputs have come.
#[derive(Clone, Copy, Debug, PartialEq, Eq, Structural)]
pub struct InputAck {
    pub ack_frame: Frame,
}

/// A number to be sent back.
#[derive(Clone, Copy, Debug, PartialEq, Eq, Structural)]
pub struct SyncRequest {
    pub random: u32,
}

/// The number that was in the request.
#[derive(Clone, Copy, Debug, PartialEq, Eq, Structural)]
pub struct SyncReply {
    pub random: u32,
}

/// How far the sender is ahead, and when it says so.
#[derive(Clone, Copy, Debug, PartialEq, Eq, Structural)]
pub struct QualityReport {
    pub frame_advantage: i32,
    pub ping: UnixMillis,
}

/// The time that was in the report.
#[derive(Clone, Copy, Debug, PartialEq, Eq, Structural)]
pub struct QualityReply {
    pub pong: UnixMillis,
}

/// What a message says, by its contents.
pub enum MessageView {
    KeepAlive,
    SyncRequest(SyncRequest),
    SyncReply(SyncReply),
    Input {
        peer_connect_status: Seq<ConnectionStatus>,
        start_frame: Frame,
        ack_frame: Frame,
        bits: Seq<u8>,
    },
    InputAck(InputAck),
    QualityReport(QualityReport),
    QualityReply(QualityReply),
}

impl View for MessageData {
    type V = MessageView;

    open spec fn view(&self) -> MessageView {
        match *self {
            MessageData::KeepAlive => MessageView::KeepAlive,
            MessageData::SyncRequest(data) => MessageView::SyncRequest(data),
            MessageData::SyncReply(data) => MessageView::SyncReply(data),
            MessageData::Input(data) => MessageView::Input {
                peer_connect_status: data.peer_connect_status@,
                start_frame: data.start_frame,
                ack_frame: data.ack_frame,
                bits: data.bits@,
            },
            MessageData::InputAck(data) => MessageView::InputAck(data),
            MessageData::QualityReport(data) => MessageView::QualityReport(data),
            MessageData::QualityReply(data) => MessageView::QualityReply(data),
        }
    }
}

impl MessageData {
    /// Tells whether the message belongs to the handshake.
    pub fn is_sync_message(&self) -> (r: bool)
        ensures
            r == (self is SyncRequest || self is SyncReply),
    {
        match self {
            Self::SyncRequest(_) | Self::SyncReply(_) => true,
            _ => false,
        }
    }
}

impl From<SyncRequest> for MessageData {
    fn from(value: SyncRequest) -> (r: Self) {
        Self::SyncRequest(value)
    }
}

impl vstd::std_specs::convert::FromSpecImpl<SyncRequest> for MessageData {
    open spec fn obeys_from_spec() -> bool {
        true
    }

    open spec fn from_spec(value: SyncRequest) -> Self {
        MessageData::SyncRequest(value)
    }
}

impl From<SyncReply> for MessageData {
    fn from(value: SyncReply) -> (r: Self) {
        Self::SyncReply(value)
    }
}

impl vstd::std_specs::convert::FromSpecImpl<SyncReply> for MessageData {
    open spec fn obeys_from_spec() -> bool {
        true
    }

    open spec fn from_spec(value: SyncReply) -> Self {
        MessageData::SyncReply(value)
    }
}

impl From<Input> for MessageData {
    fn from(value: Input) -> (r: Self) {
        Self::Input(value)
    }
}

impl vstd::std_specs::convert::FromSpecImpl<Input> for MessageData {
    open spec fn obeys_from_spec() -> bool {
        true
    }

    open spec fn from_spec(value: Input) -> Self {
        MessageData::Input(value)
    }
}

impl From<InputAck> for MessageData {
    fn from(value: InputAck) -> (r: Self) {
        Self::InputAck(value)
    }
}

impl vstd::std_specs::convert::FromSpecImpl<InputAck> for MessageData {
    open spec fn obeys_from_spec() -> bool {
        true
    }

    open spec fn from_spec(value: InputAck) -> Self {
        MessageData::InputAck(value)
    }
}

impl From<QualityReport> for MessageData {
    fn from(value: QualityReport) -> (r: Self) {
        Self::QualityReport(value)
    }
}

impl vstd::std_specs::convert::FromSpecImpl<QualityReport> for MessageData {
    open spec fn obeys_from_spec() -> bool {
        true
    }

    open spec fn from_spec(value: QualityReport) -> Self {
        MessageData::QualityReport(value)
    }
}

impl From<QualityReply> for MessageData {
    fn from(value: QualityReply) -> (r: Self) {
        Self::QualityReply(value)
    }
}

impl vstd::std_specs::convert::FromSpecImpl<QualityReply> for MessageData {
    open spec fn obeys_from_spec() -> bool {
        true
    }

    open spec fn from_spec(value: QualityReply) -> Self {
        MessageData::QualityReply(value)
    }
}

/// A message says what it holds.
pub proof fn law_messages_say_what_they_hold(data: MessageData)
    ensures
        match data {
            MessageData::KeepAlive => data@ == MessageView::KeepAlive,
            MessageData::SyncRequest(request) => data@ == MessageView::SyncRequest(request),
            MessageData::SyncReply(reply) => data@ == MessageView::SyncReply(reply),
            MessageData::Input(input) => data@ == (MessageView::Input {
                peer_connect_status: input.peer_connect_status@,
                start_frame: input.start_frame,
                ack_frame: input.ack_frame,
                bits: input.bits@,
            }),
            MessageData::InputAck(ack) => data@ == MessageView::InputAck(ack),
            MessageData::QualityReport(report) => data@ == MessageView::QualityReport(report),
            MessageData::QualityReply(reply) => data@ == MessageView::QualityReply(reply),
        },
{
}

} // verus!
