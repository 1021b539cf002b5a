//! One end of the connection with a remote peer.
use super::event::{Event, EventView};
use super::input_buffer;
use super::input_buffer::{EncoderView, InputDecoder, InputEncoder};
use super::message::{
    Input, InputAck, Message, MessageData, MessageView, QualityReply, QualityReport, SyncReply,
    SyncRequest,
};
use super::outbox::{Outbox, OutboxView};
use super::{
    ConnectionStatus, PeerError, PeerState, KEEP_ALIVE_INTERVAL, NETWORK_STATS_INTERVAL,
    NUM_SYNC_PACKETS, QUALITY_REPORT_INTERVAL, RUNNING_RETRY_INTERVAL, SYNC_FIRST_RETRY_INTERVAL,
    SYNC_RETRY_INTERVAL, TARGET_TPS, UDP_HEADER_SIZE,
};
use crate::input::FrameInput;
use crate::input_value::InputValue;
use crate::time_sync::{
    Millis, Nanos, TimeSync, TimeSyncView, UnixMillis, FRAME_WINDOW_SIZE, MIN_UNIQUE_FRAMES,
};
use crate::{Config, Frame, NetworkStats, NULL_FRAME};
use vstd::prelude::*;

verus! {

/// What was measured of a connection.
#[derive(Clone, Copy, Debug, PartialEq, Eq, Structural)]
pub struct PeerStats {
    pub packets_sent: usize,
    pub bytes_sent: usize,
    pub last_send_time: Option<UnixMillis>,
    pub last_input_packet_recv_time: UnixMillis,
    pub round_trip_time: Millis,
    pub kbps_sent: u32,
    pub local_frame_advantage: Frame,
    pub remote_frame_advantage: Frame,
}

impl Default for PeerStats {
    fn default() -> (r: Self)
        ensures
            r == (PeerStats {
                packets_sent: 0,
                bytes_sent: 0,
                last_send_time: None,
                last_input_packet_recv_time: UnixMillis(0),
                round_trip_time: Millis(0),
                kbps_sent: 0,
                local_frame_advantage: 0,
                remote_frame_advantage: 0,
            }),
    {
        Self {
            packets_sent: 0,
            bytes_sent: 0,
            last_send_time: None,
            last_input_packet_recv_time: UnixMillis(0),
            round_trip_time: Millis(0),
            kbps_sent: 0,
            local_frame_advantage: 0,
            remote_frame_advantage: 0,
        }
    }
}

/// When a silent connection is given up.
#[derive(Clone, Copy, Debug, PartialEq, Eq, Structural)]
pub struct PeerConfig {
    /// How long a peer may be silent before the connection is given up.
    pub disconnect_timeout: Nanos,
    /// How long a peer may be silent before the session is told.
    pub disconnect_notify_start: Nanos,
}

/// Something that is to be done again and again while a connection runs.
#[derive(Clone, Copy, Debug, PartialEq, Eq, Structural)]
pub enum Task {
    /// Tell the remote peer that the local one is there.
    Heartbeat { interval: Millis },
    /// Tell the remote peer how the local one does.
    SendQualityReports { interval: Millis },
    /// Send inputs again that may have been lost.
    ResendInputs { interval: Millis },
    /// Measure the traffic.
    UpdateNetworkStats { interval: Millis },
}

impl View for Task {
    type V = Task;

    open spec fn view(&self) -> Task {
        *self
    }
}

/// How much was sent, and since when.
#[derive(Clone, Copy, Debug, PartialEq, Eq, Structural)]
pub struct Traffic {
    /// When the measuring began.
    pub start_time: UnixMillis,
    /// How long it has gone on.
    pub elapsed: Millis,
    /// How many bytes were sent, headers included.
    pub total_bytes_sent: usize,
}

/// What one end of a connection knows, and what it wants to have done.
pub struct PeerView<I> {
    /// The queue of the player at the other end.
    pub queue: usize,
    pub config: PeerConfig,
    pub state: PeerState,
    pub stats: PeerStats,
    /// What the local session knows of the players.
    pub local_status: Seq<ConnectionStatus>,
    /// What the remote peer knows of the players.
    pub peer_status: Seq<ConnectionStatus>,
    /// The inputs that are on their way to the remote peer.
    pub encoder: EncoderView<I>,
    /// The last input that came from the remote peer.
    pub last_decoded: FrameInput<I>,
    pub timesync: TimeSyncView<I>,
    /// When the last message came.
    pub last_recv_time: UnixMillis,
    /// Whether messages are still waited for.
    pub is_listening: bool,
    /// What is to be sent.
    pub messages: OutboxView<MessageView>,
    /// What the session is to be told.
    pub events: OutboxView<EventView<I>>,
    /// What is to be started.
    pub tasks: OutboxView<Task>,
}

/// The status of the players after a remote peer told what it knows. Who is gone stays
/// gone, and what is known stays known.
pub open spec fn merged(
    known: Seq<ConnectionStatus>,
    told: Seq<ConnectionStatus>,
) -> Seq<ConnectionStatus> {
    Seq::new(
        if known.len() < told.len() {
            told.len()
        } else {
            known.len()
        },
        |i: int|
            if i >= told.len() {
                known[i]
            } else if i >= known.len() {
                told[i]
            } else {
                ConnectionStatus {
                    disconnected: known[i].disconnected || told[i].disconnected,
                    last_frame: if told[i].last_frame > known[i].last_frame {
                        told[i].last_frame
                    } else {
                        known[i].last_frame
                    },
                }
            },
    )
}

/// The tasks of a connection that has begun to run.
pub open spec fn running_tasks() -> Seq<Task> {
    seq![
        Task::Heartbeat { interval: Millis(KEEP_ALIVE_INTERVAL) },
        Task::SendQualityReports { interval: Millis(QUALITY_REPORT_INTERVAL) },
        Task::ResendInputs { interval: Millis(QUALITY_REPORT_INTERVAL) },
        Task::UpdateNetworkStats { interval: Millis(NETWORK_STATS_INTERVAL) },
    ]
}

/// How many frames pass while a message is under way, in whole seconds of both ways.
pub open spec fn frames_under_way(round_trip_time: Millis) -> int {
    (((round_trip_time.0 as int / 1000 / 2) * TARGET_TPS) as u64) as i32 as int
}

impl<I: InputValue> PeerView<I> {
    /// The connection after something was put up for sending.
    pub open spec fn sending(self, message: MessageView) -> Self {
        Self { messages: self.messages.pushed(message), ..self }
    }

    /// What comes of putting something up for sending.
    pub open spec fn send_result(self) -> Result<(), PeerError> {
        if self.messages.closed {
            Err(PeerError::RemoteDisconnected)
        } else {
            Ok(())
        }
    }

    /// The connection after the session was told something.
    pub open spec fn notifying(self, event: EventView<I>) -> Self {
        Self { events: self.events.pushed(event), ..self }
    }

    /// What comes of telling the session something.
    pub open spec fn notify_result(self) -> Result<(), PeerError> {
        if self.events.closed {
            Err(PeerError::LocalDisconnected)
        } else {
            Ok(())
        }
    }

    /// The connection after it was given up.
    pub open spec fn disconnected(self) -> Self {
        Self {
            state: PeerState::Disconnected,
            is_listening: false,
            messages: self.messages.shut(),
            events: self.events.shut(),
            ..self
        }
    }

    /// The message with the inputs that were not acknowledged.
    pub open spec fn pending_output(self) -> MessageView {
        MessageView::Input {
            peer_connect_status: self.local_status,
            start_frame: self.encoder.start_frame(),
            ack_frame: self.last_decoded.frame,
            bits: self.encoder.bits(),
        }
    }

    /// The connection after the inputs that were not acknowledged were put up for sending.
    pub open spec fn sending_pending(self) -> Self {
        (Self { encoder: self.encoder.sent(), ..self }).sending(self.pending_output())
    }

    /// The connection after it took in an input of the local player.
    pub open spec fn with_input(self, input: FrameInput<I>) -> Self {
        if self.state.runs() {
            Self {
                timesync: self.timesync.advanced(
                    input,
                    self.stats.local_frame_advantage,
                    self.stats.remote_frame_advantage,
                ),
                encoder: EncoderView {
                    pending: self.encoder.pending.push(input),
                    ..self.encoder
                },
                ..self
            }
        } else {
            self
        }
    }

    /// Whether no inputs have come for a while.
    pub open spec fn wants_resend(self, now: UnixMillis) -> bool {
        &&& self.state.runs()
        &&& self.stats.last_input_packet_recv_time.0 + RUNNING_RETRY_INTERVAL < now.0
    }

    /// Whether inputs can be sent again, if they are to be.
    pub open spec fn can_resend(self, now: UnixMillis) -> bool {
        &&& self.state.runs() ==> self.stats.last_input_packet_recv_time.0
            + RUNNING_RETRY_INTERVAL <= u64::MAX
        &&& self.wants_resend(now) ==> self.encoder.is_sendable()
    }

    /// How long an answer is waited for.
    pub open spec fn retry_interval(self) -> Option<u64> {
        match self.state {
            PeerState::Connecting { .. } => Some(SYNC_FIRST_RETRY_INTERVAL),
            PeerState::Syncing { .. } => Some(SYNC_RETRY_INTERVAL),
            _ => None,
        }
    }

    /// Whether a request is to be sent: an answer is missing, and has been for long enough.
    pub open spec fn wants_request(self, now: UnixMillis) -> bool {
        match self.retry_interval() {
            Some(interval) => match self.stats.last_send_time {
                Some(last) => last.0 + interval < now.0,
                None => true,
            },
            None => false,
        }
    }

    /// The request for the remote peer to answer.
    pub open spec fn sync_request(self) -> MessageView {
        MessageView::SyncRequest(SyncRequest { random: self.state.expected()->0 })
    }

    /// The connection after it was looked after.
    pub open spec fn polled(self, now: UnixMillis) -> (Self, Result<(), PeerError>) {
        if self.wants_request(now) {
            (self.sending(self.sync_request()), self.send_result())
        } else {
            (self, Ok(()))
        }
    }

    /// The connection after it was asked to answer.
    pub open spec fn requested(self, magic: u16, random: u32) -> (Self, Result<(), PeerError>) {
        if self.state matches PeerState::Running { remote_magic } && magic != remote_magic {
            (self, Err(PeerError::InvalidMessage))
        } else {
            (self.sending(MessageView::SyncReply(SyncReply { random })), self.send_result())
        }
    }

    /// The connection after an answer came.
    pub open spec fn answered(self, magic: u16, random: u32, now: UnixMillis) -> (
        Self,
        Result<(), PeerError>,
    ) {
        if self.state.expected() is Some && self.state.expected()->0 != random {
            (self, Err(PeerError::InvalidMessage))
        } else {
            match self.state {
                PeerState::Connecting { .. } => {
                    if self.events.closed {
                        (self, Err(PeerError::LocalDisconnected))
                    } else {
                        let told = Self {
                            state: self.state.syncing(NUM_SYNC_PACKETS),
                            ..self.notifying(EventView::Connected)
                        };
                        (told.sending(told.sync_request()), told.send_result())
                    }
                },
                PeerState::Syncing { random, roundtrips_remaining } => {
                    let left = (roundtrips_remaining - 1) as u8;
                    let counted = Self {
                        state: PeerState::Syncing { random, roundtrips_remaining: left },
                        ..self
                    };
                    if self.events.closed {
                        (counted, Err(PeerError::LocalDisconnected))
                    } else if left == 0 {
                        (
                            Self {
                                state: PeerState::Running { remote_magic: magic },
                                stats: PeerStats { last_input_packet_recv_time: now, ..self.stats },
                                tasks: OutboxView {
                                    items: self.tasks.items + running_tasks(),
                                    ..self.tasks
                                },
                                ..self.notifying(EventView::Synchronized)
                            },
                            Ok(()),
                        )
                    } else {
                        let told = counted.notifying(
                            EventView::Synchronizing {
                                total: NUM_SYNC_PACKETS,
                                count: (NUM_SYNC_PACKETS - left) as u8,
                            },
                        );
                        (told.sending(told.sync_request()), told.send_result())
                    }
                },
                PeerState::Running { remote_magic } => {
                    if magic == remote_magic {
                        (self, Ok(()))
                    } else {
                        (self, Err(PeerError::InvalidMessage))
                    }
                },
                _ => (self, Err(PeerError::InvalidMessage)),
            }
        }
    }

    /// The connection after inputs came.
    pub open spec fn given_inputs(
        self,
        told: Seq<ConnectionStatus>,
        start_frame: Frame,
        ack_frame: Frame,
        bits: Seq<u8>,
        now: UnixMillis,
    ) -> (Self, Result<(), PeerError>) {
        let known = Self { peer_status: merged(self.peer_status, told), ..self };
        let inputs = input_buffer::decoded_inputs(self.last_decoded, start_frame, bits);
        if !input_buffer::tells_inputs(bits) {
            (known, Err(PeerError::InvalidMessage))
        } else if inputs.len() == 0 {
            (Self { encoder: self.encoder.acknowledged(ack_frame), ..known }, Ok(()))
        } else if self.events.closed {
            (Self { last_decoded: inputs.last(), ..known }, Err(PeerError::LocalDisconnected))
        } else {
            let taken = (Self {
                last_decoded: inputs.last(),
                stats: PeerStats { last_input_packet_recv_time: now, ..self.stats },
                ..known
            }).notifying(EventView::Inputs(inputs));
            let sent = taken.sending(
                MessageView::InputAck(InputAck { ack_frame: inputs.last().frame }),
            );
            if self.messages.closed {
                (sent, Err(PeerError::RemoteDisconnected))
            } else {
                (Self { encoder: self.encoder.acknowledged(ack_frame), ..sent }, Ok(()))
            }
        }
    }

    /// The connection after the remote peer told how it does.
    pub open spec fn given_report(self, report: QualityReport) -> (Self, Result<(), PeerError>) {
        let known = Self {
            stats: PeerStats { remote_frame_advantage: report.frame_advantage, ..self.stats },
            ..self
        };
        (
            known.sending(MessageView::QualityReply(QualityReply { pong: report.ping })),
            known.send_result(),
        )
    }

    /// Whether a handshake that goes on has answers to wait for, and not too many.
    pub open spec fn is_counting(self) -> bool {
        self.state matches PeerState::Syncing { roundtrips_remaining, .. } ==> 0
            < roundtrips_remaining <= NUM_SYNC_PACKETS
    }

    /// Whether a message may be taken in.
    pub open spec fn can_handle(self, message: MessageView, now: UnixMillis) -> bool {
        match message {
            MessageView::Input { start_frame, bits, .. } => input_buffer::can_decode(
                self.last_decoded,
                start_frame,
                bits,
            ),
            MessageView::QualityReply(reply) => reply.pong.0 <= now.0,
            _ => true,
        }
    }

    /// The connection after a message was taken in.
    pub open spec fn handled(self, magic: u16, message: MessageView, now: UnixMillis) -> (
        Self,
        Result<(), PeerError>,
    ) {
        match message {
            MessageView::KeepAlive => (self, Ok(())),
            MessageView::SyncRequest(data) => self.requested(magic, data.random),
            MessageView::SyncReply(data) => self.answered(magic, data.random, now),
            MessageView::Input { peer_connect_status, start_frame, ack_frame, bits } =>
                self.given_inputs(peer_connect_status, start_frame, ack_frame, bits, now),
            MessageView::InputAck(data) => (
                Self { encoder: self.encoder.acknowledged(data.ack_frame), ..self },
                Ok(()),
            ),
            MessageView::QualityReport(data) => self.given_report(data),
            MessageView::QualityReply(data) => (
                Self {
                    stats: PeerStats {
                        round_trip_time: Millis((now.0 - data.pong.0) as u64),
                        ..self.stats
                    },
                    ..self
                },
                Ok(()),
            ),
        }
    }

    /// The connection after a message came. What is wrong with a message does not matter;
    /// anything else that fails ends the connection.
    pub open spec fn received(self, magic: u16, message: MessageView, now: UnixMillis) -> (
        Self,
        Result<(), PeerError>,
    ) {
        let (after, result) = self.handled(magic, message, now);
        after.concluded(result, now)
    }

    /// The connection after it is known what became of a message.
    pub open spec fn concluded(self, result: Result<(), PeerError>, now: UnixMillis) -> (
        Self,
        Result<(), PeerError>,
    ) {
        match result {
            Ok(()) => {
                let woken = Self { last_recv_time: now, state: self.state.resumed(), ..self };
                if self.state is Interrupted {
                    (woken.notifying(EventView::NetworkResumed), woken.notify_result())
                } else {
                    (woken, Ok(()))
                }
            },
            Err(PeerError::InvalidMessage) => (self, Ok(())),
            Err(err) => (self.disconnected(), Err(err)),
        }
    }

    /// The frame that the remote session is estimated to have come to.
    pub open spec fn remote_frame(self) -> int {
        self.last_decoded.frame + frames_under_way(self.stats.round_trip_time)
    }

    /// Whether the local frame advantage at a frame can be told.
    pub open spec fn has_advantage_at(self, local_frame: Frame) -> bool {
        &&& i32::MIN <= self.remote_frame() <= i32::MAX
        &&& i32::MIN <= self.remote_frame() - local_frame <= i32::MAX
    }

    /// Whether the session is to be told that the remote peer is silent.
    pub open spec fn wants_notice(self, now: UnixMillis) -> bool {
        &&& !(self.state is Interrupted)
        &&& self.last_recv_time.0 + self.config.disconnect_notify_start.millis() < now.0
    }

    /// Whether the remote peer has been silent for too long.
    pub open spec fn is_timed_out(self, now: UnixMillis) -> bool {
        self.last_recv_time.0 + self.config.disconnect_timeout.millis() < now.0
    }

    /// Whether the times that are looked at can be added up.
    pub open spec fn can_tick(self, now: UnixMillis) -> bool {
        let stops = self.wants_notice(now) && self.events.closed;
        &&& !(self.state is Interrupted) ==> self.last_recv_time.0
            + self.config.disconnect_notify_start.millis() <= u64::MAX
        &&& self.wants_notice(now) ==> self.config.disconnect_notify_start.0
            <= self.config.disconnect_timeout.0
        &&& !stops ==> self.last_recv_time.0 + self.config.disconnect_timeout.millis() <= u64::MAX
        &&& !stops && !self.is_timed_out(now) ==> self.can_poll()
    }

    /// Whether the times of the handshake can be added up.
    pub open spec fn can_poll(self) -> bool {
        self.retry_interval() matches Some(interval) ==> (self.stats.last_send_time matches Some(
            last,
        ) ==> last.0 + interval <= u64::MAX)
    }

    /// The connection after the session was told that the remote peer is silent.
    pub open spec fn noticed(self) -> Self {
        (Self { state: self.state.interrupted(), ..self }).notifying(
            EventView::NetworkInterrupted {
                disconnect_timeout: Nanos(
                    (self.config.disconnect_timeout.0
                        - self.config.disconnect_notify_start.0) as u128,
                ),
            },
        )
    }

    /// The connection after some time has passed.
    pub open spec fn ticked(self, now: UnixMillis) -> (Self, Result<(), PeerError>) {
        let told = if self.wants_notice(now) {
            self.noticed()
        } else {
            self
        };
        if self.wants_notice(now) && self.events.closed {
            (told, Err(PeerError::LocalDisconnected))
        } else if self.is_timed_out(now) {
            (told.disconnected(), Err(PeerError::RemoteDisconnected))
        } else {
            told.polled(now)
        }
    }
}

/// One end of the connection with a remote peer.
///
/// It is told what comes and how late it is, and puts up what is to be sent, what the
/// session is to be told and which tasks are to be started.
pub struct Peer<T: Config> {
    queue: usize,
    config: PeerConfig,
    timesync: TimeSync<T::Input>,
    state: PeerState,
    stats: PeerStats,
    local_connect_status: Vec<ConnectionStatus>,
    peer_connect_status: Vec<ConnectionStatus>,
    input_encoder: InputEncoder<T::Input>,
    input_decoder: InputDecoder<T::Input>,
    last_recv_time: UnixMillis,
    is_listening: bool,
    messages: Outbox<MessageData>,
    events: Outbox<Event<T::Input>>,
    tasks: Outbox<Task>,
}

impl<T: Config> View for Peer<T> {
    type V = PeerView<T::Input>;

    closed spec fn view(&self) -> PeerView<T::Input> {
        PeerView {
            queue: self.queue,
            config: self.config,
            state: self.state,
            stats: self.stats,
            local_status: self.local_connect_status@,
            peer_status: self.peer_connect_status@,
            encoder: self.input_encoder@,
            last_decoded: self.input_decoder@,
            timesync: self.timesync@,
            last_recv_time: self.last_recv_time,
            is_listening: self.is_listening,
            messages: self.messages@,
            events: self.events@,
            tasks: self.tasks@,
        }
    }
}

impl<T: Config> Peer<T> {
    /// A connection that is to be made with the peer of a queue. What it is told of the
    /// players it takes for what the remote peer knows, to begin with.
    pub fn new(
        queue: usize,
        config: PeerConfig,
        local_connect_status: Vec<ConnectionStatus>,
        now: UnixMillis,
    ) -> (r: Self)
        ensures
            r@.queue == queue,
            r@.config == config,
            r@.state is Connecting,
            r@.state.expected()->0 != 0,
            r@.stats == (PeerStats {
                packets_sent: 0,
                bytes_sent: 0,
                last_send_time: None,
                last_input_packet_recv_time: UnixMillis(0),
                round_trip_time: Millis(0),
                kbps_sent: 0,
                local_frame_advantage: 0,
                remote_frame_advantage: 0,
            }),
            r@.local_status == local_connect_status@,
            r@.peer_status == local_connect_status@,
            r@.encoder.pending.len() == 0,
            r@.encoder.last_acked == (FrameInput { frame: NULL_FRAME, input: T::Input::zero() }),
            r@.encoder.last_encoded == (FrameInput { frame: NULL_FRAME, input: T::Input::zero() }),
            r@.timesync.local == Seq::new(FRAME_WINDOW_SIZE as nat, |i: int| 0i32),
            r@.timesync.remote == Seq::new(FRAME_WINDOW_SIZE as nat, |i: int| 0i32),
            r@.timesync.last_inputs == Seq::new(
                MIN_UNIQUE_FRAMES as nat,
                |i: int| FrameInput { frame: NULL_FRAME, input: T::Input::zero() },
            ),
            r@.timesync.iteration == 0,
            r@.last_decoded == (FrameInput { frame: NULL_FRAME, input: T::Input::zero() }),
            r@.last_recv_time == now,
            r@.is_listening,
            r@.messages == (OutboxView::<MessageView> { items: Seq::empty(), closed: false }),
            r@.events == (OutboxView::<EventView<T::Input>> {
                items: Seq::empty(),
                closed: false,
            }),
            r@.tasks == (OutboxView::<Task> { items: Seq::empty(), closed: false }),
            r.wf(),
    {
        let mut peer_connect_status: Vec<ConnectionStatus> = Vec::new();
        let mut i: usize = 0;
        while i < local_connect_status.len()
            invariant
                i <= local_connect_status@.len(),
                peer_connect_status@ == local_connect_status@.take(i as int),
            decreases local_connect_status@.len() - i,
        {
            peer_connect_status.push(local_connect_status[i]);
            i += 1;
            assert(peer_connect_status@ =~= local_connect_status@.take(i as int));
        }
        assert(peer_connect_status@ =~= local_connect_status@);
        Self {
            queue,
            config,
            timesync: TimeSync::default(),
            state: PeerState::default(),
            stats: PeerStats::default(),
            local_connect_status,
            peer_connect_status,
            input_encoder: InputEncoder::default(),
            input_decoder: InputDecoder::default(),
            last_recv_time: now,
            is_listening: true,
            messages: Outbox::default(),
            events: Outbox::default(),
            tasks: Outbox::default(),
        }
    }

    /// A handshake that goes on has answers to wait for, and tasks can always be started.
    pub closed spec fn wf(self) -> bool {
        &&& self@.is_counting()
        &&& !self@.tasks.closed
    }

    /// The queue of the player at the other end.
    pub fn queue(&self) -> (r: usize)
        ensures
            r == self@.queue,
    {
        self.queue
    }

    /// How far the connection has come.
    pub fn state(&self) -> (r: PeerState)
        ensures
            r == self@.state,
    {
        self.state
    }

    /// Tells whether inputs are exchanged.
    pub fn is_running(&self) -> (r: bool)
        ensures
            r == self@.state.runs(),
    {
        self.state.is_running()
    }

    /// Tells whether messages are still waited for.
    pub fn is_listening(&self) -> (r: bool)
        ensures
            r == self@.is_listening,
    {
        self.is_listening
    }

    /// Gives the connection up.
    pub fn disconnect(&mut self)
        ensures
            final(self)@ == old(self)@.disconnected(),
            old(self).wf() ==> final(self).wf(),
    {
        self.state = PeerState::Disconnected;
        self.is_listening = false;
        self.messages.close();
        self.events.close();
    }

    /// Takes note that nothing can be sent any more.
    pub fn close_messages(&mut self)
        requires
            old(self).wf(),
        ensures
            final(self)@ == (PeerView { messages: old(self)@.messages.shut(), ..old(self)@ }),
            final(self).wf(),
    {
        self.messages.close();
    }

    /// Takes note that the session does not listen any more.
    pub fn close_events(&mut self)
        requires
            old(self).wf(),
        ensures
            final(self)@ == (PeerView { events: old(self)@.events.shut(), ..old(self)@ }),
            final(self).wf(),
    {
        self.events.close();
    }

    /// Takes what is to be sent.
    pub fn take_messages(&mut self) -> (r: Vec<MessageData>)
        requires
            old(self).wf(),
        ensures
            r@.map_values(|m: MessageData| m@) == old(self)@.messages.items,
            final(self)@ == (PeerView {
                messages: OutboxView { items: Seq::empty(), ..old(self)@.messages },
                ..old(self)@
            }),
            final(self).wf(),
    {
        self.messages.take()
    }

    /// Takes what the session is to be told.
    pub fn take_events(&mut self) -> (r: Vec<Event<T::Input>>)
        requires
            old(self).wf(),
        ensures
            r@.map_values(|e: Event<T::Input>| e@) == old(self)@.events.items,
            final(self)@ == (PeerView {
                events: OutboxView { items: Seq::empty(), ..old(self)@.events },
                ..old(self)@
            }),
            final(self).wf(),
    {
        self.events.take()
    }

    /// Takes which tasks are to be started.
    pub fn take_tasks(&mut self) -> (r: Vec<Task>)
        requires
            old(self).wf(),
        ensures
            r@ == old(self)@.tasks.items,
            final(self)@ == (PeerView {
                tasks: OutboxView { items: Seq::empty(), ..old(self)@.tasks },
                ..old(self)@
            }),
            final(self).wf(),
    {
        let r = self.tasks.take();
        assert(r@ =~= r@.map_values(|t: Task| t@));
        r
    }

    fn push_event(&mut self, evt: Event<T::Input>) -> (r: Result<(), PeerError>)
        ensures
            r == old(self)@.notify_result(),
            final(self)@ == old(self)@.notifying(evt@),
    {
        if self.events.push(evt) {
            Ok(())
        } else {
            Err(PeerError::LocalDisconnected)
        }
    }

    fn send(&mut self, msg: MessageData) -> (r: Result<(), PeerError>)
        ensures
            r == old(self)@.send_result(),
            final(self)@ == old(self)@.sending(msg@),
    {
        if self.messages.push(msg) {
            Ok(())
        } else {
            Err(PeerError::RemoteDisconnected)
        }
    }
}

impl<T: Config> Peer<T> {
    /// What was measured of the connection. How many messages wait to be sent and to be
    /// taken in is told by whoever moves them.
    pub fn get_network_stats(&self, send_queue_len: usize, recv_queue_len: usize) -> (r:
        NetworkStats)
        ensures
            r == (NetworkStats {
                ping: self@.stats.round_trip_time,
                send_queue_len,
                recv_queue_len,
                kbps_sent: self@.stats.kbps_sent,
                local_frames_behind: self@.stats.local_frame_advantage,
                remote_frames_behind: self@.stats.remote_frame_advantage,
            }),
    {
        NetworkStats {
            ping: self.stats.round_trip_time,
            send_queue_len,
            recv_queue_len,
            kbps_sent: self.stats.kbps_sent,
            local_frames_behind: self.stats.local_frame_advantage,
            remote_frames_behind: self.stats.remote_frame_advantage,
        }
    }

    /// Sets what the local session knows of a player.
    pub fn set_local_connect_status(&mut self, player: usize, status: ConnectionStatus)
        requires
            old(self).wf(),
            player < old(self)@.local_status.len(),
        ensures
            final(self)@ == (PeerView {
                local_status: old(self)@.local_status.update(player as int, status),
                ..old(self)@
            }),
            final(self).wf(),
    {
        self.local_connect_status.set(player, status);
    }

    /// Of how many players the local session knows.
    pub fn local_player_count(&self) -> (r: usize)
        ensures
            r == self@.local_status.len(),
    {
        self.local_connect_status.len()
    }

    /// Of how many players the remote peer knows.
    pub fn peer_player_count(&self) -> (r: usize)
        ensures
            r == self@.peer_status.len(),
    {
        self.peer_connect_status.len()
    }

    /// What the remote peer knows of a player.
    pub fn get_peer_connect_status(&self, id: usize) -> (r: &ConnectionStatus)
        requires
            id < self@.peer_status.len(),
        ensures
            *r == self@.peer_status[id as int],
    {
        &self.peer_connect_status[id]
    }

    /// Takes in an input of the local player, and sends it with all that were not
    /// acknowledged.
    pub fn send_input(&mut self, input: FrameInput<T::Input>) -> (r: Result<(), PeerError>)
        requires
            old(self).wf(),
            old(self)@.state.runs() ==> input.frame >= 0,
            old(self)@.with_input(input).encoder.is_sendable(),
        ensures
            r == old(self)@.send_result(),
            final(self)@ == old(self)@.with_input(input).sending_pending(),
            old(self)@.state is Running || old(self)@.state is Interrupted
                ==> final(self)@.encoder.pending == old(self)@.encoder.pending.push(input),
            final(self).wf(),
    {
        if self.state.is_running() {
            self.timesync.advance_frame(
                input,
                self.stats.local_frame_advantage,
                self.stats.remote_frame_advantage,
            );
            self.input_encoder.push(input);
        }
        assert(self@ == old(self)@.with_input(input));
        self.send_pending_output()
    }

    /// Tells whether the inputs that were not acknowledged can be sent, and some more with
    /// them.
    pub fn is_sendable(&self, more: usize) -> (r: bool)
        ensures
            r == (self@.encoder.pending.len() + more > 0 ==> super::compression::fits::<T::Input>(
                self@.encoder.pending.len() + more,
            )),
    {
        self.input_encoder.is_sendable(more)
    }

    fn send_pending_output(&mut self) -> (r: Result<(), PeerError>)
        requires
            old(self)@.encoder.is_sendable(),
        ensures
            r == old(self)@.send_result(),
            final(self)@ == old(self)@.sending_pending(),
    {
        match self.input_encoder.encode() {
            Ok((start_frame, bits)) => {
                let mut peer_connect_status: Vec<ConnectionStatus> = Vec::new();
                let mut i: usize = 0;
                while i < self.local_connect_status.len()
                    invariant
                        i <= self.local_connect_status@.len(),
                        peer_connect_status@ == self.local_connect_status@.take(i as int),
                    decreases self.local_connect_status@.len() - i,
                {
                    peer_connect_status.push(self.local_connect_status[i]);
                    i += 1;
                    assert(peer_connect_status@ =~= self.local_connect_status@.take(i as int));
                }
                assert(peer_connect_status@ =~= self.local_connect_status@);
                let ack_frame: Frame = self.input_decoder.last_decoded_frame();
                self.send(
                    MessageData::from(Input { peer_connect_status, start_frame, ack_frame, bits }),
                )
            },
            Err(_) => vstd::pervasive::unreached(),
        }
    }

    /// Tells the remote peer that the local one is there.
    pub fn heartbeat(&mut self) -> (r: Result<(), PeerError>)
        requires
            old(self).wf(),
        ensures
            r == old(self)@.send_result(),
            final(self)@ == old(self)@.sending(MessageView::KeepAlive),
            final(self).wf(),
    {
        self.send(MessageData::KeepAlive)
    }

    /// Tells the remote peer how the local one does, and whether it did so: once the
    /// connection does not run any more, there is nothing to tell.
    pub fn send_quality_report(&mut self, now: UnixMillis) -> (r: Result<bool, PeerError>)
        requires
            old(self).wf(),
        ensures
            final(self).wf(),
            if old(self)@.state.runs() {
                &&& r == (match old(self)@.send_result() {
                    Ok(()) => Ok(true),
                    Err(err) => Err(err),
                })
                &&& final(self)@ == old(self)@.sending(
                    MessageView::QualityReport(
                        QualityReport {
                            ping: now,
                            frame_advantage: old(self)@.stats.local_frame_advantage,
                        },
                    ),
                )
            } else {
                r == Ok::<bool, PeerError>(false) && final(self)@ == old(self)@
            },
    {
        if !self.is_running() {
            return Ok(false);
        }
        let frame_advantage: Frame = self.stats.local_frame_advantage;
        match self.send(MessageData::from(QualityReport { ping: now, frame_advantage })) {
            Ok(()) => Ok(true),
            Err(err) => Err(err),
        }
    }

    /// Sends the inputs again that were not acknowledged, if no inputs have come for a
    /// while. Tells whether the connection still runs.
    pub fn resend_inputs(&mut self, now: UnixMillis) -> (r: Result<bool, PeerError>)
        requires
            old(self).wf(),
            old(self)@.can_resend(now),
        ensures
            final(self).wf(),
            if !old(self)@.state.runs() {
                r == Ok::<bool, PeerError>(false) && final(self)@ == old(self)@
            } else if old(self)@.wants_resend(now) {
                &&& r == (match old(self)@.send_result() {
                    Ok(()) => Ok(true),
                    Err(err) => Err(err),
                })
                &&& final(self)@ == (PeerView {
                    stats: PeerStats { last_input_packet_recv_time: now, ..old(self)@.stats },
                    ..old(self)@
                }).sending_pending()
            } else {
                r == Ok::<bool, PeerError>(true) && final(self)@ == old(self)@
            },
    {
        if !self.is_running() {
            return Ok(false);
        }
        let retry_time: UnixMillis = self.stats.last_input_packet_recv_time + Millis(
            RUNNING_RETRY_INTERVAL,
        );
        if retry_time.0 < now.0 {
            self.stats.last_input_packet_recv_time = now;
            if let Err(err) = self.send_pending_output() {
                return Err(err);
            }
        }
        Ok(true)
    }

    /// Tells whether the inputs that were not acknowledged can be sent again, if they are to
    /// be.
    pub fn can_resend(&self, now: UnixMillis) -> (r: bool)
        ensures
            r == self@.can_resend(now),
    {
        if !self.is_running() {
            return true;
        }
        match self.stats.last_input_packet_recv_time.0.checked_add(RUNNING_RETRY_INTERVAL) {
            Some(retry_time) => retry_time >= now.0 || self.is_sendable(0),
            None => false,
        }
    }

    /// How much was sent since the measuring began, which is now if it had not begun.
    /// Nothing is measured while the connection does not run.
    pub fn measure_traffic(&self, start_time: Option<UnixMillis>, now: UnixMillis) -> (r: Option<
        Traffic,
    >)
        requires
            self@.state.runs() ==> {
                &&& start_time matches Some(start) ==> start.0 <= now.0
                &&& self@.stats.bytes_sent + UDP_HEADER_SIZE * self@.stats.packets_sent
                    <= usize::MAX
            },
        ensures
            r == (if !self@.state.runs() {
                None
            } else {
                Some(
                    Traffic {
                        start_time: match start_time {
                            Some(start) => start,
                            None => now,
                        },
                        elapsed: match start_time {
                            Some(start) => Millis((now.0 - start.0) as u64),
                            None => Millis(0),
                        },
                        total_bytes_sent: (self@.stats.bytes_sent + UDP_HEADER_SIZE
                            * self@.stats.packets_sent) as usize,
                    },
                )
            }),
    {
        if !self.is_running() {
            return None;
        }
        let start_time: UnixMillis = match start_time {
            Some(start) => start,
            None => now,
        };
        let total_bytes_sent: usize = self.stats.bytes_sent + UDP_HEADER_SIZE
            * self.stats.packets_sent;
        Some(Traffic { start_time, elapsed: now - start_time, total_bytes_sent })
    }

    /// Takes note of how much is sent, in kilobytes per second.
    pub fn set_kbps_sent(&mut self, kbps_sent: u32)
        requires
            old(self).wf(),
        ensures
            final(self)@ == (PeerView {
                stats: PeerStats { kbps_sent, ..old(self)@.stats },
                ..old(self)@
            }),
            final(self).wf(),
    {
        self.stats.kbps_sent = kbps_sent;
    }

    /// Takes note that a message of so many bytes was sent.
    pub fn on_sent(&mut self, msg_size: usize, now: UnixMillis)
        requires
            old(self).wf(),
            old(self)@.stats.packets_sent < usize::MAX,
            old(self)@.stats.bytes_sent + msg_size <= usize::MAX,
        ensures
            final(self)@ == (PeerView {
                stats: PeerStats {
                    packets_sent: (old(self)@.stats.packets_sent + 1) as usize,
                    last_send_time: Some(now),
                    bytes_sent: (old(self)@.stats.bytes_sent + msg_size) as usize,
                    ..old(self)@.stats
                },
                ..old(self)@
            }),
            final(self).wf(),
    {
        self.stats.packets_sent += 1;
        self.stats.last_send_time = Some(now);
        self.stats.bytes_sent += msg_size;
    }

    /// What was measured of the connection.
    pub fn stats(&self) -> (r: PeerStats)
        ensures
            r == self@.stats,
    {
        self.stats
    }

    /// Takes note of the frame that the local session has come to.
    ///
    /// The frame that the remote one has come to is estimated from the last one that came
    /// from there, and the time that it was under way. The local frame advantage is how many
    /// frames the local session is behind: it means that the others have to predict more
    /// often.
    pub fn set_local_frame_number(&mut self, local_frame: Frame)
        requires
            old(self).wf(),
            old(self)@.has_advantage_at(local_frame),
        ensures
            final(self)@ == (PeerView {
                stats: PeerStats {
                    local_frame_advantage: (old(self)@.remote_frame() - local_frame) as i32,
                    ..old(self)@.stats
                },
                ..old(self)@
            }),
            final(self).wf(),
    {
        let seconds: u64 = self.stats.round_trip_time.0 / 1000;
        let under_way: i32 =
            #[verifier::truncate]
            (((seconds / 2) * TARGET_TPS) as i32);
        let remote_frame: Frame = self.input_decoder.last_decoded_frame() + under_way;
        self.stats.local_frame_advantage = remote_frame - local_frame;
    }

    /// Tells whether the local frame advantage at a frame can be told.
    pub fn can_set_local_frame_number(&self, local_frame: Frame) -> (r: bool)
        ensures
            r == self@.has_advantage_at(local_frame),
    {
        let seconds: u64 = self.stats.round_trip_time.0 / 1000;
        let under_way: i32 =
            #[verifier::truncate]
            (((seconds / 2) * TARGET_TPS) as i32);
        match self.input_decoder.last_decoded_frame().checked_add(under_way) {
            Some(remote_frame) => remote_frame.checked_sub(local_frame).is_some(),
            None => false,
        }
    }

    /// The sums of the frame advantages of the local and of the remote player, as long as
    /// they can be added up.
    pub fn frame_advantages(&self) -> (r: Option<(Frame, Frame)>)
        ensures
            match r {
                Some(sums) => {
                    &&& crate::time_sync::is_summable(self@.timesync.local)
                    &&& crate::time_sync::is_summable(self@.timesync.remote)
                    &&& sums.0 == crate::time_sync::sum(self@.timesync.local)
                    &&& sums.1 == crate::time_sync::sum(self@.timesync.remote)
                },
                None => !crate::time_sync::is_summable(self@.timesync.local)
                    || !crate::time_sync::is_summable(self@.timesync.remote),
            },
    {
        self.timesync.frame_advantages()
    }

    /// Tells whether a wait can be asked for once more.
    pub fn can_recommend(&self) -> (r: bool)
        ensures
            r == (self@.timesync.iteration < u32::MAX),
    {
        self.timesync.can_recommend()
    }

    /// How many frames to wait for the remote peer. See
    /// `TimeSync::recommend_frame_wait_duration`.
    pub fn recommend_frame_delay(&mut self, is_ahead: bool, sleep_frames: Frame) -> (r: Frame)
        requires
            old(self).wf(),
            old(self)@.timesync.iteration < u32::MAX,
        ensures
            final(self)@ == (PeerView {
                timesync: TimeSyncView {
                    iteration: (old(self)@.timesync.iteration + 1) as u32,
                    ..old(self)@.timesync
                },
                ..old(self)@
            }),
            r == crate::time_sync::wait_for(is_ahead, sleep_frames),
            final(self).wf(),
    {
        self.timesync.recommend_frame_wait_duration(is_ahead, sleep_frames, false)
    }
}

/// Whether a connection goes on after a message, be it invalid.
pub open spec fn is_harmless(result: Result<(), PeerError>) -> bool {
    result is Ok || result == Err::<(), PeerError>(PeerError::InvalidMessage)
}

impl<T: Config> Peer<T> {
    /// Takes in a message that came. What is wrong with a message does not matter; anything
    /// else that fails ends the connection.
    pub fn receive(&mut self, message: Message, now: UnixMillis) -> (r: Result<(), PeerError>)
        requires
            old(self).wf(),
            old(self)@.can_handle(message.data@, now),
        ensures
            (final(self)@, r) == old(self)@.received(message.magic, message.data@, now),
            final(self).wf(),
    {
        let result = self.handle_message(message, now);
        self.conclude(result, now)
    }

    /// Draws the conclusion from what became of a message: the remote peer was heard if all
    /// is well, and the connection ends if more is wrong than the message.
    pub fn conclude(&mut self, result: Result<(), PeerError>, now: UnixMillis) -> (r: Result<
        (),
        PeerError,
    >)
        requires
            is_harmless(result) ==> old(self).wf(),
            !old(self)@.tasks.closed,
        ensures
            (final(self)@, r) == old(self)@.concluded(result, now),
            result is Ok ==> final(self)@.last_recv_time == now,
            final(self).wf(),
    {
        match result {
            Ok(()) => {
                self.last_recv_time = now;
                if self.state.resume() {
                    self.push_event(Event::NetworkResumed)
                } else {
                    Ok(())
                }
            },
            Err(PeerError::InvalidMessage) => Ok(()),
            Err(err) => {
                self.disconnect();
                Err(err)
            },
        }
    }

    /// Looks after the connection when some time has passed: tells the session if nothing
    /// has come for a while, gives up if nothing has come for too long, and asks again for
    /// an answer that is missing.
    pub fn tick(&mut self, now: UnixMillis) -> (r: Result<(), PeerError>)
        requires
            old(self).wf(),
            old(self)@.can_tick(now),
        ensures
            (final(self)@, r) == old(self)@.ticked(now),
            final(self).wf(),
    {
        let timeout: Nanos = self.config.disconnect_timeout;
        let notify_start: Nanos = self.config.disconnect_notify_start;
        if !self.state.is_interrupted() {
            let notify_time: UnixMillis = self.last_recv_time + notify_start;
            if notify_time.0 < now.0 {
                self.state.interrupt();
                let left: Nanos = Nanos(timeout.0 - notify_start.0);
                if let Err(err) = self.push_event(
                    Event::NetworkInterrupted { disconnect_timeout: left },
                ) {
                    return Err(err);
                }
            }
        }
        let end_time: UnixMillis = self.last_recv_time + timeout;
        if end_time.0 < now.0 {
            self.disconnect();
            return Err(PeerError::RemoteDisconnected);
        }
        self.poll(now)
    }

    /// Tells whether the times that are looked at can be added up.
    pub fn can_tick(&self, now: UnixMillis) -> (r: bool)
        ensures
            r == self@.can_tick(now),
    {
        let timeout: Nanos = self.config.disconnect_timeout;
        let notify_start: Nanos = self.config.disconnect_notify_start;
        if !self.state.is_interrupted() {
            match self.last_recv_time.0.checked_add(notify_start.as_millis()) {
                Some(notify_time) => {
                    if notify_time < now.0 {
                        if notify_start.0 > timeout.0 {
                            return false;
                        }
                        if self.events.is_closed() {
                            return true;
                        }
                    }
                },
                None => {
                    return false;
                },
            }
        }
        match self.last_recv_time.0.checked_add(timeout.as_millis()) {
            Some(end_time) => {
                if end_time < now.0 {
                    return true;
                }
            },
            None => {
                return false;
            },
        }
        let next_interval: u64 = match self.state {
            PeerState::Connecting { .. } => SYNC_FIRST_RETRY_INTERVAL,
            PeerState::Syncing { .. } => SYNC_RETRY_INTERVAL,
            _ => {
                return true;
            },
        };
        match self.stats.last_send_time {
            Some(last_send_time) => last_send_time.0.checked_add(next_interval).is_some(),
            None => true,
        }
    }

    fn poll(&mut self, now: UnixMillis) -> (r: Result<(), PeerError>)
        requires
            old(self)@.can_poll(),
        ensures
            (final(self)@, r) == old(self)@.polled(now),
    {
        let next_interval: u64 = match self.state {
            PeerState::Connecting { .. } => SYNC_FIRST_RETRY_INTERVAL,
            PeerState::Syncing { .. } => SYNC_RETRY_INTERVAL,
            _ => {
                return Ok(());
            },
        };
        if let Some(last_send_time) = self.stats.last_send_time {
            let retry_time: UnixMillis = last_send_time + Millis(next_interval);
            if retry_time.0 < now.0 {
                return self.send(MessageData::from(self.state.create_sync_request()));
            }
            Ok(())
        } else {
            self.send(MessageData::from(self.state.create_sync_request()))
        }
    }

    /// Tells whether a message may be taken in.
    pub fn admits(&self, message: &Message, now: UnixMillis) -> (r: bool)
        ensures
            r == self@.can_handle(message.data@, now),
    {
        match &message.data {
            MessageData::Input(input) => self.input_decoder.admits(
                input.start_frame,
                input.bits.as_slice(),
            ),
            MessageData::QualityReply(reply) => reply.pong.0 <= now.0,
            _ => true,
        }
    }

    /// Takes in what a message says. `conclude` is to follow: what is wrong beyond the message
    /// may leave a handshake half done, and has to end the connection.
    pub fn handle_message(&mut self, message: Message, now: UnixMillis) -> (r: Result<
        (),
        PeerError,
    >)
        requires
            old(self).wf(),
            old(self)@.can_handle(message.data@, now),
        ensures
            (final(self)@, r) == old(self)@.handled(message.magic, message.data@, now),
            is_harmless(r) ==> final(self).wf(),
            !final(self)@.tasks.closed,
    {
        match message.data {
            MessageData::KeepAlive => Ok(()),
            MessageData::SyncRequest(data) => self.on_sync_request(message.magic, data),
            MessageData::SyncReply(data) => self.on_sync_reply(message.magic, data, now),
            MessageData::Input(input) => self.on_input(input, now),
            MessageData::InputAck(data) => {
                self.input_encoder.acknowledge_frame(data.ack_frame);
                Ok(())
            },
            MessageData::QualityReport(data) => self.on_quality_report(data),
            MessageData::QualityReply(data) => {
                self.stats.round_trip_time = now - data.pong;
                Ok(())
            },
        }
    }

    fn on_sync_request(&mut self, magic: u16, data: SyncRequest) -> (r: Result<(), PeerError>)
        ensures
            (final(self)@, r) == old(self)@.requested(magic, data.random),
    {
        let SyncRequest { random } = data;
        if let PeerState::Running { remote_magic } = self.state {
            if magic != remote_magic {
                return Err(PeerError::InvalidMessage);
            }
        }
        self.send(MessageData::from(SyncReply { random }))
    }

    fn on_sync_reply(&mut self, magic: u16, data: SyncReply, now: UnixMillis) -> (r: Result<
        (),
        PeerError,
    >)
        requires
            old(self)@.is_counting(),
            !old(self)@.tasks.closed,
        ensures
            (final(self)@, r) == old(self)@.answered(magic, data.random, now),
    {
        if let Some(random) = self.state.random() {
            if data.random != random {
                return Err(PeerError::InvalidMessage);
            }
        }
        match self.state {
            PeerState::Connecting { .. } => {
                if let Err(err) = self.push_event(Event::Connected) {
                    return Err(err);
                }
                self.state.start_syncing(NUM_SYNC_PACKETS);
                self.send(MessageData::from(self.state.create_sync_request()))
            },
            PeerState::Syncing { random, roundtrips_remaining } => {
                let left: u8 = roundtrips_remaining - 1;
                self.state = PeerState::Syncing { random, roundtrips_remaining: left };
                if left == 0 {
                    if let Err(err) = self.push_event(Event::Synchronized) {
                        return Err(err);
                    }
                    self.stats.last_input_packet_recv_time = now;
                    self.state = PeerState::Running { remote_magic: magic };
                    self.start_tasks();
                    Ok(())
                } else {
                    if let Err(err) = self.push_event(
                        Event::Synchronizing {
                            total: NUM_SYNC_PACKETS,
                            count: NUM_SYNC_PACKETS - left,
                        },
                    ) {
                        return Err(err);
                    }
                    self.send(MessageData::from(self.state.create_sync_request()))
                }
            },
            PeerState::Running { remote_magic } => {
                if magic == remote_magic {
                    Ok(())
                } else {
                    Err(PeerError::InvalidMessage)
                }
            },
            _ => Err(PeerError::InvalidMessage),
        }
    }

    fn start_tasks(&mut self)
        requires
            !old(self)@.tasks.closed,
        ensures
            final(self)@ == (PeerView {
                tasks: OutboxView {
                    items: old(self)@.tasks.items + running_tasks(),
                    closed: false,
                },
                ..old(self)@
            }),
    {
        self.tasks.push(Task::Heartbeat { interval: Millis(KEEP_ALIVE_INTERVAL) });
        self.tasks.push(Task::SendQualityReports { interval: Millis(QUALITY_REPORT_INTERVAL) });
        self.tasks.push(Task::ResendInputs { interval: Millis(QUALITY_REPORT_INTERVAL) });
        self.tasks.push(Task::UpdateNetworkStats { interval: Millis(NETWORK_STATS_INTERVAL) });
        assert(self@.tasks.items =~= old(self)@.tasks.items + running_tasks());
    }

    fn on_input(&mut self, msg: Input, now: UnixMillis) -> (r: Result<(), PeerError>)
        requires
            input_buffer::can_decode(old(self)@.last_decoded, msg.start_frame, msg.bits@),
        ensures
            (final(self)@, r) == old(self)@.given_inputs(
                msg.peer_connect_status@,
                msg.start_frame,
                msg.ack_frame,
                msg.bits@,
                now,
            ),
    {
        let Input { peer_connect_status, start_frame, ack_frame, bits } = msg;
        self.merge_status(&peer_connect_status);
        match self.input_decoder.decode(start_frame, bits.as_slice()) {
            Ok(inputs) => {
                proof {
                    input_buffer::lemma_decoded_inputs(
                        old(self)@.last_decoded,
                        start_frame,
                        bits@,
                        inputs@,
                    );
                }
                if inputs.len() > 0 {
                    if let Err(err) = self.push_event(Event::Inputs(inputs)) {
                        return Err(err);
                    }
                    self.stats.last_input_packet_recv_time = now;
                    let ack_frame: Frame = self.input_decoder.last_decoded_frame();
                    if let Err(err) = self.send(MessageData::from(InputAck { ack_frame })) {
                        return Err(err);
                    }
                }
            },
            Err(_) => {
                return Err(PeerError::InvalidMessage);
            },
        }
        self.input_encoder.acknowledge_frame(ack_frame);
        Ok(())
    }

    fn merge_status(&mut self, told: &Vec<ConnectionStatus>)
        ensures
            final(self)@ == (PeerView {
                peer_status: merged(old(self)@.peer_status, told@),
                ..old(self)@
            }),
    {
        let ghost known = self.peer_connect_status@;
        let mut i: usize = 0;
        while i < told.len()
            invariant
                i <= told@.len(),
                known == old(self)@.peer_status,
                self@ == (PeerView { peer_status: self.peer_connect_status@, ..old(self)@ }),
                self.peer_connect_status@.len() == (if known.len() < i {
                    i as nat
                } else {
                    known.len()
                }),
                forall|k: int|
                    0 <= k < self.peer_connect_status@.len() ==> #[trigger]
                        self.peer_connect_status@[k] == (if k < i {
                        merged(known, told@)[k]
                    } else {
                        known[k]
                    }),
            decreases told@.len() - i,
        {
            let remote_status: ConnectionStatus = told[i];
            if i < self.peer_connect_status.len() {
                let known_status: ConnectionStatus = self.peer_connect_status[i];
                let last_frame: Frame = if remote_status.last_frame > known_status.last_frame {
                    remote_status.last_frame
                } else {
                    known_status.last_frame
                };
                self.peer_connect_status.set(
                    i,
                    ConnectionStatus {
                        disconnected: known_status.disconnected || remote_status.disconnected,
                        last_frame,
                    },
                );
            } else {
                self.peer_connect_status.push(remote_status);
            }
            i += 1;
        }
        assert(self.peer_connect_status@ =~= merged(known, told@));
    }

    fn on_quality_report(&mut self, data: QualityReport) -> (r: Result<(), PeerError>)
        ensures
            (final(self)@, r) == old(self)@.given_report(data),
    {
        self.stats.remote_frame_advantage = data.frame_advantage;
        self.send(MessageData::from(QualityReply { pong: data.ping }))
    }
}

impl<I: InputValue> PeerView<I> {
    /// The connection after some right answers came from one and the same sender.
    pub open spec fn answered_often(
        self,
        magic: u16,
        random: u32,
        now: UnixMillis,
        answers: nat,
    ) -> Self
        decreases answers,
    {
        if answers == 0 {
            self
        } else {
            self.answered_often(magic, random, now, (answers - 1) as nat).answered(
                magic,
                random,
                now,
            ).0
        }
    }
}

/// What the session is told while the answers come.
pub open spec fn handshake_events<I>(answers: nat) -> Seq<EventView<I>> {
    Seq::new(
        answers,
        |i: int|
            if i == 0 {
                EventView::Connected
            } else if i < NUM_SYNC_PACKETS {
                EventView::Synchronizing { total: NUM_SYNC_PACKETS, count: i as u8 }
            } else {
                EventView::Synchronized
            },
    )
}

/// The requests that follow the answers: one each, but none the last.
pub open spec fn handshake_requests(random: u32, answers: nat) -> Seq<MessageView> {
    Seq::new(
        if answers <= NUM_SYNC_PACKETS {
            answers
        } else {
            NUM_SYNC_PACKETS as nat
        },
        |i: int| MessageView::SyncRequest(SyncRequest { random }),
    )
}

/// A connection runs as soon as its first request and `NUM_SYNC_PACKETS` more are answered,
/// and no earlier. It then runs with the peer that answered. Each answer is told to the
/// session, and all but the last are followed by another request.
pub proof fn law_handshake_takes_its_answers<I: InputValue>(
    peer: PeerView<I>,
    magic: u16,
    random: u32,
    now: UnixMillis,
    answers: nat,
)
    requires
        peer.state == (PeerState::Connecting { random }),
        !peer.events.closed,
        !peer.messages.closed,
        0 < answers <= NUM_SYNC_PACKETS + 1,
    ensures
        ({
            let before = peer.answered_often(magic, random, now, (answers - 1) as nat);
            let after = peer.answered_often(magic, random, now, answers);
            &&& before.answered(magic, random, now).1 == Ok::<(), PeerError>(())
            &&& after.state == (if answers <= NUM_SYNC_PACKETS {
                PeerState::Syncing {
                    random,
                    roundtrips_remaining: (NUM_SYNC_PACKETS + 1 - answers) as u8,
                }
            } else {
                PeerState::Running { remote_magic: magic }
            })
            &&& after.events == (OutboxView {
                items: peer.events.items + handshake_events::<I>(answers),
                closed: false,
            })
            &&& after.messages == (OutboxView {
                items: peer.messages.items + handshake_requests(random, answers),
                closed: false,
            })
            &&& after.tasks == (OutboxView {
                items: if answers <= NUM_SYNC_PACKETS {
                    peer.tasks.items
                } else {
                    peer.tasks.items + running_tasks()
                },
                ..peer.tasks
            })
        }),
    decreases answers,
{
    reveal_with_fuel(PeerView::answered_often, 2);
    if answers > 1 {
        law_handshake_takes_its_answers(peer, magic, random, now, (answers - 1) as nat);
    }
    let after = peer.answered_often(magic, random, now, answers);
    assert(after.events.items =~= peer.events.items + handshake_events::<I>(answers));
    assert(after.messages.items =~= peer.messages.items + handshake_requests(random, answers));
}

/// Who is asked to answer sends back the number that it was asked for, and that number is
/// the one that the asking peer takes.
pub proof fn law_answers_match_requests<I: InputValue>(
    asking: PeerView<I>,
    asked: PeerView<I>,
    magic: u16,
    answer_magic: u16,
    now: UnixMillis,
)
    requires
        asking.state.expected() is Some,
        asking.is_counting(),
        !asking.events.closed,
        !asking.messages.closed,
        !asked.messages.closed,
        asked.state matches PeerState::Running { remote_magic } ==> magic == remote_magic,
    ensures
        ({
            let random = asking.state.expected()->0;
            let (after, result) = asked.handled(magic, asking.sync_request(), now);
            let answer = MessageView::SyncReply(SyncReply { random });
            &&& result == Ok::<(), PeerError>(())
            &&& after.messages.items == asked.messages.items.push(answer)
            &&& asking.handled(answer_magic, answer, now).1 == Ok::<(), PeerError>(())
        }),
{
}

/// An answer with another number than the one that was asked for changes nothing.
pub proof fn law_wrong_answers_change_nothing<I: InputValue>(
    peer: PeerView<I>,
    magic: u16,
    random: u32,
    now: UnixMillis,
)
    requires
        peer.state.expected() is Some,
        peer.state.expected()->0 != random,
    ensures
        peer.received(magic, MessageView::SyncReply(SyncReply { random }), now) == (
            peer,
            Ok::<(), PeerError>(()),
        ),
{
}

/// A connection that is gone stays gone, whatever comes, and sends and tells nothing more.
pub proof fn law_disconnected_stays_disconnected<I: InputValue>(
    peer: PeerView<I>,
    magic: u16,
    message: MessageView,
    now: UnixMillis,
)
    ensures
        ({
            let gone = peer.disconnected();
            let heard = gone.received(magic, message, now).0;
            let waited = gone.ticked(now).0;
            &&& heard.state is Disconnected
            &&& heard.messages == gone.messages
            &&& heard.events == gone.events
            &&& waited.state is Disconnected
            &&& waited.messages == gone.messages
            &&& waited.events == gone.events
            &&& gone.send_result() == Err::<(), PeerError>(PeerError::RemoteDisconnected)
            &&& gone.notify_result() == Err::<(), PeerError>(PeerError::LocalDisconnected)
        }),
{
}

/// A peer that is silent for too long is given up, and not before. The session is told
/// when it has been silent for long enough.
pub proof fn law_silence_ends_a_connection<I: InputValue>(peer: PeerView<I>, now: UnixMillis)
    requires
        peer.state is Running,
        !peer.events.closed,
        peer.config.disconnect_notify_start.0 <= peer.config.disconnect_timeout.0,
        peer.config.disconnect_timeout.0 / 1_000_000 <= u64::MAX,
    ensures
        ({
            let (after, result) = peer.ticked(now);
            let silent = now.0 - peer.last_recv_time.0;
            let timeout = peer.config.disconnect_timeout.millis();
            let notify_start = peer.config.disconnect_notify_start.millis();
            &&& (after.state is Disconnected) == (silent > timeout)
            &&& (result is Err) == (silent > timeout)
            &&& (after.state is Running) == (silent <= notify_start)
            &&& after.events.items.len() == peer.events.items.len() + (if silent
                > notify_start {
                1int
            } else {
                0
            })
        }),
{
}

/// A message that is taken in ends an interruption: the connection runs again with the
/// same peer, the session is told so, and the rest is what the message brings.
pub proof fn law_messages_end_an_interruption<I: InputValue>(
    peer: PeerView<I>,
    magic: u16,
    message: MessageView,
    now: UnixMillis,
)
    requires
        peer.state is Interrupted,
        !peer.events.closed,
        peer.handled(magic, message, now).1 is Ok,
    ensures
        ({
            let handled = peer.handled(magic, message, now).0;
            let (after, result) = peer.received(magic, message, now);
            &&& result == Ok::<(), PeerError>(())
            &&& after.state == peer.state.resumed()
            &&& after.state is Running
            &&& after == (PeerView {
                state: after.state,
                last_recv_time: now,
                ..handled.notifying(EventView::NetworkResumed)
            })
            &&& after.events.items == handled.events.items.push(EventView::NetworkResumed)
        }),
{
}

/// Who was told to be gone stays gone, and the last frame that is known of a player never
/// gets smaller. To be told the same again changes nothing.
pub proof fn law_status_only_grows(
    known: Seq<ConnectionStatus>,
    told: Seq<ConnectionStatus>,
    player: int,
)
    requires
        0 <= player < known.len(),
    ensures
        known[player].disconnected ==> merged(known, told)[player].disconnected,
        merged(known, told)[player].last_frame >= known[player].last_frame,
        player < told.len() ==> merged(known, told)[player].last_frame >= told[player].last_frame,
        merged(merged(known, told), told) == merged(known, told),
{
    assert(merged(merged(known, told), told) =~= merged(known, told));
}

/// The time of a report comes back with its answer, and tells how long both were under way.
pub proof fn law_reports_measure_the_way<I: InputValue>(
    reporting: PeerView<I>,
    reported: PeerView<I>,
    magic: u16,
    answer_magic: u16,
    report: QualityReport,
    now: UnixMillis,
)
    requires
        !reported.messages.closed,
        report.ping.0 <= now.0,
    ensures
        ({
            let after = reported.handled(magic, MessageView::QualityReport(report), now).0;
            let answer = MessageView::QualityReply(QualityReply { pong: report.ping });
            &&& after.messages.items == reported.messages.items.push(answer)
            &&& after.stats.remote_frame_advantage == report.frame_advantage
            &&& reporting.handled(answer_magic, answer, now).0.stats.round_trip_time.0 == now.0
                - report.ping.0
        }),
{
}

/// The inputs that one peer sends are those that the session at the other end is given,
/// without those that it was given before. They are then acknowledged up to the last one,
/// and the two ends agree on it.
pub proof fn law_sent_inputs_arrive<I: InputValue>(
    sender: PeerView<I>,
    receiver: PeerView<I>,
    magic: u16,
    now: UnixMillis,
)
    requires
        I::size() > 0,
        sender.encoder.pending.len() > 0,
        sender.encoder.is_sendable(),
        sender.encoder.is_consecutive(),
        sender.encoder.agrees_with(receiver.last_decoded),
        receiver.last_decoded.frame < 0 ==> sender.encoder.start_frame() > i32::MIN,
        !receiver.events.closed,
        !receiver.messages.closed,
    ensures
        receiver.can_handle(sender.pending_output(), now),
        ({
            let (after, result) = receiver.handled(magic, sender.pending_output(), now);
            let news = sender.encoder.news(receiver.last_decoded);
            &&& result == Ok::<(), PeerError>(())
            &&& after.encoder == receiver.encoder.acknowledged(sender.last_decoded.frame)
            &&& sender.encoder.start_frame() >= 0 ==> sender.encoder.agrees_with(after.last_decoded)
            &&& if news.len() > 0 {
                &&& after.events.items == receiver.events.items.push(EventView::Inputs(news))
                &&& after.last_decoded == sender.encoder.pending.last()
                &&& after.messages.items == receiver.messages.items.push(
                    MessageView::InputAck(
                        InputAck { ack_frame: sender.encoder.pending.last().frame },
                    ),
                )
            } else {
                &&& after.events == receiver.events
                &&& after.last_decoded == receiver.last_decoded
                &&& after.messages == receiver.messages
            }
        }),
{
    let news = sender.encoder.news(receiver.last_decoded);
    input_buffer::law_decode_of_encode(sender.encoder, receiver.last_decoded, news);
    input_buffer::lemma_decoded_inputs(
        receiver.last_decoded,
        sender.encoder.start_frame(),
        sender.encoder.bits(),
        news,
    );
    if news.len() > 0 {
        assert(news.last() == sender.encoder.pending.last());
    }
}

/// Inputs that have come are not given to the session again when they come again.
pub proof fn law_inputs_arrive_once<I: InputValue>(
    last_decoded: FrameInput<I>,
    start_frame: Frame,
    bits: Seq<u8>,
    inputs: Seq<FrameInput<I>>,
    i: int,
)
    requires
        input_buffer::is_decoded(
            last_decoded,
            start_frame,
            super::bitfield::decoded(bits, 0),
            inputs,
        ),
        0 <= last_decoded.frame,
        0 <= i < inputs.len(),
    ensures
        inputs[i].frame > last_decoded.frame,
{
}

/// What is sent of the inputs: all that were not acknowledged, from the first one on, told by
/// their differences from the last one that was. With them goes what the local session knows
/// of the players, and which input came last. Nothing is taken for acknowledged by that.
pub proof fn law_pending_inputs_are_sent<I: InputValue>(peer: PeerView<I>, values: Seq<I>)
    requires
        !peer.messages.closed,
        I::size() > 0,
        peer.encoder.pending.len() * I::size() <= 65535,
        values.len() == peer.encoder.pending.len(),
        forall|i: int|
            0 <= i < values.len() ==> #[trigger] values[i] == peer.encoder.pending[i].input,
    ensures
        ({
            let pending = peer.encoder.pending;
            let after = peer.sending_pending();
            &&& after.encoder.pending == pending
            &&& after.encoder.last_acked == peer.encoder.last_acked
            &&& after.messages.items.drop_last() == peer.messages.items
            &&& after.messages.items.last() matches MessageView::Input {
                peer_connect_status,
                start_frame,
                ack_frame,
                bits,
            } && {
                &&& peer_connect_status == peer.local_status
                &&& ack_frame == peer.last_decoded.frame
                &&& pending.len() == 0 ==> start_frame == peer.encoder.last_acked.frame
                    && bits.len() == 0
                &&& pending.len() > 0 ==> {
                    &&& start_frame == pending[0].frame
                    &&& super::bitfield::decoded_end(bits, 0) == bits.len()
                    &&& forall|told: Seq<I>| #[trigger]
                        super::compression::is_undelta(
                            peer.encoder.last_acked.input,
                            super::bitfield::decoded(bits, 0),
                            told,
                        ) <==> told == values
                }
            }
            &&& after == (PeerView {
                messages: after.messages,
                encoder: EncoderView {
                    last_encoded: if pending.len() == 0 {
                        peer.encoder.last_encoded
                    } else {
                        pending.last()
                    },
                    ..peer.encoder
                },
                ..peer
            })
        }),
{
    let pending = peer.encoder.pending;
    let after = peer.sending_pending();
    assert(after.messages.items.drop_last() =~= peer.messages.items);
    assert(peer.encoder.values() =~= values);
    if pending.len() > 0 {
        let base = peer.encoder.last_acked.input;
        assert forall|told: Seq<I>| #[trigger]
            super::compression::is_undelta(
                base,
                super::bitfield::decoded(peer.encoder.bits(), 0),
                told,
            ) <==> told == values by {
            super::compression::law_decode_of_encode(base, values, told);
        }
        super::compression::law_decode_of_encode(base, values, values);
    }
}

/// An input of the local player is kept behind those that were not acknowledged, and sent
/// with them, as long as the connection runs, be it interrupted or not. Before and after
/// that it is not taken.
pub proof fn law_inputs_are_taken_while_running<I: InputValue>(
    peer: PeerView<I>,
    input: FrameInput<I>,
)
    ensures
        ({
            let after = peer.with_input(input).sending_pending();
            &&& peer.state is Running || peer.state is Interrupted ==> {
                &&& after.encoder.pending == peer.encoder.pending.push(input)
                &&& after.encoder.last_encoded == input
                &&& !peer.messages.closed ==> (after.messages.items.last() matches
                    MessageView::Input { start_frame, .. } && start_frame == (if
                peer.encoder.pending.len() == 0 {
                    input.frame
                } else {
                    peer.encoder.pending[0].frame
                }))
                &&& after.timesync == peer.timesync.advanced(
                    input,
                    peer.stats.local_frame_advantage,
                    peer.stats.remote_frame_advantage,
                )
            }
            &&& !(peer.state is Running || peer.state is Interrupted) ==> {
                &&& after.encoder.pending == peer.encoder.pending
                &&& after.timesync == peer.timesync
            }
            &&& after.encoder.last_acked == peer.encoder.last_acked
            &&& !peer.messages.closed ==> after.messages.items.len() == peer.messages.items.len()
                + 1
            &&& peer.messages.closed ==> after.messages == peer.messages
            &&& after == (PeerView {
                encoder: after.encoder,
                timesync: after.timesync,
                messages: after.messages,
                ..peer
            })
        }),
{
}

/// Inputs are sent again if none have come for more than 200 milliseconds, as long as the
/// connection runs, be it interrupted or not.
pub proof fn law_inputs_are_resent_after_a_while<I: InputValue>(
    peer: PeerView<I>,
    now: UnixMillis,
)
    ensures
        peer.wants_resend(now) <==> (peer.state is Running || peer.state is Interrupted) && now.0
            - peer.stats.last_input_packet_recv_time.0 > 200,
{
}

/// What one peer sends is given to the session at the other end from the first input on that
/// is newer than the last one it was given, each once and in order. It is acknowledged up to
/// the last one. What the sender acknowledges by it is not pending any more.
///
/// The input at `new` is the first new one. What came last has to be the one that was sent
/// for its frame.
pub proof fn law_new_inputs_are_given_to_the_session<I: InputValue>(
    sender: PeerView<I>,
    receiver: PeerView<I>,
    magic: u16,
    now: UnixMillis,
    new: int,
)
    requires
        I::size() > 0,
        0 < sender.encoder.pending.len(),
        sender.encoder.pending.len() * I::size() <= 65535,
        sender.encoder.pending[0].frame >= 0,
        forall|i: int|
            0 <= i < sender.encoder.pending.len() ==> (#[trigger] sender.encoder.pending[i]).frame
                == sender.encoder.pending[0].frame + i,
        0 <= new <= sender.encoder.pending.len(),
        new > 0 ==> sender.encoder.pending[new - 1].frame <= receiver.last_decoded.frame,
        new < sender.encoder.pending.len() ==> receiver.last_decoded.frame
            < sender.encoder.pending[new].frame,
        new == 0 ==> receiver.last_decoded.input == sender.encoder.last_acked.input,
        new > 0 && receiver.last_decoded.frame == sender.encoder.pending[new - 1].frame
            ==> receiver.last_decoded.input == sender.encoder.pending[new - 1].input,
        !sender.messages.closed,
        !receiver.events.closed,
        !receiver.messages.closed,
    ensures
        ({
            let pending = sender.encoder.pending;
            let message = sender.sending_pending().messages.items.last();
            let (after, result) = receiver.handled(magic, message, now);
            &&& receiver.can_handle(message, now)
            &&& result == Ok::<(), PeerError>(())
            &&& after.encoder.pending == receiver.encoder.pending.filter(
                |i: FrameInput<I>| i.frame >= sender.last_decoded.frame,
            )
            &&& if new < pending.len() {
                &&& after.events.items == receiver.events.items.push(
                    EventView::Inputs(pending.skip(new)),
                )
                &&& after.messages.items == receiver.messages.items.push(
                    MessageView::InputAck(InputAck { ack_frame: pending.last().frame }),
                )
                &&& after.last_decoded == pending.last()
                &&& after.stats == (PeerStats {
                    last_input_packet_recv_time: now,
                    ..receiver.stats
                })
            } else {
                &&& after.events == receiver.events
                &&& after.messages == receiver.messages
                &&& after.last_decoded == receiver.last_decoded
                &&& after.stats == receiver.stats
            }
            &&& after == (PeerView {
                events: after.events,
                messages: after.messages,
                last_decoded: after.last_decoded,
                stats: after.stats,
                encoder: after.encoder,
                peer_status: after.peer_status,
                ..receiver
            })
        }),
{
    let pending = sender.encoder.pending;
    let stale = input_buffer::stale_count(
        receiver.last_decoded.frame,
        sender.encoder.start_frame(),
        pending.len() as int,
    );
    if 0 < new {
        assert(pending[new - 1].frame == pending[0].frame + (new - 1));
    }
    if new < pending.len() {
        assert(pending[new].frame == pending[0].frame + new);
    }
    assert(stale == new);
    assert(sender.encoder.news(receiver.last_decoded) == pending.skip(new));
    assert(sender.sending_pending().messages.items.last() == sender.pending_output());
    law_sent_inputs_arrive(sender, receiver, magic, now);
    let news = pending.skip(new);
    input_buffer::law_decode_of_encode(sender.encoder, receiver.last_decoded, news);
    input_buffer::lemma_decoded_inputs(
        receiver.last_decoded,
        sender.encoder.start_frame(),
        sender.encoder.bits(),
        news,
    );
}

/// A message without inputs acknowledges some, and tells the session nothing. One that
/// cannot be read, or tells more than 65535 bytes, is not heeded at all, but for what it says
/// of the players.
pub proof fn law_messages_without_inputs_tell_nothing<I: InputValue>(
    peer: PeerView<I>,
    magic: u16,
    told: Seq<ConnectionStatus>,
    start_frame: Frame,
    ack_frame: Frame,
    bits: Seq<u8>,
    now: UnixMillis,
)
    requires
        I::size() > 0,
    ensures
        ({
            let message = MessageView::Input {
                peer_connect_status: told,
                start_frame,
                ack_frame,
                bits,
            };
            let (after, result) = peer.handled(magic, message, now);
            &&& bits.len() == 0 ==> {
                &&& result == Ok::<(), PeerError>(())
                &&& after.encoder.pending == peer.encoder.pending.filter(
                    |i: FrameInput<I>| i.frame >= ack_frame,
                )
                &&& after == (PeerView {
                    encoder: after.encoder,
                    peer_status: after.peer_status,
                    ..peer
                })
            }
            &&& super::bitfield::decoded_end(bits, 0) != bits.len() || super::bitfield::decoded(
                bits,
                0,
            ).len() > 65535 ==> {
                &&& result == Err::<(), PeerError>(PeerError::InvalidMessage)
                &&& after == (PeerView { peer_status: after.peer_status, ..peer })
                &&& peer.received(magic, message, now) == (after, Ok::<(), PeerError>(()))
            }
            &&& after.peer_status == merged(peer.peer_status, told)
        }),
{
    if bits.len() == 0 {
        let none = Seq::<FrameInput<I>>::empty();
        assert(super::bitfield::decoded(bits, 0).len() == 0);
        vstd::arithmetic::div_mod::lemma_div_basics(I::size() as int);
        assert(0nat / I::size() == 0);
        assert(input_buffer::is_decoded(
            peer.last_decoded,
            start_frame,
            super::bitfield::decoded(bits, 0),
            none,
        ));
        input_buffer::lemma_decoded_inputs(peer.last_decoded, start_frame, bits, none);
    }
}

/// An acknowledgement drops the inputs from before its frame, and keeps the others in their
/// order. It changes nothing else.
pub proof fn law_acknowledgements_drop_inputs<I: InputValue>(
    peer: PeerView<I>,
    magic: u16,
    ack_frame: Frame,
    now: UnixMillis,
)
    ensures
        ({
            let (after, result) = peer.handled(
                magic,
                MessageView::InputAck(InputAck { ack_frame }),
                now,
            );
            &&& result == Ok::<(), PeerError>(())
            &&& after.encoder.pending == peer.encoder.pending.filter(
                |i: FrameInput<I>| i.frame >= ack_frame,
            )
            &&& after.encoder.last_encoded == peer.encoder.last_encoded
            &&& after == (PeerView { encoder: after.encoder, ..peer })
        }),
{
}

/// A message that says nothing but that the sender is there changes nothing.
pub proof fn law_keep_alives_change_nothing<I: InputValue>(
    peer: PeerView<I>,
    magic: u16,
    now: UnixMillis,
)
    ensures
        peer.handled(magic, MessageView::KeepAlive, now) == (peer, Ok::<(), PeerError>(())),
{
}

/// Who is asked answers with the number that it was asked for, in every state and whoever
/// asks, but for a stranger that asks while the connection runs with another. It does nothing
/// else.
pub proof fn law_requests_are_answered<I: InputValue>(
    peer: PeerView<I>,
    magic: u16,
    random: u32,
    now: UnixMillis,
)
    requires
        !peer.messages.closed,
    ensures
        ({
            let (after, result) = peer.handled(
                magic,
                MessageView::SyncRequest(SyncRequest { random }),
                now,
            );
            let is_stranger = peer.state matches PeerState::Running { remote_magic } && magic
                != remote_magic;
            &&& is_stranger ==> after == peer && result == Err::<(), PeerError>(
                PeerError::InvalidMessage,
            )
            &&& !is_stranger ==> {
                &&& result == Ok::<(), PeerError>(())
                &&& after.messages.items == peer.messages.items.push(
                    MessageView::SyncReply(SyncReply { random }),
                )
                &&& after == (PeerView { messages: after.messages, ..peer })
            }
        }),
{
}

/// The handshake in full. The right number has to come back six times; the last time tells
/// whom the connection runs with. The session is told each time, and each time but the last
/// the number is asked for again. Then the connection runs, and its tasks are started.
#[verifier::rlimit(40)]
pub proof fn law_handshake_in_full<I: InputValue>(
    peer: PeerView<I>,
    random: u32,
    early: u16,
    magic: u16,
    now: UnixMillis,
)
    requires
        peer.state == (PeerState::Connecting { random }),
        !peer.events.closed,
        !peer.messages.closed,
    ensures
        ({
            let answer = MessageView::SyncReply(SyncReply { random });
            let request = MessageView::SyncRequest(SyncRequest { random });
            let first = peer.handled(early, answer, now);
            let second = first.0.handled(early, answer, now);
            let third = second.0.handled(early, answer, now);
            let fourth = third.0.handled(early, answer, now);
            let fifth = fourth.0.handled(early, answer, now);
            let sixth = fifth.0.handled(magic, answer, now);
            &&& first.1 is Ok && second.1 is Ok && third.1 is Ok
            &&& fourth.1 is Ok && fifth.1 is Ok && sixth.1 is Ok
            &&& first.0.state is Syncing && second.0.state is Syncing && third.0.state is Syncing
            &&& fourth.0.state is Syncing && fifth.0.state is Syncing
            &&& sixth.0.state == (PeerState::Running { remote_magic: magic })
            &&& sixth.0.events.items == peer.events.items + seq![
                EventView::Connected,
                EventView::Synchronizing { total: 5, count: 1 },
                EventView::Synchronizing { total: 5, count: 2 },
                EventView::Synchronizing { total: 5, count: 3 },
                EventView::Synchronizing { total: 5, count: 4 },
                EventView::Synchronized,
            ]
            &&& first.0.messages.items == peer.messages.items + seq![request]
            &&& sixth.0.messages.items == peer.messages.items + seq![
                request,
                request,
                request,
                request,
                request,
            ]
            &&& fifth.0.tasks == peer.tasks
            &&& sixth.0.tasks.items == peer.tasks.items + seq![
                Task::Heartbeat { interval: Millis(200) },
                Task::SendQualityReports { interval: Millis(1000) },
                Task::ResendInputs { interval: Millis(1000) },
                Task::UpdateNetworkStats { interval: Millis(1000) },
            ]
            &&& sixth.0.stats == (PeerStats { last_input_packet_recv_time: now, ..peer.stats })
            &&& sixth.0 == (PeerView {
                state: sixth.0.state,
                events: sixth.0.events,
                messages: sixth.0.messages,
                tasks: sixth.0.tasks,
                stats: sixth.0.stats,
                ..peer
            })
            &&& !sixth.0.events.closed && !sixth.0.messages.closed
        }),
{
    let answer = MessageView::SyncReply(SyncReply { random });
    let request = MessageView::SyncRequest(SyncRequest { random });
    let first = peer.handled(early, answer, now);
    let second = first.0.handled(early, answer, now);
    let third = second.0.handled(early, answer, now);
    let fourth = third.0.handled(early, answer, now);
    let fifth = fourth.0.handled(early, answer, now);
    let sixth = fifth.0.handled(magic, answer, now);
    assert(first.0.messages.items =~= peer.messages.items + seq![request]);
    assert(sixth.0.messages.items =~= peer.messages.items + seq![
        request,
        request,
        request,
        request,
        request,
    ]);
    assert(sixth.0.events.items =~= peer.events.items + seq![
        EventView::Connected,
        EventView::Synchronizing { total: 5, count: 1 },
        EventView::Synchronizing { total: 5, count: 2 },
        EventView::Synchronizing { total: 5, count: 3 },
        EventView::Synchronizing { total: 5, count: 4 },
        EventView::Synchronized,
    ]);
    assert(sixth.0.tasks.items =~= peer.tasks.items + seq![
        Task::Heartbeat { interval: Millis(200) },
        Task::SendQualityReports { interval: Millis(1000) },
        Task::ResendInputs { interval: Millis(1000) },
        Task::UpdateNetworkStats { interval: Millis(1000) },
    ]);
}

/// An answer does nothing after the handshake. It is wrong if it comes from a stranger, or
/// while the connection is interrupted or gone. During the handshake it is wrong if it holds
/// another number than the one that was asked for.
pub proof fn law_answers_out_of_place_change_nothing<I: InputValue>(
    peer: PeerView<I>,
    magic: u16,
    random: u32,
    now: UnixMillis,
)
    ensures
        ({
            let (after, result) = peer.handled(
                magic,
                MessageView::SyncReply(SyncReply { random }),
                now,
            );
            match peer.state {
                PeerState::Connecting { random: asked } => asked != random ==> after == peer
                    && result == Err::<(), PeerError>(PeerError::InvalidMessage),
                PeerState::Syncing { random: asked, .. } => asked != random ==> after == peer
                    && result == Err::<(), PeerError>(PeerError::InvalidMessage),
                PeerState::Running { remote_magic } => {
                    &&& after == peer
                    &&& result is Ok <==> magic == remote_magic
                    &&& magic != remote_magic ==> result == Err::<(), PeerError>(
                        PeerError::InvalidMessage,
                    )
                },
                _ => after == peer && result == Err::<(), PeerError>(PeerError::InvalidMessage),
            }
        }),
{
}

/// A report is answered with its time, and the frame advantage of the remote peer is
/// remembered. Its answer tells the round trip time. Neither does anything else.
pub proof fn law_reports_change_nothing_else<I: InputValue>(
    peer: PeerView<I>,
    magic: u16,
    report: QualityReport,
    reply: QualityReply,
    now: UnixMillis,
)
    requires
        !peer.messages.closed,
        reply.pong.0 <= now.0,
    ensures
        ({
            let (after, result) = peer.handled(magic, MessageView::QualityReport(report), now);
            &&& result == Ok::<(), PeerError>(())
            &&& after.messages.items == peer.messages.items.push(
                MessageView::QualityReply(QualityReply { pong: report.ping }),
            )
            &&& after == (PeerView {
                messages: after.messages,
                stats: PeerStats { remote_frame_advantage: report.frame_advantage, ..peer.stats },
                ..peer
            })
        }),
        ({
            let (after, result) = peer.handled(magic, MessageView::QualityReply(reply), now);
            &&& result == Ok::<(), PeerError>(())
            &&& after.stats.round_trip_time.0 == now.0 - reply.pong.0
            &&& after == (PeerView {
                stats: PeerStats { round_trip_time: after.stats.round_trip_time, ..peer.stats },
                ..peer
            })
        }),
{
}

/// Every message that is handled well counts as heard, in whatever state the connection is.
/// One that is wrong does not, and anything else that fails ends the connection.
pub proof fn law_messages_count_as_heard<I: InputValue>(
    peer: PeerView<I>,
    magic: u16,
    message: MessageView,
    now: UnixMillis,
)
    ensures
        ({
            let (handled, result) = peer.handled(magic, message, now);
            let (after, outcome) = peer.received(magic, message, now);
            match result {
                Ok(()) => {
                    &&& after.last_recv_time == now
                    &&& !(after.state is Interrupted)
                    &&& !(handled.state is Interrupted) ==> {
                        &&& outcome is Ok
                        &&& after == (PeerView { last_recv_time: now, ..handled })
                    }
                    &&& after == (PeerView {
                        last_recv_time: now,
                        state: after.state,
                        events: after.events,
                        ..handled
                    })
                },
                Err(err) => if err == PeerError::InvalidMessage {
                    after == handled && outcome is Ok
                } else {
                    &&& outcome == Err::<(), PeerError>(err)
                    &&& after.state is Disconnected
                    &&& !after.is_listening
                    &&& after.last_recv_time == handled.last_recv_time
                },
            }
        }),
{
}

/// A connection that has just heard from the remote peer is left alone: until the time for a
/// notice has passed, nothing is told to the session, nothing is sent, and it goes on to run.
pub proof fn law_connections_that_are_heard_run_on<I: InputValue>(
    peer: PeerView<I>,
    magic: u16,
    message: MessageView,
    now: UnixMillis,
    later: UnixMillis,
)
    requires
        peer.state is Running || peer.state is Interrupted,
        !peer.events.closed,
        peer.handled(magic, message, now).1 is Ok,
        peer.config.disconnect_notify_start.0 <= peer.config.disconnect_timeout.0,
        peer.config.disconnect_timeout.0 / 1_000_000 <= u64::MAX,
        later.0 <= now.0 + peer.config.disconnect_notify_start.0 / 1_000_000,
    ensures
        ({
            let heard = peer.received(magic, message, now).0;
            &&& heard.state is Running
            &&& heard.ticked(later) == (heard, Ok::<(), PeerError>(()))
        }),
{
}

/// What happens as time passes, from the last time that something was heard. After the time
/// for a notice the session is told, with the time that is left, unless the connection is
/// interrupted already. One that runs is interrupted by it. After the timeout the connection
/// is given up. Until then a missing answer is asked for again: the first one after 500
/// milliseconds without sending anything, the others after 2000.
#[verifier::rlimit(40)]
pub proof fn law_time_passes<I: InputValue>(peer: PeerView<I>, now: UnixMillis)
    requires
        !peer.events.closed,
        !peer.messages.closed,
        peer.config.disconnect_notify_start.0 <= peer.config.disconnect_timeout.0,
        peer.config.disconnect_timeout.0 / 1_000_000 <= u64::MAX,
    ensures
        ({
            let (after, result) = peer.ticked(now);
            let silent = now.0 - peer.last_recv_time.0;
            let is_told = silent > peer.config.disconnect_notify_start.0 / 1_000_000 && !(
            peer.state is Interrupted);
            let is_over = silent > peer.config.disconnect_timeout.0 / 1_000_000;
            let is_due = match peer.state {
                PeerState::Connecting { .. } => match peer.stats.last_send_time {
                    Some(last) => now.0 - last.0 > 500,
                    None => true,
                },
                PeerState::Syncing { .. } => match peer.stats.last_send_time {
                    Some(last) => now.0 - last.0 > 2000,
                    None => true,
                },
                _ => false,
            };
            &&& is_told ==> after.events.items.len() == peer.events.items.len() + 1
                && after.events.items.drop_last() == peer.events.items && (
            after.events.items.last() matches EventView::NetworkInterrupted { disconnect_timeout }
                && disconnect_timeout.0 == peer.config.disconnect_timeout.0
                - peer.config.disconnect_notify_start.0)
            &&& !is_told ==> after.events.items == peer.events.items
            &&& is_over ==> {
                &&& result == Err::<(), PeerError>(PeerError::RemoteDisconnected)
                &&& after.state is Disconnected
                &&& !after.is_listening
                &&& after.messages.items == peer.messages.items
                &&& after.messages.closed && after.events.closed
            }
            &&& !is_over ==> {
                &&& result == Ok::<(), PeerError>(())
                &&& after.is_listening == peer.is_listening
                &&& !after.messages.closed && !after.events.closed
                &&& match peer.state {
                    PeerState::Running { remote_magic } => after.state == (if is_told {
                        PeerState::Interrupted { remote_magic }
                    } else {
                        peer.state
                    }),
                    _ => after.state == peer.state,
                }
                &&& !is_due ==> after.messages.items == peer.messages.items
                &&& is_due ==> match peer.state {
                    PeerState::Connecting { random } => after.messages.items
                        == peer.messages.items.push(
                        MessageView::SyncRequest(SyncRequest { random }),
                    ),
                    PeerState::Syncing { random, .. } => after.messages.items
                        == peer.messages.items.push(
                        MessageView::SyncRequest(SyncRequest { random }),
                    ),
                    _ => false,
                }
            }
            &&& after == (PeerView {
                state: after.state,
                events: after.events,
                messages: after.messages,
                is_listening: after.is_listening,
                ..peer
            })
        }),
{
    let after = peer.ticked(now).0;
    if after.events.items.len() > peer.events.items.len() {
        assert(after.events.items.drop_last() =~= peer.events.items);
    }
}

/// The session is told of an interruption once.
pub proof fn law_interruptions_are_told_once<I: InputValue>(
    peer: PeerView<I>,
    now: UnixMillis,
    later: UnixMillis,
)
    requires
        peer.state is Running,
        !peer.events.closed,
        peer.ticked(now).0.state is Interrupted,
    ensures
        peer.ticked(now).0.ticked(later).0.events.items == peer.ticked(now).0.events.items,
        peer.ticked(now).0.events.items.len() == peer.events.items.len() + 1,
{
}

/// A connection that is given up sends and tells nothing more, but what was put up before can
/// still be taken. Nothing else is lost.
pub proof fn law_disconnecting_keeps_what_waits<I: InputValue>(peer: PeerView<I>)
    ensures
        ({
            let after = peer.disconnected();
            &&& after.state is Disconnected
            &&& !after.is_listening
            &&& after.messages.closed && after.messages.items == peer.messages.items
            &&& after.events.closed && after.events.items == peer.events.items
            &&& after == (PeerView {
                state: after.state,
                is_listening: false,
                messages: after.messages,
                events: after.events,
                ..peer
            })
        }),
{
}

/// What two sides know of a player comes together: it is gone if either knows it to be, and
/// the last frame is the later one. Who is known to one side only stays as that side knows.
pub proof fn law_both_sides_knowledge_counts(
    known: Seq<ConnectionStatus>,
    told: Seq<ConnectionStatus>,
    player: int,
)
    requires
        0 <= player,
        player < known.len() || player < told.len(),
    ensures
        ({
            let both = merged(known, told);
            &&& both.len() == known.len() || both.len() == told.len()
            &&& both.len() >= known.len() && both.len() >= told.len()
            &&& player >= told.len() ==> both[player] == known[player]
            &&& player >= known.len() ==> both[player] == told[player]
            &&& player < known.len() && player < told.len() ==> {
                &&& both[player].disconnected <==> known[player].disconnected
                    || told[player].disconnected
                &&& both[player].last_frame >= known[player].last_frame
                &&& both[player].last_frame >= told[player].last_frame
                &&& both[player].last_frame == known[player].last_frame || both[player].last_frame
                    == told[player].last_frame
            }
        }),
{
}

/// The remote session is estimated to be as many frames ahead of the last one that came as pass
/// at 60 frames a second in half of the whole seconds of the round trip.
pub proof fn law_remote_frame_is_estimated<I: InputValue>(peer: PeerView<I>, halves: int)
    requires
        0 <= halves,
        2000 * halves <= peer.stats.round_trip_time.0 < 2000 * (halves + 1),
        60 * halves <= i32::MAX,
    ensures
        peer.remote_frame() == peer.last_decoded.frame + 60 * halves,
{
    let seconds = peer.stats.round_trip_time.0 as int / 1000;
    assert(seconds / 2 == halves);
}

/// What comes of sending and telling is decided by whether anybody still takes it.
pub proof fn law_closed_ends_are_told_apart<I: InputValue>(
    peer: PeerView<I>,
    message: MessageView,
    event: EventView<I>,
)
    ensures
        peer.send_result() == (if peer.messages.closed {
            Err(PeerError::RemoteDisconnected)
        } else {
            Ok(())
        }),
        peer.notify_result() == (if peer.events.closed {
            Err(PeerError::LocalDisconnected)
        } else {
            Ok(())
        }),
        peer.messages.closed ==> peer.sending(message) == peer,
        peer.events.closed ==> peer.notifying(event) == peer,
        !peer.messages.closed ==> peer.sending(message).messages.items
            == peer.messages.items.push(message),
        !peer.events.closed ==> peer.notifying(event).events.items == peer.events.items.push(event),
        peer.sending(message) == (PeerView { messages: peer.sending(message).messages, ..peer }),
        peer.notifying(event) == (PeerView { events: peer.notifying(event).events, ..peer }),
{
}

/// A session that does not listen any more ends the connection as soon as it would have to be
/// told that the handshake goes on. So does a connection over which nothing can be sent, as
/// soon as there is something to answer.
pub proof fn law_connections_end_where_nobody_listens<I: InputValue>(
    peer: PeerView<I>,
    magic: u16,
    random: u32,
    report: QualityReport,
    now: UnixMillis,
)
    requires
        peer.is_counting(),
    ensures
        peer.events.closed && (match peer.state {
            PeerState::Connecting { random: asked } => asked == random,
            PeerState::Syncing { random: asked, .. } => asked == random,
            _ => false,
        }) ==> {
            let (after, result) = peer.received(
                magic,
                MessageView::SyncReply(SyncReply { random }),
                now,
            );
            &&& result == Err::<(), PeerError>(PeerError::LocalDisconnected)
            &&& after.state is Disconnected
            &&& after.messages.items == peer.messages.items
        },
        peer.messages.closed && !(peer.state is Running) ==> {
            let (after, result) = peer.received(
                magic,
                MessageView::SyncRequest(SyncRequest { random }),
                now,
            );
            &&& result == Err::<(), PeerError>(PeerError::RemoteDisconnected)
            &&& after.state is Disconnected
        },
        peer.messages.closed ==> {
            let (after, result) = peer.received(magic, MessageView::QualityReport(report), now);
            &&& result == Err::<(), PeerError>(PeerError::RemoteDisconnected)
            &&& after.state is Disconnected
        },
{
}

/// Inputs that come for a session that does not listen any more end the connection, and are
/// not acknowledged. So do inputs that cannot be acknowledged, after the session was told.
pub proof fn law_inputs_need_a_session_and_an_answer<I: InputValue>(
    peer: PeerView<I>,
    magic: u16,
    told: Seq<ConnectionStatus>,
    start_frame: Frame,
    ack_frame: Frame,
    bits: Seq<u8>,
    inputs: Seq<FrameInput<I>>,
    now: UnixMillis,
)
    requires
        input_buffer::is_decoded(
            peer.last_decoded,
            start_frame,
            super::bitfield::decoded(bits, 0),
            inputs,
        ),
        inputs.len() > 0,
        super::bitfield::decoded_end(bits, 0) == bits.len(),
        super::bitfield::decoded(bits, 0).len() <= 65535,
        peer.events.closed || peer.messages.closed,
    ensures
        ({
            let message = MessageView::Input {
                peer_connect_status: told,
                start_frame,
                ack_frame,
                bits,
            };
            let (after, result) = peer.received(magic, message, now);
            &&& after.state is Disconnected
            &&& after.encoder == peer.encoder
            &&& after.last_decoded == inputs.last()
            &&& after.messages.items == peer.messages.items
            &&& peer.events.closed ==> {
                &&& result == Err::<(), PeerError>(PeerError::LocalDisconnected)
                &&& after.events.items == peer.events.items
            }
            &&& !peer.events.closed ==> {
                &&& result == Err::<(), PeerError>(PeerError::RemoteDisconnected)
                &&& after.events.items == peer.events.items.push(EventView::Inputs(inputs))
            }
        }),
{
    input_buffer::lemma_decoded_inputs(peer.last_decoded, start_frame, bits, inputs);
}

/// A silence that the session cannot be told of stops the looking after. The connection is
/// interrupted, but not given up.
pub proof fn law_silence_without_a_session<I: InputValue>(peer: PeerView<I>, now: UnixMillis)
    requires
        peer.events.closed,
        !(peer.state is Interrupted),
        peer.config.disconnect_notify_start.0 / 1_000_000 <= u64::MAX,
        now.0 - peer.last_recv_time.0 > peer.config.disconnect_notify_start.0 / 1_000_000,
    ensures
        peer.ticked(now).1 == Err::<(), PeerError>(PeerError::LocalDisconnected),
        peer.ticked(now).0.state == (match peer.state {
            PeerState::Running { remote_magic } => PeerState::Interrupted { remote_magic },
            _ => peer.state,
        }),
        peer.ticked(now).0 == (PeerView { state: peer.ticked(now).0.state, ..peer }),
{
}

/// What can be done at any time, or needs no more than that times can be added up and that
/// the inputs are not too many.
pub proof fn law_little_is_needed<I: InputValue>(
    peer: PeerView<I>,
    now: UnixMillis,
    request: SyncRequest,
    reply: SyncReply,
    ack: InputAck,
    report: QualityReport,
    answer: QualityReply,
    local_frame: Frame,
)
    ensures
        peer.can_handle(MessageView::KeepAlive, now),
        peer.can_handle(MessageView::SyncRequest(request), now),
        peer.can_handle(MessageView::SyncReply(reply), now),
        peer.can_handle(MessageView::InputAck(ack), now),
        peer.can_handle(MessageView::QualityReport(report), now),
        peer.can_handle(MessageView::QualityReply(answer), now) <==> answer.pong.0 <= now.0,
        peer.config.disconnect_notify_start.0 <= peer.config.disconnect_timeout.0
            && peer.config.disconnect_timeout.0 / 1_000_000 <= u64::MAX - peer.last_recv_time.0 && (
        match peer.stats.last_send_time {
            Some(last) => last.0 <= u64::MAX - 2000,
            None => true,
        }) ==> peer.can_tick(now),
        peer.stats.last_input_packet_recv_time.0 <= u64::MAX - 200 && peer.encoder.pending.len()
            * I::size() <= 65535 ==> peer.can_resend(now),
        peer.stats.round_trip_time.0 < 2000 && -1 <= peer.last_decoded.frame && 0 <= local_frame
            ==> peer.has_advantage_at(local_frame),
{
}

} // verus!
