//! The connection with a remote peer.
use crate::{Frame, NULL_FRAME};
use message::SyncRequest;
use vstd::prelude::*;

pub mod bitfield;
pub mod compression;
pub mod event;
pub mod input_buffer;
pub mod message;
pub mod outbox;
pub mod peer;
pub mod varint;
pub mod wire;

verus! {

/// Size of IP and UDP headers.
pub const UDP_HEADER_SIZE: usize = 28;

/// A sane common packet size.
pub const MAX_TRANSMISSION_UNIT: u64 = 1450;

/// How many requests are to be answered before the connection is taken for good.
pub const NUM_SYNC_PACKETS: u8 = 5;

/// How many frames are simulated in a second.
pub const TARGET_TPS: u64 = 60;

/// How often the connection is looked after, in milliseconds.
pub const POLL_INTERVAL: u64 = 1000 / TARGET_TPS;

/// How long an answer is waited for before the request is sent again, in milliseconds.
pub const SYNC_RETRY_INTERVAL: u64 = 2000;

/// How long the first answer is waited for before the request is sent again, in milliseconds.
pub const SYNC_FIRST_RETRY_INTERVAL: u64 = 500;

/// How long inputs are waited for before the own ones are sent again, in
/// milliseconds.
pub const RUNNING_RETRY_INTERVAL: u64 = 200;

/// How often the remote peer is told that the local one is there, in milliseconds.
pub const KEEP_ALIVE_INTERVAL: u64 = 200;

/// How often the remote peer is told how the local one does, in milliseconds.
pub const QUALITY_REPORT_INTERVAL: u64 = 1000;

/// How often the traffic is measured, in milliseconds.
pub const NETWORK_STATS_INTERVAL: u64 = 1000;

/// How far the number of a message may be ahead of the one before it.
pub const MAX_SEQ_DISTANCE: u16 = 32768;

/// Why something could not be done over a connection.
#[derive(Clone, Copy, Debug, PartialEq, Eq, Structural)]
pub enum PeerError {
    /// The session does not listen to the connection any more.
    LocalDisconnected,
    /// Nothing can be sent to the remote peer any more.
    RemoteDisconnected,
    /// A message was not as it should be.
    InvalidMessage,
}

/// `rand::random` draws a number that is not zero. Which one it is depends on chance.
#[verifier::external_body]
pub(crate) fn random() -> (r: u32)
    ensures
        r != 0,
{
    rand::random::<core::num::NonZeroU32>().get()
}

/// How far a connection has come.
#[derive(Clone, Copy, Debug, PartialEq, Eq, Structural)]
pub enum PeerState {
    /// The remote peer has not answered yet.
    Connecting { random: u32 },
    /// The remote peer has answered, but not often enough.
    Syncing { random: u32, roundtrips_remaining: u8 },
    /// The remote peer has answered often enough.
    Running { remote_magic: u16 },
    /// Nothing has come from the remote peer for a while.
    Interrupted { remote_magic: u16 },
    /// The connection is gone for good.
    Disconnected,
}

impl PeerState {
    /// The number that the remote peer is to send back.
    pub open spec fn expected(self) -> Option<u32> {
        match self {
            PeerState::Connecting { random } => Some(random),
            PeerState::Syncing { random, .. } => Some(random),
            _ => None,
        }
    }

    /// Whether inputs are exchanged.
    pub open spec fn runs(self) -> bool {
        self is Running || self is Interrupted
    }

    /// The state after nothing came for a while.
    pub open spec fn interrupted(self) -> Self {
        match self {
            PeerState::Running { remote_magic } => PeerState::Interrupted { remote_magic },
            _ => self,
        }
    }

    /// The state after something came again.
    pub open spec fn resumed(self) -> Self {
        match self {
            PeerState::Interrupted { remote_magic } => PeerState::Running { remote_magic },
            _ => self,
        }
    }

    /// The state after the first answer.
    pub open spec fn syncing(self, round_trips: u8) -> Self {
        match self {
            PeerState::Connecting { random } => PeerState::Syncing {
                random,
                roundtrips_remaining: round_trips,
            },
            _ => self,
        }
    }

    /// The number that the remote peer is to send back, as long as it is asked to.
    pub fn random(&self) -> (r: Option<u32>)
        ensures
            r == self.expected(),
    {
        match *self {
            Self::Connecting { random } => Some(random),
            Self::Syncing { random, .. } => Some(random),
            _ => None,
        }
    }

    /// Tells whether inputs are exchanged.
    pub fn is_running(&self) -> (r: bool)
        ensures
            r == self.runs(),
    {
        matches!(self, Self::Running { .. } | Self::Interrupted { .. })
    }

    /// A request for the remote peer to answer.
    pub fn create_sync_request(&self) -> (r: SyncRequest)
        requires
            self.expected() is Some,
        ensures
            r.random == self.expected()->0,
    {
        match *self {
            Self::Connecting { random } => SyncRequest { random },
            Self::Syncing { random, .. } => SyncRequest { random },
            _ => vstd::pervasive::unreached(),
        }
    }

    /// Tells whether the connection is gone for good.
    pub fn is_disconnected(&self) -> (r: bool)
        ensures
            r == (self is Disconnected),
    {
        matches!(self, Self::Disconnected)
    }

    /// Tells whether nothing has come from the remote peer for a while.
    pub fn is_interrupted(&self) -> (r: bool)
        ensures
            r == (self is Interrupted),
    {
        matches!(self, Self::Interrupted { .. })
    }

    /// Goes on after the first answer, with so many more to wait for.
    pub fn start_syncing(&mut self, round_trips: u8)
        ensures
            *final(self) == old(self).syncing(round_trips),
    {
        if let Self::Connecting { random } = *self {
            *self = Self::Syncing { random, roundtrips_remaining: round_trips };
        }
    }

    /// Takes note that nothing came for a while, and tells whether that is new.
    pub fn interrupt(&mut self) -> (r: bool)
        ensures
            r == (*old(self) is Running),
            *final(self) == old(self).interrupted(),
    {
        if let Self::Running { remote_magic } = *self {
            *self = Self::Interrupted { remote_magic };
            true
        } else {
            false
        }
    }

    /// Takes note that something came, and tells whether nothing had come for a while.
    pub fn resume(&mut self) -> (r: bool)
        ensures
            r == (*old(self) is Interrupted),
            *final(self) == old(self).resumed(),
    {
        if let Self::Interrupted { remote_magic } = *self {
            *self = Self::Running { remote_magic };
            true
        } else {
            false
        }
    }
}

impl Default for PeerState {
    fn default() -> (r: Self)
        ensures
            r is Connecting,
            r.expected()->0 != 0,
    {
        Self::Connecting { random: random() }
    }
}

/// A connection that was interrupted goes on as it was.
pub proof fn law_resume_undoes_interrupt(state: PeerState)
    requires
        state is Running,
    ensures
        state.interrupted() is Interrupted,
        state.interrupted().runs(),
        state.interrupted().resumed() == state,
{
}

/// Neither an interruption nor its end brings a connection to run or to stop running.
pub proof fn law_interruptions_do_not_end_a_connection(state: PeerState)
    ensures
        state.interrupted().runs() == state.runs(),
        state.resumed().runs() == state.runs(),
        state.interrupted().expected() == state.expected(),
        state.resumed().expected() == state.expected(),
{
}

/// Whether a player is gone, and the last frame for which its input is known.
#[derive(Clone, Copy, Debug, PartialEq, Eq, Structural)]
pub struct ConnectionStatus {
    pub disconnected: bool,
    pub last_frame: Frame,
}

impl Default for ConnectionStatus {
    fn default() -> (r: Self)
        ensures
            r == (ConnectionStatus { disconnected: false, last_frame: NULL_FRAME }),
    {
        Self { disconnected: false, last_frame: NULL_FRAME }
    }
}

/// What each state is: inputs are exchanged while the connection runs, be it interrupted or
/// not, and an answer is expected during the handshake. An interruption and its end keep the
/// peer that the connection runs with, and change no other state.
pub proof fn law_states_are_told_apart(state: PeerState, round_trips: u8)
    ensures
        state.runs() <==> state is Running || state is Interrupted,
        match state {
            PeerState::Connecting { random } => {
                &&& state.expected() == Some(random)
                &&& state.syncing(round_trips) == (PeerState::Syncing {
                    random,
                    roundtrips_remaining: round_trips,
                })
                &&& state.interrupted() == state && state.resumed() == state
            },
            PeerState::Syncing { random, .. } => {
                &&& state.expected() == Some(random)
                &&& state.syncing(round_trips) == state
                &&& state.interrupted() == state && state.resumed() == state
            },
            PeerState::Running { remote_magic } => {
                &&& state.expected() is None
                &&& state.syncing(round_trips) == state
                &&& state.interrupted() == (PeerState::Interrupted { remote_magic })
                &&& state.resumed() == state
            },
            PeerState::Interrupted { remote_magic } => {
                &&& state.expected() is None
                &&& state.syncing(round_trips) == state
                &&& state.interrupted() == state
                &&& state.resumed() == (PeerState::Running { remote_magic })
            },
            PeerState::Disconnected => {
                &&& state.expected() is None
                &&& state.syncing(round_trips) == state
                &&& state.interrupted() == state && state.resumed() == state
            },
        },
{
}

} // verus!
