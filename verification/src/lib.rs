//! Rollback networking for peer-to-peer games.

pub use backend::SyncTestBackend;
pub use input::GameInput;
use input_value::InputValue;
use time_sync::{Millis, Nanos};
use vstd::prelude::*;

pub mod backend;
pub mod client;
pub mod command;
pub mod id;
pub mod input;
pub mod input_value;
pub mod protocol;
pub mod stage;
pub mod sync;
pub mod time_sync;
pub mod transport;

verus! {

/// The maximum number of players supported in a single game.
pub const MAX_PLAYERS: usize = 8;

/// How many frames of input are kept for each player: approximately 2 seconds.
pub const MAX_ROLLBACK_FRAMES: usize = 120;

/// The number of a simulated frame.
pub type Frame = i32;

/// The frame that stands for no frame.
pub const NULL_FRAME: Frame = -1;

/// Tells whether a frame stands for no frame.
pub fn is_null(frame: Frame) -> (r: bool)
    ensures
        r == (frame < 0),
{
    frame < 0
}

/// A handle for a player in a session.
#[derive(Copy, Clone, Debug, PartialEq, Eq, Structural)]
pub struct PlayerHandle(pub usize);

/// Players within a session, with what connects them to the local one.
#[derive(Debug)]
pub enum Player<P> {
    /// The local player. Only one local player per machine is supported.
    Local,
    /// A remote player that is not on the local session.
    Remote(P),
}

impl<P> Player<P> {
    /// Tells whether the player is the local one.
    pub fn is_local(&self) -> (r: bool)
        ensures
            r == (self is Local),
    {
        matches!(self, Self::Local)
    }
}

impl<P> Default for Player<P> {
    fn default() -> (r: Self)
        ensures
            r is Local,
    {
        Self::Local
    }
}

/// Compile time parameterization for sessions.
pub trait Config {
    /// The input type for a session. This is the only game-related data transmitted over
    /// the network.
    type Input: InputValue;

    /// The save state type for the session.
    type State: Clone;
}

/// Why a session refuses what it is asked for.
#[derive(Clone, Copy, Debug, PartialEq, Eq, Structural)]
pub enum BackrollError {
    /// There is more than one local player.
    MultipleLocalPlayers,
    /// Action cannot be taken while in rollback.
    InRollback,
    /// The session has not been synchronized yet.
    NotSynchronized,
    /// The simulation has reached the prediction barrier.
    ReachedPredictionBarrier,
    /// There is no player with this handle.
    InvalidPlayer(PlayerHandle),
    /// The player is already disconnected.
    PlayerDisconnected(PlayerHandle),
}

/// What a session returns.
pub type BackrollResult<T> = Result<T, BackrollError>;

/// How a connection does.
#[derive(Clone, Copy, Debug, PartialEq, Eq, Structural)]
pub struct NetworkStats {
    /// The round time trip duration between the local player and the remote.
    pub ping: Millis,
    /// The number of outgoing messages currently not sent.
    pub send_queue_len: usize,
    /// The number of incoming messages currently not processed.
    pub recv_queue_len: usize,
    /// The number of kilobytes sent per second, a rolling average.
    pub kbps_sent: u32,
    /// The local frame advantage relative to the associated peer.
    pub local_frames_behind: Frame,
    /// The remote frame advantage of the associated peer relative to the local player.
    pub remote_frames_behind: Frame,
}

impl Default for NetworkStats {
    fn default() -> (r: Self)
        ensures
            r == (NetworkStats {
                ping: Millis(0),
                send_queue_len: 0,
                recv_queue_len: 0,
                kbps_sent: 0,
                local_frames_behind: 0,
                remote_frames_behind: 0,
            }),
    {
        NetworkStats {
            ping: Millis(0),
            send_queue_len: 0,
            recv_queue_len: 0,
            kbps_sent: 0,
            local_frames_behind: 0,
            remote_frames_behind: 0,
        }
    }
}

/// Event that occurs during the course of a session.
#[derive(Clone, Copy, Debug, PartialEq, Eq, Structural)]
pub enum Event {
    /// A initial response packet from the remote player has been recieved.
    Connected(PlayerHandle),
    /// A response from a remote player has been recieved during the initial
    /// synchronization handshake.
    Synchronizing { player: PlayerHandle, count: u8, total: u8 },
    /// The initial synchronization handshake has been completed. The connection is
    /// considered live now.
    Synchronized(PlayerHandle),
    /// All remote peers are now synchronized, the session is can now start running.
    Running,
    /// The connection with a remote player has been disconnected.
    Disconnected(PlayerHandle),
    /// The local client is several frames ahead of all other peers. Might need to stall a
    /// few frames to allow others to catch up.
    TimeSync { frames_ahead: u8 },
    /// The connection with a remote player has been temporarily interrupted.
    ConnectionInterrupted { player: PlayerHandle, disconnect_timeout: Nanos },
    /// The connection with a remote player has been resumed after being interrupted.
    ConnectionResumed(PlayerHandle),
}

} // verus!
