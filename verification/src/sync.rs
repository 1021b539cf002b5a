//! The simulation, as far as it is told by inputs: saved states, input queues and the
//! rollback that brings them in line.
use crate::command::{Command, CommandView, Commands, LoadState, SaveState};
use crate::input::{FrameInput, GameInput, InputQueue, QueueView};
use crate::input_value::InputValue;
use crate::protocol::ConnectionStatus;
use crate::{is_null, BackrollError, BackrollResult, Config, Frame, MAX_PLAYERS, NULL_FRAME};
use vstd::prelude::*;
use vstd::std_specs::cmp::PartialEqSpec;

verus! {

/// How many frames the simulation may run ahead of the inputs.
pub const MAX_PREDICTION_FRAMES: usize = 8;

/// How many states are kept: one more than can be rolled back, and one to write to.
pub const SAVED_FRAMES: usize = 10;

/// A saved state, and the frame that it belongs to.
pub struct SavedFrame<T> {
    pub frame: Frame,
    pub data: Option<Box<T>>,
    pub checksum: Option<u64>,
}

impl<T> Default for SavedFrame<T> {
    fn default() -> (r: Self)
        ensures
            r == (SavedFrame::<T> { frame: NULL_FRAME, data: None, checksum: None }),
    {
        Self { frame: NULL_FRAME, data: None, checksum: None }
    }
}

/// A place for a saved state.
pub struct SavedCell<T>(pub SavedFrame<T>);

impl<T> SavedCell<T> {
    /// Empties the cell for another frame.
    pub fn reset(&mut self, frame: Frame)
        ensures
            final(self).0 == (SavedFrame::<T> { frame, data: None, checksum: None }),
    {
        self.0 = SavedFrame { frame, data: None, checksum: None };
    }

    /// Puts a state into the cell. The frame of the cell stays the one it was reset to.
    pub fn save(&mut self, new_frame: SavedFrame<T>)
        requires
            new_frame.data is Some,
        ensures
            final(self).0 == (SavedFrame::<T> {
                frame: old(self).0.frame,
                data: new_frame.data,
                checksum: new_frame.checksum,
            }),
    {
        self.0.data = new_frame.data;
        self.0.checksum = new_frame.checksum;
    }

    /// Tells whether there is a state in the cell, and it belongs to a frame.
    pub fn is_valid(&self) -> (r: bool)
        ensures
            r == (self.0.data is Some && self.0.frame >= 0),
    {
        self.0.data.is_some() && !is_null(self.0.frame)
    }
}

impl<T: Clone> SavedCell<T> {
    /// A copy of the state in the cell.
    pub fn load(&self) -> (r: T)
        requires
            self.0.data is Some,
        ensures
            cloned(*self.0.data->0, r),
    {
        match &self.0.data {
            Some(data) => (**data).clone(),
            None => vstd::pervasive::unreached(),
        }
    }
}

impl<T> Default for SavedCell<T> {
    fn default() -> (r: Self)
        ensures
            r.0 == (SavedFrame::<T> { frame: NULL_FRAME, data: None, checksum: None }),
    {
        Self(SavedFrame::default())
    }
}

/// The states that are kept, in the order of their slots.
pub struct SavedView<T> {
    /// The slot that is written next.
    pub head: int,
    /// What is in each slot.
    pub cells: Seq<SavedFrame<T>>,
}

impl<T> SavedView<T> {
    /// Whether a state for a frame has a slot.
    pub open spec fn has(self, frame: int) -> bool {
        exists|i: int| 0 <= i < self.cells.len() && (#[trigger] self.cells[i]).frame == frame
    }

    /// The first slot for a frame.
    pub open spec fn is_slot_of(self, frame: int, slot: int) -> bool {
        &&& 0 <= slot < self.cells.len()
        &&& self.cells[slot].frame == frame
        &&& forall|i: int| 0 <= i < slot ==> (#[trigger] self.cells[i]).frame != frame
    }

    /// The first slot for a frame.
    pub open spec fn slot_of(self, frame: int) -> int {
        choose|slot: int| self.is_slot_of(frame, slot)
    }

    /// The buffer after a slot was made for a frame.
    pub open spec fn pushed(self, frame: int) -> Self {
        Self {
            head: (self.head + 1) % SAVED_FRAMES as int,
            cells: self.cells.update(
                self.head,
                SavedFrame { frame: frame as i32, data: None, checksum: None },
            ),
        }
    }

    /// The buffer after it was taken back to a frame: the slots behind it are written next.
    pub open spec fn taken_back(self, frame: int) -> Self {
        Self { head: (self.slot_of(frame) + 1) % SAVED_FRAMES as int, ..self }
    }
}

/// The states that a session can go back to.
pub struct SavedState<T> {
    head: usize,
    frames: Vec<SavedCell<T>>,
}

impl<T> View for SavedState<T> {
    type V = SavedView<T>;

    closed spec fn view(&self) -> SavedView<T> {
        SavedView {
            head: self.head as int,
            cells: self.frames@.map_values(|cell: SavedCell<T>| cell.0),
        }
    }
}

impl<T> SavedState<T> {
    /// There are `SAVED_FRAMES` slots, and one of them is next.
    pub closed spec fn wf(self) -> bool {
        &&& self.head < SAVED_FRAMES
        &&& self.frames@.len() == SAVED_FRAMES
    }

    /// Makes a slot for a frame, and returns it.
    pub fn push(&mut self, frame: Frame) -> (r: usize)
        requires
            old(self).wf(),
        ensures
            final(self).wf(),
            final(self)@ == old(self)@.pushed(frame as int),
            r == old(self)@.head,
    {
        let slot: usize = self.head;
        self.frames[slot].reset(frame);
        self.head = (self.head + 1) % self.frames.len();
        assert(self@.cells =~= old(self)@.pushed(frame as int).cells);
        slot
    }

    /// Finds a saved state for a frame.
    fn find_index(&self, frame: Frame) -> (r: Option<usize>)
        ensures
            match r {
                Some(slot) => self@.is_slot_of(frame as int, slot as int),
                None => !self@.has(frame as int),
            },
    {
        let mut i: usize = 0;
        while i < self.frames.len()
            invariant
                i <= self.frames@.len(),
                forall|k: int| 0 <= k < i ==> (#[trigger] self@.cells[k]).frame != frame,
            decreases self.frames@.len() - i,
        {
            assert(self@.cells[i as int] == self.frames@[i as int].0);
            if self.frames[i].0.frame == frame {
                return Some(i);
            }
            i += 1;
        }
        None
    }

    /// Takes the buffer back to a frame, and returns its slot.
    pub fn reset_to(&mut self, frame: Frame) -> (r: usize)
        requires
            old(self).wf(),
            old(self)@.has(frame as int),
        ensures
            final(self).wf(),
            final(self)@ == (SavedView { head: r as int, ..old(self)@ }),
            old(self)@.is_slot_of(frame as int, r as int),
    {
        match self.find_index(frame) {
            Some(slot) => {
                self.head = slot;
                slot
            },
            None => self.head,
        }
    }

    /// The slot of the latest saved frame; of several, the last one.
    pub fn latest(&self) -> (r: Option<usize>)
        requires
            self.wf(),
        ensures
            match r {
                Some(slot) => {
                    &&& slot < SAVED_FRAMES
                    &&& forall|i: int|
                        0 <= i < SAVED_FRAMES ==> (#[trigger] self@.cells[i]).frame
                            <= self@.cells[slot as int].frame
                    &&& forall|i: int|
                        slot < i < SAVED_FRAMES ==> (#[trigger] self@.cells[i]).frame
                            < self@.cells[slot as int].frame
                },
                None => false,
            },
    {
        let mut latest: usize = 0;
        let mut i: usize = 1;
        while i < self.frames.len()
            invariant
                self.wf(),
                latest < i <= SAVED_FRAMES,
                forall|k: int|
                    0 <= k < i ==> (#[trigger] self@.cells[k]).frame
                        <= self@.cells[latest as int].frame,
                forall|k: int|
                    latest < k < i ==> (#[trigger] self@.cells[k]).frame
                        < self@.cells[latest as int].frame,
            decreases SAVED_FRAMES - i,
        {
            assert(self@.cells[i as int] == self.frames@[i as int].0);
            assert(self@.cells[latest as int] == self.frames@[latest as int].0);
            if self.frames[i].0.frame >= self.frames[latest].0.frame {
                latest = i;
            }
            i += 1;
        }
        Some(latest)
    }

    /// The cell in a slot.
    pub fn cell(&self, slot: usize) -> (r: &SavedCell<T>)
        requires
            slot < self@.cells.len(),
        ensures
            r.0 == self@.cells[slot as int],
    {
        &self.frames[slot]
    }

    /// Puts a state into the cell in a slot.
    pub fn save(&mut self, slot: usize, new_frame: SavedFrame<T>)
        requires
            old(self).wf(),
            slot < SAVED_FRAMES,
            new_frame.data is Some,
        ensures
            final(self).wf(),
            final(self)@.head == old(self)@.head,
            final(self)@.cells == old(self)@.cells.update(
                slot as int,
                SavedFrame {
                    frame: old(self)@.cells[slot as int].frame,
                    data: new_frame.data,
                    checksum: new_frame.checksum,
                },
            ),
    {
        self.frames[slot].save(new_frame);
        assert(self@.cells =~= old(self)@.cells.update(
            slot as int,
            SavedFrame {
                frame: old(self)@.cells[slot as int].frame,
                data: new_frame.data,
                checksum: new_frame.checksum,
            },
        ));
    }

    /// Moves on to the next slot.
    fn advance_head(&mut self)
        requires
            old(self).wf(),
        ensures
            final(self).wf(),
            final(self)@ == (SavedView {
                head: (old(self)@.head + 1) % SAVED_FRAMES as int,
                ..old(self)@
            }),
    {
        self.head = (self.head + 1) % self.frames.len();
    }
}

impl<T> Default for SavedState<T> {
    fn default() -> (r: Self)
        ensures
            r.wf(),
            r@.head == 0,
            r@.cells == Seq::new(
                SAVED_FRAMES as nat,
                |i: int| SavedFrame::<T> { frame: NULL_FRAME, data: None, checksum: None },
            ),
    {
        let mut frames: Vec<SavedCell<T>> = Vec::new();
        let mut i: usize = 0;
        while i < SAVED_FRAMES
            invariant
                i <= SAVED_FRAMES,
                frames@.len() == i,
                forall|k: int|
                    0 <= k < i ==> (#[trigger] frames@[k]).0 == (SavedFrame::<T> {
                        frame: NULL_FRAME,
                        data: None,
                        checksum: None,
                    }),
            decreases SAVED_FRAMES - i,
        {
            frames.push(SavedCell::default());
            i += 1;
        }
        let r = Self { head: 0, frames };
        assert(r@.cells =~= Seq::new(
            SAVED_FRAMES as nat,
            |i: int| SavedFrame::<T> { frame: NULL_FRAME, data: None, checksum: None },
        ));
        r
    }
}

/// How many players there are, and how many frames their inputs are delayed.
pub struct PlayerConfig {
    pub player_count: usize,
    pub frame_delay: Frame,
}

/// What a session knows of the simulation.
pub struct SyncView<I, S> {
    /// The states that it can go back to.
    pub saved: SavedView<S>,
    /// The inputs of each player.
    pub queues: Seq<QueueView<I>>,
    /// Whether it is rolling back.
    pub rolling_back: bool,
    /// The frame up to which the inputs of all players are known.
    pub last_confirmed: int,
    /// The frame that is simulated next.
    pub frame_count: int,
    /// Which players are gone, and since when.
    pub status: Seq<ConnectionStatus>,
}

impl<I: InputValue, S> SyncView<I, S> {
    /// Whether a player is gone at a frame.
    pub open spec fn is_gone(self, player: int, frame: int) -> bool {
        self.status[player].disconnected && self.status[player].last_frame < frame
    }

    /// Which of the first players are gone, one bit each.
    pub open spec fn gone_mask(self, players: nat) -> u8
        decreases players,
    {
        if players == 0 {
            0
        } else if self.is_gone(players - 1, self.frame_count) {
            self.gone_mask((players - 1) as nat) | (1u8 << ((players - 1) as u8))
        } else {
            self.gone_mask((players - 1) as nat)
        }
    }

    /// The inputs of the players for the next frame, given or predicted.
    pub open spec fn next_inputs(self) -> Seq<I> {
        Seq::new(
            MAX_PLAYERS as nat,
            |p: int|
                if p < self.queues.len() && !self.is_gone(p, self.frame_count) {
                    self.queues[p].fetched(self.frame_count).value()
                } else {
                    I::zero()
                },
        )
    }

    /// The inputs of the players that were added for a frame.
    pub open spec fn confirmed_inputs(self, frame: int) -> Seq<I> {
        Seq::new(
            MAX_PLAYERS as nat,
            |p: int|
                if p < self.queues.len() && !self.is_gone(p, self.frame_count) {
                    self.queues[p].slot_input(frame % crate::MAX_ROLLBACK_FRAMES as int)
                } else {
                    I::zero()
                },
        )
    }

    /// Whether the inputs for the next frame may be asked for.
    pub open spec fn can_synchronize(self) -> bool {
        forall|p: int|
            0 <= p < self.queues.len() && !self.is_gone(p, self.frame_count) ==> (
            #[trigger] self.queues[p]).can_get(self.frame_count)
    }

    /// The session after the inputs for the next frame were asked for.
    pub open spec fn synchronized(self) -> Self {
        Self {
            queues: Seq::new(
                self.queues.len(),
                |p: int|
                    if self.is_gone(p, self.frame_count) {
                        self.queues[p]
                    } else {
                        self.queues[p].requested(self.frame_count)
                    },
            ),
            ..self
        }
    }

    /// The session after the state of the next frame got a slot.
    pub open spec fn saving(self) -> Self {
        Self { saved: self.saved.pushed(self.frame_count), ..self }
    }

    /// The command to save the state of the next frame.
    pub open spec fn save_command(self) -> CommandView<I> {
        CommandView::Save { slot: self.saved.head, frame: self.frame_count }
    }

    /// The command to simulate the next frame.
    pub open spec fn advance_command(self) -> CommandView<I> {
        CommandView::AdvanceFrame {
            frame: self.frame_count,
            disconnected: self.gone_mask(self.queues.len()),
            inputs: self.next_inputs(),
        }
    }

    /// The session before its first frame, with the initial state saved.
    pub open spec fn started(self) -> Self {
        if self.frame_count == 0 {
            self.saving()
        } else {
            self
        }
    }

    /// The session after one more frame.
    pub open spec fn incremented(self) -> Self {
        let next = self.started().synchronized();
        (Self { frame_count: self.frame_count + 1, ..next }).saving()
    }

    /// The commands of one frame: simulate it, then save the state behind it. The first
    /// frame is preceded by its own state.
    pub open spec fn increment_commands(self) -> Seq<CommandView<I>> {
        let start = if self.frame_count == 0 {
            seq![self.save_command()]
        } else {
            Seq::empty()
        };
        let next = Self { frame_count: self.frame_count + 1, ..self.started() };
        start.push(self.advance_command()).push(next.save_command())
    }

    /// The session after some more frames.
    pub open spec fn replayed(self, frames: nat) -> Self
        decreases frames,
    {
        if frames == 0 {
            self
        } else {
            self.replayed((frames - 1) as nat).incremented()
        }
    }

    /// The commands of some more frames.
    pub open spec fn replay_commands(self, frames: nat) -> Seq<CommandView<I>>
        decreases frames,
    {
        if frames == 0 {
            Seq::empty()
        } else {
            self.replay_commands((frames - 1) as nat) + self.replayed(
                (frames - 1) as nat,
            ).increment_commands()
        }
    }

    /// The session after it went back to a frame.
    pub open spec fn loaded(self, frame: int) -> Self {
        if frame == self.frame_count {
            self
        } else {
            Self { saved: self.saved.taken_back(frame), frame_count: frame, ..self }
        }
    }

    /// The command to go back to a frame, if it is not the next one anyway.
    pub open spec fn load_commands(self, frame: int) -> Seq<CommandView<I>> {
        if frame == self.frame_count {
            Seq::empty()
        } else {
            seq![CommandView::Load { slot: self.saved.slot_of(frame) }]
        }
    }

    /// The session after the predictions for all players were reset.
    pub open spec fn reset(self) -> Self {
        Self { queues: self.queues.map_values(|q: QueueView<I>| q.reset()), ..self }
    }

    /// Whether the predictions for all players may be reset to a frame.
    pub open spec fn can_reset(self, frame: int) -> bool {
        forall|p: int|
            0 <= p < self.queues.len() ==> (#[trigger] self.queues[p]).first_incorrect < 0 || frame
                <= self.queues[p].first_incorrect
    }

    /// Whether the frames from one up to the next frame can be simulated again: the state
    /// of the first is saved, and the queues reach back to each.
    pub open spec fn can_adjust(self, seek_to: int) -> bool {
        &&& i32::MIN <= seek_to <= self.frame_count
        &&& self.frame_count - seek_to <= i32::MAX
        &&& self.frame_count != seek_to ==> self.saved.has(seek_to)
        &&& self.can_reset(seek_to)
        &&& forall|p: int, frame: int|
            0 <= p < self.queues.len() && seek_to <= frame < self.frame_count && !self.is_gone(
                p,
                frame,
            ) ==> #[trigger] self.queues[p].reaches(frame)
    }

    /// The session after the frames from one up to the next frame were simulated again.
    pub open spec fn adjusted(self, seek_to: int) -> Self {
        Self {
            rolling_back: false,
            ..self.loaded(seek_to).reset().replayed((self.frame_count - seek_to) as nat)
        }
    }

    /// The commands to simulate the frames from one up to the next frame again.
    pub open spec fn adjust_commands(self, seek_to: int) -> Seq<CommandView<I>> {
        self.load_commands(seek_to) + self.loaded(seek_to).reset().replay_commands(
            (self.frame_count - seek_to) as nat,
        )
    }

    /// Whether `frame` is the first for which any prediction was wrong.
    pub open spec fn is_first_incorrect(self, frame: int) -> bool {
        &&& frame >= 0
        &&& exists|p: int|
            0 <= p < self.queues.len() && (#[trigger] self.queues[p]).first_incorrect == frame
        &&& forall|p: int|
            0 <= p < self.queues.len() && (#[trigger] self.queues[p]).first_incorrect >= 0 ==> frame
                <= self.queues[p].first_incorrect
    }

    /// Whether no prediction was wrong.
    pub open spec fn is_consistent(self) -> bool {
        forall|p: int|
            0 <= p < self.queues.len() ==> (#[trigger] self.queues[p]).first_incorrect < 0
    }

    /// Whether the simulation may not run further ahead of the inputs.
    pub open spec fn is_at_barrier(self) -> bool {
        &&& self.frame_count >= MAX_PREDICTION_FRAMES
        &&& self.frame_count - self.last_confirmed >= MAX_PREDICTION_FRAMES
    }
}

/// The inputs, states and frames of a session.
pub struct Sync<T: Config> {
    saved_state: SavedState<T::State>,
    input_queues: Vec<InputQueue<T::Input>>,
    config: PlayerConfig,
    rolling_back: bool,
    last_confirmed_frame: Frame,
    frame_count: Frame,
    local_connect_status: Vec<ConnectionStatus>,
}

impl<T: Config> View for Sync<T> {
    type V = SyncView<T::Input, T::State>;

    closed spec fn view(&self) -> SyncView<T::Input, T::State> {
        SyncView {
            saved: self.saved_state@,
            queues: self.input_queues@.map_values(|q: InputQueue<T::Input>| q@),
            rolling_back: self.rolling_back,
            last_confirmed: self.last_confirmed_frame as int,
            frame_count: self.frame_count as int,
            status: self.local_connect_status@,
        }
    }
}

impl<T: Config> Sync<T> {
    /// There is a queue and a status for every player.
    pub closed spec fn wf(self) -> bool {
        &&& self.saved_state.wf()
        &&& self.config.player_count <= MAX_PLAYERS
        &&& self.input_queues@.len() == self.config.player_count
        &&& self.local_connect_status@.len() >= self.config.player_count
        &&& forall|p: int|
            0 <= p < self.input_queues@.len() ==> (#[trigger] self.input_queues@[p]).wf()
    }

    /// A session before its first frame.
    pub fn new(config: PlayerConfig, local_connect_status: Vec<ConnectionStatus>) -> (r: Self)
        requires
            config.player_count <= MAX_PLAYERS,
            config.player_count <= local_connect_status@.len(),
            config.frame_delay >= 0,
        ensures
            r.wf(),
            r@.queues.len() == config.player_count,
            forall|p: int|
                0 <= p < r@.queues.len() ==> is_new_queue(
                    #[trigger] r@.queues[p],
                    config.frame_delay as int,
                ),
            r@.saved.head == 0,
            r@.saved.cells == Seq::new(
                SAVED_FRAMES as nat,
                |i: int| SavedFrame::<T::State> { frame: NULL_FRAME, data: None, checksum: None },
            ),
            !r@.rolling_back,
            r@.last_confirmed == NULL_FRAME,
            r@.frame_count == 0,
            r@.status == local_connect_status@,
    {
        let input_queues = Self::create_queues(&config);
        Self {
            saved_state: SavedState::default(),
            input_queues,
            config,
            rolling_back: false,
            last_confirmed_frame: NULL_FRAME,
            frame_count: 0,
            local_connect_status,
        }
    }

    fn create_queues(config: &PlayerConfig) -> (r: Vec<InputQueue<T::Input>>)
        requires
            config.frame_delay >= 0,
        ensures
            r@.len() == config.player_count,
            forall|p: int|
                0 <= p < r@.len() ==> (#[trigger] r@[p]).wf() && is_new_queue(
                    r@[p]@,
                    config.frame_delay as int,
                ),
    {
        let mut queues: Vec<InputQueue<T::Input>> = Vec::new();
        let mut idx: usize = 0;
        while idx < config.player_count
            invariant
                idx <= config.player_count,
                config.frame_delay >= 0,
                queues@.len() == idx,
                forall|p: int|
                    0 <= p < queues@.len() ==> (#[trigger] queues@[p]).wf() && is_new_queue(
                        queues@[p]@,
                        config.frame_delay as int,
                    ),
            decreases config.player_count - idx,
        {
            let mut queue: InputQueue<T::Input> = InputQueue::new();
            queue.set_frame_delay(config.frame_delay);
            queues.push(queue);
            idx += 1;
        }
        queues
    }

    /// How many players there are.
    pub fn player_count(&self) -> (r: usize)
        requires
            self.wf(),
        ensures
            r == self@.queues.len(),
    {
        self.config.player_count
    }

    /// The frame that is simulated next.
    pub fn frame_count(&self) -> (r: Frame)
        ensures
            r == self@.frame_count,
    {
        self.frame_count
    }

    /// Tells whether a rollback is going on.
    pub fn in_rollback(&self) -> (r: bool)
        ensures
            r == self@.rolling_back,
    {
        self.rolling_back
    }
}

impl<T: Config> Sync<T> {
    /// Sets whether a player is gone, and the last frame for which its input is known.
    pub fn set_connect_status(&mut self, player: usize, status: ConnectionStatus)
        requires
            old(self).wf(),
            player < old(self)@.status.len(),
        ensures
            final(self).wf(),
            final(self)@ == (SyncView {
                status: old(self)@.status.update(player as int, status),
                ..old(self)@
            }),
    {
        self.local_connect_status.set(player, status);
    }

    /// Sets the frame up to which the inputs of all players are known. The inputs from
    /// before that frame are not needed any more.
    pub fn set_last_confirmed_frame(&mut self, frame: Frame)
        requires
            old(self).wf(),
            frame > 0 ==> forall|p: int|
                0 <= p < old(self)@.queues.len() ==> (#[trigger] old(self)@.queues[p]).can_discard(
                    frame - 1,
                ),
        ensures
            final(self).wf(),
            final(self)@ == (SyncView {
                last_confirmed: frame as int,
                queues: if frame > 0 {
                    old(self)@.queues.map_values(|q: QueueView<T::Input>| q.discarded(frame - 1))
                } else {
                    old(self)@.queues
                },
                ..old(self)@
            }),
    {
        self.last_confirmed_frame = frame;
        if frame > 0 {
            let mut idx: usize = 0;
            while idx < self.input_queues.len()
                invariant
                    self.wf(),
                    frame > 0,
                    idx <= self.input_queues@.len(),
                    self.input_queues@.len() == old(self).input_queues@.len(),
                    self@ == (SyncView {
                        last_confirmed: frame as int,
                        queues: self@.queues,
                        ..old(self)@
                    }),
                    forall|p: int|
                        idx <= p < self.input_queues@.len() ==> #[trigger] self.input_queues@[p]
                            == old(self).input_queues@[p],
                    forall|p: int|
                        0 <= p < idx ==> (#[trigger] self.input_queues@[p])@ == old(
                            self,
                        ).input_queues@[p]@.discarded(frame - 1),
                    forall|p: int|
                        0 <= p < old(self)@.queues.len() ==> (#[trigger] old(
                            self,
                        )@.queues[p]).can_discard(frame - 1),
                decreases self.input_queues@.len() - idx,
            {
                assert(old(self)@.queues[idx as int].can_discard(frame - 1));
                self.input_queues[idx].discard_confirmed_frames(frame - 1);
                idx += 1;
            }
            assert(self@.queues =~= old(self)@.queues.map_values(
                |q: QueueView<T::Input>| q.discarded(frame - 1),
            ));
        }
    }

    /// Sets how many frames the inputs of a player are delayed.
    pub fn set_frame_delay(&mut self, queue: usize, delay: Frame)
        requires
            old(self).wf(),
            queue < old(self)@.queues.len(),
            delay >= 0,
        ensures
            final(self).wf(),
            final(self)@ == (SyncView {
                queues: old(self)@.queues.update(
                    queue as int,
                    QueueView { delay: delay as int, ..old(self)@.queues[queue as int] },
                ),
                ..old(self)@
            }),
    {
        self.input_queues[queue].set_frame_delay(delay);
        assert(self@.queues =~= old(self)@.queues.update(
            queue as int,
            QueueView { delay: delay as int, ..old(self)@.queues[queue as int] },
        ));
    }

    /// Adds the input of a local player for the next frame, and returns that frame. Fails
    /// where the simulation is too far ahead of the inputs of the others.
    pub fn add_local_input(&mut self, queue: usize, input: T::Input) -> (r: BackrollResult<Frame>)
        requires
            old(self).wf(),
            i32::MIN <= old(self)@.frame_count - old(self)@.last_confirmed <= i32::MAX,
            queue < old(self)@.queues.len(),
            !old(self)@.is_at_barrier() ==> old(self)@.queues[queue as int].can_add(
                FrameInput { frame: old(self)@.frame_count as i32, input },
            ),
        ensures
            final(self).wf(),
            match r {
                Ok(frame) => {
                    &&& !old(self)@.is_at_barrier()
                    &&& old(self)@.frame_count < 8 || old(self)@.frame_count
                        - old(self)@.last_confirmed < 8
                    &&& frame == old(self)@.frame_count
                    &&& final(self)@ == (SyncView {
                        queues: old(self)@.queues.update(
                            queue as int,
                            old(self)@.queues[queue as int].added(FrameInput { frame, input }),
                        ),
                        ..old(self)@
                    })
                },
                Err(err) => {
                    &&& old(self)@.is_at_barrier()
                    &&& old(self)@.frame_count >= 8
                    &&& old(self)@.frame_count - old(self)@.last_confirmed >= 8
                    &&& err == BackrollError::ReachedPredictionBarrier
                    &&& final(self)@ == old(self)@
                },
            },
    {
        let frames_behind: Frame = self.frame_count - self.last_confirmed_frame;
        if self.frame_count >= MAX_PREDICTION_FRAMES as i32 && frames_behind
            >= MAX_PREDICTION_FRAMES as i32 {
            return Err(BackrollError::ReachedPredictionBarrier);
        }
        let frame_input = FrameInput { frame: self.frame_count, input };
        self.input_queues[queue].add_input(frame_input);
        assert(self@.queues =~= old(self)@.queues.update(
            queue as int,
            old(self)@.queues[queue as int].added(frame_input),
        ));
        Ok(self.frame_count)
    }

    /// Adds an input of a remote player.
    pub fn add_remote_input(&mut self, queue: usize, input: FrameInput<T::Input>)
        requires
            old(self).wf(),
            queue < old(self)@.queues.len(),
            old(self)@.queues[queue as int].can_add(input),
        ensures
            final(self).wf(),
            final(self)@ == (SyncView {
                queues: old(self)@.queues.update(
                    queue as int,
                    old(self)@.queues[queue as int].added(input),
                ),
                ..old(self)@
            }),
    {
        self.input_queues[queue].add_input(input);
        assert(self@.queues =~= old(self)@.queues.update(
            queue as int,
            old(self)@.queues[queue as int].added(input),
        ));
    }

    fn is_disconnected(&self, player: usize) -> (r: bool)
        requires
            self.wf(),
            player < self@.queues.len(),
        ensures
            r == self@.is_gone(player as int, self@.frame_count),
    {
        let status: ConnectionStatus = self.local_connect_status[player];
        status.disconnected && status.last_frame < self.frame_count()
    }

    /// The inputs of all players that were added for a frame. Those of players that are
    /// gone are zero.
    pub fn get_confirmed_inputs(&self, frame: Frame) -> (r: GameInput<T::Input>)
        requires
            self.wf(),
            frame >= 0,
            forall|p: int|
                0 <= p < self@.queues.len() && !self@.is_gone(p, self@.frame_count) ==> (
                #[trigger] self@.queues[p]).first_incorrect < 0 || frame
                    < self@.queues[p].first_incorrect,
        ensures
            r.frame == NULL_FRAME,
            r.disconnected == self@.gone_mask(self@.queues.len()),
            r.inputs@ == self@.confirmed_inputs(frame as int),
    {
        let mut output: GameInput<T::Input> = GameInput::default();
        let mut idx: usize = 0;
        while idx < self.config.player_count
            invariant
                self.wf(),
                frame >= 0,
                idx <= self.config.player_count,
                output.frame == NULL_FRAME,
                output.disconnected == self@.gone_mask(idx as nat),
                forall|p: int|
                    0 <= p < MAX_PLAYERS ==> #[trigger] output.inputs@[p] == (if p < idx {
                        self@.confirmed_inputs(frame as int)[p]
                    } else {
                        T::Input::zero()
                    }),
                forall|p: int|
                    0 <= p < self@.queues.len() && !self@.is_gone(p, self@.frame_count) ==> (
                    #[trigger] self@.queues[p]).first_incorrect < 0 || frame
                        < self@.queues[p].first_incorrect,
            decreases self.config.player_count - idx,
        {
            assert(self@.queues[idx as int] == self.input_queues@[idx as int]@);
            if self.is_disconnected(idx) {
                output.disconnected = output.disconnected | (1u8 << (idx as u8));
            } else {
                if let Some(input) = self.input_queues[idx].get_confirmed_input(frame) {
                    output.inputs[idx] = input.input;
                }
            }
            idx += 1;
        }
        assert(output.inputs@ =~= self@.confirmed_inputs(frame as int));
        output
    }

    /// The inputs of all players for the next frame, given or predicted. Those of players
    /// that are gone are zero.
    pub fn synchronize_inputs(&mut self) -> (r: GameInput<T::Input>)
        requires
            old(self).wf(),
            old(self)@.can_synchronize(),
        ensures
            final(self).wf(),
            final(self)@ == old(self)@.synchronized(),
            r.frame == old(self)@.frame_count,
            r.disconnected == old(self)@.gone_mask(old(self)@.queues.len()),
            r.inputs@ == old(self)@.next_inputs(),
            forall|p: int|
                0 <= p < MAX_PLAYERS ==> #[trigger] r.inputs@[p] == (if p < old(self)@.queues.len()
                    && !(old(self)@.status[p].disconnected && old(self)@.status[p].last_frame
                    < old(self)@.frame_count) {
                    old(self)@.queues[p].fetched(old(self)@.frame_count).value()
                } else {
                    T::Input::zero()
                }),
    {
        let mut output: GameInput<T::Input> = GameInput::default();
        output.frame = self.frame_count;
        let mut idx: usize = 0;
        while idx < self.config.player_count
            invariant
                self.wf(),
                old(self)@.can_synchronize(),
                idx <= self.config.player_count,
                self@ == (SyncView { queues: self@.queues, ..old(self)@ }),
                self.config == old(self).config,
                self.input_queues@.len() == old(self).input_queues@.len(),
                forall|p: int|
                    idx <= p < self.input_queues@.len() ==> #[trigger] self.input_queues@[p] == old(
                        self,
                    ).input_queues@[p],
                forall|p: int|
                    0 <= p < idx ==> (#[trigger] self.input_queues@[p])@ == old(
                        self,
                    )@.synchronized().queues[p],
                output.frame == old(self)@.frame_count,
                output.disconnected == old(self)@.gone_mask(idx as nat),
                forall|p: int|
                    0 <= p < MAX_PLAYERS ==> #[trigger] output.inputs@[p] == (if p < idx {
                        old(self)@.next_inputs()[p]
                    } else {
                        T::Input::zero()
                    }),
            decreases self.config.player_count - idx,
        {
            assert(old(self)@.queues[idx as int] == self.input_queues@[idx as int]@);
            if self.is_disconnected(idx) {
                output.disconnected = output.disconnected | (1u8 << (idx as u8));
            } else {
                let frame: Frame = self.frame_count;
                let fetched = self.input_queues[idx].get_input(frame);
                output.inputs[idx] = fetched.unwrap().input;
            }
            idx += 1;
        }
        assert(output.inputs@ =~= old(self)@.next_inputs());
        assert(self@.queues =~= old(self)@.synchronized().queues);
        output
    }
}

impl<T: Config> Sync<T> {
    /// Asks the client for the state of the next frame.
    pub fn save_current_frame(&mut self, commands: &mut Commands<T>)
        requires
            old(self).wf(),
        ensures
            final(self).wf(),
            final(self)@ == old(self)@.saving(),
            final(commands)@ == old(commands)@.push(old(self)@.save_command()),
    {
        let slot: usize = self.saved_state.push(self.frame_count);
        commands.push(Command::Save(SaveState { slot, frame: self.frame_count }));
    }

    /// Asks the client to simulate the next frame, and for the state behind it.
    pub fn increment_frame(&mut self, commands: &mut Commands<T>)
        requires
            old(self).wf(),
            old(self)@.can_synchronize(),
            old(self)@.frame_count < i32::MAX,
        ensures
            final(self).wf(),
            final(self)@ == old(self)@.incremented(),
            final(commands)@ == old(commands)@ + old(self)@.increment_commands(),
    {
        if self.frame_count == 0 {
            self.save_current_frame(commands);
        }
        proof {
            old(self)@.lemma_started();
        }
        let inputs = self.synchronize_inputs();
        let ghost advance = Command::<T>::AdvanceFrame(inputs);
        assert(advance@ == old(self)@.advance_command());
        commands.push(Command::AdvanceFrame(inputs));
        self.frame_count += 1;
        self.save_current_frame(commands);
        assert(commands@ =~= old(commands)@ + old(self)@.increment_commands());
    }

    /// Asks the client to go back to a frame, if it is not the next one anyway.
    pub fn load_frame(&mut self, commands: &mut Commands<T>, frame: Frame)
        requires
            old(self).wf(),
            frame != old(self)@.frame_count ==> old(self)@.saved.has(frame as int),
        ensures
            final(self).wf(),
            final(self)@ == old(self)@.loaded(frame as int),
            final(commands)@ == old(commands)@ + old(self)@.load_commands(frame as int),
    {
        if frame == self.frame_count {
            assert(commands@ =~= old(commands)@ + old(self)@.load_commands(frame as int));
            return ;
        }
        let slot: usize = self.saved_state.reset_to(frame);
        proof {
            old(self)@.saved.lemma_slot_of(frame as int, slot as int);
        }
        self.frame_count = self.saved_state.cell(slot).0.frame;
        commands.push(Command::Load(LoadState { slot }));
        self.saved_state.advance_head();
        assert(commands@ =~= old(commands)@ + old(self)@.load_commands(frame as int));
    }

    /// Simulates again, with the inputs that are known by now, from the first frame on for
    /// which a prediction was wrong.
    pub fn check_simulation(&mut self, commands: &mut Commands<T>)
        requires
            old(self).wf(),
            forall|frame: int|
                #[trigger] old(self)@.is_first_incorrect(frame) ==> old(self)@.can_adjust(frame),
        ensures
            final(self).wf(),
            old(self)@.is_consistent() ==> {
                &&& final(self)@ == old(self)@
                &&& final(commands)@ == old(commands)@
            },
            !old(self)@.is_consistent() ==> exists|frame: int|
                {
                    &&& #[trigger] old(self)@.is_first_incorrect(frame)
                    &&& final(self)@ == old(self)@.adjusted(frame)
                    &&& final(commands)@ == old(commands)@ + old(self)@.adjust_commands(frame)
                },
    {
        if let Some(seek_to) = self.check_simulation_consistency() {
            assert(old(self)@.is_first_incorrect(seek_to as int));
            self.adjust_simulation(commands, seek_to);
        }
    }

    /// The first frame for which the prediction for any player was wrong.
    pub fn check_simulation_consistency(&self) -> (r: Option<Frame>)
        requires
            self.wf(),
        ensures
            match r {
                Some(frame) => !self@.is_consistent() && self@.is_first_incorrect(frame as int),
                None => self@.is_consistent(),
            },
    {
        let mut first: Option<Frame> = None;
        let mut idx: usize = 0;
        while idx < self.input_queues.len()
            invariant
                self.wf(),
                idx <= self.input_queues@.len(),
                match first {
                    Some(frame) => {
                        &&& frame >= 0
                        &&& exists|p: int|
                            0 <= p < idx && (#[trigger] self@.queues[p]).first_incorrect == frame
                        &&& forall|p: int|
                            0 <= p < idx && (#[trigger] self@.queues[p]).first_incorrect >= 0
                                ==> frame <= self@.queues[p].first_incorrect
                    },
                    None => forall|p: int|
                        0 <= p < idx ==> (#[trigger] self@.queues[p]).first_incorrect < 0,
                },
            decreases self.input_queues@.len() - idx,
        {
            assert(self@.queues[idx as int] == self.input_queues@[idx as int]@);
            let frame: Frame = self.input_queues[idx].first_incorrect_frame();
            if !is_null(frame) {
                match first {
                    Some(earliest) => {
                        if frame < earliest {
                            first = Some(frame);
                        }
                    },
                    None => {
                        first = Some(frame);
                    },
                }
            }
            idx += 1;
        }
        first
    }

    /// Simulates the frames from one up to the next frame again.
    pub fn adjust_simulation(&mut self, commands: &mut Commands<T>, seek_to: Frame)
        requires
            old(self).wf(),
            old(self)@.can_adjust(seek_to as int),
        ensures
            final(self).wf(),
            final(self)@ == old(self)@.adjusted(seek_to as int),
            final(commands)@ == old(commands)@ + old(self)@.adjust_commands(seek_to as int),
    {
        let count: Frame = self.frame_count - seek_to;
        self.rolling_back = true;
        assert(self@ == (SyncView { rolling_back: true, ..old(self)@ }));
        self.load_frame(commands, seek_to);
        assert(self@.queues == old(self)@.queues);
        self.reset_prediction(seek_to);
        let ghost start = self@;
        proof {
            assert forall|p: int, frame: int|
                0 <= p < start.queues.len() && start.frame_count <= frame < start.frame_count
                    + count && !start.is_gone(
                    p,
                    frame,
                ) implies #[trigger] start.queues[p].reaches(frame) by {
                assert(!old(self)@.is_gone(p, frame));
                assert(old(self)@.queues[p].reaches(frame));
            }
        }
        let ghost before = commands@;
        let mut i: Frame = 0;
        assert(commands@ =~= before + start.replay_commands(0));
        while i < count
            invariant
                self.wf(),
                0 <= i <= count,
                start.frame_count == seek_to,
                seek_to + count <= i32::MAX,
                start.is_consistent(),
                start.can_replay(count as int),
                self@ == start.replayed(i as nat),
                commands@ == before + start.replay_commands(i as nat),
            decreases count - i,
        {
            proof {
                start.lemma_replayed(i as nat, count as int);
            }
            self.increment_frame(commands);
            i += 1;
            assert(commands@ =~= before + start.replay_commands(i as nat));
        }
        self.rolling_back = false;
        proof {
            let plain = old(self)@.loaded(seek_to as int).reset();
            assert(start == (SyncView { rolling_back: true, ..plain }));
            plain.lemma_rolling_back_is_apart(true, count as nat);
            assert(commands@ =~= old(commands)@ + old(self)@.adjust_commands(seek_to as int));
        }
    }

    fn reset_prediction(&mut self, frame: Frame)
        requires
            old(self).wf(),
            old(self)@.can_reset(frame as int),
        ensures
            final(self).wf(),
            final(self)@ == old(self)@.reset(),
    {
        let mut idx: usize = 0;
        while idx < self.input_queues.len()
            invariant
                self.wf(),
                old(self)@.can_reset(frame as int),
                idx <= self.input_queues@.len(),
                self.input_queues@.len() == old(self).input_queues@.len(),
                self@ == (SyncView { queues: self@.queues, ..old(self)@ }),
                forall|p: int|
                    idx <= p < self.input_queues@.len() ==> #[trigger] self.input_queues@[p] == old(
                        self,
                    ).input_queues@[p],
                forall|p: int|
                    0 <= p < idx ==> (#[trigger] self.input_queues@[p])@ == old(
                        self,
                    ).input_queues@[p]@.reset(),
            decreases self.input_queues@.len() - idx,
        {
            assert(old(self)@.queues[idx as int] == self.input_queues@[idx as int]@);
            self.input_queues[idx].reset_prediction(frame);
            idx += 1;
        }
        assert(self@.queues =~= old(self)@.reset().queues);
    }

    /// The slot of the latest saved state.
    pub fn get_last_saved_frame(&self) -> (r: usize)
        requires
            self.wf(),
        ensures
            r < SAVED_FRAMES,
            forall|i: int|
                0 <= i < SAVED_FRAMES ==> (#[trigger] self@.saved.cells[i]).frame
                    <= self@.saved.cells[r as int].frame,
            forall|i: int|
                r < i < SAVED_FRAMES ==> (#[trigger] self@.saved.cells[i]).frame
                    < self@.saved.cells[r as int].frame,
    {
        match self.saved_state.latest() {
            Some(slot) => slot,
            None => 0,
        }
    }

    /// The states that the session can go back to, for the client to load from.
    pub fn saved_state(&self) -> (r: &SavedState<T::State>)
        requires
            self.wf(),
        ensures
            r.wf(),
            r@ == self@.saved,
    {
        &self.saved_state
    }

    /// The states that the session can go back to, for the client to save to.
    pub fn saved_state_mut(&mut self) -> (r: &mut SavedState<T::State>)
        requires
            old(self).wf(),
        ensures
            r.wf(),
            r@ == old(self)@.saved,
            final(r).wf() ==> final(self).wf(),
            final(self)@ == (SyncView { saved: final(r)@, ..old(self)@ }),
    {
        &mut self.saved_state
    }
}

impl<T> SavedView<T> {
    /// A frame that has a slot has a first one.
    pub proof fn lemma_has_slot(self, frame: int) -> (slot: int)
        requires
            self.has(frame),
        ensures
            self.is_slot_of(frame, slot),
    {
        let any = choose|i: int|
            0 <= i < self.cells.len() && (#[trigger] self.cells[i]).frame == frame;
        self.lemma_first_slot(frame, any)
    }

    proof fn lemma_first_slot(self, frame: int, any: int) -> (slot: int)
        requires
            0 <= any < self.cells.len(),
            self.cells[any].frame == frame,
        ensures
            self.is_slot_of(frame, slot),
        decreases any,
    {
        if exists|i: int| 0 <= i < any && (#[trigger] self.cells[i]).frame == frame {
            let earlier = choose|i: int|
                0 <= i < any && (#[trigger] self.cells[i]).frame == frame;
            self.lemma_first_slot(frame, earlier)
        } else {
            any
        }
    }

    /// There is only one first slot for a frame.
    pub proof fn lemma_slot_of(self, frame: int, slot: int)
        requires
            self.is_slot_of(frame, slot),
        ensures
            self.slot_of(frame) == slot,
    {
        let other = self.slot_of(frame);
        assert(self.is_slot_of(frame, other));
        if other < slot {
            assert(self.cells[other].frame != frame);
        } else if slot < other {
            assert(self.cells[slot].frame != frame);
        }
    }
}

impl<I: InputValue, S> SyncView<I, S> {
    proof fn lemma_started(self)
        ensures
            self.started().can_synchronize() == self.can_synchronize(),
            self.started().next_inputs() == self.next_inputs(),
            self.started().gone_mask(self.queues.len()) == self.gone_mask(self.queues.len()),
    {
        assert(self.started().next_inputs() =~= self.next_inputs());
        self.lemma_mask_reads_status(self.started(), self.queues.len());
        if self.can_synchronize() {
            assert forall|p: int|
                0 <= p < self.queues.len() && !self.started().is_gone(
                    p,
                    self.frame_count,
                ) implies (#[trigger] self.started().queues[p]).can_get(self.frame_count) by {
                assert(!self.is_gone(p, self.frame_count));
                assert(self.queues[p].can_get(self.frame_count));
            }
        }
        if self.started().can_synchronize() {
            assert forall|p: int|
                0 <= p < self.queues.len() && !self.is_gone(p, self.frame_count) implies (
            #[trigger] self.queues[p]).can_get(self.frame_count) by {
                assert(self.started().queues[p].can_get(self.frame_count));
            }
        }
    }

    proof fn lemma_mask_reads_status(self, other: Self, players: nat)
        requires
            self.status == other.status,
            self.frame_count == other.frame_count,
        ensures
            self.gone_mask(players) == other.gone_mask(players),
        decreases players,
    {
        if players > 0 {
            self.lemma_mask_reads_status(other, (players - 1) as nat);
        }
    }

    /// Whether the queues reach to each of the next frames.
    spec fn can_replay(self, frames: int) -> bool {
        forall|p: int, frame: int|
            0 <= p < self.queues.len() && self.frame_count <= frame < self.frame_count + frames
                && !self.is_gone(p, frame) ==> #[trigger] self.queues[p].reaches(frame)
    }

    /// Asking for inputs changes neither the inputs nor whether predictions were wrong.
    proof fn lemma_replayed(self, done: nat, frames: int)
        requires
            self.is_consistent(),
            self.can_replay(frames),
            done <= frames,
        ensures
            self.replayed(done).frame_count == self.frame_count + done,
            done < frames ==> self.replayed(done).can_synchronize(),
            self.replayed(done).is_consistent(),
            self.replayed(done).status == self.status,
            self.replayed(done).queues.len() == self.queues.len(),
            forall|p: int|
                0 <= p < self.queues.len() ==> {
                    &&& (#[trigger] self.replayed(done).queues[p]).history == self.queues[p].history
                    &&& self.replayed(done).queues[p].tail == self.queues[p].tail
                    &&& self.replayed(done).queues[p].length == self.queues[p].length
                },
        decreases done,
    {
        if done > 0 {
            self.lemma_replayed((done - 1) as nat, frames);
        }
        let now = self.replayed(done);
        if done < frames {
            assert forall|p: int|
                0 <= p < now.queues.len() && !now.is_gone(p, now.frame_count) implies (
            #[trigger] now.queues[p]).can_get(now.frame_count) by {
                assert(self.queues[p].reaches(self.frame_count + done));
            }
        }
    }

    /// Whether a rollback is going on has no influence on what is simulated.
    proof fn lemma_rolling_back_is_apart(self, rolling_back: bool, frames: nat)
        ensures
            ({
                let other = Self { rolling_back, ..self };
                &&& other.replayed(frames) == (Self { rolling_back, ..self.replayed(frames) })
                &&& other.replay_commands(frames) == self.replay_commands(frames)
            }),
        decreases frames,
    {
        let other = Self { rolling_back, ..self };
        if frames > 0 {
            self.lemma_rolling_back_is_apart(rolling_back, (frames - 1) as nat);
            let a = self.replayed((frames - 1) as nat);
            let b = other.replayed((frames - 1) as nat);
            a.lemma_mask_reads_status(b, a.queues.len());
            assert(a.next_inputs() =~= b.next_inputs());
            assert(a.started().synchronized().queues =~= b.started().synchronized().queues);
        }
    }
}

/// What holds of every buffer of states, whatever was done with it: there are all its
/// slots, and one of them is next.
pub proof fn law_saved_states_have_their_slots<S>(saved: SavedState<S>)
    requires
        saved.wf(),
    ensures
        0 <= saved@.head < SAVED_FRAMES,
        saved@.cells.len() == SAVED_FRAMES,
{
}

/// What holds of every session, whatever was done with it: there are all its slots for
/// states, a bounded queue for each player, and a status for each of them.
pub proof fn law_sessions_are_bounded<T: Config>(session: Sync<T>)
    requires
        session.wf(),
    ensures
        0 <= session@.saved.head < SAVED_FRAMES,
        session@.saved.cells.len() == SAVED_FRAMES,
        session@.queues.len() <= MAX_PLAYERS,
        session@.queues.len() <= session@.status.len(),
        i32::MIN <= session@.frame_count <= i32::MAX,
        forall|p: int|
            0 <= p < session@.queues.len() ==> {
                &&& (#[trigger] session@.queues[p]).history.len() <= i32::MAX
                &&& 0 <= session@.queues[p].length <= crate::MAX_ROLLBACK_FRAMES
                &&& 0 <= session@.queues[p].delay
            },
{
    law_saved_states_have_their_slots(session.saved_state);
    assert forall|p: int| 0 <= p < session@.queues.len() implies {
        &&& (#[trigger] session@.queues[p]).history.len() <= i32::MAX
        &&& 0 <= session@.queues[p].length <= crate::MAX_ROLLBACK_FRAMES
        &&& 0 <= session@.queues[p].delay
    } by {
        crate::input::law_queues_are_bounded(session.input_queues@[p]);
    }
}

/// The frames that some commands ask to simulate, in their order.
pub open spec fn advanced_frames<I>(commands: Seq<CommandView<I>>) -> Seq<int>
    decreases commands.len(),
{
    if commands.len() == 0 {
        Seq::empty()
    } else {
        let before = advanced_frames(commands.drop_last());
        match commands.last() {
            CommandView::AdvanceFrame { frame, .. } => before.push(frame),
            _ => before,
        }
    }
}

proof fn lemma_advanced_frames_join<I>(a: Seq<CommandView<I>>, b: Seq<CommandView<I>>)
    ensures
        advanced_frames(a + b) == advanced_frames(a) + advanced_frames(b),
    decreases b.len(),
{
    if b.len() == 0 {
        assert(a + b =~= a);
    } else {
        lemma_advanced_frames_join(a, b.drop_last());
        assert((a + b).drop_last() =~= a + b.drop_last());
    }
    assert(advanced_frames(a + b) =~= advanced_frames(a) + advanced_frames(b));
}

proof fn lemma_replay_advances<I: InputValue, S>(session: SyncView<I, S>, frames: nat)
    ensures
        session.replayed(frames).frame_count == session.frame_count + frames,
        advanced_frames(session.replay_commands(frames)) == Seq::new(
            frames,
            |i: int| session.frame_count + i,
        ),
    decreases frames,
{
    if frames > 0 {
        lemma_replay_advances(session, (frames - 1) as nat);
        let last = session.replayed((frames - 1) as nat);
        let step = last.increment_commands();
        lemma_advanced_frames_join(session.replay_commands((frames - 1) as nat), step);
        reveal_with_fuel(advanced_frames, 4);
        assert(step.drop_last().last() == last.advance_command());
        assert(advanced_frames(step) =~= seq![last.frame_count]);
    }
    assert(advanced_frames(session.replay_commands(frames)) =~= Seq::new(
        frames,
        |i: int| session.frame_count + i,
    ));
}

/// A rollback asks for the state of the first frame, and then to simulate that frame and
/// each one up to where the session was, once and in their order.
pub proof fn law_rollback_replays_each_frame_once<I: InputValue, S>(
    session: SyncView<I, S>,
    seek_to: int,
)
    requires
        session.can_adjust(seek_to),
        seek_to < session.frame_count,
    ensures
        session.adjust_commands(seek_to)[0] == (CommandView::<I>::Load {
            slot: session.saved.slot_of(seek_to),
        }),
        advanced_frames(session.adjust_commands(seek_to)) == Seq::new(
            (session.frame_count - seek_to) as nat,
            |i: int| seek_to + i,
        ),
{
    let start = session.loaded(seek_to).reset();
    let count = (session.frame_count - seek_to) as nat;
    lemma_replay_advances(start, count);
    lemma_advanced_frames_join(session.load_commands(seek_to), start.replay_commands(count));
    reveal_with_fuel(advanced_frames, 2);
    assert(advanced_frames(session.load_commands(seek_to)) =~= Seq::<int>::empty());
    assert(advanced_frames(session.adjust_commands(seek_to)) =~= Seq::new(
        count,
        |i: int| seek_to + i,
    ));
}

/// After a rollback the session is where it was: at the same frame and with the same
/// inputs. No prediction is known to be wrong any more.
pub proof fn law_rollback_ends_where_it_began<I: InputValue, S>(
    session: SyncView<I, S>,
    seek_to: int,
)
    requires
        session.can_adjust(seek_to),
    ensures
        session.adjusted(seek_to).frame_count == session.frame_count,
        session.adjusted(seek_to).is_consistent(),
        !session.adjusted(seek_to).rolling_back,
        session.adjusted(seek_to).last_confirmed == session.last_confirmed,
        session.adjusted(seek_to).status == session.status,
        session.adjusted(seek_to).queues.len() == session.queues.len(),
        forall|p: int|
            0 <= p < session.queues.len() ==> (#[trigger] session.adjusted(
                seek_to,
            ).queues[p]).history == session.queues[p].history,
{
    let start = session.loaded(seek_to).reset();
    let count = session.frame_count - seek_to;
    lemma_adjust_can_replay(session, seek_to);
    start.lemma_replayed(count as nat, count);
    lemma_replay_keeps(start, count as nat);
}

proof fn lemma_adjust_can_replay<I: InputValue, S>(session: SyncView<I, S>, seek_to: int)
    requires
        session.can_adjust(seek_to),
    ensures
        session.loaded(seek_to).reset().is_consistent(),
        session.loaded(seek_to).reset().can_replay(session.frame_count - seek_to),
{
    let start = session.loaded(seek_to).reset();
    let count = session.frame_count - seek_to;
    assert forall|p: int, frame: int|
        0 <= p < start.queues.len() && start.frame_count <= frame < start.frame_count + count
            && !start.is_gone(p, frame) implies #[trigger] start.queues[p].reaches(frame) by {
        assert(!session.is_gone(p, frame));
        assert(session.queues[p].reaches(frame));
    }
}

proof fn lemma_replay_keeps<I: InputValue, S>(session: SyncView<I, S>, frames: nat)
    ensures
        session.replayed(frames).last_confirmed == session.last_confirmed,
        session.replayed(frames).rolling_back == session.rolling_back,
    decreases frames,
{
    if frames > 0 {
        lemma_replay_keeps(session, (frames - 1) as nat);
    }
}

/// While a queue holds the inputs of the frames that are simulated again, it does not
/// begin to predict.
proof fn lemma_replay_of_known_inputs<I: InputValue, S>(
    session: SyncView<I, S>,
    player: int,
    frames: nat,
)
    requires
        0 <= player < session.queues.len(),
        session.queues[player].prediction_frame < 0,
        !session.is_gone(player, session.frame_count + frames),
        session.queues[player].holds(session.frame_count + frames),
    ensures
        ({
            let later = session.replayed(frames);
            &&& later.frame_count == session.frame_count + frames
            &&& later.status == session.status
            &&& later.queues.len() == session.queues.len()
            &&& later.queues[player].prediction_frame < 0
            &&& later.queues[player].history == session.queues[player].history
            &&& later.queues[player].tail == session.queues[player].tail
            &&& later.queues[player].length == session.queues[player].length
        }),
    decreases frames,
{
    if frames > 0 {
        lemma_replay_of_known_inputs(session, player, (frames - 1) as nat);
    }
}

/// In a rollback every frame is simulated with the inputs that were added for it, as far
/// as there are any.
pub proof fn law_rollback_uses_known_inputs<I: InputValue, S>(
    session: SyncView<I, S>,
    seek_to: int,
    player: int,
    frame: int,
)
    requires
        session.can_adjust(seek_to),
        0 <= seek_to <= frame < session.frame_count,
        0 <= player < session.queues.len() <= MAX_PLAYERS,
        !session.is_gone(player, frame),
        session.queues[player].holds(frame),
    ensures
        session.loaded(seek_to).reset().replayed((frame - seek_to) as nat).advance_command()
            matches CommandView::AdvanceFrame { frame: simulated, inputs, .. } && {
            &&& simulated == frame
            &&& inputs[player] == session.queues[player].history[frame]
        },
{
    let start = session.loaded(seek_to).reset();
    let done = (frame - seek_to) as nat;
    assert(start.frame_count == seek_to);
    assert(!start.is_gone(player, start.frame_count + done));
    assert(start.queues[player].holds(frame)) by {
        assert(start.queues[player].oldest() == session.queues[player].oldest());
    }
    lemma_replay_of_known_inputs(start, player, done);
    let now = start.replayed(done);
    assert(session.queues[player].reaches(frame));
    let queue = now.queues[player];
    assert(queue.oldest() == session.queues[player].oldest());
    assert(queue.slot_frame(queue.slot_of(frame)) == frame);
}

impl<I: InputValue, S> SyncView<I, S> {
    /// The frame of the state that was given a slot `back` steps before the last one.
    pub open spec fn frame_back(self, back: int) -> int {
        self.saved.cells[(self.saved.head - 1 - back) % SAVED_FRAMES as int].frame as int
    }

    /// Whether the states of the next frame and of some before it have slots, one after
    /// the other.
    pub open spec fn keeps(self, back: int) -> bool {
        forall|k: int| 0 <= k <= back ==> #[trigger] self.frame_back(k) == self.frame_count - k
    }

    proof fn lemma_saving_keeps(self, back: int)
        requires
            self.saved.cells.len() == SAVED_FRAMES,
            0 <= self.saved.head < SAVED_FRAMES,
            i32::MIN <= self.frame_count <= i32::MAX,
            -1 <= back < SAVED_FRAMES - 1,
            (Self { frame_count: self.frame_count - 1, ..self }).keeps(back),
        ensures
            self.saving().keeps(back + 1),
            self.saving().saved.cells.len() == SAVED_FRAMES,
            0 <= self.saving().saved.head < SAVED_FRAMES,
    {
        let before = Self { frame_count: self.frame_count - 1, ..self };
        let after = self.saving();
        let head = self.saved.head;
        assert forall|k: int| 0 <= k <= back + 1 implies #[trigger] after.frame_back(k)
            == after.frame_count - k by {
            assert((after.saved.head - 1 - k) % 10 == (head - k) % 10);
            if k > 0 {
                assert(before.frame_back(k - 1) == before.frame_count - (k - 1));
                assert((head - k) % 10 != head);
            } else {
                assert((head - k) % 10 == head);
            }
        }
    }

    proof fn lemma_keeps_has(self, back: int)
        requires
            self.saved.cells.len() == SAVED_FRAMES,
            self.keeps(back),
        ensures
            forall|k: int|
                0 <= k <= back ==> #[trigger] self.saved.has(self.frame_count - k),
    {
        assert forall|k: int| 0 <= k <= back implies #[trigger] self.saved.has(
            self.frame_count - k,
        ) by {
            assert(self.frame_back(k) == self.frame_count - k);
            let slot = (self.saved.head - 1 - k) % 10;
            assert(self.saved.cells[slot].frame == self.frame_count - k);
        }
    }
}

/// A frame that is simulated leaves the states that it does not push out of the buffer.
/// From its first frame on a session can go back to each of the last frames.
pub proof fn law_latest_states_are_kept<I: InputValue, S>(session: SyncView<I, S>, back: int)
    requires
        session.saved.cells.len() == SAVED_FRAMES,
        0 <= session.saved.head < SAVED_FRAMES,
        0 <= session.frame_count < i32::MAX,
        0 <= back <= MAX_PREDICTION_FRAMES,
        if session.frame_count == 0 {
            back == 0
        } else {
            session.keeps(back)
        },
    ensures
        session.incremented().keeps(back + 1),
        forall|k: int|
            0 <= k <= back + 1 ==> #[trigger] session.incremented().saved.has(
                session.incremented().frame_count - k,
            ),
{
    if session.frame_count == 0 {
        session.lemma_saving_keeps(-1);
    }
    let next = SyncView {
        frame_count: session.frame_count + 1,
        ..session.started().synchronized()
    };
    assert forall|k: int| 0 <= k <= back implies #[trigger] (SyncView {
        frame_count: next.frame_count - 1,
        ..next
    }).frame_back(k) == session.frame_count - k by {
        assert(session.started().frame_back(k) == session.frame_count - k);
    }
    next.lemma_saving_keeps(back);
    session.incremented().lemma_keeps_has(back + 1);
}

proof fn lemma_replay_saves<I: InputValue, S>(session: SyncView<I, S>, frames: nat)
    requires
        session.saved.cells.len() == SAVED_FRAMES,
        0 <= session.saved.head < SAVED_FRAMES,
        0 <= session.frame_count,
        session.frame_count + frames <= i32::MAX,
        frames <= MAX_PREDICTION_FRAMES + 1,
        session.keeps(0),
    ensures
        session.replayed(frames).saved.cells.len() == SAVED_FRAMES,
        0 <= session.replayed(frames).saved.head < SAVED_FRAMES,
        session.replayed(frames).frame_count == session.frame_count + frames,
        session.replayed(frames).keeps(frames as int),
    decreases frames,
{
    if frames > 0 {
        lemma_replay_saves(session, (frames - 1) as nat);
        law_latest_states_are_kept(session.replayed((frames - 1) as nat), frames - 1);
    }
}

/// After a rollback the session can go back again to each of the frames that it simulated.
pub proof fn law_rollback_keeps_states<I: InputValue, S>(session: SyncView<I, S>, seek_to: int)
    requires
        session.saved.cells.len() == SAVED_FRAMES,
        session.can_adjust(seek_to),
        0 <= seek_to < session.frame_count <= i32::MAX,
        session.frame_count - seek_to <= MAX_PREDICTION_FRAMES + 1,
    ensures
        session.adjusted(seek_to).keeps(session.frame_count - seek_to),
        forall|frame: int|
            seek_to <= frame <= session.frame_count ==> #[trigger] session.adjusted(
                seek_to,
            ).saved.has(frame),
{
    let start = session.loaded(seek_to).reset();
    let count = (session.frame_count - seek_to) as nat;
    let slot = session.saved.lemma_has_slot(seek_to);
    session.saved.lemma_slot_of(seek_to, slot);
    assert((start.saved.head - 1) % 10 == slot);
    assert(start.frame_back(0) == seek_to);
    lemma_replay_saves(start, count);
    let last = session.adjusted(seek_to);
    assert forall|k: int| 0 <= k <= count implies #[trigger] last.frame_back(k)
        == last.frame_count - k by {
        assert(start.replayed(count).frame_back(k) == last.frame_count - k);
    }
    last.lemma_keeps_has(count as int);
    assert forall|frame: int|
        seek_to <= frame <= session.frame_count implies #[trigger] last.saved.has(frame) by {
        assert(last.saved.has(last.frame_count - (session.frame_count - frame)));
    }
}

/// The bit of a player is set for exactly those who are gone.
pub proof fn law_mask_tells_who_is_gone<I: InputValue, S>(
    session: SyncView<I, S>,
    players: nat,
    player: int,
)
    requires
        players <= MAX_PLAYERS,
        0 <= player < MAX_PLAYERS,
    ensures
        session.gone_mask(players) & (1u8 << (player as u8)) != 0 <==> player < players
            && session.is_gone(player, session.frame_count),
    decreases players,
{
    let bit = player as u8;
    if players == 0 {
        assert(0u8 & (1u8 << bit) == 0) by (bit_vector);
    } else {
        law_mask_tells_who_is_gone(session, (players - 1) as nat, player);
        let rest = session.gone_mask((players - 1) as nat);
        let last = (players - 1) as u8;
        assert((rest | (1u8 << last)) & (1u8 << bit) != 0 <==> rest & (1u8 << bit) != 0 || last
            == bit) by (bit_vector)
            requires
                last < 8,
                bit < 8,
        ;
    }
}

/// A session can roll back to the first wrong frame, where the state of that frame is one
/// of those that are kept and no queue has discarded its input.
pub proof fn law_recent_frames_can_be_simulated_again<I: InputValue, S>(
    session: SyncView<I, S>,
    back: int,
    frame: int,
)
    requires
        session.saved.cells.len() == SAVED_FRAMES,
        session.keeps(back),
        session.is_first_incorrect(frame),
        session.frame_count - back <= frame <= session.frame_count <= i32::MAX,
        forall|p: int|
            0 <= p < session.queues.len() ==> (#[trigger] session.queues[p]).is_contiguous()
                && session.queues[p].history.len() - session.queues[p].length <= frame
                && session.queues[p].history.len() <= i32::MAX,
    ensures
        session.can_adjust(frame),
{
    session.lemma_keeps_has(back);
    assert(session.saved.has(session.frame_count - (session.frame_count - frame)));
    assert forall|p: int, f: int|
        0 <= p < session.queues.len() && frame <= f < session.frame_count && !session.is_gone(
            p,
            f,
        ) implies #[trigger] session.queues[p].reaches(f) by {
        crate::input::lemma_contiguous_reaches(session.queues[p], f);
    }
}

/// Whether nothing was done to a queue but to set its delay.
pub open spec fn is_new_queue<I: InputValue>(queue: QueueView<I>, delay: int) -> bool {
    &&& queue.history.len() == 0
    &&& queue.tail == 0
    &&& queue.length == 0
    &&& queue.last_user_added == NULL_FRAME
    &&& queue.first_incorrect == NULL_FRAME
    &&& queue.last_requested == NULL_FRAME
    &&& queue.delay == delay
    &&& queue.prediction_frame == NULL_FRAME
    &&& queue.prediction == I::zero()
}

/// What a frame is simulated with, and how the queue of each player remembers it.
///
/// A player that is gone or does not exist does nothing. Any other has the input that was
/// added for the frame; if there is none yet, the player goes on with the last one, and the
/// queue holds that against the input when it comes.
#[verifier::rlimit(40)]
pub proof fn law_frames_use_the_inputs_of_the_queues<I: InputValue, S>(
    session: SyncView<I, S>,
    player: int,
)
    requires
        0 <= player < 8,
        session.queues.len() <= 8,
        0 <= session.frame_count < i32::MAX,
        player < session.queues.len() ==> {
            &&& session.queues[player].is_contiguous()
            &&& session.queues[player].history.len() - session.queues[player].length
                <= session.frame_count
            &&& session.queues[player].history.len() <= i32::MAX
        },
    ensures
        ({
            let frame = session.frame_count;
            let commands = session.increment_commands();
            let queue = session.queues[player];
            let after = session.incremented();
            let status = session.status[player];
            let plays = player < session.queues.len() && !(status.disconnected
                && status.last_frame < frame);
            &&& after.frame_count == frame + 1
            &&& after.queues.len() == session.queues.len()
            &&& after.status == session.status
            &&& after.last_confirmed == session.last_confirmed
            &&& after.rolling_back == session.rolling_back
            &&& commands.len() == (if frame == 0 {
                3int
            } else {
                2
            })
            &&& frame == 0 ==> commands[0] == (CommandView::<I>::Save {
                slot: session.saved.head,
                frame: 0,
            })
            &&& commands.last() matches CommandView::Save { frame: saved, .. } && saved == frame
                + 1
            &&& commands[commands.len() - 2] matches CommandView::AdvanceFrame {
                frame: simulated,
                disconnected,
                inputs,
            } && {
                &&& simulated == frame
                &&& inputs.len() == 8
                &&& disconnected & (1u8 << (player as u8)) != 0 <==> player < session.queues.len()
                    && status.disconnected && status.last_frame < frame
                &&& !plays ==> inputs[player] == I::zero()
                &&& plays ==> {
                    &&& inputs[player] == queue.fetched(frame).value()
                    &&& inputs[player] == (if queue.prediction_frame >= 0 {
                        queue.prediction
                    } else if frame < queue.history.len() {
                        queue.history[frame]
                    } else if queue.history.len() == 0 {
                        I::zero()
                    } else {
                        queue.history.last()
                    })
                    &&& after.queues[player].last_requested == frame
                    &&& after.queues[player].history == queue.history
                    &&& queue.prediction_frame >= 0 || frame >= queue.history.len() ==> {
                        &&& after.queues[player].prediction_frame >= 0
                        &&& after.queues[player].prediction == inputs[player]
                    }
                    &&& queue.prediction_frame < 0 && frame < queue.history.len()
                        ==> after.queues[player].prediction_frame < 0
                }
            }
            &&& player < session.queues.len() && !plays ==> after.queues[player] == queue
        }),
{
    let frame = session.frame_count;
    law_mask_tells_who_is_gone(session, session.queues.len(), player);
    assert(session.increment_commands()[session.increment_commands().len() - 2]
        == session.advance_command());
    if player < session.queues.len() {
        let queue = session.queues[player];
        crate::input::lemma_contiguous_holds(queue, frame);
        if queue.prediction_frame < 0 && frame < queue.history.len() {
            crate::input::law_added_inputs_are_fetched(queue, frame);
        }
        crate::input::law_asking_changes_no_inputs(queue, frame);
    }
}

/// A frame that was simulated before the input of a player came is found to be wrong when
/// another input comes than the one it was simulated with, and only then.
pub proof fn law_wrong_frames_are_found<I: InputValue, S>(
    session: SyncView<I, S>,
    player: int,
    input: FrameInput<I>,
)
    requires
        0 <= player < session.queues.len() <= 8,
        0 <= session.frame_count < i32::MAX,
        !(session.status[player].disconnected && session.status[player].last_frame
            < session.frame_count),
        session.queues[player].is_contiguous(),
        session.queues[player].prediction_frame < 0,
        session.queues[player].delay == 0,
        session.queues[player].history.len() == session.frame_count == input.frame,
        session.queues[player].can_add(input),
        forall|p: int|
            0 <= p < session.queues.len() ==> (#[trigger] session.queues[p]).first_incorrect < 0,
    ensures
        ({
            let frame = session.frame_count;
            let commands = session.increment_commands();
            let simulated = session.incremented();
            let told = SyncView {
                queues: simulated.queues.update(player, simulated.queues[player].added(input)),
                ..simulated
            };
            commands[commands.len() - 2] matches CommandView::AdvanceFrame { inputs, .. } && {
                &&& inputs[player].eq_spec(&input.input) ==> told.is_consistent()
                &&& !inputs[player].eq_spec(&input.input) ==> !told.is_consistent()
                    && told.is_first_incorrect(frame)
            }
        }),
{
    let frame = session.frame_count;
    let queue = session.queues[player];
    law_frames_use_the_inputs_of_the_queues(session, player);
    crate::input::law_predictions_are_checked(queue, frame, input);
    let simulated = session.incremented();
    let told = SyncView {
        queues: simulated.queues.update(player, simulated.queues[player].added(input)),
        ..simulated
    };
    assert(simulated.queues[player] == queue.requested(frame));
    assert forall|p: int| 0 <= p < told.queues.len() && p != player implies (
    #[trigger] told.queues[p]).first_incorrect < 0 by {
        assert(session.queues[p].first_incorrect < 0);
    }
    assert(told.queues[player] == queue.requested(frame).added(input));
}

/// A session takes an input of the local player until it is eight frames ahead of what is
/// confirmed, and has simulated eight frames at all.
pub proof fn law_barrier_is_eight_frames_ahead<I: InputValue, S>(session: SyncView<I, S>)
    ensures
        session.is_at_barrier() <==> session.frame_count >= 8 && session.frame_count
            - session.last_confirmed >= 8,
{
}

/// Before the barrier is reached, a session that has saved its last frames can go back to
/// every frame that is not confirmed.
pub proof fn law_barrier_keeps_the_way_back<I: InputValue, S>(session: SyncView<I, S>, frame: int)
    requires
        !session.is_at_barrier(),
        forall|k: int|
            0 <= k <= 8 && k <= session.frame_count ==> #[trigger] session.saved.has(
                session.frame_count - k,
            ),
        0 <= frame,
        session.last_confirmed < frame <= session.frame_count,
    ensures
        exists|slot: int|
            0 <= slot < session.saved.cells.len() && (#[trigger] session.saved.cells[slot]).frame
                == frame,
{
    assert(session.saved.has(session.frame_count - (session.frame_count - frame)));
}

/// Something is wrong exactly if there is a first wrong frame. It is the earliest of those
/// that the queues have found, and there is only one.
pub proof fn law_first_wrong_frame_is_the_earliest<I: InputValue, S>(
    session: SyncView<I, S>,
    player: int,
    frame: int,
    other: int,
)
    requires
        0 <= player < session.queues.len(),
    ensures
        session.is_first_incorrect(frame) && session.is_first_incorrect(other) ==> frame == other,
        !session.is_consistent() ==> exists|first: int| #[trigger] session.is_first_incorrect(first),
        session.is_consistent() ==> session.queues[player].first_incorrect < 0
            && !session.is_first_incorrect(frame),
        session.queues[player].first_incorrect >= 0 ==> !session.is_consistent(),
        session.queues[player].first_incorrect >= 0 && session.is_first_incorrect(frame) ==> 0
            <= frame <= session.queues[player].first_incorrect,
        session.queues[player].first_incorrect == frame && frame >= 0 && (forall|p: int|
            0 <= p < session.queues.len() ==> (#[trigger] session.queues[p]).first_incorrect < 0
                || session.queues[p].first_incorrect >= frame) ==> session.is_first_incorrect(
            frame,
        ),
{
    if session.is_consistent() {
        assert(session.queues[player].first_incorrect < 0);
        assert(!session.is_first_incorrect(frame));
    } else {
        let wrong = choose|p: int|
            0 <= p < session.queues.len() && (#[trigger] session.queues[p]).first_incorrect >= 0;
        lemma_earliest(session, wrong);
    }
}

proof fn lemma_earliest<I: InputValue, S>(session: SyncView<I, S>, player: int)
    requires
        0 <= player < session.queues.len(),
        session.queues[player].first_incorrect >= 0,
    ensures
        exists|first: int| #[trigger] session.is_first_incorrect(first),
    decreases session.queues[player].first_incorrect,
{
    let frame = session.queues[player].first_incorrect;
    if exists|p: int|
        0 <= p < session.queues.len() && 0 <= (#[trigger] session.queues[p]).first_incorrect
            < frame {
        let earlier = choose|p: int|
            0 <= p < session.queues.len() && 0 <= (#[trigger] session.queues[p]).first_incorrect
                < frame;
        lemma_earliest(session, earlier);
    } else {
        assert(session.is_first_incorrect(frame));
    }
}

/// A state that is saved gets the next slot, which is empty until the client fills it. The
/// others are left alone. Ten states are kept.
pub proof fn law_states_are_saved_in_turn<I: InputValue, S>(session: SyncView<I, S>, slot: int)
    requires
        session.saved.cells.len() == 10,
        0 <= session.saved.head < 10,
        0 <= slot < 10,
        i32::MIN <= session.frame_count <= i32::MAX,
    ensures
        session.save_command() == (CommandView::<I>::Save {
            slot: session.saved.head,
            frame: session.frame_count,
        }),
        session.saving().saved.cells.len() == 10,
        session.saving().saved.head == (if session.saved.head == 9 {
            0
        } else {
            session.saved.head + 1
        }),
        slot != session.saved.head ==> session.saving().saved.cells[slot]
            == session.saved.cells[slot],
        ({
            let cell = session.saving().saved.cells[session.saved.head];
            cell.frame == session.frame_count && cell.data is None && cell.checksum is None
        }),
        session.saving() == (SyncView { saved: session.saving().saved, ..session }),
{
}

/// Going back to a frame loads the state that was saved for it, and the states behind it
/// are the next to be replaced. Going back to where the session is asks for nothing.
pub proof fn law_going_back_loads_the_frame<I: InputValue, S>(
    session: SyncView<I, S>,
    frame: int,
)
    requires
        session.saved.cells.len() == 10,
        session.saved.has(frame),
        frame != session.frame_count,
    ensures
        session.loaded(session.frame_count) == session,
        session.load_commands(session.frame_count).len() == 0,
        session.load_commands(frame).len() == 1,
        session.load_commands(frame)[0] matches CommandView::Load { slot } && {
            &&& 0 <= slot < 10
            &&& session.saved.cells[slot].frame == frame
            &&& session.loaded(frame).saved.head == (if slot == 9 {
                0
            } else {
                slot + 1
            })
        },
        session.loaded(frame).saved.cells == session.saved.cells,
        session.loaded(frame).frame_count == frame,
        session.loaded(frame).queues == session.queues,
        session.loaded(frame).status == session.status,
        session.loaded(frame).last_confirmed == session.last_confirmed,
{
    let slot = session.saved.lemma_has_slot(frame);
    session.saved.lemma_slot_of(frame, slot);
}

/// While frames are simulated again, a queue that counts its inputs right predicts nothing
/// but that the player goes on with the last input, and only behind it.
proof fn lemma_replay_predicts<I: InputValue, S>(
    session: SyncView<I, S>,
    player: int,
    frames: nat,
)
    requires
        0 <= player < session.queues.len(),
        0 <= session.frame_count,
        session.queues[player].is_contiguous(),
        session.queues[player].prediction_frame < 0,
        session.queues[player].history.len() - session.queues[player].length
            <= session.frame_count,
    ensures
        ({
            let later = session.replayed(frames);
            let queue = later.queues[player];
            &&& later.frame_count == session.frame_count + frames
            &&& later.status == session.status
            &&& later.queues.len() == session.queues.len()
            &&& queue.history == session.queues[player].history
            &&& queue.tail == session.queues[player].tail
            &&& queue.length == session.queues[player].length
            &&& queue.prediction_frame < 0 || {
                &&& queue.prediction == session.queues[player].latest()
                &&& session.queues[player].history.len() < later.frame_count
            }
        }),
    decreases frames,
{
    if frames > 0 {
        lemma_replay_predicts(session, player, (frames - 1) as nat);
        let before = session.replayed((frames - 1) as nat);
        crate::input::lemma_contiguous_holds(before.queues[player], before.frame_count);
    }
}

/// A command of frames that are simulated again belongs to one of them.
proof fn lemma_replay_command<I: InputValue, S>(
    session: SyncView<I, S>,
    frames: nat,
    i: int,
) -> (done: nat)
    requires
        0 <= i < session.replay_commands(frames).len(),
    ensures
        done < frames,
        session.replay_commands(frames)[i] is AdvanceFrame ==> session.replay_commands(frames)[i]
            == session.replayed(done).advance_command(),
    decreases frames,
{
    let last = (frames - 1) as nat;
    if i < session.replay_commands(last).len() {
        lemma_replay_command(session, last, i)
    } else {
        last
    }
}

/// In a rollback every frame is simulated with what is known by now: with the input that
/// was added for it, or else the last one. A player that is gone or does not exist does
/// nothing.
#[verifier::rlimit(40)]
pub proof fn law_rollback_simulates_what_is_known<I: InputValue, S>(
    session: SyncView<I, S>,
    seek_to: int,
    i: int,
    player: int,
)
    requires
        session.can_adjust(seek_to),
        0 <= seek_to < session.frame_count <= i32::MAX,
        0 <= i < session.adjust_commands(seek_to).len(),
        session.queues.len() <= 8,
        0 <= player < 8,
        player < session.queues.len() ==> {
            &&& session.queues[player].is_contiguous()
            &&& session.queues[player].history.len() - session.queues[player].length <= seek_to
            &&& session.queues[player].history.len() <= i32::MAX
        },
    ensures
        session.adjust_commands(seek_to)[i] matches CommandView::AdvanceFrame {
            frame,
            disconnected,
            inputs,
        } ==> {
            let status = session.status[player];
            let history = session.queues[player].history;
            let gone = player < session.queues.len() && status.disconnected && status.last_frame
                < frame;
            &&& seek_to <= frame < session.frame_count
            &&& inputs.len() == 8
            &&& disconnected & (1u8 << (player as u8)) != 0 <==> gone
            &&& inputs[player] == (if gone || player >= session.queues.len() {
                I::zero()
            } else if frame < history.len() {
                history[frame]
            } else if history.len() == 0 {
                I::zero()
            } else {
                history.last()
            })
        },
{
    let start = session.loaded(seek_to).reset();
    let count = (session.frame_count - seek_to) as nat;
    if session.adjust_commands(seek_to)[i] is AdvanceFrame {
        assert(session.load_commands(seek_to).len() == 1);
        let done = lemma_replay_command(start, count, i - 1);
        let now = start.replayed(done);
        lemma_replay_advances(start, done);
        lemma_replay_keeps_players(start, done);
        law_mask_tells_who_is_gone(now, now.queues.len(), player);
        if player < session.queues.len() {
            assert(start.queues[player] == session.queues[player].reset());
            lemma_replay_predicts(start, player, done);
            let queue = now.queues[player];
            crate::input::lemma_contiguous_holds(queue, now.frame_count);
            if queue.prediction_frame < 0 && now.frame_count < queue.history.len() {
                crate::input::law_added_inputs_are_fetched(queue, now.frame_count);
            }
        }
    }
}

proof fn lemma_replay_keeps_players<I: InputValue, S>(session: SyncView<I, S>, frames: nat)
    ensures
        session.replayed(frames).status == session.status,
        session.replayed(frames).queues.len() == session.queues.len(),
    decreases frames,
{
    if frames > 0 {
        lemma_replay_keeps_players(session, (frames - 1) as nat);
    }
}

/// The confirmed inputs of a frame are those that were added for it, of every player that
/// is not gone by now; the others do nothing.
pub proof fn law_confirmed_inputs_are_those_added<I: InputValue, S>(
    session: SyncView<I, S>,
    frame: int,
    player: int,
)
    requires
        0 <= player < 8,
        session.queues.len() <= 8,
        player < session.queues.len() ==> 0 <= frame < session.queues[player].history.len()
            <= frame + 120,
    ensures
        session.confirmed_inputs(frame).len() == 8,
        session.confirmed_inputs(frame)[player] == (if player < session.queues.len() && !(
        session.status[player].disconnected && session.status[player].last_frame
            < session.frame_count) {
            session.queues[player].history[frame]
        } else {
            I::zero()
        }),
{
    if player < session.queues.len() {
        crate::input::law_latest_inputs_are_kept(session.queues[player], frame);
    }
}

/// Whatever has become of the queues, every player that is not gone is simulated with what
/// its queue gives out for the frame, and the queue takes note of that. All others do nothing,
/// and their queues are not asked.
pub proof fn law_frames_take_what_the_queues_give_out<I: InputValue, S>(
    session: SyncView<I, S>,
    player: int,
)
    requires
        0 <= player < 8,
        session.queues.len() <= 8,
    ensures
        ({
            let frame = session.frame_count;
            let plays = player < session.queues.len() && !(session.status[player].disconnected
                && session.status[player].last_frame < frame);
            &&& session.next_inputs().len() == 8
            &&& session.next_inputs()[player] == (if plays {
                match session.queues[player].fetched(frame) {
                    crate::input::FetchedInput::Normal(given) => given.input,
                    crate::input::FetchedInput::Prediction(predicted) => predicted.input,
                }
            } else {
                I::zero()
            })
            &&& plays ==> session.synchronized().queues[player]
                == session.queues[player].requested(frame)
            &&& player < session.queues.len() && !plays ==> session.synchronized().queues[player]
                == session.queues[player]
            &&& session.synchronized() == (SyncView {
                queues: session.synchronized().queues,
                ..session
            })
            &&& session.synchronized().queues.len() == session.queues.len()
        }),
{
}

/// A frame can be simulated as long as no prediction is known to be wrong and no queue has
/// discarded the frame.
pub proof fn law_frames_can_be_simulated<I: InputValue, S>(session: SyncView<I, S>)
    requires
        0 <= session.frame_count < i32::MAX,
        forall|p: int|
            0 <= p < session.queues.len() ==> {
                &&& (#[trigger] session.queues[p]).is_contiguous()
                &&& session.queues[p].first_incorrect < 0
                &&& session.queues[p].history.len() - session.queues[p].length
                    <= session.frame_count
                &&& session.queues[p].history.len() <= i32::MAX
            },
    ensures
        session.can_synchronize(),
{
    assert forall|p: int| 0 <= p < session.queues.len() implies (
    #[trigger] session.queues[p]).can_get(session.frame_count) by {
        crate::input::lemma_contiguous_reaches(session.queues[p], session.frame_count);
    }
}

/// A reset of the predictions goes to all queues, and changes nothing else.
pub proof fn law_resets_go_to_all_queues<I: InputValue, S>(session: SyncView<I, S>, player: int)
    requires
        0 <= player < session.queues.len(),
    ensures
        session.reset().queues.len() == session.queues.len(),
        session.reset().queues[player].first_incorrect == -1,
        session.reset().queues[player].prediction_frame == -1,
        session.reset().queues[player].history == session.queues[player].history,
        session.reset() == (SyncView { queues: session.reset().queues, ..session }),
        session.reset().is_consistent(),
{
}

} // verus!
