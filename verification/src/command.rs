//! What a session asks its client to do.
use crate::input::GameInput;
use crate::sync::{SavedFrame, SavedState, SavedView, SAVED_FRAMES};
use crate::{Config, Event, Frame};
use core::hash::Hasher;
use std::collections::hash_map::DefaultHasher;
use vstd::prelude::*;
use vstd::std_specs::hash::DefaultHasherAdditionalSpecFns;

verus! {

/// A command as the session means it.
pub enum CommandView<I> {
    /// The client should save its state for a frame in a slot.
    Save { slot: int, frame: int },
    /// The client should load the state in a slot.
    Load { slot: int },
    /// The client should advance by the frame, with the inputs.
    AdvanceFrame { frame: int, disconnected: u8, inputs: Seq<I> },
    /// Something has happened.
    Event(Event),
}

/// A singular command for a session client to execute.
///
/// Proper execution of the command is not optional, and must be done in the exact order
/// `Commands` returns it in. Filtering or altering the order in which commands are
/// executed, or dropping commands without executing them may result incorrect simulation.
pub enum Command<T: Config> {
    /// The client should copy the entire contents of the current game state into a new
    /// state struct and return it.
    Save(SaveState),
    /// The client should make the current game state match the state contained in the
    /// argument. This command is issued at the beginning of a rollback.
    Load(LoadState),
    /// Clients should advance the game state by exactly one frame. The provided inputs
    /// will contain the inputs you should use for the given frame.
    AdvanceFrame(GameInput<T::Input>),
    /// Notification that something has happened in the lower level protocols.
    Event(Event),
}

impl<T: Config> View for Command<T> {
    type V = CommandView<T::Input>;

    open spec fn view(&self) -> CommandView<T::Input> {
        match *self {
            Command::Save(save) => CommandView::Save {
                slot: save.slot as int,
                frame: save.frame as int,
            },
            Command::Load(load) => CommandView::Load { slot: load.slot as int },
            Command::AdvanceFrame(inputs) => CommandView::AdvanceFrame {
                frame: inputs.frame as int,
                disconnected: inputs.disconnected,
                inputs: inputs.inputs@,
            },
            Command::Event(event) => CommandView::Event(event),
        }
    }
}

/// A command for saving the state of the game.
///
/// Consumers must save before the command is dropped. A command does not notice by itself
/// that it is dropped without saving: whoever hands it out has to watch over it. Its slot is
/// left without a state, and nothing can be loaded from there.
#[must_use]
#[derive(Debug)]
pub struct SaveState {
    /// The slot of the session's state buffer that the state belongs in.
    pub slot: usize,
    /// The frame that the state belongs to.
    pub frame: Frame,
}

/// A command for loading a saved state of the game.
#[derive(Debug)]
pub struct LoadState {
    /// The slot of the session's state buffer that the state is in.
    pub slot: usize,
}

/// `Hash::hash` feeds a state to a hasher. What it feeds is up to the client's type, so
/// nothing is said of the hasher afterwards.
#[verifier::external_body]
fn feed<T: core::hash::Hash>(state: &T, hasher: &mut DefaultHasher) {
    state.hash(hasher);
}

impl SaveState {
    /// Saves a single frame's state to the session's state buffer and uses the hash of the
    /// state as the checksum: what a new hasher makes of all that the state feeds to it.
    ///
    /// This consumes the command, saving multiple times is not allowed.
    pub fn save<T: Clone + core::hash::Hash>(self, saved: &mut SavedState<T>, state: T)
        requires
            old(saved).wf(),
            self.can_save(old(saved)@),
        ensures
            final(saved).wf(),
            exists|fed: Seq<Seq<u8>>|
                #[trigger] self.is_saved(
                    old(saved)@,
                    state,
                    Some(DefaultHasher::spec_finish(fed)),
                    final(saved)@,
                ),
    {
        let mut hasher: DefaultHasher = DefaultHasher::new();
        feed(&state, &mut hasher);
        let checksum: u64 = hasher.finish();
        self.save_with_hash(saved, state, checksum);
        assert(self.is_saved(
            old(saved)@,
            state,
            Some(DefaultHasher::spec_finish(hasher@)),
            saved@,
        ));
    }

    /// Saves a single frame's state to the session's state buffer without a saved checksum.
    ///
    /// This consumes the command, saving multiple times is not allowed.
    pub fn save_without_hash<T>(self, saved: &mut SavedState<T>, state: T)
        requires
            old(saved).wf(),
            self.can_save(old(saved)@),
        ensures
            final(saved).wf(),
            self.is_saved(old(saved)@, state, None, final(saved)@),
    {
        self.save_state(saved, state, None);
    }

    /// Saves a single frame's state to the session's state buffer with a provided checksum.
    ///
    /// This consumes the command, saving multiple times is not allowed.
    pub fn save_with_hash<T>(self, saved: &mut SavedState<T>, state: T, checksum: u64)
        requires
            old(saved).wf(),
            self.can_save(old(saved)@),
        ensures
            final(saved).wf(),
            self.is_saved(old(saved)@, state, Some(checksum), final(saved)@),
    {
        self.save_state(saved, state, Some(checksum));
    }

    fn save_state<T>(self, saved: &mut SavedState<T>, state: T, checksum: Option<u64>)
        requires
            old(saved).wf(),
            self.can_save(old(saved)@),
        ensures
            final(saved).wf(),
            self.is_saved(old(saved)@, state, checksum, final(saved)@),
    {
        saved.save(
            self.slot,
            SavedFrame { frame: self.frame, data: Some(Box::new(state)), checksum },
        );
    }

    /// Whether the slot of the command belongs to a frame.
    pub open spec fn can_save<T>(self, saved: SavedView<T>) -> bool {
        &&& self.slot < SAVED_FRAMES
        &&& saved.cells[self.slot as int].frame >= 0
    }

    /// Whether the state, and nothing else, has gone into the slot of the command.
    pub open spec fn is_saved<T>(
        self,
        before: SavedView<T>,
        state: T,
        checksum: Option<u64>,
        after: SavedView<T>,
    ) -> bool {
        &&& after.head == before.head
        &&& after.cells == before.cells.update(
            self.slot as int,
            SavedFrame {
                frame: before.cells[self.slot as int].frame,
                data: Some(Box::new(state)),
                checksum,
            },
        )
    }
}

impl LoadState {
    /// Loads the saved state of the game.
    ///
    /// This will clone the internal copy of the save state. For games with potentially
    /// large save state, this might be expensive.
    ///
    /// Note this consumes the command, loading multiple times is not allowed.
    pub fn load<T: Clone>(self, saved: &SavedState<T>) -> (r: T)
        requires
            self.slot < saved@.cells.len(),
            saved@.cells[self.slot as int].data is Some,
        ensures
            cloned(*saved@.cells[self.slot as int].data->0, r),
    {
        saved.cell(self.slot).load()
    }
}

/// What was saved last in a slot is what is loaded from it.
pub proof fn law_load_of_save<T: Clone>(
    save: SaveState,
    load: LoadState,
    before: SavedView<T>,
    state: T,
    checksum: Option<u64>,
    after: SavedView<T>,
)
    requires
        before.cells.len() == SAVED_FRAMES,
        save.can_save(before),
        save.is_saved(before, state, checksum, after),
        load.slot == save.slot,
    ensures
        load.slot < after.cells.len(),
        after.cells[load.slot as int].data == Some(Box::new(state)),
        after.cells[load.slot as int].frame == before.cells[save.slot as int].frame,
{
}

/// An ordered container of commands for clients to execute.
pub struct Commands<T: Config> {
    commands: Vec<Command<T>>,
}

impl<T: Config> View for Commands<T> {
    type V = Seq<CommandView<T::Input>>;

    closed spec fn view(&self) -> Seq<CommandView<T::Input>> {
        self.commands@.map_values(|c: Command<T>| c@)
    }
}

impl<T: Config> Default for Commands<T> {
    fn default() -> (r: Self)
        ensures
            r@ == Seq::<CommandView<T::Input>>::empty(),
    {
        let r = Self { commands: Vec::new() };
        assert(r@ =~= Seq::<CommandView<T::Input>>::empty());
        r
    }
}

impl<T: Config> Commands<T> {
    /// Adds a command behind those that are there.
    pub fn push(&mut self, command: Command<T>)
        ensures
            final(self)@ == old(self)@.push(command@),
    {
        self.commands.push(command);
        assert(self@ =~= old(self)@.push(command@));
    }
}

impl<T: Config> IntoIterator for Commands<T> {
    type Item = Command<T>;

    type IntoIter = std::vec::IntoIter<Command<T>>;

    /// The commands, in the order in which they are to be executed.
    fn into_iter(self) -> (r: std::vec::IntoIter<Command<T>>)
        ensures
            vstd::std_specs::vec::into_iter_elts(r).map_values(|c: Command<T>| c@) == self@,
    {
        self.commands.into_iter()
    }
}

/// A save puts the state and the checksum into the slot of the command, leaves the frame of
/// the slot as it is, and leaves all other slots alone.
pub proof fn law_saves_leave_other_slots_alone<T>(
    save: SaveState,
    before: SavedView<T>,
    state: T,
    checksum: Option<u64>,
    after: SavedView<T>,
    slot: int,
)
    requires
        save.is_saved(before, state, checksum, after),
        before.cells.len() == 10,
        save.slot < 10,
        0 <= slot < 10,
    ensures
        after.head == before.head,
        after.cells.len() == 10,
        after.cells[save.slot as int].data == Some(Box::new(state)),
        after.cells[save.slot as int].checksum == checksum,
        after.cells[save.slot as int].frame == before.cells[save.slot as int].frame,
        slot != save.slot ==> after.cells[slot] == before.cells[slot],
{
}

/// A command means what it holds.
pub proof fn law_commands_mean_what_they_hold<T: Config>(command: Command<T>)
    ensures
        match command {
            Command::Save(save) => command@ == (CommandView::<T::Input>::Save {
                slot: save.slot as int,
                frame: save.frame as int,
            }),
            Command::Load(load) => command@ == (CommandView::<T::Input>::Load {
                slot: load.slot as int,
            }),
            Command::AdvanceFrame(game) => command@ == (CommandView::AdvanceFrame {
                frame: game.frame as int,
                disconnected: game.disconnected,
                inputs: game.inputs@,
            }),
            Command::Event(event) => command@ == CommandView::<T::Input>::Event(event),
        },
{
}

} // verus!
