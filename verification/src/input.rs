//! Player inputs, and the queue of the inputs of one player.
use crate::input_value::InputValue;
use crate::{is_null, Frame, MAX_PLAYERS, MAX_ROLLBACK_FRAMES, NULL_FRAME};
use vstd::prelude::*;
use vstd::std_specs::cmp::PartialEqSpec;

verus! {

/// An input, and the frame that it belongs to.
#[derive(Copy, Debug)]
pub struct FrameInput<T> {
    pub frame: Frame,
    pub input: T,
}

impl<T: Copy> Clone for FrameInput<T> {
    fn clone(&self) -> (r: Self)
        ensures
            r == *self,
    {
        *self
    }
}

impl<T: PartialEq> PartialEq for FrameInput<T> {
    fn eq(&self, other: &Self) -> (r: bool) {
        self.frame == other.frame && self.input == other.input
    }
}

impl<T: PartialEq> vstd::std_specs::cmp::PartialEqSpecImpl for FrameInput<T> {
    open spec fn obeys_eq_spec() -> bool {
        T::obeys_eq_spec()
    }

    open spec fn eq_spec(&self, other: &Self) -> bool {
        self.frame == other.frame && self.input.eq_spec(&other.input)
    }
}

impl<T: InputValue> Default for FrameInput<T> {
    fn default() -> (r: Self)
        ensures
            r.frame == NULL_FRAME,
            r.input == T::zero(),
    {
        Self { frame: NULL_FRAME, input: T::zeroed() }
    }
}

impl<T: InputValue> FrameInput<T> {
    /// Sets the input to zero, and leaves the frame alone.
    pub fn clear(&mut self)
        ensures
            final(self).frame == old(self).frame,
            final(self).input == T::zero(),
    {
        self.input = T::zeroed();
    }
}

/// The inputs of all players for one frame.
#[derive(Copy, Debug)]
pub struct GameInput<T> {
    /// The frame that the inputs belong to.
    pub frame: Frame,
    /// Which players are disconnected, one bit each.
    pub disconnected: u8,
    /// The input of each player; zero for those that are disconnected or do not play.
    pub inputs: [T; MAX_PLAYERS],
}

impl<T: Copy> Clone for GameInput<T> {
    fn clone(&self) -> (r: Self)
        ensures
            r == *self,
    {
        *self
    }
}

impl<T: InputValue> Default for GameInput<T> {
    fn default() -> (r: Self)
        ensures
            r.frame == NULL_FRAME,
            r.disconnected == 0,
            r.inputs@ == Seq::new(MAX_PLAYERS as nat, |i: int| T::zero()),
    {
        let inputs: [T; MAX_PLAYERS] = [T::zeroed();MAX_PLAYERS];
        assert(inputs@ =~= Seq::new(MAX_PLAYERS as nat, |i: int| T::zero()));
        Self { frame: NULL_FRAME, disconnected: 0, inputs }
    }
}

impl<T: InputValue> GameInput<T> {
    /// Sets the input of every player to zero, and leaves the frame alone.
    pub fn clear(&mut self)
        ensures
            final(self).frame == old(self).frame,
            final(self).disconnected == old(self).disconnected,
            final(self).inputs@ == Seq::new(MAX_PLAYERS as nat, |i: int| T::zero()),
    {
        self.inputs = [T::zeroed();MAX_PLAYERS];
        assert(self.inputs@ =~= Seq::new(MAX_PLAYERS as nat, |i: int| T::zero()));
    }
}

/// An input that was fetched from a queue.
#[derive(Debug)]
pub enum FetchedInput<T> {
    /// The input that the player gave.
    Normal(FrameInput<T>),
    /// The input that the player is expected to give.
    Prediction(FrameInput<T>),
}

impl<T> FetchedInput<T> {
    /// The data of the input, given or predicted.
    pub open spec fn value(self) -> T {
        match self {
            FetchedInput::Normal(input) => input.input,
            FetchedInput::Prediction(input) => input.input,
        }
    }

    /// The input itself, given or predicted.
    pub fn unwrap(self) -> (r: FrameInput<T>)
        ensures
            r == (match self {
                FetchedInput::Normal(input) => input,
                FetchedInput::Prediction(input) => input,
            }),
    {
        match self {
            Self::Normal(input) => input,
            Self::Prediction(input) => input,
        }
    }

    /// Tells whether the input is a prediction.
    pub fn is_prediction(&self) -> (r: bool)
        ensures
            r == (self is Prediction),
    {
        if let Self::Prediction(_) = self {
            true
        } else {
            false
        }
    }
}

/// What an input queue holds: every input that was added, and how far the simulation has
/// come with them.
///
/// The queue keeps the latest inputs in a ring. The input of frame `k` stands in the slot
/// `k % MAX_ROLLBACK_FRAMES` until a later frame takes it.
pub struct QueueView<T> {
    /// The inputs of the frames from 0 on, with the frame delay and the padding in place.
    pub history: Seq<T>,
    /// The slot of the oldest input that is not discarded.
    pub tail: int,
    /// How many inputs are not discarded, as far as the queue counts them.
    pub length: int,
    /// The last frame that was added by the player, before the frame delay.
    pub last_user_added: int,
    /// The first frame whose prediction was wrong.
    pub first_incorrect: int,
    /// The last frame that was asked for.
    pub last_requested: int,
    /// How many frames the inputs are delayed.
    pub delay: int,
    /// The next frame that is predicted.
    pub prediction_frame: int,
    /// The input that is predicted.
    pub prediction: T,
}

impl<T: InputValue> QueueView<T> {
    /// The frame whose input stands in a slot: the latest of those that fall on it.
    pub open spec fn slot_frame(self, slot: int) -> int {
        let last = self.history.len() - 1;
        let frame = last - (last - slot) % MAX_ROLLBACK_FRAMES as int;
        if frame < 0 {
            NULL_FRAME as int
        } else {
            frame
        }
    }

    /// The input that stands in a slot.
    pub open spec fn slot_input(self, slot: int) -> T {
        if self.slot_frame(slot) < 0 {
            T::zero()
        } else {
            self.history[self.slot_frame(slot)]
        }
    }

    /// The frame of the oldest input that is not discarded.
    pub open spec fn oldest(self) -> int {
        self.slot_frame(self.tail)
    }

    /// Whether the queue takes an input for given, and does not predict it.
    pub open spec fn holds(self, frame: int) -> bool {
        frame - self.oldest() < self.length
    }

    /// The slot in which the queue looks for the input of a frame.
    pub open spec fn slot_of(self, frame: int) -> int {
        (frame - self.oldest() + self.tail) % MAX_ROLLBACK_FRAMES as int
    }

    /// Whether a frame is not older than what the queue holds, and the input that it holds
    /// for the frame, if any, is the one of that frame.
    pub open spec fn reaches(self, frame: int) -> bool {
        &&& self.oldest() <= frame
        &&& frame - self.oldest() <= i32::MAX
        &&& self.holds(frame) ==> self.slot_frame(self.slot_of(frame)) == frame
    }

    /// Whether the inputs that are not discarded are the latest ones, as many as the queue
    /// counts.
    pub open spec fn is_contiguous(self) -> bool {
        &&& 0 <= self.length <= self.history.len()
        &&& self.length <= MAX_ROLLBACK_FRAMES
        &&& self.tail == (self.history.len() - self.length) % MAX_ROLLBACK_FRAMES as int
    }

    /// Whether the queue predicts, if it does, the frame right after those that were added.
    pub open spec fn is_in_step(self) -> bool {
        self.prediction_frame < 0 || self.prediction_frame == self.history.len()
    }

    /// The input of the last frame that was added.
    pub open spec fn latest(self) -> T {
        if self.history.len() == 0 {
            T::zero()
        } else {
            self.history.last()
        }
    }

    /// Whether the input of a frame may be asked for.
    pub open spec fn can_get(self, frame: int) -> bool {
        &&& self.first_incorrect < 0
        &&& self.oldest() <= frame
        &&& self.prediction_frame < 0 ==> self.reaches(frame)
    }

    /// The input that is returned for a frame.
    pub open spec fn fetched(self, frame: int) -> FetchedInput<T> {
        if self.prediction_frame >= 0 {
            FetchedInput::Prediction(FrameInput { frame: frame as i32, input: self.prediction })
        } else if self.holds(frame) {
            FetchedInput::Normal(
                FrameInput { frame: frame as i32, input: self.slot_input(self.slot_of(frame)) },
            )
        } else {
            FetchedInput::Prediction(
                FrameInput { frame: frame as i32, input: self.new_prediction(frame) },
            )
        }
    }

    /// The input that a queue that holds nothing for a frame predicts.
    pub open spec fn new_prediction(self, frame: int) -> T {
        if frame == 0 {
            T::zero()
        } else {
            self.latest()
        }
    }

    /// The queue after the input of a frame was asked for.
    pub open spec fn requested(self, frame: int) -> Self {
        if self.prediction_frame >= 0 || self.holds(frame) {
            Self { last_requested: frame, ..self }
        } else {
            Self {
                last_requested: frame,
                prediction: self.new_prediction(frame),
                prediction_frame: if frame == 0 {
                    0
                } else {
                    self.history.len() as int
                },
                ..self
            }
        }
    }

    /// How many frames an input makes the queue grow.
    pub open spec fn growth(self, input: FrameInput<T>) -> int {
        if input.frame + self.delay < self.history.len() {
            0
        } else {
            input.frame + self.delay - self.history.len() + 1
        }
    }

    /// Whether an input may be added.
    pub open spec fn can_add(self, input: FrameInput<T>) -> bool {
        &&& self.last_user_added < 0 || input.frame == self.last_user_added + 1
        &&& self.is_in_step()
        &&& i32::MIN <= input.frame + self.delay < i32::MAX
        &&& self.length + self.growth(input) <= MAX_ROLLBACK_FRAMES
    }

    /// Whether an input is the one that was predicted for its frame.
    pub open spec fn is_predicted(self, input: FrameInput<T>) -> bool {
        &&& input.frame + self.delay == self.history.len()
        &&& input.frame == self.prediction_frame
        &&& self.prediction.eq_spec(&input.input)
    }

    /// The queue after an input was added.
    ///
    /// An input for a frame that is already there is dropped. One that skips frames is put
    /// behind copies of the last input, which fill the gap. The first of the new frames is
    /// wrong if the queue had predicted it and the input is not the predicted one.
    pub open spec fn added(self, input: FrameInput<T>) -> Self {
        let frame = input.frame + self.delay;
        let len = self.history.len() as int;
        if frame < len {
            Self { last_user_added: input.frame as int, ..self }
        } else {
            let padding = Seq::new((frame - len) as nat, |i: int| self.latest());
            let predicting = self.prediction_frame >= 0;
            let first_incorrect = if predicting && self.first_incorrect < 0 && !self.is_predicted(
                input,
            ) {
                len
            } else {
                self.first_incorrect
            };
            Self {
                history: self.history + padding + seq![input.input],
                length: self.length + (frame - len + 1),
                last_user_added: input.frame as int,
                first_incorrect,
                prediction_frame: if !predicting {
                    self.prediction_frame
                } else if first_incorrect < 0 && self.prediction_frame == self.last_requested {
                    NULL_FRAME as int
                } else {
                    frame + 1
                },
                ..self
            }
        }
    }

    /// The queue after one more frame, which is made known as that of `input`.
    spec fn stepped(self, input: FrameInput<T>) -> Self {
        let predicting = self.prediction_frame >= 0;
        let first_incorrect = if predicting && self.first_incorrect < 0 && !(input.frame
            == self.prediction_frame && self.prediction.eq_spec(&input.input)) {
            self.history.len() as int
        } else {
            self.first_incorrect
        };
        Self {
            history: self.history.push(input.input),
            length: self.length + 1,
            first_incorrect,
            prediction_frame: if !predicting {
                self.prediction_frame
            } else if first_incorrect < 0 && self.prediction_frame == self.last_requested {
                NULL_FRAME as int
            } else {
                self.prediction_frame + 1
            },
            ..self
        }
    }

    /// The queue after the gap in front of `frame` was filled.
    spec fn padded(self, frame: int) -> Self {
        let len = self.history.len() as int;
        if frame <= len {
            self
        } else {
            Self {
                history: self.history + Seq::new((frame - len) as nat, |i: int| self.latest()),
                length: self.length + (frame - len),
                first_incorrect: if self.prediction_frame >= 0 && self.first_incorrect < 0 {
                    len
                } else {
                    self.first_incorrect
                },
                prediction_frame: if self.prediction_frame >= 0 {
                    frame
                } else {
                    self.prediction_frame
                },
                ..self
            }
        }
    }

    /// The frame up to which inputs are discarded.
    pub open spec fn discard_limit(self, frame: int) -> int {
        if self.last_requested < 0 && self.last_requested < frame {
            self.last_requested
        } else {
            frame
        }
    }

    /// How many inputs are discarded, where not all are.
    pub open spec fn discard_count(self, frame: int) -> int {
        self.discard_limit(frame) - self.oldest() + 1
    }

    /// Whether the inputs up to a frame may be discarded.
    pub open spec fn can_discard(self, frame: int) -> bool {
        &&& frame >= 0
        &&& self.discard_limit(frame) < self.history.len() - 1 ==> 0 <= self.discard_count(frame)
            <= self.length
    }

    /// The queue after the inputs up to a frame were discarded. Where all are, the count of
    /// the inputs is left as it was.
    pub open spec fn discarded(self, frame: int) -> Self {
        if self.discard_limit(frame) >= self.history.len() - 1 {
            Self { tail: self.history.len() as int % MAX_ROLLBACK_FRAMES as int, ..self }
        } else {
            Self {
                tail: (self.tail + self.discard_count(frame)) % MAX_ROLLBACK_FRAMES as int,
                length: self.length - self.discard_count(frame),
                ..self
            }
        }
    }

    /// The queue after its predictions were reset.
    pub open spec fn reset(self) -> Self {
        Self {
            prediction_frame: NULL_FRAME as int,
            first_incorrect: NULL_FRAME as int,
            last_requested: NULL_FRAME as int,
            ..self
        }
    }
}

/// What stands in the slots depends on nothing but the inputs that were added.
proof fn lemma_same_slots<T: InputValue>(a: QueueView<T>, b: QueueView<T>)
    requires
        a.history == b.history,
    ensures
        forall|slot: int| a.slot_frame(slot) == #[trigger] b.slot_frame(slot),
        forall|slot: int| a.slot_input(slot) == #[trigger] b.slot_input(slot),
{
}

/// One more input takes the slot of its frame, and leaves the others alone.
proof fn lemma_push_takes_slot<T: InputValue>(before: QueueView<T>, after: QueueView<T>, slot: int)
    requires
        0 <= slot < MAX_ROLLBACK_FRAMES,
        after.history.len() == before.history.len() + 1,
        after.history.drop_last() == before.history,
    ensures
        ({
            let head = before.history.len() as int % MAX_ROLLBACK_FRAMES as int;
            if slot == head {
                &&& after.slot_frame(slot) == before.history.len()
                &&& after.slot_input(slot) == after.history.last()
            } else {
                &&& after.slot_frame(slot) == before.slot_frame(slot)
                &&& after.slot_input(slot) == before.slot_input(slot)
            }
        }),
{
    let n = before.history.len() as int;
    assert forall|k: int| 0 <= k < n implies after.history[k] == before.history[k] by {
        assert(after.history.drop_last()[k] == after.history[k]);
    }
    if slot != n % 120 {
        assert((n - slot) % 120 != 0);
        assert((n - 1 - slot) % 120 == (n - slot) % 120 - 1);
    } else {
        assert((n - slot) % 120 == 0);
    }
}

/// The slot before a slot of the ring.
fn previous_frame(offset: usize) -> (r: usize)
    requires
        offset < MAX_ROLLBACK_FRAMES,
    ensures
        r == (offset - 1) % MAX_ROLLBACK_FRAMES as int,
{
    if offset == 0 {
        MAX_ROLLBACK_FRAMES - 1
    } else {
        offset - 1
    }
}

/// The inputs of one player.
///
/// Inputs are added in the order of their frames. The simulation asks for the input of
/// each frame; where it is not there yet, the queue predicts that the player goes on with
/// the last one, and finds the first frame for which that was wrong when the inputs come.
pub struct InputQueue<T> {
    head: usize,
    tail: usize,
    length: usize,
    first_frame: bool,
    last_user_added_frame: Frame,
    last_added_frame: Frame,
    first_incorrect_frame: Frame,
    last_frame_requested: Frame,
    frame_delay: Frame,
    inputs: Vec<FrameInput<T>>,
    prediction: FrameInput<T>,
    history: Ghost<Seq<T>>,
}

impl<T: InputValue> View for InputQueue<T> {
    type V = QueueView<T>;

    closed spec fn view(&self) -> QueueView<T> {
        QueueView {
            history: self.history@,
            tail: self.tail as int,
            length: self.length as int,
            last_user_added: self.last_user_added_frame as int,
            first_incorrect: self.first_incorrect_frame as int,
            last_requested: self.last_frame_requested as int,
            delay: self.frame_delay as int,
            prediction_frame: self.prediction.frame as int,
            prediction: self.prediction.input,
        }
    }
}

impl<T: InputValue> InputQueue<T> {
    /// The ring holds the latest inputs, each in the slot of its frame.
    pub closed spec fn wf(self) -> bool {
        &&& self.history@.len() <= i32::MAX
        &&& self.head == self.history@.len() as int % MAX_ROLLBACK_FRAMES as int
        &&& self.tail < MAX_ROLLBACK_FRAMES
        &&& self.length <= MAX_ROLLBACK_FRAMES
        &&& self.first_frame == (self.history@.len() == 0)
        &&& self.last_added_frame == self.history@.len() - 1
        &&& self.last_frame_requested >= NULL_FRAME
        &&& self.frame_delay >= 0
        &&& self.prediction.frame >= NULL_FRAME
        &&& self.inputs@.len() == MAX_ROLLBACK_FRAMES
        &&& forall|i: int|
            0 <= i < MAX_ROLLBACK_FRAMES ==> (#[trigger] self.inputs@[i]).frame == self@.slot_frame(
                i,
            ) && self.inputs@[i].input == self@.slot_input(i)
    }

    /// A queue without inputs and without delay.
    pub fn new() -> (r: Self)
        ensures
            r.wf(),
            r@.history.len() == 0,
            r@.tail == 0,
            r@.length == 0,
            r@.last_user_added == NULL_FRAME,
            r@.first_incorrect == NULL_FRAME,
            r@.last_requested == NULL_FRAME,
            r@.delay == 0,
            r@.prediction_frame == NULL_FRAME,
            r@.prediction == T::zero(),
    {
        let mut inputs: Vec<FrameInput<T>> = Vec::new();
        let mut idx: usize = 0;
        while idx < MAX_ROLLBACK_FRAMES
            invariant
                idx <= MAX_ROLLBACK_FRAMES,
                inputs@.len() == idx,
                forall|i: int|
                    0 <= i < idx ==> (#[trigger] inputs@[i]).frame == NULL_FRAME && inputs@[i].input
                        == T::zero(),
            decreases MAX_ROLLBACK_FRAMES - idx,
        {
            inputs.push(FrameInput::default());
            idx += 1;
        }
        Self {
            head: 0,
            tail: 0,
            length: 0,
            first_frame: true,
            last_user_added_frame: NULL_FRAME,
            last_added_frame: NULL_FRAME,
            first_incorrect_frame: NULL_FRAME,
            last_frame_requested: NULL_FRAME,
            frame_delay: 0,
            inputs,
            prediction: FrameInput::default(),
            history: Ghost(Seq::empty()),
        }
    }

    /// The last frame whose input is known.
    pub fn last_confirmed_frame(&self) -> (r: Frame)
        requires
            self.wf(),
        ensures
            r == self@.history.len() - 1,
    {
        self.last_added_frame
    }

    /// The first frame whose prediction was wrong; the null frame if there is none.
    pub fn first_incorrect_frame(&self) -> (r: Frame)
        ensures
            r == self@.first_incorrect,
    {
        self.first_incorrect_frame
    }

    /// Sets how many frames the inputs that are added from now on are delayed.
    pub fn set_frame_delay(&mut self, frame_delay: Frame)
        requires
            old(self).wf(),
            frame_delay >= 0,
        ensures
            final(self).wf(),
            final(self)@ == (QueueView { delay: frame_delay as int, ..old(self)@ }),
    {
        self.frame_delay = frame_delay;
        proof {
            lemma_same_slots(old(self)@, self@);
        }
    }

    /// Discards the inputs up to a frame.
    pub fn discard_confirmed_frames(&mut self, frame: Frame)
        requires
            old(self).wf(),
            old(self)@.can_discard(frame as int),
        ensures
            final(self).wf(),
            final(self)@ == old(self)@.discarded(frame as int),
    {
        let mut limit: Frame = frame;
        if is_null(self.last_frame_requested) && self.last_frame_requested < limit {
            limit = self.last_frame_requested;
        }
        if limit >= self.last_added_frame {
            self.tail = self.head;
        } else {
            let offset: usize = (limit - self.inputs[self.tail].frame + 1) as usize;
            self.tail = (self.tail + offset) % MAX_ROLLBACK_FRAMES;
            self.length -= offset;
        }
        proof {
            lemma_same_slots(old(self)@, self@);
        }
    }

    /// Forgets the predictions, and the errors in them, from a frame on.
    pub fn reset_prediction(&mut self, frame: Frame)
        requires
            old(self).wf(),
            old(self)@.first_incorrect < 0 || frame <= old(self)@.first_incorrect,
        ensures
            final(self).wf(),
            final(self)@ == old(self)@.reset(),
    {
        self.prediction.frame = NULL_FRAME;
        self.first_incorrect_frame = NULL_FRAME;
        self.last_frame_requested = NULL_FRAME;
        proof {
            lemma_same_slots(old(self)@, self@);
        }
    }

    /// The input in the slot of a frame. It is the one of that frame only if the frame was
    /// added, and is not so old that another has taken its slot.
    pub fn get_confirmed_input(&self, frame: Frame) -> (r: Option<&FrameInput<T>>)
        requires
            self.wf(),
            frame >= 0,
            self@.first_incorrect < 0 || frame < self@.first_incorrect,
        ensures
            r == Some(
                &FrameInput {
                    frame: self@.slot_frame(frame as int % MAX_ROLLBACK_FRAMES as int) as i32,
                    input: self@.slot_input(frame as int % MAX_ROLLBACK_FRAMES as int),
                },
            ),
    {
        let offset: usize = frame as usize % MAX_ROLLBACK_FRAMES;
        Some(&self.inputs[offset])
    }

    /// The input for a frame: the one that was added, or a prediction.
    pub fn get_input(&mut self, frame: Frame) -> (r: FetchedInput<T>)
        requires
            old(self).wf(),
            old(self)@.can_get(frame as int),
        ensures
            final(self).wf(),
            final(self)@ == old(self)@.requested(frame as int),
            r == old(self)@.fetched(frame as int),
    {
        self.last_frame_requested = frame;
        if is_null(self.prediction.frame) {
            assert(old(self)@.reaches(frame as int));
            let mut offset: usize = (frame - self.inputs[self.tail].frame) as usize;
            if offset < self.len() {
                offset = (offset + self.tail) % MAX_ROLLBACK_FRAMES;
                let input: FrameInput<T> = self.inputs[offset];
                proof {
                    lemma_same_slots(old(self)@, self@);
                }
                return FetchedInput::Normal(input);
            }
            if frame == 0 || is_null(self.last_added_frame) {
                self.prediction.clear();
            } else {
                self.prediction = self.inputs[previous_frame(self.head)];
            }
            self.prediction.frame += 1;
        }
        let mut prediction: FrameInput<T> = self.prediction;
        prediction.frame = frame;
        proof {
            lemma_same_slots(old(self)@, self@);
        }
        FetchedInput::Prediction(prediction)
    }

    /// Adds an input, and returns the frame that it took after the frame delay; the null
    /// frame if it was dropped.
    pub fn add_input(&mut self, input: FrameInput<T>) -> (r: Frame)
        requires
            old(self).wf(),
            old(self)@.can_add(input),
        ensures
            final(self).wf(),
            final(self)@ == old(self)@.added(input),
            old(self)@.prediction_frame >= 0 && old(self)@.first_incorrect < 0 && old(self)@.delay
                == 0 && input.frame == old(self)@.history.len() ==> {
                &&& old(self)@.prediction.eq_spec(&input.input) ==> final(self)@.first_incorrect < 0
                &&& !old(self)@.prediction.eq_spec(&input.input) ==> final(self)@.first_incorrect
                    == input.frame
            },
            r == (if input.frame + old(self)@.delay < old(self)@.history.len() {
                NULL_FRAME as int
            } else {
                input.frame + old(self)@.delay
            }),
    {
        self.last_user_added_frame = input.frame;
        proof {
            lemma_same_slots(old(self)@, self@);
        }
        let new_frame: Frame = self.advance_queue_head(input.frame);
        if !is_null(new_frame) {
            self.add_delayed_input(new_frame, input);
            assert(self@.history =~= old(self)@.added(input).history);
        }
        new_frame
    }

    /// Puts an input into the slot of the next frame, and checks the prediction for it.
    fn add_delayed_input(&mut self, frame: Frame, input: FrameInput<T>)
        requires
            old(self).wf(),
            frame == old(self)@.history.len(),
            frame < i32::MAX,
            old(self)@.is_in_step(),
            old(self)@.length < MAX_ROLLBACK_FRAMES,
        ensures
            final(self).wf(),
            final(self)@ == old(self)@.stepped(input),
    {
        proof {
            T::lemma_obeys_eq();
        }
        self.inputs.set(self.head, FrameInput { frame, input: input.input });
        self.head = (self.head + 1) % MAX_ROLLBACK_FRAMES;
        self.length += 1;
        self.first_frame = false;
        self.last_added_frame = frame;
        proof {
            self.history@ = self.history@.push(input.input);
        }

        if !is_null(self.prediction.frame) {
            if is_null(self.first_incorrect_frame) && self.prediction != input {
                self.first_incorrect_frame = frame;
            }
            if self.prediction.frame == self.last_frame_requested && is_null(
                self.first_incorrect_frame,
            ) {
                self.prediction.frame = NULL_FRAME;
            } else {
                self.prediction.frame += 1;
            }
        }
        assert forall|i: int|
            0 <= i < MAX_ROLLBACK_FRAMES implies (#[trigger] self.inputs@[i]).frame
            == self@.slot_frame(i) && self.inputs@[i].input == self@.slot_input(i) by {
            assert(old(self).inputs@[i].frame == old(self)@.slot_frame(i));
            assert(self@.history.drop_last() =~= old(self)@.history);
            lemma_push_takes_slot(old(self)@, self@, i);
        }
    }

    /// Fills the gap in front of the frame that an input takes after the frame delay, and
    /// returns that frame; the null frame if it is already there.
    fn advance_queue_head(&mut self, frame: Frame) -> (r: Frame)
        requires
            old(self).wf(),
            old(self)@.is_in_step(),
            i32::MIN <= frame + old(self)@.delay < i32::MAX,
            frame + old(self)@.delay >= old(self)@.history.len() ==> old(self)@.length + (frame
                + old(self)@.delay - old(self)@.history.len()) <= MAX_ROLLBACK_FRAMES,
        ensures
            final(self).wf(),
            final(self)@ == old(self)@.padded(frame + old(self)@.delay),
            r == (if frame + old(self)@.delay < old(self)@.history.len() {
                NULL_FRAME as int
            } else {
                frame + old(self)@.delay
            }),
    {
        let mut expected_frame: Frame = if self.first_frame {
            0
        } else {
            self.inputs[previous_frame(self.head)].frame + 1
        };
        let new_frame: Frame = frame + self.frame_delay;
        if expected_frame > new_frame {
            return NULL_FRAME;
        }
        while expected_frame < new_frame
            invariant
                old(self).wf(),
                self.wf(),
                old(self)@.is_in_step(),
                new_frame < i32::MAX,
                old(self)@.history.len() <= expected_frame <= new_frame,
                expected_frame == self@.history.len(),
                old(self)@.length + (new_frame - old(self)@.history.len()) <= MAX_ROLLBACK_FRAMES,
                self@ == old(self)@.padded(expected_frame as int),
            decreases new_frame - expected_frame,
        {
            let last: FrameInput<T> = self.inputs[previous_frame(self.head)];
            self.add_delayed_input(expected_frame, last);
            expected_frame += 1;
            assert(self@.history =~= old(self)@.padded(expected_frame as int).history);
        }
        new_frame
    }

    /// How many inputs are not discarded, as far as the queue counts them.
    pub fn len(&self) -> (r: usize)
        ensures
            r == self@.length,
    {
        self.length
    }
}

/// What holds of every queue, whatever was done with it: there are no more inputs that are
/// not discarded than slots, and no frames before the first.
pub proof fn law_queues_are_bounded<T: InputValue>(queue: InputQueue<T>)
    requires
        queue.wf(),
    ensures
        queue@.history.len() <= i32::MAX,
        0 <= queue@.tail < MAX_ROLLBACK_FRAMES,
        0 <= queue@.length <= MAX_ROLLBACK_FRAMES,
        queue@.last_requested >= NULL_FRAME,
        queue@.prediction_frame >= NULL_FRAME,
        0 <= queue@.delay <= i32::MAX,
{
}

/// The input of a frame stands in the slot of the frame for as long as the ring is long.
pub proof fn law_latest_inputs_are_kept<T: InputValue>(queue: QueueView<T>, frame: int)
    requires
        0 <= frame < queue.history.len() <= frame + MAX_ROLLBACK_FRAMES,
    ensures
        queue.slot_frame(frame % MAX_ROLLBACK_FRAMES as int) == frame,
        queue.slot_input(frame % MAX_ROLLBACK_FRAMES as int) == queue.history[frame],
{
    let last = queue.history.len() - 1;
    let slot = frame % 120;
    assert((last - slot) % 120 == (last - frame) % 120);
}

/// A queue that counts its inputs right gives out, for every frame that it did not
/// discard, the input that was added for that frame.
pub proof fn law_added_inputs_are_fetched<T: InputValue>(queue: QueueView<T>, frame: int)
    requires
        queue.is_contiguous(),
        queue.prediction_frame < 0,
        queue.history.len() - queue.length <= frame < queue.history.len() <= i32::MAX,
    ensures
        queue.reaches(frame),
        queue.fetched(frame) == FetchedInput::Normal(
            FrameInput { frame: frame as i32, input: queue.history[frame] },
        ),
{
    let first = queue.history.len() - queue.length;
    law_latest_inputs_are_kept(queue, first);
    law_latest_inputs_are_kept(queue, frame);
    assert(queue.slot_of(frame) == frame % 120) by {
        assert((frame - first + first % 120) % 120 == frame % 120);
    }
}

/// A queue that counts its inputs right reaches every frame from the first one on that it
/// did not discard.
pub proof fn lemma_contiguous_reaches<T: InputValue>(queue: QueueView<T>, frame: int)
    requires
        queue.is_contiguous(),
        0 <= frame < i32::MAX,
        queue.history.len() - queue.length <= frame,
        queue.history.len() <= i32::MAX,
    ensures
        queue.reaches(frame),
{
    let first = queue.history.len() - queue.length;
    if queue.length > 0 {
        law_latest_inputs_are_kept(queue, first);
        if frame < queue.history.len() {
            law_latest_inputs_are_kept(queue, frame);
            assert((frame - first + first % 120) % 120 == frame % 120);
        }
    } else {
        let last = queue.history.len() - 1;
        assert((last - queue.tail) % 120 == 119);
    }
}

/// A frame for which no input was added is predicted: the player goes on with the last
/// input, or does nothing if none was ever added, and keeps to it for as long as nothing is
/// added.
pub proof fn law_missing_inputs_are_predicted<T: InputValue>(
    queue: QueueView<T>,
    frame: int,
    later: int,
)
    requires
        queue.is_contiguous(),
        queue.prediction_frame < 0,
        queue.history.len() <= frame <= later <= i32::MAX,
        queue.length == 0 ==> frame < i32::MAX,
    ensures
        ({
            let prediction = if queue.history.len() == 0 {
                T::zero()
            } else {
                queue.history.last()
            };
            &&& queue.reaches(frame)
            &&& queue.fetched(frame) == FetchedInput::Prediction(
                FrameInput { frame: frame as i32, input: prediction },
            )
            &&& queue.requested(frame).fetched(later) == FetchedInput::Prediction(
                FrameInput { frame: later as i32, input: prediction },
            )
        }),
{
    if queue.length > 0 {
        law_latest_inputs_are_kept(queue, queue.history.len() - queue.length);
    } else {
        lemma_contiguous_reaches(queue, frame);
    }
}

/// Adding an input changes none of the inputs that were added before.
pub proof fn law_added_inputs_stay<T: InputValue>(queue: QueueView<T>, input: FrameInput<T>)
    ensures
        queue.history.is_prefix_of(queue.added(input).history),
{
    assert(queue.history =~= queue.added(input).history.take(queue.history.len() as int));
}

/// An input is found again under its frame and the delay. The gap in front of it repeats
/// the input before the gap.
pub proof fn law_inputs_are_delayed<T: InputValue>(
    queue: QueueView<T>,
    input: FrameInput<T>,
    frame: int,
)
    requires
        queue.history.len() <= frame <= input.frame + queue.delay,
    ensures
        queue.added(input).history.len() == input.frame + queue.delay + 1,
        queue.added(input).history[frame] == (if frame == input.frame + queue.delay {
            input.input
        } else {
            queue.latest()
        }),
{
}

/// The counting of inputs stays right while inputs are added and asked for, while
/// predictions are reset, and while inputs are discarded but the last.
pub proof fn law_counting_stays_right<T: InputValue>(
    queue: QueueView<T>,
    input: FrameInput<T>,
    frame: int,
)
    requires
        queue.is_contiguous(),
    ensures
        queue.can_add(input) ==> queue.added(input).is_contiguous(),
        queue.requested(frame).is_contiguous(),
        queue.reset().is_contiguous(),
        queue.can_discard(frame) && queue.discard_limit(frame) < queue.history.len() - 1
            ==> queue.discarded(frame).is_contiguous(),
{
    let first = queue.history.len() - queue.length;
    if queue.can_discard(frame) && queue.discard_limit(frame) < queue.history.len() - 1 {
        let count = queue.discard_count(frame);
        assert((first % 120 + count) % 120 == (first + count) % 120);
    }
}

/// While predictions come true nothing is wrong. The first input that differs from its
/// prediction makes its frame the first wrong one, and it stays so until a reset.
pub proof fn law_first_wrong_prediction_is_found<T: InputValue>(
    queue: QueueView<T>,
    input: FrameInput<T>,
)
    requires
        queue.can_add(input),
        queue.prediction_frame >= 0,
        input.frame + queue.delay >= queue.history.len(),
    ensures
        queue.first_incorrect >= 0 ==> queue.added(input).first_incorrect == queue.first_incorrect,
        queue.first_incorrect < 0 && queue.is_predicted(input) ==> queue.added(
            input,
        ).first_incorrect < 0,
        queue.first_incorrect < 0 && !queue.is_predicted(input) ==> queue.added(
            input,
        ).first_incorrect == queue.prediction_frame,
        queue.reset().first_incorrect < 0,
{
}

/// A queue that counts its inputs right takes those for given that were added, and no
/// others.
pub proof fn lemma_contiguous_holds<T: InputValue>(queue: QueueView<T>, frame: int)
    requires
        queue.is_contiguous(),
        0 <= frame,
        queue.history.len() - queue.length <= frame,
    ensures
        queue.holds(frame) <==> frame < queue.history.len(),
        queue.length > 0 ==> queue.oldest() == queue.history.len() - queue.length,
{
    let first = queue.history.len() - queue.length;
    if queue.length > 0 {
        law_latest_inputs_are_kept(queue, first);
    } else {
        let last = queue.history.len() - 1;
        assert((last - queue.tail) % 120 == 119);
    }
}

/// What is given out for a frame before its input has come is held against that input when
/// it comes. Where the two differ, the frame is wrong; where they are the same, nothing is.
/// Once predictions are reset, the input that came is given out.
pub proof fn law_predictions_are_checked<T: InputValue>(
    queue: QueueView<T>,
    asked: int,
    input: FrameInput<T>,
)
    requires
        queue.is_contiguous(),
        queue.can_add(input),
        queue.prediction_frame < 0,
        queue.first_incorrect < 0,
        queue.delay == 0,
        input.frame == queue.history.len(),
        queue.history.len() <= asked <= i32::MAX,
        queue.length == 0 ==> asked < i32::MAX,
    ensures
        ({
            let given_out = queue.fetched(asked).value();
            let after = queue.requested(asked).added(input);
            &&& queue.fetched(asked) is Prediction
            &&& after.first_incorrect == input.frame <==> !given_out.eq_spec(&input.input)
            &&& after.first_incorrect < 0 <==> given_out.eq_spec(&input.input)
            &&& after.history == queue.history.push(input.input)
            &&& after.reset().fetched(input.frame as int) == FetchedInput::Normal(input)
            &&& asked == input.frame && given_out.eq_spec(&input.input) ==> after.fetched(
                input.frame as int,
            ) == FetchedInput::Normal(input)
            &&& asked > input.frame ==> after.fetched(asked).value() == given_out
        }),
{
    let asking = queue.requested(asked);
    law_missing_inputs_are_predicted(queue, asked, asked);
    law_counting_stays_right(queue, input, asked);
    law_counting_stays_right(asking, input, asked);
    let after = asking.added(input);
    assert(after.history =~= queue.history.push(input.input));
    law_counting_stays_right(after, input, asked);
    law_added_inputs_are_fetched(after.reset(), input.frame as int);
    if after.prediction_frame < 0 {
        law_added_inputs_are_fetched(after, input.frame as int);
    }
}

/// The first input that comes for a queue that predicts is right only if it comes without
/// delay for the very next frame, and is the one that is given out for that frame. If it is
/// not, the next frame is the first wrong one.
pub proof fn law_only_predicted_inputs_are_right<T: InputValue>(
    queue: QueueView<T>,
    input: FrameInput<T>,
)
    requires
        queue.can_add(input),
        queue.prediction_frame >= 0,
        queue.first_incorrect < 0,
        input.frame + queue.delay >= queue.history.len(),
    ensures
        ({
            let next = queue.history.len() as int;
            let after = queue.added(input);
            let is_right = queue.delay == 0 && input.frame == next && queue.fetched(
                next,
            ).value().eq_spec(&input.input);
            &&& is_right ==> after.first_incorrect < 0
            &&& !is_right ==> after.first_incorrect == next
            &&& is_right && queue.last_requested == next ==> after.prediction_frame < 0
            &&& is_right && queue.last_requested != next ==> after.prediction_frame == next + 1
            &&& !is_right ==> after.prediction_frame == input.frame + queue.delay + 1
        }),
{
}

/// An input that is added leaves alone what the simulation has asked for, what was
/// predicted, which inputs were discarded and how long inputs are delayed. It is dropped
/// if there is one for its frame already.
pub proof fn law_added_inputs_change_nothing_else<T: InputValue>(
    queue: QueueView<T>,
    input: FrameInput<T>,
)
    ensures
        ({
            let after = queue.added(input);
            &&& after.last_user_added == input.frame
            &&& after.tail == queue.tail
            &&& after.delay == queue.delay
            &&& after.last_requested == queue.last_requested
            &&& after.prediction == queue.prediction
            &&& after.length - queue.length == after.history.len() - queue.history.len()
            &&& queue.prediction_frame < 0 ==> after.prediction_frame < 0 && after.first_incorrect
                == queue.first_incorrect
            &&& queue.first_incorrect >= 0 ==> after.first_incorrect == queue.first_incorrect
            &&& input.frame + queue.delay < queue.history.len() ==> {
                &&& after.history == queue.history
                &&& after.first_incorrect == queue.first_incorrect
                &&& after.prediction_frame == queue.prediction_frame
            }
            &&& input.frame + queue.delay >= queue.history.len() ==> {
                &&& after.history.len() == input.frame + queue.delay + 1
                &&& after.history.last() == input.input
                &&& forall|k: int|
                    0 <= k < queue.history.len() ==> #[trigger] after.history[k]
                        == queue.history[k]
                &&& forall|k: int|
                    queue.history.len() <= k < input.frame + queue.delay
                        ==> #[trigger] after.history[k] == (if queue.history.len() == 0 {
                        T::zero()
                    } else {
                        queue.history[queue.history.len() - 1]
                    })
            }
        }),
{
}

/// Asking for the input of a frame changes no input and no verdict. It is remembered, and
/// what is predicted then stays the prediction for the frames that come next.
pub proof fn law_asking_changes_no_inputs<T: InputValue>(queue: QueueView<T>, frame: int)
    requires
        queue.is_contiguous(),
        queue.history.len() - queue.length <= frame,
        0 <= frame,
    ensures
        ({
            let after = queue.requested(frame);
            &&& after.last_requested == frame
            &&& after.history == queue.history
            &&& after.tail == queue.tail
            &&& after.length == queue.length
            &&& after.delay == queue.delay
            &&& after.last_user_added == queue.last_user_added
            &&& after.first_incorrect == queue.first_incorrect
            &&& if queue.prediction_frame >= 0 || frame < queue.history.len() {
                &&& after.prediction_frame == queue.prediction_frame
                &&& after.prediction == queue.prediction
            } else {
                &&& after.prediction_frame == queue.history.len()
                &&& after.prediction == queue.fetched(frame).value()
                &&& after.prediction == (if queue.history.len() == 0 {
                    T::zero()
                } else {
                    queue.history.last()
                })
            }
        }),
{
    lemma_contiguous_holds(queue, frame);
}

/// A reset forgets what was predicted, what was wrong with it and what was asked for, and
/// no input.
pub proof fn law_reset_forgets_no_inputs<T: InputValue>(queue: QueueView<T>)
    ensures
        ({
            let after = queue.reset();
            &&& after.first_incorrect == -1
            &&& after.prediction_frame == -1
            &&& after.last_requested == -1
            &&& after.history == queue.history
            &&& after.tail == queue.tail
            &&& after.length == queue.length
            &&& after.delay == queue.delay
            &&& after.last_user_added == queue.last_user_added
        }),
{
}

/// Discarding the inputs up to a frame leaves exactly those behind it, and they are still
/// given out.
pub proof fn law_discarding_keeps_later_inputs<T: InputValue>(
    queue: QueueView<T>,
    frame: int,
    later: int,
)
    requires
        queue.is_contiguous(),
        queue.length > 0,
        queue.last_requested >= 0,
        queue.history.len() - queue.length - 1 <= frame,
        0 <= frame < later < queue.history.len() <= i32::MAX,
    ensures
        queue.can_discard(frame),
        ({
            let after = queue.discarded(frame);
            &&& after.history == queue.history
            &&& after.length == queue.history.len() - 1 - frame
            &&& after.is_contiguous()
            &&& after.oldest() == frame + 1
            &&& after.delay == queue.delay
            &&& after.last_user_added == queue.last_user_added
            &&& after.last_requested == queue.last_requested
            &&& after.first_incorrect == queue.first_incorrect
            &&& after.prediction_frame == queue.prediction_frame
            &&& after.prediction == queue.prediction
            &&& queue.prediction_frame < 0 ==> after.fetched(later) == FetchedInput::Normal(
                FrameInput { frame: later as i32, input: queue.history[later] },
            )
        }),
{
    let first = queue.history.len() - queue.length;
    let after = queue.discarded(frame);
    assert(queue.oldest() == first) by {
        law_latest_inputs_are_kept(queue, first);
    }
    assert(queue.discard_count(frame) == frame + 1 - first);
    assert(after.tail == (frame + 1) % 120) by {
        lemma_slots_go_round(first, frame + 1 - first);
    }
    assert(after.is_contiguous());
    assert(after.oldest() == frame + 1) by {
        law_latest_inputs_are_kept(after, frame + 1);
    }
    if queue.prediction_frame < 0 {
        law_added_inputs_are_fetched(after, later);
    }
}

proof fn lemma_slots_go_round(first: int, count: int)
    ensures
        (first % 120 + count) % 120 == (first + count) % 120,
{
}

/// Nothing is discarded before anything was asked for. Where all inputs are discarded, the
/// next one is the oldest, and the count stays as it was.
pub proof fn law_discarding_at_the_ends<T: InputValue>(queue: QueueView<T>, frame: int)
    requires
        queue.is_contiguous(),
        0 <= frame,
    ensures
        queue.last_requested == -1 && queue.length == queue.history.len() && 0
            < queue.length ==> queue.discarded(frame) == queue,
        queue.last_requested >= 0 && frame >= queue.history.len() - 1 ==> queue.discarded(frame)
            == (QueueView { tail: queue.history.len() as int % 120, ..queue }),
{
    if queue.length > 0 && queue.length == queue.history.len() {
        law_latest_inputs_are_kept(queue, 0);
    }
}

/// What is given out for a frame, in every state of a queue: while it predicts, the
/// prediction; else the input that was added for the very frame, if it counts as there; and
/// else the last one that was added, or nothing if there is none.
pub proof fn law_fetched_inputs_belong_to_the_frame<T: InputValue>(
    queue: QueueView<T>,
    frame: int,
)
    requires
        0 <= frame <= i32::MAX,
        queue.prediction_frame < 0 ==> queue.reaches(frame),
    ensures
        queue.prediction_frame >= 0 ==> queue.fetched(frame) == FetchedInput::Prediction(
            FrameInput { frame: frame as i32, input: queue.prediction },
        ),
        queue.prediction_frame < 0 && frame - queue.oldest() < queue.length ==> {
            &&& frame < queue.history.len()
            &&& queue.fetched(frame) == FetchedInput::Normal(
                FrameInput { frame: frame as i32, input: queue.history[frame] },
            )
        },
        queue.prediction_frame < 0 && frame - queue.oldest() >= queue.length ==> queue.fetched(
            frame,
        ) == FetchedInput::Prediction(
            FrameInput {
                frame: frame as i32,
                input: if frame == 0 || queue.history.len() == 0 {
                    T::zero()
                } else {
                    queue.history.last()
                },
            },
        ),
{
}

/// A queue can be asked for every frame that it did not discard, unless a prediction was
/// wrong. The next input can be added as long as there is room.
pub proof fn law_queues_can_be_used_in_turn<T: InputValue>(
    queue: QueueView<T>,
    frame: int,
    input: FrameInput<T>,
)
    requires
        queue.is_contiguous(),
        queue.history.len() < i32::MAX,
    ensures
        queue.first_incorrect < 0 && queue.prediction_frame < 0 && 0 <= frame < i32::MAX
            && queue.history.len() - queue.length <= frame ==> queue.can_get(frame),
        queue.length < 120 && queue.delay == 0 && input.frame == queue.history.len() && (
        queue.last_user_added == -1 || queue.last_user_added == input.frame - 1) && (
        queue.prediction_frame < 0 || queue.prediction_frame == input.frame) ==> queue.can_add(
            input,
        ),
{
    if 0 <= frame < i32::MAX && queue.history.len() - queue.length <= frame {
        lemma_contiguous_reaches(queue, frame);
    }
}

} // verus!
