//! Points in time, and how far apart the two ends of a connection run.
use crate::input::FrameInput;
use crate::input_value::InputValue;
use crate::{Frame, NULL_FRAME};
use vstd::prelude::*;
use vstd::std_specs::cmp::PartialEqSpec;

verus! {

/// Over how many frames the frame advantages are averaged.
pub const FRAME_WINDOW_SIZE: usize = 40;

/// How many inputs must be the same for the player to be idle.
pub const MIN_UNIQUE_FRAMES: usize = 10;

/// The fewest frames that are worth waiting for.
pub const MIN_FRAME_ADVANTAGE: Frame = 3;

/// The most frames that are waited for at a time.
pub const MAX_FRAME_ADVANTAGE: Frame = 9;

/// A span of time, in milliseconds.
#[derive(Debug, Clone, Copy, PartialEq, Eq, PartialOrd, Ord, Structural)]
pub struct Millis(pub u64);

/// A span of time, in nanoseconds.
#[derive(Debug, Clone, Copy, PartialEq, Eq, PartialOrd, Ord, Structural)]
pub struct Nanos(pub u128);

/// A point in time, in milliseconds since the start of the Unix epoch.
#[derive(Debug, Clone, Copy, PartialEq, Eq, PartialOrd, Ord, Structural)]
pub struct UnixMillis(pub u64);

impl Default for Millis {
    fn default() -> (r: Self)
        ensures
            r.0 == 0,
    {
        Millis(0)
    }
}

impl Default for UnixMillis {
    fn default() -> (r: Self)
        ensures
            r.0 == 0,
    {
        UnixMillis(0)
    }
}

impl Nanos {
    /// How many whole milliseconds the span holds, in 64 bits.
    pub open spec fn millis(self) -> u64 {
        (self.0 / 1_000_000) as u64
    }

    /// The span of so many milliseconds.
    pub fn from_millis(millis: u64) -> (r: Self)
        ensures
            r.0 == millis * 1_000_000,
            r.millis() == millis,
    {
        Self(millis as u128 * 1_000_000)
    }

    /// How many whole milliseconds the span holds. A number of more than 64 bits is cut.
    pub fn as_millis(&self) -> (r: u64)
        ensures
            r == self.millis(),
    {
        #[verifier::truncate]
        ((self.0 / 1_000_000) as u64)
    }
}

impl UnixMillis {
    /// The point in time that lies so many milliseconds after the start of the epoch.
    pub fn from_millis(millis: u64) -> (r: Self)
        ensures
            r.0 == millis,
    {
        Self(millis)
    }

    /// How many milliseconds after the start of the epoch the point in time lies.
    pub fn as_millis(&self) -> (r: u64)
        ensures
            r == self.0,
    {
        self.0
    }
}

impl core::ops::Add<Millis> for UnixMillis {
    type Output = UnixMillis;

    fn add(self, other: Millis) -> UnixMillis {
        UnixMillis(self.0 + other.0)
    }
}

impl vstd::std_specs::ops::AddSpecImpl<Millis> for UnixMillis {
    open spec fn obeys_add_spec() -> bool {
        true
    }

    open spec fn add_req(self, other: Millis) -> bool {
        self.0 + other.0 <= u64::MAX
    }

    open spec fn add_spec(self, other: Millis) -> UnixMillis {
        UnixMillis((self.0 + other.0) as u64)
    }
}

impl core::ops::Sub<Millis> for UnixMillis {
    type Output = UnixMillis;

    fn sub(self, other: Millis) -> UnixMillis {
        UnixMillis(self.0 - other.0)
    }
}

impl vstd::std_specs::ops::SubSpecImpl<Millis> for UnixMillis {
    open spec fn obeys_sub_spec() -> bool {
        true
    }

    open spec fn sub_req(self, other: Millis) -> bool {
        other.0 <= self.0
    }

    open spec fn sub_spec(self, other: Millis) -> UnixMillis {
        UnixMillis((self.0 - other.0) as u64)
    }
}

impl core::ops::Add<Nanos> for UnixMillis {
    type Output = UnixMillis;

    fn add(self, other: Nanos) -> UnixMillis {
        UnixMillis(self.0 + other.as_millis())
    }
}

impl vstd::std_specs::ops::AddSpecImpl<Nanos> for UnixMillis {
    open spec fn obeys_add_spec() -> bool {
        true
    }

    open spec fn add_req(self, other: Nanos) -> bool {
        self.0 + other.millis() <= u64::MAX
    }

    open spec fn add_spec(self, other: Nanos) -> UnixMillis {
        UnixMillis((self.0 + other.millis()) as u64)
    }
}

impl core::ops::Sub<Nanos> for UnixMillis {
    type Output = UnixMillis;

    fn sub(self, other: Nanos) -> UnixMillis {
        UnixMillis(self.0 - other.as_millis())
    }
}

impl vstd::std_specs::ops::SubSpecImpl<Nanos> for UnixMillis {
    open spec fn obeys_sub_spec() -> bool {
        true
    }

    open spec fn sub_req(self, other: Nanos) -> bool {
        other.millis() <= self.0
    }

    open spec fn sub_spec(self, other: Nanos) -> UnixMillis {
        UnixMillis((self.0 - other.millis()) as u64)
    }
}

impl core::ops::Sub<UnixMillis> for UnixMillis {
    type Output = Millis;

    fn sub(self, other: UnixMillis) -> Millis {
        Millis(self.0 - other.0)
    }
}

impl vstd::std_specs::ops::SubSpecImpl<UnixMillis> for UnixMillis {
    open spec fn obeys_sub_spec() -> bool {
        true
    }

    open spec fn sub_req(self, other: UnixMillis) -> bool {
        other.0 <= self.0
    }

    open spec fn sub_spec(self, other: UnixMillis) -> Millis {
        Millis((self.0 - other.0) as u64)
    }
}

/// The sum of a sequence of frames.
pub open spec fn sum(frames: Seq<Frame>) -> int
    decreases frames.len(),
{
    if frames.len() == 0 {
        0
    } else {
        sum(frames.drop_last()) + frames.last()
    }
}

/// Whether the frames can be added up in order.
pub open spec fn is_summable(frames: Seq<Frame>) -> bool {
    forall|n: int|
        0 <= n <= frames.len() ==> i32::MIN <= #[trigger] sum(frames.take(n)) <= i32::MAX
}

/// Adds up the frames in order, as long as that can be done.
fn sum_of_frames(frames: &[Frame; FRAME_WINDOW_SIZE]) -> (r: Option<Frame>)
    ensures
        match r {
            Some(total) => is_summable(frames@) && total == sum(frames@),
            None => !is_summable(frames@),
        },
{
    let mut total: Frame = 0;
    let mut i: usize = 0;
    assert(frames@.take(0) =~= Seq::<Frame>::empty());
    while i < FRAME_WINDOW_SIZE
        invariant
            i <= FRAME_WINDOW_SIZE,
            total == sum(frames@.take(i as int)),
            forall|n: int| 0 <= n <= i ==> i32::MIN <= #[trigger] sum(frames@.take(n)) <= i32::MAX,
        decreases FRAME_WINDOW_SIZE - i,
    {
        assert(frames@.take(i + 1).drop_last() =~= frames@.take(i as int));
        match total.checked_add(frames[i]) {
            Some(next) => {
                total = next;
            },
            None => {
                assert(!(i32::MIN <= sum(frames@.take(i + 1)) <= i32::MAX));
                return None;
            },
        }
        i += 1;
    }
    assert(frames@.take(FRAME_WINDOW_SIZE as int) =~= frames@);
    Some(total)
}

/// What is remembered of the last frames.
pub struct TimeSyncView<T> {
    /// The frame advantage of the local player, in the slot of each frame.
    pub local: Seq<Frame>,
    /// The frame advantage of the remote player, in the slot of each frame.
    pub remote: Seq<Frame>,
    /// The last inputs, in the slot of each frame.
    pub last_inputs: Seq<FrameInput<T>>,
    /// How often a wait was asked for.
    pub iteration: u32,
}

impl<T: InputValue> TimeSyncView<T> {
    /// What is remembered after one more frame.
    pub open spec fn advanced(
        self,
        input: FrameInput<T>,
        advantage: Frame,
        radvantage: Frame,
    ) -> Self {
        Self {
            local: self.local.update(input.frame as int % FRAME_WINDOW_SIZE as int, advantage),
            remote: self.remote.update(input.frame as int % FRAME_WINDOW_SIZE as int, radvantage),
            last_inputs: self.last_inputs.update(
                input.frame as int % MIN_UNIQUE_FRAMES as int,
                input,
            ),
            iteration: self.iteration,
        }
    }

    /// Whether the last inputs are all the same.
    pub open spec fn is_idle(self) -> bool {
        forall|i: int|
            0 <= i < MIN_UNIQUE_FRAMES ==> (#[trigger] self.last_inputs[i]).eq_spec(
                &self.last_inputs[0],
            )
    }
}

/// A wait is worth it, and not too long; or there is none.
pub open spec fn is_wait(frames: Frame) -> bool {
    frames == 0 || MIN_FRAME_ADVANTAGE <= frames <= MAX_FRAME_ADVANTAGE
}

/// How many frames to wait, where the averages say so many.
pub open spec fn wait_for(is_ahead: bool, sleep_frames: Frame) -> Frame {
    if !is_ahead || sleep_frames < MIN_FRAME_ADVANTAGE {
        0
    } else if sleep_frames < MAX_FRAME_ADVANTAGE {
        sleep_frames
    } else {
        MAX_FRAME_ADVANTAGE
    }
}

/// Tells whoever is ahead how long to wait for the other.
pub struct TimeSync<T> {
    local: [Frame; FRAME_WINDOW_SIZE],
    remote: [Frame; FRAME_WINDOW_SIZE],
    last_inputs: [FrameInput<T>; MIN_UNIQUE_FRAMES],
    iteration: u32,
}

impl<T: InputValue> View for TimeSync<T> {
    type V = TimeSyncView<T>;

    closed spec fn view(&self) -> TimeSyncView<T> {
        TimeSyncView {
            local: self.local@,
            remote: self.remote@,
            last_inputs: self.last_inputs@,
            iteration: self.iteration,
        }
    }
}

impl<T: InputValue> Default for TimeSync<T> {
    fn default() -> (r: Self)
        ensures
            r@.local == Seq::new(FRAME_WINDOW_SIZE as nat, |i: int| 0i32),
            r@.remote == Seq::new(FRAME_WINDOW_SIZE as nat, |i: int| 0i32),
            r@.last_inputs == Seq::new(
                MIN_UNIQUE_FRAMES as nat,
                |i: int| FrameInput { frame: NULL_FRAME, input: T::zero() },
            ),
            r@.iteration == 0,
    {
        let none: FrameInput<T> = FrameInput::default();
        let r = Self {
            local: [0;FRAME_WINDOW_SIZE],
            remote: [0;FRAME_WINDOW_SIZE],
            last_inputs: [none;MIN_UNIQUE_FRAMES],
            iteration: 0,
        };
        assert(r@.local =~= Seq::new(FRAME_WINDOW_SIZE as nat, |i: int| 0i32));
        assert(r@.remote =~= Seq::new(FRAME_WINDOW_SIZE as nat, |i: int| 0i32));
        assert(r@.last_inputs =~= Seq::new(
            MIN_UNIQUE_FRAMES as nat,
            |i: int| FrameInput { frame: NULL_FRAME, input: T::zero() },
        ));
        r
    }
}

impl<T: InputValue> TimeSync<T> {
    /// Remembers the input and the frame advantages of a frame.
    pub fn advance_frame(&mut self, input: FrameInput<T>, advantage: Frame, radvantage: Frame)
        requires
            input.frame >= 0,
        ensures
            final(self)@ == old(self)@.advanced(input, advantage, radvantage),
    {
        let frame: usize = input.frame as usize;
        self.last_inputs[frame % MIN_UNIQUE_FRAMES] = input;
        self.local[frame % FRAME_WINDOW_SIZE] = advantage;
        self.remote[frame % FRAME_WINDOW_SIZE] = radvantage;
    }

    /// The sums of the frame advantages of the local and of the remote player, as long as
    /// they can be added up.
    pub fn frame_advantages(&self) -> (r: Option<(Frame, Frame)>)
        ensures
            match r {
                Some(sums) => {
                    &&& is_summable(self@.local) && is_summable(self@.remote)
                    &&& sums.0 == sum(self@.local)
                    &&& sums.1 == sum(self@.remote)
                },
                None => !is_summable(self@.local) || !is_summable(self@.remote),
            },
    {
        match sum_of_frames(&self.local) {
            Some(local) => match sum_of_frames(&self.remote) {
                Some(remote) => Some((local, remote)),
                None => None,
            },
            None => None,
        }
    }

    /// Tells whether a wait can be asked for once more.
    pub fn can_recommend(&self) -> (r: bool)
        ensures
            r == (self@.iteration < u32::MAX),
    {
        self.iteration < u32::MAX
    }

    /// How many frames to wait.
    ///
    /// `is_ahead` says whether the average advantage of the local player is below that of
    /// the remote one, so that both clients agree on who should wait. `sleep_frames` is half
    /// the difference between the two averages.
    pub fn recommend_frame_wait_duration(
        &mut self,
        is_ahead: bool,
        sleep_frames: Frame,
        require_idle_input: bool,
    ) -> (r: Frame)
        requires
            old(self)@.iteration < u32::MAX,
        ensures
            final(self)@ == (TimeSyncView { iteration: (old(self)@.iteration + 1) as u32, ..old(
                self,
            )@ }),
            r == (if require_idle_input && !old(self)@.is_idle() {
                0
            } else {
                wait_for(is_ahead, sleep_frames)
            }),
            is_wait(r),
    {
        self.iteration += 1;
        if !is_ahead {
            return 0;
        }
        if sleep_frames < MIN_FRAME_ADVANTAGE {
            return 0;
        }
        if require_idle_input {
            let mut idx: usize = 0;
            proof {
                T::lemma_obeys_eq();
            }
            while idx < MIN_UNIQUE_FRAMES
                invariant
                    idx <= MIN_UNIQUE_FRAMES,
                    is_ahead && require_idle_input,
                    sleep_frames >= MIN_FRAME_ADVANTAGE,
                    T::obeys_eq_spec(),
                    self@ == (TimeSyncView {
                        iteration: (old(self)@.iteration + 1) as u32,
                        ..old(self)@
                    }),
                    forall|i: int|
                        0 <= i < idx ==> (#[trigger] self@.last_inputs[i]).eq_spec(
                            &self@.last_inputs[0],
                        ),
                decreases MIN_UNIQUE_FRAMES - idx,
            {
                if self.last_inputs[idx] != self.last_inputs[0] {
                    assert(!self@.last_inputs[idx as int].eq_spec(&self@.last_inputs[0]));
                    return 0;
                }
                idx += 1;
            }
            assert(self@.last_inputs == old(self)@.last_inputs);
            assert(old(self)@.is_idle());
        }
        if sleep_frames < MAX_FRAME_ADVANTAGE {
            sleep_frames
        } else {
            MAX_FRAME_ADVANTAGE
        }
    }
}

impl<T: InputValue> TimeSyncView<T> {
    /// What is remembered after some more frames with the same frame advantages.
    pub open spec fn advanced_often(
        self,
        inputs: Seq<FrameInput<T>>,
        advantage: Frame,
        radvantage: Frame,
    ) -> Self
        decreases inputs.len(),
    {
        if inputs.len() == 0 {
            self
        } else {
            self.advanced_often(inputs.drop_last(), advantage, radvantage).advanced(
                inputs.last(),
                advantage,
                radvantage,
            )
        }
    }

    proof fn lemma_advanced_often(
        self,
        inputs: Seq<FrameInput<T>>,
        advantage: Frame,
        radvantage: Frame,
    )
        requires
            self.local.len() == FRAME_WINDOW_SIZE,
            self.remote.len() == FRAME_WINDOW_SIZE,
        ensures
            ({
                let after = self.advanced_often(inputs, advantage, radvantage);
                &&& after.local.len() == FRAME_WINDOW_SIZE
                &&& after.remote.len() == FRAME_WINDOW_SIZE
                &&& forall|i: int|
                    0 <= i < inputs.len() ==> {
                        let slot = (#[trigger] inputs[i]).frame as int % FRAME_WINDOW_SIZE as int;
                        after.local[slot] == advantage && after.remote[slot] == radvantage
                    }
            }),
        decreases inputs.len(),
    {
        if inputs.len() > 0 {
            let rest = inputs.drop_last();
            self.lemma_advanced_often(rest, advantage, radvantage);
            assert forall|i: int| 0 <= i < inputs.len() implies {
                let slot = (#[trigger] inputs[i]).frame as int % FRAME_WINDOW_SIZE as int;
                let after = self.advanced_often(inputs, advantage, radvantage);
                after.local[slot] == advantage && after.remote[slot] == radvantage
            } by {
                if i < rest.len() {
                    assert(rest[i] == inputs[i]);
                }
            }
        }
    }
}

proof fn lemma_sum_of_same(frames: Seq<Frame>, frame: Frame)
    requires
        forall|i: int| 0 <= i < frames.len() ==> #[trigger] frames[i] == frame,
    ensures
        sum(frames) == frames.len() * frame,
    decreases frames.len(),
{
    if frames.len() > 0 {
        lemma_sum_of_same(frames.drop_last(), frame);
        assert(frames.len() * frame == (frames.len() - 1) * frame + frame) by (nonlinear_arith);
    }
}

/// After as many consecutive frames as the window holds, all with the same frame
/// advantages, the sums are those of these advantages alone.
pub proof fn law_windows_fill_up<T: InputValue>(
    before: TimeSyncView<T>,
    inputs: Seq<FrameInput<T>>,
    advantage: Frame,
    radvantage: Frame,
)
    requires
        before.local.len() == FRAME_WINDOW_SIZE,
        before.remote.len() == FRAME_WINDOW_SIZE,
        inputs.len() == FRAME_WINDOW_SIZE,
        inputs[0].frame >= 0,
        forall|i: int|
            0 <= i < inputs.len() ==> (#[trigger] inputs[i]).frame == inputs[0].frame + i,
    ensures
        ({
            let after = before.advanced_often(inputs, advantage, radvantage);
            &&& sum(after.local) == FRAME_WINDOW_SIZE * advantage
            &&& sum(after.remote) == FRAME_WINDOW_SIZE * radvantage
        }),
{
    let after = before.advanced_often(inputs, advantage, radvantage);
    let first = inputs[0].frame as int;
    before.lemma_advanced_often(inputs, advantage, radvantage);
    assert forall|slot: int|
        #![trigger after.local[slot]]
        #![trigger after.remote[slot]]
        0 <= slot < FRAME_WINDOW_SIZE implies after.local[slot] == advantage && after.remote[slot]
        == radvantage by {
        let i = (slot - first) % 40;
        assert(inputs[i].frame == first + i);
        assert((first + i) % 40 == slot);
    }
    lemma_sum_of_same(after.local, advantage);
    lemma_sum_of_same(after.remote, radvantage);
}

/// Once the windows hold the same frame advantages throughout, whoever is not ahead waits for
/// nothing, and whoever is ahead for half the difference: not at all where that is below
/// `MIN_FRAME_ADVANTAGE`, and for no more than `MAX_FRAME_ADVANTAGE`. Here the averages are
/// compared and halved exactly, to the nearest whole number.
pub proof fn law_wait_is_half_the_difference<T: InputValue>(
    before: TimeSyncView<T>,
    inputs: Seq<FrameInput<T>>,
    advantage: Frame,
    radvantage: Frame,
    sleep_frames: Frame,
)
    requires
        before.local.len() == FRAME_WINDOW_SIZE,
        before.remote.len() == FRAME_WINDOW_SIZE,
        inputs.len() == FRAME_WINDOW_SIZE,
        inputs[0].frame >= 0,
        forall|i: int|
            0 <= i < inputs.len() ==> (#[trigger] inputs[i]).frame == inputs[0].frame + i,
        ({
            let after = before.advanced_often(inputs, advantage, radvantage);
            sleep_frames == (sum(after.remote) - sum(after.local) + FRAME_WINDOW_SIZE) / (2
                * FRAME_WINDOW_SIZE as int)
        }),
    ensures
        ({
            let after = before.advanced_often(inputs, advantage, radvantage);
            let wait = wait_for(sum(after.local) < sum(after.remote), sleep_frames);
            let half = (radvantage - advantage + 1) / 2;
            wait == (if radvantage <= advantage || half < MIN_FRAME_ADVANTAGE {
                0
            } else if half < MAX_FRAME_ADVANTAGE {
                half
            } else {
                MAX_FRAME_ADVANTAGE as int
            })
        }),
{
    law_windows_fill_up(before, inputs, advantage, radvantage);
    let after = before.advanced_often(inputs, advantage, radvantage);
    assert(sum(after.local) == 40 * advantage);
    assert(sum(after.remote) == 40 * radvantage);
    assert(sleep_frames == (40 * radvantage - 40 * advantage + 40) / 80);
}

/// Going forward and back by the same span leads to the same point in time, and the span
/// between two points leads from one to the other.
pub proof fn law_times_add_up(time: UnixMillis, span: Millis, fine: Nanos, later: UnixMillis)
    requires
        time.0 + span.0 <= u64::MAX,
        time.0 + fine.millis() <= u64::MAX,
        time.0 <= later.0,
    ensures
        ({
            let forward = vstd::std_specs::ops::AddSpec::add_spec(time, span);
            vstd::std_specs::ops::SubSpec::sub_spec(forward, span) == time
        }),
        ({
            let forward = vstd::std_specs::ops::AddSpec::add_spec(time, fine);
            vstd::std_specs::ops::SubSpec::sub_spec(forward, fine) == time
        }),
        ({
            let between: Millis = vstd::std_specs::ops::SubSpec::sub_spec(later, time);
            vstd::std_specs::ops::AddSpec::add_spec(time, between) == later
        }),
{
}

/// The sum follows every frame advantage that is replaced.
pub proof fn law_sums_follow_the_window(frames: Seq<Frame>, slot: int, frame: Frame)
    requires
        0 <= slot < frames.len(),
    ensures
        sum(frames.update(slot, frame)) == sum(frames) - frames[slot] + frame,
    decreases frames.len(),
{
    let rest = frames.drop_last();
    if slot < frames.len() - 1 {
        law_sums_follow_the_window(rest, slot, frame);
        assert(frames.update(slot, frame).drop_last() =~= rest.update(slot, frame));
    } else {
        assert(frames.update(slot, frame).drop_last() =~= rest);
    }
}

/// A frame is remembered for forty frames with its advantages, and for ten with its input.
pub proof fn law_frames_are_remembered<T: InputValue>(
    before: TimeSyncView<T>,
    input: FrameInput<T>,
    advantage: Frame,
    radvantage: Frame,
    other: int,
)
    requires
        before.local.len() == 40,
        before.remote.len() == 40,
        before.last_inputs.len() == 10,
        input.frame >= 0,
        other >= 0,
    ensures
        ({
            let after = before.advanced(input, advantage, radvantage);
            &&& after.local.len() == 40 && after.remote.len() == 40 && after.last_inputs.len() == 10
            &&& after.iteration == before.iteration
            &&& after.local[input.frame as int % 40] == advantage
            &&& after.remote[input.frame as int % 40] == radvantage
            &&& after.last_inputs[input.frame as int % 10] == input
            &&& other % 40 != input.frame as int % 40 ==> after.local[other % 40]
                == before.local[other % 40] && after.remote[other % 40] == before.remote[other % 40]
            &&& other % 10 != input.frame as int % 10 ==> after.last_inputs[other % 10]
                == before.last_inputs[other % 10]
        }),
{
}

/// Whoever is not ahead does not wait. Whoever is waits for three to nine frames, and not at
/// all for fewer than three. The last inputs are idle if all ten are the same, frames included.
pub proof fn law_waits_are_worth_it<T: InputValue>(sync: TimeSyncView<T>, sleep_frames: Frame)
    ensures
        wait_for(false, sleep_frames) == 0,
        sleep_frames < 3 ==> wait_for(true, sleep_frames) == 0,
        3 <= sleep_frames <= 9 ==> wait_for(true, sleep_frames) == sleep_frames,
        sleep_frames > 9 ==> wait_for(true, sleep_frames) == 9,
        sync.is_idle() <==> forall|i: int|
            0 <= i < 10 ==> (#[trigger] sync.last_inputs[i]).frame == sync.last_inputs[0].frame
                && sync.last_inputs[i].input.eq_spec(&sync.last_inputs[0].input),
{
}

/// Times are moved by as many milliseconds as the span has, and spans are cut to whole ones.
pub proof fn law_spans_are_whole_milliseconds(
    time: UnixMillis,
    later: UnixMillis,
    span: Millis,
    fine: Nanos,
)
    requires
        time.0 + span.0 <= u64::MAX,
        time.0 + fine.millis() <= u64::MAX,
        fine.0 / 1_000_000 <= u64::MAX,
        time.0 <= later.0,
    ensures
        fine.millis() * 1_000_000 <= fine.0 < (fine.millis() + 1) * 1_000_000,
        vstd::std_specs::ops::AddSpec::add_spec(time, span).0 == time.0 + span.0,
        vstd::std_specs::ops::AddSpec::add_spec(time, fine).0 == time.0 + fine.millis(),
        ({
            let between: Millis = vstd::std_specs::ops::SubSpec::sub_spec(later, time);
            between.0 == later.0 - time.0
        }),
{
}

/// Frame advantages of up to fifty million can be added up over a window, and what is added up
/// is a frame advantage again.
pub proof fn law_usual_advantages_can_be_added_up(frames: Seq<Frame>)
    requires
        frames.len() <= 40,
    ensures
        (forall|i: int|
            0 <= i < frames.len() ==> -50_000_000 <= #[trigger] frames[i] <= 50_000_000)
            ==> is_summable(frames),
        is_summable(frames) ==> i32::MIN <= sum(frames) <= i32::MAX,
{
    assert(frames.take(frames.len() as int) =~= frames);
    if forall|i: int|
        0 <= i < frames.len() ==> -50_000_000 <= #[trigger] frames[i] <= 50_000_000 {
        assert forall|n: int| 0 <= n <= frames.len() implies i32::MIN <= #[trigger] sum(
            frames.take(n),
        ) <= i32::MAX by {
            lemma_sum_bounds(frames.take(n));
        }
    }
}

proof fn lemma_sum_bounds(frames: Seq<Frame>)
    requires
        forall|i: int| 0 <= i < frames.len() ==> -50_000_000 <= #[trigger] frames[i] <= 50_000_000,
    ensures
        -50_000_000 * frames.len() <= sum(frames) <= 50_000_000 * frames.len(),
    decreases frames.len(),
{
    if frames.len() > 0 {
        let rest = frames.drop_last();
        assert(forall|i: int| 0 <= i < rest.len() ==> #[trigger] rest[i] == frames[i]);
        lemma_sum_bounds(rest);
    }
}

} // verus!
