//! When a game runs a session, and when it waits for the others.
use crate::Event;
use vstd::prelude::*;

verus! {

/// Manages when to inject frame stalls to keep in sync with remote players.
#[derive(Debug, Clone, Copy, PartialEq, Eq, Structural)]
pub struct FrameStaller {
    frames_ahead: u8,
    frames_until_stall: u8,
}

/// How many frames are left to stall, and how many pass before the next of them.
pub struct StallerView {
    pub ahead: nat,
    pub wait: nat,
}

/// How many frames pass before a stall. The fewer frames ahead, the more pass: this
/// catches up fast to begin with, and then smooths out small hitches.
pub open spec fn cadence(ahead: nat) -> nat {
    if ahead > 9 {
        1
    } else {
        (11 - ahead) as nat
    }
}

impl StallerView {
    /// A staller that has to stall so many frames.
    pub open spec fn reset(ahead: nat) -> Self {
        StallerView { ahead, wait: cadence(ahead) }
    }

    /// Whether the next frame is a stall.
    pub open spec fn is_due(self) -> bool {
        self.ahead > 0 && self.wait == 0
    }

    /// The staller after one more frame.
    pub open spec fn stepped(self) -> Self {
        if self.ahead == 0 {
            self
        } else if self.wait == 0 {
            Self::reset((self.ahead - 1) as nat)
        } else {
            StallerView { wait: (self.wait - 1) as nat, ..self }
        }
    }

    /// The staller after some more frames.
    pub open spec fn after(self, frames: nat) -> Self
        decreases frames,
    {
        if frames == 0 {
            self
        } else {
            self.after((frames - 1) as nat).stepped()
        }
    }

    /// How many of some more frames are stalls.
    pub open spec fn stalls(self, frames: nat) -> nat
        decreases frames,
    {
        if frames == 0 {
            0
        } else {
            let before = self.stalls((frames - 1) as nat);
            if self.after((frames - 1) as nat).is_due() {
                before + 1
            } else {
                before
            }
        }
    }

    /// How many frames pass until there is nothing left to stall.
    pub open spec fn catch_up_time(self) -> nat
        decreases self.ahead,
    {
        if self.ahead == 0 {
            0
        } else {
            self.wait + 1 + Self::reset((self.ahead - 1) as nat).catch_up_time()
        }
    }
}

impl View for FrameStaller {
    type V = StallerView;

    closed spec fn view(&self) -> StallerView {
        StallerView { ahead: self.frames_ahead as nat, wait: self.frames_until_stall as nat }
    }
}

impl FrameStaller {
    /// A staller that has nothing to stall.
    pub fn new() -> (r: Self)
        ensures
            r@ == (StallerView { ahead: 0, wait: 0 }),
    {
        Self { frames_ahead: 0, frames_until_stall: 0 }
    }

    /// Begins to stall so many frames.
    pub fn reset(&mut self, frames_ahead: u8)
        ensures
            final(self)@ == StallerView::reset(frames_ahead as nat),
    {
        self.frames_ahead = frames_ahead;
        self.frames_until_stall = self.stall_cadence();
    }

    /// Goes on by a frame, and tells whether to stall it.
    pub fn should_stall(&mut self) -> (r: bool)
        ensures
            r == old(self)@.is_due(),
            final(self)@ == old(self)@.stepped(),
    {
        if self.frames_ahead == 0 {
            return false;
        }
        if self.frames_until_stall == 0 {
            self.frames_ahead -= 1;
            self.frames_until_stall = self.stall_cadence();
            true
        } else {
            self.frames_until_stall -= 1;
            false
        }
    }

    fn stall_cadence(&self) -> (r: u8)
        ensures
            r == cadence(self@.ahead),
    {
        if self.frames_ahead > 9 {
            1
        } else {
            11 - self.frames_ahead
        }
    }
}

proof fn lemma_after_step(staller: StallerView, frames: nat)
    ensures
        staller.after(frames + 1) == staller.stepped().after(frames),
        staller.stalls(frames + 1) == staller.stepped().stalls(frames) + (if staller.is_due() {
            1nat
        } else {
            0
        }),
    decreases frames,
{
    reveal_with_fuel(StallerView::after, 2);
    reveal_with_fuel(StallerView::stalls, 2);
    if frames > 0 {
        lemma_after_step(staller, (frames - 1) as nat);
    }
}

/// A staller stalls exactly as many frames as it is ahead, and is done with it when its
/// time to catch up has passed.
pub proof fn law_all_frames_ahead_are_stalled(staller: StallerView)
    ensures
        staller.stalls(staller.catch_up_time()) == staller.ahead,
        staller.after(staller.catch_up_time()).ahead == 0,
    decreases staller.ahead, staller.wait,
{
    if staller.ahead > 0 {
        let next = staller.stepped();
        assert(staller.catch_up_time() == next.catch_up_time() + 1) by {
            reveal_with_fuel(StallerView::catch_up_time, 2);
        }
        law_all_frames_ahead_are_stalled(next);
        lemma_after_step(staller, next.catch_up_time());
    }
}

/// A staller that is done stalls no more.
pub proof fn law_no_stalls_without_frames_ahead(staller: StallerView, frames: nat)
    requires
        staller.ahead == 0,
    ensures
        staller.after(frames) == staller,
        staller.stalls(frames) == 0,
    decreases frames,
{
    if frames > 0 {
        law_no_stalls_without_frames_ahead(staller, (frames - 1) as nat);
    }
}

/// What the run criteria of a stage say.
#[derive(Debug, Clone, Copy, PartialEq, Eq, Structural)]
pub enum ShouldRun {
    Yes,
    No,
    YesAndCheckAgain,
    NoAndCheckAgain,
}

/// What a stage is to do next.
#[derive(Debug, Clone, Copy, PartialEq, Eq, Structural)]
pub enum Action {
    /// Ask the run criteria.
    CheckCriteria,
    /// Look whether there is a session.
    FindSession,
    /// Poll the session, and execute its commands.
    Poll,
    /// Add the inputs of the local players to the session.
    AddInputs,
    /// Advance the session by a frame, and execute its commands.
    Advance,
    /// Nothing more for now.
    Stop,
}

/// What has come of the last thing that a stage was to do.
#[derive(Debug, Clone, Copy, PartialEq, Eq, Structural)]
pub enum Outcome {
    /// What the run criteria say. Where there are none, they say yes.
    Criteria(ShouldRun),
    /// Whether there is a session.
    Session { found: bool },
    /// The session was polled.
    Polled,
    /// Whether the session took the inputs of all local players.
    Inputs { added: bool },
    /// The session was advanced.
    Advanced,
}

/// Decides what a stage does, one thing after the other.
#[derive(Debug, Clone, Copy, PartialEq, Eq, Structural)]
pub struct StageRunner {
    staller: FrameStaller,
    should_run: ShouldRun,
}

/// What a stage goes by.
pub struct RunnerView {
    pub staller: StallerView,
    pub should_run: ShouldRun,
}

impl View for StageRunner {
    type V = RunnerView;

    closed spec fn view(&self) -> RunnerView {
        RunnerView { staller: self.staller@, should_run: self.should_run }
    }
}

impl RunnerView {
    /// What is to be done next.
    pub open spec fn action(self, outcome: Outcome) -> Action {
        match outcome {
            Outcome::Criteria(should_run) => if should_run is No {
                Action::Stop
            } else {
                Action::FindSession
            },
            Outcome::Session { found } => if found {
                Action::Poll
            } else {
                Action::Stop
            },
            Outcome::Polled => if self.staller.is_due() {
                self.next_round()
            } else {
                Action::AddInputs
            },
            Outcome::Inputs { added } => if added {
                Action::Advance
            } else {
                Action::Stop
            },
            Outcome::Advanced => self.next_round(),
        }
    }

    /// What comes after a frame, be it simulated or stalled.
    pub open spec fn next_round(self) -> Action {
        if self.should_run is Yes {
            Action::Stop
        } else {
            Action::CheckCriteria
        }
    }

    /// What the stage goes by afterwards.
    pub open spec fn next(self, outcome: Outcome) -> Self {
        match outcome {
            Outcome::Criteria(should_run) => RunnerView { should_run, ..self },
            Outcome::Polled => RunnerView { staller: self.staller.stepped(), ..self },
            _ => self,
        }
    }
}

impl StageRunner {
    /// A stage that has nothing to stall.
    pub fn new() -> (r: Self)
        ensures
            r@.staller == (StallerView { ahead: 0, wait: 0 }),
            r@.should_run == ShouldRun::Yes,
    {
        Self { staller: FrameStaller::new(), should_run: ShouldRun::Yes }
    }

    /// Decides what is to be done next. A run begins with the run criteria.
    pub fn step(&mut self, outcome: Outcome) -> (r: Action)
        ensures
            r == old(self)@.action(outcome),
            final(self)@ == old(self)@.next(outcome),
    {
        match outcome {
            Outcome::Criteria(should_run) => {
                self.should_run = should_run;
                if let ShouldRun::No = should_run {
                    Action::Stop
                } else {
                    Action::FindSession
                }
            },
            Outcome::Session { found } => if found {
                Action::Poll
            } else {
                Action::Stop
            },
            Outcome::Polled => if self.staller.should_stall() {
                self.next_round()
            } else {
                Action::AddInputs
            },
            Outcome::Inputs { added } => if added {
                Action::Advance
            } else {
                Action::Stop
            },
            Outcome::Advanced => self.next_round(),
        }
    }

    fn next_round(&self) -> (r: Action)
        ensures
            r == self@.next_round(),
    {
        if let ShouldRun::Yes = self.should_run {
            Action::Stop
        } else {
            Action::CheckCriteria
        }
    }

    /// Heeds an event of the session: who is ahead of the others begins to stall.
    pub fn on_event(&mut self, event: &Event)
        ensures
            final(self)@ == (match *event {
                Event::TimeSync { frames_ahead } => RunnerView {
                    staller: StallerView::reset(frames_ahead as nat),
                    ..old(self)@
                },
                _ => old(self)@,
            }),
    {
        if let Event::TimeSync { frames_ahead } = event {
            self.staller.reset(*frames_ahead);
        }
    }
}

/// A stage that is told once to run, with a session and nothing to stall, polls it, adds
/// the inputs and advances it by one frame, and then stops.
pub proof fn law_one_run_is_one_frame(runner: RunnerView)
    requires
        runner.staller.ahead == 0,
    ensures
        ({
            let told = runner.next(Outcome::Criteria(ShouldRun::Yes));
            let polled = told.next(Outcome::Session { found: true }).next(Outcome::Polled);
            &&& runner.action(Outcome::Criteria(ShouldRun::Yes)) == Action::FindSession
            &&& told.action(Outcome::Session { found: true }) == Action::Poll
            &&& told.action(Outcome::Polled) == Action::AddInputs
            &&& polled.action(Outcome::Inputs { added: true }) == Action::Advance
            &&& polled.action(Outcome::Advanced) == Action::Stop
        }),
{
}

/// A frame that is stalled is polled, but takes no inputs and is not advanced: a run that
/// was told once to run stops there.
pub proof fn law_stalled_frames_are_not_advanced(runner: RunnerView, should_run: ShouldRun)
    requires
        runner.staller.is_due(),
        !(should_run is No),
    ensures
        ({
            let told = runner.next(Outcome::Criteria(should_run));
            let found = told.next(Outcome::Session { found: true });
            let action = found.action(Outcome::Polled);
            &&& told.action(Outcome::Session { found: true }) == Action::Poll
            &&& action != Action::AddInputs
            &&& action != Action::Advance
            &&& should_run is Yes ==> action == Action::Stop
            &&& !(should_run is Yes) ==> action == Action::CheckCriteria
            &&& found.next(Outcome::Polled).staller == runner.staller.stepped()
        }),
{
}

/// The first of the frames to stall comes after a while: right after one frame where there
/// are more than nine, and the later the fewer there are. The next one then comes as if there
/// had been one less to begin with.
pub proof fn law_stalls_come_after_a_while(ahead: nat, frames: nat)
    requires
        ahead > 0,
        frames <= (if ahead > 9 {
            1
        } else {
            11 - ahead
        }),
    ensures
        ({
            let begun = StallerView::reset(ahead);
            let pause = if ahead > 9 {
                1
            } else {
                11 - ahead
            };
            &&& begun.after(frames).ahead == ahead
            &&& begun.after(frames).is_due() <==> frames == pause
            &&& frames == pause ==> begun.after(frames + 1) == StallerView::reset(
                (ahead - 1) as nat,
            )
            &&& begun.after(frames).wait == pause - frames
        }),
    decreases frames,
{
    if frames > 0 {
        law_stalls_come_after_a_while(ahead, (frames - 1) as nat);
    }
}

/// A run goes from one thing to the next only if all is well: it stops where it is told not to
/// run, where there is no session, and where the inputs are not taken. It begins anew after a
/// frame, unless it was told to run once.
pub proof fn law_runs_stop_where_something_is_missing(
    runner: RunnerView,
    should_run: ShouldRun,
)
    ensures
        runner.action(Outcome::Criteria(should_run)) == (if should_run == ShouldRun::No {
            Action::Stop
        } else {
            Action::FindSession
        }),
        runner.next(Outcome::Criteria(should_run)).should_run == should_run,
        runner.next(Outcome::Criteria(should_run)).staller == runner.staller,
        runner.action(Outcome::Session { found: true }) == Action::Poll,
        runner.action(Outcome::Session { found: false }) == Action::Stop,
        runner.action(Outcome::Inputs { added: true }) == Action::Advance,
        runner.action(Outcome::Inputs { added: false }) == Action::Stop,
        runner.action(Outcome::Advanced) == (if runner.should_run == ShouldRun::Yes {
            Action::Stop
        } else {
            Action::CheckCriteria
        }),
        runner.staller.ahead == 0 || runner.staller.wait > 0 ==> runner.action(Outcome::Polled)
            == Action::AddInputs,
        runner.staller.ahead > 0 && runner.staller.wait == 0 ==> runner.action(Outcome::Polled)
            != Action::AddInputs,
        forall|outcome: Outcome| #[trigger]
            runner.next(outcome).staller.ahead <= runner.staller.ahead,
        forall|outcome: Outcome|
            !(outcome is Polled) ==> #[trigger] runner.next(outcome).staller == runner.staller,
        runner.next(Outcome::Polled).should_run == runner.should_run,
        runner.staller.ahead > 0 && runner.staller.wait > 0 ==> runner.next(Outcome::Polled).staller
            == (StallerView { wait: (runner.staller.wait - 1) as nat, ..runner.staller }),
        runner.staller.ahead > 0 && runner.staller.wait == 0 ==> runner.next(
            Outcome::Polled,
        ).staller == StallerView::reset((runner.staller.ahead - 1) as nat),
        runner.staller.ahead == 0 ==> runner.next(Outcome::Polled).staller == runner.staller,
{
}

} // verus!
