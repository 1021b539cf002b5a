//! What a client comes to that executes the commands of a session.
use crate::command::CommandView;
use crate::input_value::InputValue;
use crate::sync::{SavedFrame, SavedView, SyncView, SAVED_FRAMES};
use crate::NULL_FRAME;
use vstd::prelude::*;

verus! {

/// What a frame is simulated with.
pub struct FrameView<I> {
    pub disconnected: u8,
    pub inputs: Seq<I>,
}

/// The state that a game comes to from its start by simulating frames.
pub open spec fn simulated<I, S>(
    start: S,
    step: spec_fn(S, FrameView<I>) -> S,
    frames: Seq<FrameView<I>>,
) -> S
    decreases frames.len(),
{
    if frames.len() == 0 {
        start
    } else {
        step(simulated(start, step, frames.drop_last()), frames.last())
    }
}

/// A client: the state of its game, and the states that it has saved for the session.
pub struct ClientView<S> {
    pub state: S,
    pub saved: SavedView<S>,
}

impl<S> ClientView<S> {
    /// The client after it executed a command.
    pub open spec fn done<I>(
        self,
        step: spec_fn(S, FrameView<I>) -> S,
        command: CommandView<I>,
    ) -> Self {
        match command {
            CommandView::Save { slot, .. } => Self {
                saved: SavedView {
                    cells: self.saved.cells.update(
                        slot,
                        SavedFrame {
                            frame: self.saved.cells[slot].frame,
                            data: Some(Box::new(self.state)),
                            checksum: None,
                        },
                    ),
                    ..self.saved
                },
                ..self
            },
            CommandView::Load { slot } => Self { state: *self.saved.cells[slot].data->0, ..self },
            CommandView::AdvanceFrame { disconnected, inputs, .. } => Self {
                state: step(self.state, FrameView { disconnected, inputs }),
                ..self
            },
            CommandView::Event(_) => self,
        }
    }

    /// The client after it executed commands in their order.
    pub open spec fn all_done<I>(
        self,
        step: spec_fn(S, FrameView<I>) -> S,
        commands: Seq<CommandView<I>>,
    ) -> Self
        decreases commands.len(),
    {
        if commands.len() == 0 {
            self
        } else {
            self.all_done(step, commands.drop_last()).done(step, commands.last())
        }
    }

    proof fn lemma_all_done_joins<I>(
        self,
        step: spec_fn(S, FrameView<I>) -> S,
        a: Seq<CommandView<I>>,
        b: Seq<CommandView<I>>,
    )
        ensures
            self.all_done(step, a + b) == self.all_done(step, a).all_done(step, b),
        decreases b.len(),
    {
        if b.len() == 0 {
            assert(a + b =~= a);
        } else {
            self.lemma_all_done_joins(step, a, b.drop_last());
            assert((a + b).drop_last() =~= a + b.drop_last());
        }
    }
}

impl<S> SavedView<S> {
    /// The frames of the slots.
    pub open spec fn labels(self) -> Seq<int> {
        Seq::new(self.cells.len(), |i: int| self.cells[i].frame as int)
    }
}

/// How many slots were written after a slot was, where `head` is written next.
pub open spec fn age(head: int, slot: int) -> int {
    (head - 1 - slot) % SAVED_FRAMES as int
}

/// The frames that a slot may have at the age that it has.
pub open spec fn is_label(label: int, age: int, frame_count: int) -> bool {
    if age < frame_count {
        label == frame_count - age
    } else if age == frame_count {
        label == 0
    } else {
        label == 0 || label == NULL_FRAME
    }
}

/// Whether the slots belong to the latest frames, one after the other.
///
/// The first frame may have two slots, the first ones of the buffer: it gets another one
/// when it is simulated again.
pub open spec fn is_lined_up(labels: Seq<int>, head: int, frame_count: int) -> bool {
    &&& labels.len() == SAVED_FRAMES
    &&& 0 <= head < SAVED_FRAMES
    &&& frame_count >= 0
    &&& frame_count == 0 ==> head == 0
    &&& forall|i: int|
        0 <= i < SAVED_FRAMES ==> if frame_count == 0 {
            #[trigger] labels[i] == NULL_FRAME
        } else {
            is_label(labels[i], age(head, i), frame_count)
        }
    &&& forall|i: int| 1 < i < SAVED_FRAMES ==> #[trigger] labels[i] != 0
    &&& frame_count < SAVED_FRAMES - 1 && labels[1] == 0 ==> labels[0] == 0
}

proof fn lemma_first_frame_lines_up(labels: Seq<int>)
    requires
        is_lined_up(labels, 0, 0),
    ensures
        is_lined_up(labels.update(0, 0).update(1, 1), 2, 1),
{
}

proof fn lemma_frames_line_up(labels: Seq<int>, head: int, frame_count: int)
    requires
        is_lined_up(labels, head, frame_count),
        frame_count > 0,
    ensures
        is_lined_up(
            labels.update(head, frame_count + 1),
            (head + 1) % SAVED_FRAMES as int,
            frame_count + 1,
        ),
{
    let after = labels.update(head, frame_count + 1);
    let next = (head + 1) % 10;
    assert forall|i: int| 0 <= i < 10 implies is_label(
        #[trigger] after[i],
        age(next, i),
        frame_count + 1,
    ) by {
        if i != head {
            assert(is_label(labels[i], age(head, i), frame_count));
            assert(age(next, i) == age(head, i) + 1);
        } else {
            assert(age(next, i) == 0);
        }
    }
    assert forall|i: int| 1 < i < 10 implies #[trigger] after[i] != 0 by {
        assert(labels[i] != 0);
    }
    if frame_count + 1 < 9 && after[1] == 0 {
        let first = (head - 1 - frame_count) % 10;
        assert(age(head, first) == frame_count);
        assert(is_label(labels[first], age(head, first), frame_count));
        assert(first <= 1);
    }
}

impl<I: InputValue, S> SyncView<I, S> {
    /// What the next frame is simulated with.
    pub open spec fn next_frame(self) -> FrameView<I> {
        FrameView {
            disconnected: self.gone_mask(self.queues.len()),
            inputs: self.next_inputs(),
        }
    }

    /// What some more frames are simulated with.
    pub open spec fn next_frames(self, count: nat) -> Seq<FrameView<I>> {
        Seq::new(count, |i: int| self.replayed(i as nat).next_frame())
    }

    /// Whether a client with this state has come to where the session is by simulating
    /// `frames`, and every slot holds the state that it had at the frame of the slot.
    pub open spec fn is_in_step(
        self,
        state: S,
        start: S,
        step: spec_fn(S, FrameView<I>) -> S,
        frames: Seq<FrameView<I>>,
    ) -> bool {
        &&& is_lined_up(self.saved.labels(), self.saved.head, self.frame_count)
        &&& self.frame_count <= i32::MAX
        &&& frames.len() == self.frame_count
        &&& state == simulated(start, step, frames)
        &&& forall|i: int|
            0 <= i < SAVED_FRAMES && (#[trigger] self.saved.cells[i]).frame >= 0
                ==> self.saved.cells[i].data == Some(
                Box::new(simulated(start, step, frames.take(self.saved.cells[i].frame as int))),
            )
    }
}

/// A client is in step with a new session before its first frame.
pub proof fn law_client_begins_in_step<I: InputValue, S>(
    session: SyncView<I, S>,
    start: S,
    step: spec_fn(S, FrameView<I>) -> S,
)
    requires
        session.frame_count == 0,
        session.saved.head == 0,
        session.saved.cells == Seq::new(
            SAVED_FRAMES as nat,
            |i: int| SavedFrame::<S> { frame: NULL_FRAME, data: None, checksum: None },
        ),
    ensures
        session.is_in_step(start, start, step, Seq::empty()),
{
}

/// What changes neither the states nor the frame of a session leaves its client in step.
pub proof fn law_client_stays_in_step<I: InputValue, S>(
    session: SyncView<I, S>,
    other: SyncView<I, S>,
    state: S,
    start: S,
    step: spec_fn(S, FrameView<I>) -> S,
    frames: Seq<FrameView<I>>,
)
    requires
        session.is_in_step(state, start, step, frames),
        other.saved == session.saved,
        other.frame_count == session.frame_count,
    ensures
        other.is_in_step(state, start, step, frames),
{
}

/// A client that executes the commands of a frame stays in step: it has simulated one frame
/// more, with the inputs that the session had for it.
pub proof fn law_frames_keep_client_in_step<I: InputValue, S>(
    session: SyncView<I, S>,
    state: S,
    start: S,
    step: spec_fn(S, FrameView<I>) -> S,
    frames: Seq<FrameView<I>>,
)
    requires
        session.is_in_step(state, start, step, frames),
        session.frame_count < i32::MAX,
    ensures
        ({
            let after = session.incremented();
            let client = (ClientView { state, saved: after.saved }).all_done(
                step,
                session.increment_commands(),
            );
            (SyncView { saved: client.saved, ..after }).is_in_step(
                client.state,
                start,
                step,
                frames.push(session.next_frame()),
            )
        }),
{
    let after = session.incremented();
    let before = ClientView { state, saved: after.saved };
    let commands = session.increment_commands();
    let client = before.all_done(step, commands);
    let next = SyncView { saved: client.saved, ..after };
    let more = frames.push(session.next_frame());
    let head = session.saved.head;
    let fc = session.frame_count;
    reveal_with_fuel(ClientView::all_done, 4);
    assert(more.drop_last() =~= frames);
    assert(more.take(more.len() as int) =~= more);
    assert forall|f: int| 0 <= f <= fc implies #[trigger] more.take(f) =~= frames.take(f) by {}
    if fc == 0 {
        assert(commands.len() == 3);
        assert(frames.take(0) =~= frames);
        lemma_first_frame_lines_up(session.saved.labels());
        assert(next.saved.labels() =~= session.saved.labels().update(0, 0).update(1, 1));
    } else {
        assert(commands.len() == 2);
        lemma_frames_line_up(session.saved.labels(), head, fc);
        assert(next.saved.labels() =~= session.saved.labels().update(head, fc + 1));
    }
    assert(client.state == simulated(start, step, more));
    assert forall|i: int|
        0 <= i < SAVED_FRAMES && (#[trigger] next.saved.cells[i]).frame
            >= 0 implies next.saved.cells[i].data == Some(
        Box::new(simulated(start, step, more.take(next.saved.cells[i].frame as int))),
    ) by {
        let f = next.saved.cells[i].frame as int;
        if f <= fc {
            assert(more.take(f) == frames.take(f));
            if fc > 0 {
                assert(i != head);
                assert(next.saved.cells[i] == session.saved.cells[i]);
                assert(session.saved.labels()[i] == f);
            } else {
                assert(session.saved.labels()[i] == NULL_FRAME);
                assert(i == 0);
            }
        } else {
            assert(next.saved.labels()[i] == f);
            assert(is_label(f, age(next.saved.head, i), fc + 1));
            assert(age(next.saved.head, i) == 0);
            assert(i == (if fc > 0 { head } else { 1 }));
        }
    }
}

/// How many slots are written while some frames are simulated again from `seek_to` on. The
/// first frame of all is saved once more.
spec fn writes(seek_to: int, frames: int) -> int {
    if frames == 0 {
        0
    } else if seek_to == 0 {
        frames + 1
    } else {
        frames
    }
}

/// How many slots lie between two slots, going forward.
spec fn gap(from: int, to: int) -> int {
    (to - from) % SAVED_FRAMES as int
}

/// The frame of the slot that is written as the `n`th.
spec fn written(seek_to: int, n: int) -> int {
    if seek_to == 0 {
        n - 1
    } else {
        seek_to + n
    }
}

/// The buffer after some slots were written behind the one that was loaded.
spec fn rewritten<S>(saved: SavedView<S>, loaded: int, seek_to: int, count: int) -> SavedView<S> {
    SavedView {
        head: (loaded + 1 + count) % SAVED_FRAMES as int,
        cells: Seq::new(
            SAVED_FRAMES as nat,
            |i: int|
                if 1 <= gap(loaded, i) <= count {
                    SavedFrame {
                        frame: written(seek_to, gap(loaded, i)) as i32,
                        data: None,
                        checksum: None,
                    }
                } else {
                    saved.cells[i]
                },
        ),
    }
}

proof fn lemma_rewritten<S>(saved: SavedView<S>, loaded: int, seek_to: int, count: int)
    requires
        0 <= loaded < SAVED_FRAMES,
        0 <= count < SAVED_FRAMES - 1,
    ensures
        rewritten(saved, loaded, seek_to, count).pushed(written(seek_to, count + 1)) == rewritten(
            saved,
            loaded,
            seek_to,
            count + 1,
        ),
{
    let before = rewritten(saved, loaded, seek_to, count);
    let pushed = before.pushed(written(seek_to, count + 1));
    let after = rewritten(saved, loaded, seek_to, count + 1);
    let head = before.head;
    assert(gap(loaded, head) == count + 1);
    assert forall|i: int| 0 <= i < 10 implies #[trigger] pushed.cells[i] == after.cells[i] by {
        if i != head {
            assert(gap(loaded, i) != count + 1);
        }
    }
    assert(pushed.cells =~= after.cells);
}

/// The slots after the one that was loaded are written one after the other.
proof fn lemma_replay_writes<I: InputValue, S>(session: SyncView<I, S>, loaded: int, frames: nat)
    requires
        session.saved.cells.len() == SAVED_FRAMES,
        0 <= loaded < SAVED_FRAMES,
        session.saved.head == (loaded + 1) % SAVED_FRAMES as int,
        0 <= session.frame_count,
        writes(session.frame_count, frames as int) < SAVED_FRAMES,
    ensures
        session.replayed(frames).frame_count == session.frame_count + frames,
        session.replayed(frames).saved == rewritten(
            session.saved,
            loaded,
            session.frame_count,
            writes(session.frame_count, frames as int),
        ),
    decreases frames,
{
    let seek_to = session.frame_count;
    if frames == 0 {
        assert(session.saved.cells =~= rewritten(session.saved, loaded, seek_to, 0).cells);
    } else {
        lemma_replay_writes(session, loaded, (frames - 1) as nat);
        let before = writes(seek_to, frames - 1);
        lemma_rewritten(session.saved, loaded, seek_to, before);
        if seek_to == 0 && frames == 1 {
            lemma_rewritten(session.saved, loaded, seek_to, before + 1);
        }
    }
}

/// The buffer after the client filled some of the slots that were written.
spec fn filled<I, S>(
    saved: SavedView<S>,
    loaded: int,
    seek_to: int,
    count: int,
    start: S,
    step: spec_fn(S, FrameView<I>) -> S,
    frames: Seq<FrameView<I>>,
) -> SavedView<S> {
    SavedView {
        head: saved.head,
        cells: Seq::new(
            SAVED_FRAMES as nat,
            |i: int|
                if 1 <= gap(loaded, i) <= count {
                    SavedFrame {
                        frame: saved.cells[i].frame,
                        data: Some(
                            Box::new(
                                simulated(
                                    start,
                                    step,
                                    frames.take(written(seek_to, gap(loaded, i))),
                                ),
                            ),
                        ),
                        checksum: None,
                    }
                } else {
                    saved.cells[i]
                },
        ),
    }
}

proof fn lemma_filled<I, S>(
    saved: SavedView<S>,
    loaded: int,
    seek_to: int,
    count: int,
    start: S,
    step: spec_fn(S, FrameView<I>) -> S,
    frames: Seq<FrameView<I>>,
    frame: int,
)
    requires
        0 <= loaded < SAVED_FRAMES,
        0 <= count < SAVED_FRAMES - 1,
    ensures
        ({
            let before = ClientView {
                state: simulated(start, step, frames.take(written(seek_to, count + 1))),
                saved: filled(saved, loaded, seek_to, count, start, step, frames),
            };
            let slot = (loaded + 1 + count) % SAVED_FRAMES as int;
            before.done(step, CommandView::Save { slot, frame }) == (ClientView {
                saved: filled(saved, loaded, seek_to, count + 1, start, step, frames),
                ..before
            })
        }),
{
    let before = ClientView {
        state: simulated(start, step, frames.take(written(seek_to, count + 1))),
        saved: filled(saved, loaded, seek_to, count, start, step, frames),
    };
    let slot = (loaded + 1 + count) % 10;
    let done = before.done(step, CommandView::<I>::Save { slot, frame });
    let after = filled(saved, loaded, seek_to, count + 1, start, step, frames);
    assert(gap(loaded, slot) == count + 1);
    assert forall|i: int| 0 <= i < 10 implies #[trigger] done.saved.cells[i]
        == after.cells[i] by {
        if i != slot {
            assert(gap(loaded, i) != count + 1);
        }
    }
    assert(done.saved.cells =~= after.cells);
}

/// The client fills the slots that were written, one after the other, and comes to the
/// state behind the frames that it simulates.
proof fn lemma_replay_done<I: InputValue, S>(
    session: SyncView<I, S>,
    loaded: int,
    done: nat,
    client: ClientView<S>,
    start: S,
    step: spec_fn(S, FrameView<I>) -> S,
    frames: Seq<FrameView<I>>,
)
    requires
        session.saved.cells.len() == SAVED_FRAMES,
        0 <= loaded < SAVED_FRAMES,
        session.saved.head == (loaded + 1) % SAVED_FRAMES as int,
        0 <= session.frame_count,
        session.frame_count + done <= frames.len(),
        writes(session.frame_count, done as int) < SAVED_FRAMES,
        client.saved.cells.len() == SAVED_FRAMES,
        client.state == simulated(start, step, frames.take(session.frame_count)),
        forall|i: int|
            0 <= i < done ==> #[trigger] frames[session.frame_count + i] == session.replayed(
                i as nat,
            ).next_frame(),
    ensures
        client.all_done(step, session.replay_commands(done)) == (ClientView {
            state: simulated(start, step, frames.take(session.frame_count + done)),
            saved: filled(
                client.saved,
                loaded,
                session.frame_count,
                writes(session.frame_count, done as int),
                start,
                step,
                frames,
            ),
        }),
    decreases done,
{
    let seek_to = session.frame_count;
    if done == 0 {
        assert(client.saved.cells =~= filled(
            client.saved,
            loaded,
            seek_to,
            0,
            start,
            step,
            frames,
        ).cells);
    } else {
        let prev = (done - 1) as nat;
        lemma_replay_done(session, loaded, prev, client, start, step, frames);
        lemma_replay_writes(session, loaded, prev);
        let now = session.replayed(prev);
        let commands = now.increment_commands();
        let halfway = client.all_done(step, session.replay_commands(prev));
        client.lemma_all_done_joins(step, session.replay_commands(prev), commands);
        reveal_with_fuel(ClientView::all_done, 4);
        let count = writes(seek_to, prev as int);
        let f = seek_to + prev;
        assert(frames[f] == now.next_frame());
        assert(frames.take(f + 1).drop_last() =~= frames.take(f));
        if f == 0 {
            assert(commands.len() == 3);
            assert(commands[0] == now.save_command());
            assert(commands[1] == now.advance_command());
            lemma_filled(client.saved, loaded, seek_to, 0, start, step, frames, 0);
            lemma_filled(client.saved, loaded, seek_to, 1, start, step, frames, 1);
        } else {
            assert(commands.len() == 2);
            assert(commands[0] == now.advance_command());
            lemma_filled(client.saved, loaded, seek_to, count, start, step, frames, f + 1);
        }
    }
}

/// The frames of the slots after those behind the loaded one were written.
spec fn relabelled(labels: Seq<int>, loaded: int, seek_to: int, count: int) -> Seq<int> {
    Seq::new(
        SAVED_FRAMES as nat,
        |i: int|
            if 1 <= gap(loaded, i) <= count {
                written(seek_to, gap(loaded, i))
            } else {
                labels[i]
            },
    )
}

/// The loaded slot is as old as its frame; the one of the first frame may be one older.
proof fn lemma_loaded_age(labels: Seq<int>, head: int, frame_count: int, seek_to: int, loaded: int)
    requires
        is_lined_up(labels, head, frame_count),
        0 <= seek_to < frame_count,
        0 <= loaded < SAVED_FRAMES,
        labels[loaded] == seek_to,
        forall|i: int| 0 <= i < loaded ==> #[trigger] labels[i] != seek_to,
        seek_to == 0 ==> frame_count != SAVED_FRAMES - 1,
    ensures
        writes(seek_to, frame_count - seek_to) < SAVED_FRAMES,
        seek_to > 0 ==> age(head, loaded) == frame_count - seek_to,
        seek_to == 0 ==> loaded == 0,
        seek_to == 0 ==> frame_count <= age(head, loaded) <= frame_count + 1,
{
    assert(is_label(labels[loaded], age(head, loaded), frame_count));
    if seek_to == 0 {
        assert(age(head, loaded) >= frame_count);
        let first = (head - 1 - frame_count) % 10;
        assert(age(head, first) == frame_count);
        assert(is_label(labels[first], age(head, first), frame_count));
        assert(labels[first] == 0);
        assert(first <= 1);
        assert(labels[0] == 0);
    }
}

/// Where one comes to by going round the buffer at most once.
proof fn lemma_round(n: int)
    requires
        -(SAVED_FRAMES as int) <= n < 2 * SAVED_FRAMES,
    ensures
        n % SAVED_FRAMES as int == (if n < 0 {
            n + SAVED_FRAMES
        } else if n < SAVED_FRAMES {
            n
        } else {
            n - SAVED_FRAMES
        }),
{
}

/// Ages and gaps go round the buffer together.
proof fn lemma_ages_and_gaps(head: int, loaded: int, count: int, slot: int)
    requires
        0 <= head < SAVED_FRAMES,
        0 <= loaded < SAVED_FRAMES,
        0 <= slot < SAVED_FRAMES,
        0 <= count < SAVED_FRAMES,
    ensures
        age((loaded + 1 + count) % SAVED_FRAMES as int, slot) == (if gap(loaded, slot) <= count {
            count - gap(loaded, slot)
        } else {
            count - gap(loaded, slot) + SAVED_FRAMES
        }),
        age(head, slot) == (if gap(loaded, slot) <= age(head, loaded) {
            age(head, loaded) - gap(loaded, slot)
        } else {
            age(head, loaded) - gap(loaded, slot) + SAVED_FRAMES
        }),
        gap(loaded, slot) == 0 <==> slot == loaded,
        0 <= gap(loaded, slot) < SAVED_FRAMES,
{
    lemma_round(slot - loaded);
    lemma_round(head - 1 - slot);
    lemma_round(head - 1 - loaded);
    lemma_round(loaded + 1 + count);
    lemma_round((loaded + 1 + count) % 10 - 1 - slot);
}

proof fn lemma_slot_lines_up(
    labels: Seq<int>,
    head: int,
    frame_count: int,
    seek_to: int,
    loaded: int,
    slot: int,
)
    requires
        is_lined_up(labels, head, frame_count),
        0 <= seek_to < frame_count,
        0 <= loaded < SAVED_FRAMES,
        0 <= slot < SAVED_FRAMES,
        labels[loaded] == seek_to,
        writes(seek_to, frame_count - seek_to) < SAVED_FRAMES,
        seek_to > 0 ==> age(head, loaded) == frame_count - seek_to,
        seek_to == 0 ==> frame_count <= age(head, loaded) <= frame_count + 1,
    ensures
        ({
            let count = writes(seek_to, frame_count - seek_to);
            let label = relabelled(labels, loaded, seek_to, count)[slot];
            let next = (loaded + 1 + count) % SAVED_FRAMES as int;
            &&& is_label(label, age(next, slot), frame_count)
            &&& !(1 <= gap(loaded, slot) <= count) ==> labels[slot] <= seek_to
            &&& 1 <= gap(loaded, slot) <= count && seek_to > 0 ==> labels[slot] > 0
        }),
{
    let count = writes(seek_to, frame_count - seek_to);
    lemma_ages_and_gaps(head, loaded, count, slot);
    assert(is_label(labels[slot], age(head, slot), frame_count));
}

proof fn lemma_rollback_lines_up(
    labels: Seq<int>,
    head: int,
    frame_count: int,
    seek_to: int,
    loaded: int,
)
    requires
        is_lined_up(labels, head, frame_count),
        0 <= seek_to < frame_count,
        0 <= loaded < SAVED_FRAMES,
        labels[loaded] == seek_to,
        forall|i: int| 0 <= i < loaded ==> #[trigger] labels[i] != seek_to,
        seek_to == 0 ==> frame_count != SAVED_FRAMES - 1,
    ensures
        ({
            let count = writes(seek_to, frame_count - seek_to);
            &&& is_lined_up(
                relabelled(labels, loaded, seek_to, count),
                (loaded + 1 + count) % SAVED_FRAMES as int,
                frame_count,
            )
            &&& forall|i: int|
                0 <= i < SAVED_FRAMES && !(1 <= gap(loaded, i) <= count) ==> #[trigger] labels[i]
                    <= seek_to
        }),
{
    lemma_loaded_age(labels, head, frame_count, seek_to, loaded);
    let count = writes(seek_to, frame_count - seek_to);
    let after = relabelled(labels, loaded, seek_to, count);
    let next = (loaded + 1 + count) % 10;
    assert forall|i: int| 0 <= i < 10 implies is_label(
        #[trigger] after[i],
        age(next, i),
        frame_count,
    ) by {
        lemma_slot_lines_up(labels, head, frame_count, seek_to, loaded, i);
    }
    assert forall|i: int|
        0 <= i < 10 && !(1 <= gap(loaded, i) <= count) implies #[trigger] labels[i] <= seek_to by {
        lemma_slot_lines_up(labels, head, frame_count, seek_to, loaded, i);
    }
    assert forall|i: int| 1 < i < 10 implies #[trigger] after[i] != 0 by {
        assert(labels[i] != 0);
        lemma_ages_and_gaps(head, loaded, count, i);
    }
    if frame_count < 9 && after[1] == 0 {
        lemma_slot_lines_up(labels, head, frame_count, seek_to, loaded, 0);
        lemma_ages_and_gaps(head, loaded, count, 0);
    }
}

/// A client that executes the commands of a rollback comes to the state that it would have
/// come to if it had simulated the frames from `seek_to` on with the inputs that are known
/// by now, and every slot holds the state that it would have had.
///
/// A buffer of `SAVED_FRAMES` slots is too small to go back to the first frame over all of
/// them, since the state of that frame is saved once more.
pub proof fn law_rollback_corrects_client<I: InputValue, S>(
    session: SyncView<I, S>,
    state: S,
    start: S,
    step: spec_fn(S, FrameView<I>) -> S,
    frames: Seq<FrameView<I>>,
    seek_to: int,
)
    requires
        session.is_in_step(state, start, step, frames),
        session.can_adjust(seek_to),
        0 <= seek_to < session.frame_count,
        seek_to == 0 ==> session.frame_count != SAVED_FRAMES - 1,
    ensures
        ({
            let after = session.adjusted(seek_to);
            let client = (ClientView { state, saved: after.saved }).all_done(
                step,
                session.adjust_commands(seek_to),
            );
            let again = session.loaded(seek_to).reset().next_frames(
                (session.frame_count - seek_to) as nat,
            );
            (SyncView { saved: client.saved, ..after }).is_in_step(
                client.state,
                start,
                step,
                frames.take(seek_to) + again,
            )
        }),
{
    let fc = session.frame_count;
    let count = (fc - seek_to) as nat;
    let loaded = session.saved.lemma_has_slot(seek_to);
    session.saved.lemma_slot_of(seek_to, loaded);
    let labels = session.saved.labels();
    let head = session.saved.head;
    assert(labels[loaded] == seek_to);
    assert forall|i: int| 0 <= i < loaded implies #[trigger] labels[i] != seek_to by {
        assert(session.saved.cells[i].frame != seek_to);
    }
    lemma_loaded_age(labels, head, fc, seek_to, loaded);
    lemma_rollback_lines_up(labels, head, fc, seek_to, loaded);
    let begin = session.loaded(seek_to).reset();
    let written_count = writes(seek_to, count as int);
    lemma_replay_writes(begin, loaded, count);
    let after = session.adjusted(seek_to);
    let before = ClientView { state, saved: after.saved };
    let all = frames.take(seek_to) + begin.next_frames(count);
    let load = session.load_commands(seek_to);
    before.lemma_all_done_joins(step, load, begin.replay_commands(count));
    reveal_with_fuel(ClientView::all_done, 2);
    let begun = before.all_done(step, load);
    assert(gap(loaded, loaded) == 0);
    assert(begun == (ClientView {
        state: simulated(start, step, frames.take(seek_to)),
        ..before
    }));
    assert(all.take(seek_to) =~= frames.take(seek_to));
    lemma_replay_done(begin, loaded, count, begun, start, step, all);
    let client = before.all_done(step, session.adjust_commands(seek_to));
    let next = SyncView { saved: client.saved, ..after };
    assert(all.take(fc) =~= all);
    assert(next.saved.labels() =~= relabelled(labels, loaded, seek_to, written_count));
    assert forall|i: int|
        0 <= i < SAVED_FRAMES && (#[trigger] next.saved.cells[i]).frame
            >= 0 implies next.saved.cells[i].data == Some(
        Box::new(simulated(start, step, all.take(next.saved.cells[i].frame as int))),
    ) by {
        let f = next.saved.cells[i].frame as int;
        if !(1 <= gap(loaded, i) <= written_count) {
            assert(labels[i] <= seek_to);
            assert(next.saved.cells[i] == session.saved.cells[i]);
            assert(all.take(f) =~= frames.take(f));
        }
    }
}

} // verus!
