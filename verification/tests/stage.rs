use backroll::id::{NetworkId, NetworkIdProvider};
use backroll::stage::{Action, FrameStaller, Outcome, ShouldRun, StageRunner};
use backroll::transport::Peer;
use backroll::Event;

fn stalls(staller: &mut FrameStaller, frames: usize) -> Vec<usize> {
    (0..frames).filter(|_| staller.should_stall()).collect()
}

#[test]
fn a_new_staller_does_not_stall() {
    assert!(stalls(&mut FrameStaller::new(), 100).is_empty());
}

#[test]
fn stalls_become_rarer() {
    let mut staller = FrameStaller::new();
    staller.reset(3);
    assert_eq!(stalls(&mut staller, 100), vec![8, 18, 29]);
    staller.reset(12);
    assert_eq!(stalls(&mut staller, 9), vec![1, 3, 5, 8]);
}

#[test]
fn all_frames_ahead_are_stalled() {
    for ahead in 0..=255u8 {
        let mut staller = FrameStaller::new();
        staller.reset(ahead);
        assert_eq!(stalls(&mut staller, 2000).len(), ahead as usize);
    }
}

#[test]
fn a_run_is_one_frame() {
    let mut runner = StageRunner::new();
    assert_eq!(runner.step(Outcome::Criteria(ShouldRun::Yes)), Action::FindSession);
    assert_eq!(runner.step(Outcome::Session { found: true }), Action::Poll);
    assert_eq!(runner.step(Outcome::Polled), Action::AddInputs);
    assert_eq!(runner.step(Outcome::Inputs { added: true }), Action::Advance);
    assert_eq!(runner.step(Outcome::Advanced), Action::Stop);
}

#[test]
fn a_run_goes_on_while_it_is_to_check_again() {
    let mut runner = StageRunner::new();
    runner.step(Outcome::Criteria(ShouldRun::YesAndCheckAgain));
    assert_eq!(runner.step(Outcome::Advanced), Action::CheckCriteria);
    assert_eq!(runner.step(Outcome::Criteria(ShouldRun::NoAndCheckAgain)), Action::FindSession);
    assert_eq!(runner.step(Outcome::Advanced), Action::CheckCriteria);
    assert_eq!(runner.step(Outcome::Criteria(ShouldRun::No)), Action::Stop);
}

#[test]
fn a_run_stops_without_a_session_or_inputs() {
    let mut runner = StageRunner::new();
    assert_eq!(runner.step(Outcome::Session { found: false }), Action::Stop);
    assert_eq!(runner.step(Outcome::Inputs { added: false }), Action::Stop);
}

#[test]
fn a_stage_that_is_ahead_stalls() {
    let mut runner = StageRunner::new();
    runner.on_event(&Event::Running);
    assert_eq!(runner.step(Outcome::Polled), Action::AddInputs);
    runner.on_event(&Event::TimeSync { frames_ahead: 10 });
    assert_eq!(runner.step(Outcome::Polled), Action::AddInputs);
    assert_eq!(runner.step(Outcome::Polled), Action::Stop);
    assert_eq!(runner.step(Outcome::Polled), Action::AddInputs);
}

#[test]
fn a_stalled_run_checks_again_where_it_is_to() {
    let mut runner = StageRunner::new();
    runner.on_event(&Event::TimeSync { frames_ahead: 10 });
    runner.step(Outcome::Criteria(ShouldRun::YesAndCheckAgain));
    assert_eq!(runner.step(Outcome::Polled), Action::AddInputs);
    assert_eq!(runner.step(Outcome::Polled), Action::CheckCriteria);
}

#[test]
fn every_run_of_a_stage_that_is_ahead_ends() {
    let mut runner = StageRunner::new();
    runner.on_event(&Event::TimeSync { frames_ahead: 10 });
    let mut advanced: Vec<bool> = Vec::new();
    for _ in 0..5 {
        assert_eq!(runner.step(Outcome::Criteria(ShouldRun::Yes)), Action::FindSession);
        assert_eq!(runner.step(Outcome::Session { found: true }), Action::Poll);
        match runner.step(Outcome::Polled) {
            Action::Stop => advanced.push(false),
            Action::AddInputs => {
                assert_eq!(runner.step(Outcome::Inputs { added: true }), Action::Advance);
                assert_eq!(runner.step(Outcome::Advanced), Action::Stop);
                advanced.push(true);
            }
            other => panic!("{:?}", other),
        }
    }
    assert_eq!(advanced, vec![true, false, true, true, false]);
}

#[test]
fn ids_are_unique_and_repeatable() {
    let mut provider = NetworkIdProvider::new();
    assert!(provider.has_next());
    assert_eq!(provider.new_id(), NetworkId(0));
    let mut saved = provider.clone();
    let ids: Vec<NetworkId> = (0..5).map(|_| provider.new_id()).collect();
    let again: Vec<NetworkId> = (0..5).map(|_| saved.new_id()).collect();
    assert_eq!(ids, again);
    assert_eq!(ids[4], NetworkId(5));
}

#[test]
fn the_ends_of_a_connection_are_crossed() {
    let (a, b) = Peer::create_pair(("send a", "recv a"), ("send b", "recv b"));
    assert_eq!((a.incoming, a.outgoing), ("recv a", "send b"));
    assert_eq!((b.incoming, b.outgoing), ("recv b", "send a"));
}
