use backroll::input::FrameInput;
use backroll::input_value::InputBytes;
use backroll::time_sync::{Millis, Nanos, TimeSync, UnixMillis};
use backroll::{is_null, NetworkStats, Player, MAX_PLAYERS, NULL_FRAME};

fn input(frame: i32, value: u8) -> FrameInput<InputBytes<1>> {
    FrameInput { frame, input: InputBytes([value]) }
}

#[test]
fn times_add_up() {
    let time = UnixMillis::from_millis(1500);
    assert_eq!((time + Millis(500)).as_millis(), 2000);
    assert_eq!(time - Millis(500), UnixMillis::from_millis(1000));
    assert_eq!(UnixMillis::from_millis(2000) - time, Millis(500));
    assert_eq!(UnixMillis::default().as_millis(), 0);
    assert_eq!(Millis::default(), Millis(0));
    assert_eq!(time + Nanos(500_999_999), UnixMillis::from_millis(2000));
    assert_eq!(time - Nanos(500_999_999), UnixMillis::from_millis(1000));
    assert_eq!(Nanos::from_millis(3), Nanos(3_000_000));
    assert_eq!(Nanos(3_999_999).as_millis(), 3);
    assert_eq!(Nanos(18_446_744_073_709_551_616_000_000).as_millis(), 0);
}

#[test]
fn advantages_are_summed_over_a_window() {
    let mut sync: TimeSync<InputBytes<1>> = TimeSync::default();
    assert_eq!(sync.frame_advantages(), Some((0, 0)));
    for frame in 0..100 {
        sync.advance_frame(input(frame, 0), 2, -3);
    }
    assert_eq!(sync.frame_advantages(), Some((80, -120)));
    sync.advance_frame(input(100, 0), 12, 7);
    assert_eq!(sync.frame_advantages(), Some((90, -110)));
}

#[test]
fn a_full_window_tells_the_wait() {
    let mut sync: TimeSync<InputBytes<1>> = TimeSync::default();
    for frame in 7..47 {
        sync.advance_frame(input(frame, 0), 1, 9);
    }
    let (local, remote) = sync.frame_advantages().unwrap();
    assert_eq!((local, remote), (40, 360));
    let half = (remote - local + 40) / 80;
    assert_eq!(sync.recommend_frame_wait_duration(local < remote, half, false), 4);
    assert_eq!(sync.recommend_frame_wait_duration(remote < local, half, false), 0);
}

#[test]
fn advantages_that_cannot_be_summed_are_told() {
    let mut sync: TimeSync<InputBytes<1>> = TimeSync::default();
    sync.advance_frame(input(0, 0), i32::MAX, 0);
    sync.advance_frame(input(1, 0), 1, 0);
    assert_eq!(sync.frame_advantages(), None);
    sync.advance_frame(input(1, 0), -1, i32::MIN);
    assert_eq!(sync.frame_advantages(), Some((i32::MAX - 1, i32::MIN)));
    assert!(sync.can_recommend());
}

#[test]
fn only_whoever_is_ahead_waits() {
    let mut sync: TimeSync<InputBytes<1>> = TimeSync::default();
    assert_eq!(sync.recommend_frame_wait_duration(false, 5, false), 0);
    assert_eq!(sync.recommend_frame_wait_duration(true, 2, false), 0);
    assert_eq!(sync.recommend_frame_wait_duration(true, 3, false), 3);
    assert_eq!(sync.recommend_frame_wait_duration(true, 9, false), 9);
    assert_eq!(sync.recommend_frame_wait_duration(true, 10, false), 9);
}

#[test]
fn only_idle_players_wait_if_that_is_required() {
    let mut sync: TimeSync<InputBytes<1>> = TimeSync::default();
    assert_eq!(sync.recommend_frame_wait_duration(true, 5, true), 5);
    for _ in 0..10 {
        sync.advance_frame(input(0, 1), 0, 0);
    }
    assert_eq!(sync.recommend_frame_wait_duration(true, 5, true), 0);
    assert_eq!(sync.recommend_frame_wait_duration(true, 5, false), 5);
}

#[test]
fn frames_may_be_null() {
    assert!(is_null(NULL_FRAME));
    assert!(is_null(-7));
    assert!(!is_null(0));
    assert_eq!(MAX_PLAYERS, 8);
}

#[test]
fn players_are_local_or_remote() {
    let local: Player<u8> = Player::default();
    assert!(local.is_local());
    assert!(!Player::Remote(3u8).is_local());
    assert_eq!(NetworkStats::default().ping, Millis(0));
    assert_eq!(NetworkStats::default().kbps_sent, 0);
}
