use chess_game::random::{get, get_inc, pick, str};
use chess_game::framestats::{FrameStats, RenderLog};
use chess_game::networking::{ClientMessage, ServerMessage};
use chess_game::threading::Channel;
use chess_game::time::{
    delay_state, duration_text, shift, timeit, timeit_mut, DelayState, DurationText, Stopwatch, SystemTimeDelay,
};
use std::time::{Duration, Instant};

#[test]
fn testing() {
    let (mut server, mut client) = Channel::<ServerMessage, ClientMessage>::new_pair();
    assert!(client.send(ClientMessage::Ping).is_ok());
    assert_eq!(server.recv().unwrap(), ClientMessage::Ping);
    assert!(server.try_recv().is_err());
    assert!(server.send(ServerMessage::Pong).is_ok());
    assert_eq!(client.recv_timeout(Duration::from_millis(100)).unwrap(), ServerMessage::Pong);
    drop(client);
    assert!(server.recv().is_err());
    assert_eq!(server.try_iter().count(), 0);
}

#[test]
fn stopwatch_states() {
    let mut s = Stopwatch::new();
    assert!(s.is_stopped() && !s.is_running());
    assert_eq!(s.read(), Duration::from_secs(0));

    s.start();
    assert!(s.is_running());
    s.stop();
    assert!(s.is_stopped());
    let first = s.read();
    s.stop();
    assert_eq!(s.read(), first);

    assert!(Stopwatch::start_new().is_running());
}

#[test]
fn delays() {
    assert_eq!(delay_state(10, 20), DelayState::Running);
    assert_eq!(delay_state(20, 20), DelayState::Done(0));
    assert_eq!(delay_state(35, 20), DelayState::Done(15));

    let d = SystemTimeDelay::new(3_600_000);
    assert_eq!(d.ended(), DelayState::Running);
    let mut d = SystemTimeDelay::custom_timeline(10, 1_000);
    assert!(matches!(d.ended(), DelayState::Done(late) if late >= 990));
    d.restart();
    assert!(matches!(SystemTimeDelay::new(0).ended(), DelayState::Done(_)));
    // A negative offset starts the delay that many milliseconds later.
    assert_eq!(SystemTimeDelay::custom_timeline(10, -3_600_000).ended(), DelayState::Running);
}

#[test]
fn shifted_instants() {
    let now = Instant::now();
    assert_eq!(shift(now, 0), now);
    assert_eq!(shift(now, 1_500), now - Duration::from_millis(1_500));
    // A negative offset moves the instant forward by its size.
    assert_eq!(shift(now, -1_500), now + Duration::from_millis(1_500));
}

#[test]
fn duration_units() {
    assert_eq!(duration_text(0, 999), DurationText::Nanos(999));
    assert_eq!(duration_text(0, 1_000), DurationText::Micros(1_000));
    assert_eq!(duration_text(0, 999_999), DurationText::Micros(999_999));
    assert_eq!(duration_text(0, 1_000_000), DurationText::Millis(1_000_000));
    assert_eq!(duration_text(59, 5), DurationText::Secs(59));
    assert_eq!(duration_text(61, 0), DurationText::MinutesSeconds(1, 1));
    assert_eq!(duration_text(3_600 + 120 + 5, 0), DurationText::HoursMinutes(1, 2));
    assert_eq!(duration_text(3 * 86_400 + 5, 0), DurationText::Days(3));
}

#[test]
fn timing_closures() {
    let (v, _) = timeit(|| 6 * 7);
    assert_eq!(v, 42);
    let mut calls = 0;
    let (v, _) = timeit_mut(|| {
        calls += 1;
        calls
    });
    assert_eq!(v, 1);
}

#[test]
fn frame_stats() {
    let mut f = FrameStats::new();
    assert_eq!(f.frame_time(), Duration::from_secs(0));
    assert_eq!(f.update_time(), Duration::from_secs(0));
    assert_eq!(f.draw_time(), Duration::from_secs(0));
    f.begin_frame();
    f.begin_update();
    f.end_update();
    f.begin_draw();
    f.end_draw();
    f.end_frame();
    assert!(f.frame_time() >= f.draw_time());
    assert_eq!(f.render_log(), RenderLog::new());
    let log = RenderLog { elements: 3, sprites: 1, sprites_not_found: 0, meshes: 2, texts: 1, draw_calls: 4 };
    f.set_render_log(log);
    assert_eq!(f.render_log(), log);
}

#[test]
fn random_draws() {
    for _ in 0..50 {
        let a = get(3, 7);
        assert!((3..7).contains(&a));
        let b = get_inc(3, 4);
        assert!(b == 3 || b == 4);
        assert!([2u8, 5, 9].contains(&pick(&[2u8, 5, 9])));
    }
    assert_eq!(get(5, 5), 5);
    assert_eq!(get_inc(6, 6), 6);
    let s = str(12);
    assert_eq!(s.chars().count(), 12);
    assert!(s.chars().all(|c| c.is_ascii_alphanumeric()));
    let _ = chess_game::random::conflip();
}
