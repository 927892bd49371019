use simple_watch::render::{wait_outcome, Phase, RenderLoop, WaitOutcome};
use simple_watch::rows::TermMetrics;
use simple_watch::settings::Settings;

fn term(width: u16) -> TermMetrics {
    TermMetrics { width, height: 50, cursor_row: 0 }
}

#[test]
fn new_loop_captures_first() {
    let l = RenderLoop::new(&Settings { interval_ms: 300 });
    assert_eq!(l.interval_ms, 300);
    assert_eq!(l.phase, Phase::Capture);
    assert!(!l.is_stopped());
}

#[test]
fn two_lines_then_move_up_by_two() {
    let mut l = RenderLoop::new(&Settings { interval_ms: 200 });
    let rows = l.begin_frame(b"a\nb\n", b"", term(80));
    assert_eq!(rows, 2);
    assert_eq!(l.phase, Phase::Wait { rows: 2 });
    assert_eq!(l.end_wait(WaitOutcome::TimedOut), Some(2));
    assert_eq!(l.phase, Phase::Capture);
}

#[test]
fn resize_between_frames_recomputes() {
    let mut line = vec![b'z'; 90];
    line.push(b'\n');
    let mut l = RenderLoop::new(&Settings { interval_ms: 200 });
    assert_eq!(l.begin_frame(&line, b"", term(80)), 2);
    assert_eq!(l.end_wait(WaitOutcome::TimedOut), Some(2));
    assert_eq!(l.begin_frame(&line, b"", term(200)), 1);
    assert_eq!(l.end_wait(WaitOutcome::TimedOut), Some(1));
}

#[test]
fn stop_request_ends_the_loop() {
    let mut l = RenderLoop::new(&Settings { interval_ms: 10_000 });
    l.begin_frame(b"x\n", b"", term(80));
    assert_eq!(l.end_wait(wait_outcome(false)), None);
    assert_eq!(l.phase, Phase::Stopped);
    assert!(l.is_stopped());
}

#[test]
fn loop_runs_on_without_stop_request() {
    let mut l = RenderLoop::new(&Settings { interval_ms: 200 });
    for i in 0..100u64 {
        let out = vec![b'\n'; (i % 7) as usize];
        let rows = l.begin_frame(&out, b"", term(80));
        assert_eq!(rows, i % 7);
        assert_eq!(l.end_wait(wait_outcome(true)), Some((i % 7) as u16));
        assert!(!l.is_stopped());
    }
}

#[test]
fn wait_outcome_follows_flag() {
    assert_eq!(wait_outcome(true), WaitOutcome::TimedOut);
    assert_eq!(wait_outcome(false), WaitOutcome::Cancelled);
}

#[test]
fn move_up_is_capped_at_terminal_limit() {
    let mut l = RenderLoop::new(&Settings { interval_ms: 200 });
    let out = vec![b'\n'; 70_000];
    assert_eq!(l.begin_frame(&out, b"", term(80)), 70_000 + (70_000 - 50));
    assert_eq!(l.end_wait(WaitOutcome::TimedOut), Some(u16::MAX));
}
