use epd_rs::interface::{reset_sequence, IdleAction, IdleWait, ResetStep};
use epd_rs::DisplayError;

#[test]
fn reset_pulses_the_line() {
    assert_eq!(
        reset_sequence(),
        vec![ResetStep::Low, ResetStep::DelayMs(10), ResetStep::High, ResetStep::DelayMs(10)]
    );
}

/// Runs a wait against the given busy line readings (true: high, not busy);
/// returns reads, total delay and outcome.
fn wait(highs: &[bool]) -> (usize, u32, Result<(), DisplayError>) {
    let mut w = IdleWait::new();
    let mut reads = 0;
    let mut delayed = 0;
    let mut action = IdleAction::ReadBusy;
    loop {
        action = match action {
            IdleAction::ReadBusy => {
                let high = highs[reads];
                reads += 1;
                w.after_read(high)
            }
            IdleAction::DelayMs(ms) => {
                delayed += ms;
                w.after_delay()
            }
            IdleAction::Finish(r) => return (reads, delayed, r),
        }
    }
}

#[test]
fn idle_at_once() {
    assert_eq!(wait(&[true]), (1, 0, Ok(())));
}

#[test]
fn idle_at_third_read() {
    // busy (low), busy (low), then idle (high)
    assert_eq!(wait(&[false, false, true, true]), (3, 1000, Ok(())));
}

#[test]
fn idle_at_fourth_read() {
    assert_eq!(wait(&[false, false, false, true]), (4, 1500, Ok(())));
}

#[test]
fn never_idle_gives_rs_error() {
    assert_eq!(wait(&[false; 6]), (4, 2000, Err(DisplayError::RSError)));
}
