use earl::browser::error::BrowserError;
use earl::browser::steps::{StepDecision, StepOutcome, StepRun};

#[test]
fn successes_are_recorded_in_order() {
    let mut run = StepRun::new(false);
    assert!(matches!(run.advance(false, "navigate", 100, StepOutcome::Succeeded), StepDecision::Record));
    assert!(matches!(run.advance(false, "snapshot", 100, StepOutcome::Succeeded), StepDecision::Record));
    assert_eq!(run.next_step, 2);
    assert_eq!(run.last_result, Some(1));
    assert!(!run.aborted);
}

#[test]
fn optional_failures_are_skipped() {
    let mut run = StepRun::new(true);
    run.advance(false, "navigate", 100, StepOutcome::Succeeded);
    assert!(matches!(
        run.advance(true, "click", 2000, StepOutcome::Failed),
        StepDecision::Skip { timed_out: false }
    ));
    assert!(matches!(
        run.advance(true, "click", 2000, StepOutcome::TimedOut),
        StepDecision::Skip { timed_out: true }
    ));
    run.advance(false, "snapshot", 100, StepOutcome::Succeeded);
    assert_eq!(run.next_step, 4);
    assert_eq!(run.last_result, Some(3));
    assert!(!run.aborted);
}

#[test]
fn required_failure_stops_the_run() {
    let mut run = StepRun::new(true);
    run.advance(false, "navigate", 100, StepOutcome::Succeeded);
    match run.advance(false, "click", 100, StepOutcome::Failed) {
        StepDecision::Abort { screenshot, timeout } => {
            assert!(screenshot);
            assert!(timeout.is_none());
        }
        other => panic!("unexpected: {:?}", other),
    }
    assert!(run.aborted);
    assert_eq!(run.next_step, 1);
    assert_eq!(run.last_result, Some(0));
}

#[test]
fn required_timeout_reports_the_step() {
    let mut run = StepRun::new(false);
    run.advance(true, "reload", 100, StepOutcome::Failed);
    match run.advance(false, "snapshot", 30000, StepOutcome::TimedOut) {
        StepDecision::Abort { screenshot, timeout: Some(BrowserError::Timeout { step, action, timeout_ms }) } => {
            assert!(!screenshot);
            assert_eq!(step, 1);
            assert_eq!(action, "snapshot");
            assert_eq!(timeout_ms, 30000);
        }
        other => panic!("unexpected: {:?}", other),
    }
    assert_eq!(run.last_result, None);
}
