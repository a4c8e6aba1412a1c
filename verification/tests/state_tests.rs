use timelog::pause;
use timelog::resume;
use timelog::start;
use timelog::status;
use timelog::stop;
use timelog::Date;
use timelog::State;
use timelog::TransitionError;

fn d(year: u32, month: u32, day: u32) -> Date {
    Date { year, month, day }
}

#[test]
fn start_creates_an_active_state() {
    let st = start(&None, "compile".to_string(), Some("proj".to_string()), 1_000)
        .expect("start from idle");
    assert_eq!(st.anchor_ms, 1_000);
    assert_eq!(st.task, "compile");
    assert!(st.active);
    assert_eq!(st.project, Some("proj".to_string()));
}

#[test]
fn start_refuses_when_a_task_is_in_progress() {
    let st = start(&None, "a".to_string(), None, 0).expect("start");
    let again = start(&Some(st), "b".to_string(), None, 5);
    assert_eq!(again, Err(TransitionError::AlreadyInProgress));
}

#[test]
fn pause_stores_the_accumulated_time() {
    let st = start(&None, "a".to_string(), None, 1_000).expect("start");
    let paused = pause(&Some(st), 3_500).expect("pause active");
    assert!(!paused.active);
    assert_eq!(paused.anchor_ms, 2_500);
    assert_eq!(paused.task, "a");
}

#[test]
fn pause_refusals() {
    assert_eq!(pause(&None, 10), Err(TransitionError::NoActiveTask));
    let st = start(&None, "a".to_string(), None, 0).expect("start");
    let paused = pause(&Some(st), 10).expect("pause");
    assert_eq!(pause(&Some(paused), 20), Err(TransitionError::AlreadyPaused));
}

#[test]
fn resume_refusals() {
    assert_eq!(resume(&None, 10), Err(TransitionError::NoPausedTask));
    let st = start(&None, "a".to_string(), None, 0).expect("start");
    assert_eq!(resume(&Some(st), 20), Err(TransitionError::AlreadyActive));
}

#[test]
fn pause_then_resume_reproduces_the_elapsed_time() {
    // Start at 1000, pause at 4000 (3000ms accumulated), resume at 9000.
    let st = start(&None, "a".to_string(), None, 1_000).expect("start");
    let paused = pause(&Some(st), 4_000).expect("pause");
    assert_eq!(paused.anchor_ms, 3_000);
    let resumed = resume(&Some(paused), 9_000).expect("resume");
    assert!(resumed.active);
    // At 11000, elapsed is the 3000 before the pause plus 2000 after it.
    let (active, elapsed) = status(&Some(resumed), 11_000).expect("status");
    assert!(active);
    assert_eq!(elapsed, 5_000);
}

#[test]
fn pause_and_immediate_resume_restore_the_anchor() {
    let st = start(&None, "a".to_string(), None, 1_000).expect("start");
    let paused = pause(&Some(st), 6_000).expect("pause");
    let resumed = resume(&Some(paused), 6_000).expect("resume");
    assert_eq!(resumed.anchor_ms, 1_000);
    assert!(resumed.active);
}

#[test]
fn status_reports_and_clamps() {
    let st = start(&None, "a".to_string(), None, 5_000).expect("start");
    let (active, elapsed) = status(&Some(st.clone()), 7_250).expect("status");
    assert!(active);
    assert_eq!(elapsed, 2_250);

    // Clock skew: the clock moved behind the anchor; the display clamps to 0.
    let (_, skewed) = status(&Some(st), 4_000).expect("status");
    assert_eq!(skewed, 0);

    assert_eq!(status(&None, 0), Err(TransitionError::NoTaskInProgress));
}

#[test]
fn stop_builds_the_completed_record() {
    let today = d(2024, 1, 15);
    let st = start(&None, "a".to_string(), Some("p".to_string()), 1_000).expect("start");
    let rec = stop(&Some(st), 4_000, today).expect("stop active");
    assert_eq!(rec.task, "a");
    assert_eq!(rec.duration_ms, 3_000);
    assert_eq!(rec.date, today);
    assert_eq!(rec.project, Some("p".to_string()));

    assert_eq!(stop(&None, 0, today), Err(TransitionError::NoTaskInProgress));
}

#[test]
fn stop_of_a_paused_task_uses_the_stored_time() {
    let today = d(2024, 1, 15);
    let st = start(&None, "a".to_string(), None, 1_000).expect("start");
    let paused = pause(&Some(st), 2_500).expect("pause");
    // The wall clock keeps moving; the paused time does not.
    let rec = stop(&Some(paused), 99_000, today).expect("stop paused");
    assert_eq!(rec.duration_ms, 1_500);
}

#[test]
fn stop_never_persists_a_negative_duration() {
    let today = d(2024, 1, 15);
    let st = State { anchor_ms: 10_000, task: "a".to_string(), active: true, project: None };
    let rec = stop(&Some(st), 4_000, today).expect("stop");
    assert_eq!(rec.duration_ms, 0);
}
