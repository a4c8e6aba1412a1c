//! The task lifecycle state machine. At most one task is tracked at a time:
//! the tracked state exists exactly while a task is in progress, and its one
//! anchor field is read two ways. While the task is active the anchor is the
//! wall-clock instant (epoch milliseconds) counting started from; while it is
//! paused the anchor is the accumulated elapsed time itself, stored as
//! milliseconds since the epoch. Every reader must branch on `active` before
//! interpreting the anchor.
use vstd::prelude::*;

use crate::date::valid_date;
use crate::date::Date;
use crate::records::Record;

verus! {

/// The persisted descriptor of the one in-progress task.
#[derive(Clone, Debug, PartialEq)]
pub struct State {
    /// Active: when counting started. Paused: the accumulated elapsed time,
    /// encoded as that duration past the epoch.
    pub anchor_ms: i64,
    pub task: String,
    pub active: bool,
    pub project: Option<String>,
}

/// Why a lifecycle transition was refused: the tracked state was not in the
/// state the transition needs.
#[derive(Clone, Copy, PartialEq, Eq, Structural, Debug)]
pub enum TransitionError {
    /// Start refused: a task is already in progress.
    AlreadyInProgress,
    /// Pause refused: nothing is tracked.
    NoActiveTask,
    /// Pause refused: the task is already paused.
    AlreadyPaused,
    /// Resume refused: nothing is tracked.
    NoPausedTask,
    /// Resume refused: the task is already running.
    AlreadyActive,
    /// Stop or Status refused: nothing is tracked.
    NoTaskInProgress,
}

/// Subtraction pinned to the i64 range.
pub open spec fn spec_sat_sub_i64(a: int, b: int) -> int {
    if a - b > i64::MAX {
        i64::MAX as int
    } else if a - b < i64::MIN {
        i64::MIN as int
    } else {
        a - b
    }
}

fn sat_sub_i64(a: i64, b: i64) -> (r: i64)
    ensures
        r == spec_sat_sub_i64(a as int, b as int),
{
    match a.checked_sub(b) {
        Some(v) => v,
        None => {
            if b < 0 {
                i64::MAX
            } else {
                i64::MIN
            }
        },
    }
}

/// The elapsed time a state reports at a given instant: time since the anchor
/// while active, the stored accumulation while paused.
pub open spec fn spec_elapsed(st: State, now_ms: int) -> int {
    if st.active {
        spec_sat_sub_i64(now_ms, st.anchor_ms as int)
    } else {
        st.anchor_ms as int
    }
}

pub open spec fn spec_clamp(ms: int) -> int {
    if ms < 0 {
        0
    } else {
        ms
    }
}

/// The state written by pausing: inactive, the anchor now carrying the
/// elapsed time accumulated so far.
pub open spec fn spec_pause_result(st: State, now_ms: int) -> State {
    State {
        anchor_ms: spec_sat_sub_i64(now_ms, st.anchor_ms as int) as i64,
        task: st.task,
        active: false,
        project: st.project,
    }
}

/// The state written by resuming: active again, the anchor moved back by the
/// accumulated time so a later reading reports the correct total.
pub open spec fn spec_resume_result(st: State, now_ms: int) -> State {
    State {
        anchor_ms: spec_sat_sub_i64(now_ms, st.anchor_ms as int) as i64,
        task: st.task,
        active: true,
        project: st.project,
    }
}

/// Starts tracking a task: legal only when nothing is tracked yet.
pub fn start(cur: &Option<State>, task: String, project: Option<String>, now_ms: i64) -> (r: Result<
    State,
    TransitionError,
>)
    ensures
        r == match *cur {
            Some(_) => Err::<State, TransitionError>(TransitionError::AlreadyInProgress),
            None => Ok::<State, TransitionError>(
                State { anchor_ms: now_ms, task: task, active: true, project: project },
            ),
        },
{
    match cur {
        Some(_) => Err(TransitionError::AlreadyInProgress),
        None => Ok(State { anchor_ms: now_ms, task, active: true, project }),
    }
}

fn clone_project(p: &Option<String>) -> (r: Option<String>)
    ensures
        r == *p,
{
    match p {
        Some(s) => Some(s.clone()),
        None => None,
    }
}

/// Pauses the tracked task: legal only while one is tracked and active.
pub fn pause(cur: &Option<State>, now_ms: i64) -> (r: Result<State, TransitionError>)
    ensures
        r == match *cur {
            None => Err::<State, TransitionError>(TransitionError::NoActiveTask),
            Some(st) => if st.active {
                Ok::<State, TransitionError>(spec_pause_result(st, now_ms as int))
            } else {
                Err::<State, TransitionError>(TransitionError::AlreadyPaused)
            },
        },
{
    match cur {
        None => Err(TransitionError::NoActiveTask),
        Some(st) => {
            if st.active {
                Ok(
                    State {
                        anchor_ms: sat_sub_i64(now_ms, st.anchor_ms),
                        task: st.task.clone(),
                        active: false,
                        project: clone_project(&st.project),
                    },
                )
            } else {
                Err(TransitionError::AlreadyPaused)
            }
        },
    }
}

/// Resumes the tracked task: legal only while one is tracked and paused.
pub fn resume(cur: &Option<State>, now_ms: i64) -> (r: Result<State, TransitionError>)
    ensures
        r == match *cur {
            None => Err::<State, TransitionError>(TransitionError::NoPausedTask),
            Some(st) => if st.active {
                Err::<State, TransitionError>(TransitionError::AlreadyActive)
            } else {
                Ok::<State, TransitionError>(spec_resume_result(st, now_ms as int))
            },
        },
{
    match cur {
        None => Err(TransitionError::NoPausedTask),
        Some(st) => {
            if st.active {
                Err(TransitionError::AlreadyActive)
            } else {
                Ok(
                    State {
                        anchor_ms: sat_sub_i64(now_ms, st.anchor_ms),
                        task: st.task.clone(),
                        active: true,
                        project: clone_project(&st.project),
                    },
                )
            }
        },
    }
}

/// Stops the tracked task, active or paused, and builds the completed record
/// to append: the elapsed time (clamped to be non-negative) and today's date.
/// The caller deletes the tracked state and appends the record.
pub fn stop(cur: &Option<State>, now_ms: i64, today: Date) -> (r: Result<Record, TransitionError>)
    requires
        valid_date(today),
    ensures
        r == match *cur {
            None => Err::<Record, TransitionError>(TransitionError::NoTaskInProgress),
            Some(st) => Ok::<Record, TransitionError>(
                Record {
                    task: st.task,
                    duration_ms: spec_clamp(spec_elapsed(st, now_ms as int)) as i64,
                    date: today,
                    project: st.project,
                },
            ),
        },
        r is Ok ==> r.unwrap().duration_ms >= 0,
{
    match cur {
        None => Err(TransitionError::NoTaskInProgress),
        Some(st) => {
            let elapsed = if st.active {
                sat_sub_i64(now_ms, st.anchor_ms)
            } else {
                st.anchor_ms
            };
            let duration_ms = if elapsed < 0 {
                0
            } else {
                elapsed
            };
            Ok(
                Record {
                    task: st.task.clone(),
                    duration_ms,
                    date: today,
                    project: clone_project(&st.project),
                },
            )
        },
    }
}

/// Reads the tracked task without changing it: whether it is active, and the
/// elapsed time it reports now, clamped to be non-negative for display.
pub fn status(cur: &Option<State>, now_ms: i64) -> (r: Result<(bool, i64), TransitionError>)
    ensures
        r == match *cur {
            None => Err::<(bool, i64), TransitionError>(TransitionError::NoTaskInProgress),
            Some(st) => Ok::<(bool, i64), TransitionError>(
                (st.active, spec_clamp(spec_elapsed(st, now_ms as int)) as i64),
            ),
        },
{
    match cur {
        None => Err(TransitionError::NoTaskInProgress),
        Some(st) => {
            let elapsed = if st.active {
                sat_sub_i64(now_ms, st.anchor_ms)
            } else {
                st.anchor_ms
            };
            let shown = if elapsed < 0 {
                0
            } else {
                elapsed
            };
            Ok((st.active, shown))
        },
    }
}

/// Pausing and immediately resuming restores the active state exactly, so
/// every later elapsed-time reading equals what it would have been had no
/// pause occurred.
pub proof fn lemma_pause_resume_roundtrip(st: State, now_ms: int)
    requires
        st.active,
        i64::MIN <= now_ms - st.anchor_ms <= i64::MAX,
        i64::MIN <= now_ms <= i64::MAX,
    ensures
        spec_resume_result(spec_pause_result(st, now_ms), now_ms) == st,
        spec_elapsed(spec_pause_result(st, now_ms), now_ms) == spec_elapsed(st, now_ms),
{
}

/// The encoding's accounting across a whole pause: after pausing at one
/// instant and resuming at a later one, a reading at any later instant shows
/// exactly the uninterrupted elapsed time minus the time spent paused.
pub proof fn lemma_pause_resume_accounting(st: State, t_pause: int, t_resume: int, t_read: int)
    requires
        st.active,
        i64::MIN <= t_pause - st.anchor_ms <= i64::MAX,
        i64::MIN <= t_resume - (t_pause - st.anchor_ms) <= i64::MAX,
        i64::MIN <= t_read - st.anchor_ms <= i64::MAX,
        i64::MIN <= t_read - st.anchor_ms - (t_resume - t_pause) <= i64::MAX,
    ensures
        spec_elapsed(
            spec_resume_result(spec_pause_result(st, t_pause), t_resume),
            t_read,
        ) == spec_elapsed(st, t_read) - (t_resume - t_pause),
{
}

} // verus!
