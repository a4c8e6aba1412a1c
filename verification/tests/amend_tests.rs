use timelog::amend;
use timelog::contains_substring;
use timelog::AmendChanges;
use timelog::AmendError;
use timelog::Date;
use timelog::Record;

fn d(year: u32, month: u32, day: u32) -> Date {
    Date { year, month, day }
}

fn rec(task: &str, duration_ms: i64, date: Date, project: Option<&str>) -> Record {
    Record {
        task: task.to_string(),
        duration_ms,
        date,
        project: project.map(|p| p.to_string()),
    }
}

fn changes(
    new_task: Option<&str>,
    new_duration_min: Option<i64>,
    new_project: Option<&str>,
) -> AmendChanges {
    AmendChanges {
        new_task: new_task.map(|t| t.to_string()),
        new_duration_min,
        new_project: new_project.map(|p| p.to_string()),
    }
}

#[test]
fn test_amend_no_matching_record() {
    let records: Vec<Record> = Vec::new();
    let r = amend(&records, d(2025, 8, 10), "nonexistent", &changes(Some("changed"), None, None));
    assert!(matches!(r, Err(AmendError::NotFound)));
}

#[test]
fn amend_with_zero_matches_mutates_nothing() {
    let records = vec![rec("other work", 1000, d(2025, 8, 10), None)];
    let r = amend(&records, d(2025, 8, 10), "missing", &changes(Some("x"), None, None));
    assert!(matches!(r, Err(AmendError::NotFound)));
    // A date mismatch is also no match, even when the task pattern occurs.
    let r = amend(&records, d(2025, 8, 11), "other", &changes(Some("x"), None, None));
    assert!(matches!(r, Err(AmendError::NotFound)));
    assert_eq!(records[0].task, "other work");
}

#[test]
fn amend_with_two_matches_is_ambiguous() {
    let records = vec![
        rec("write report", 1000, d(2025, 8, 10), None),
        rec("report review", 2000, d(2025, 8, 10), None),
        rec("unrelated", 3000, d(2025, 8, 10), None),
    ];
    let r = amend(&records, d(2025, 8, 10), "report", &changes(Some("x"), None, None));
    match r {
        Err(AmendError::Ambiguous(cands)) => {
            assert_eq!(cands.len(), 2);
            assert_eq!(cands[0].task, "write report");
            assert_eq!(cands[1].task, "report review");
        },
        _ => panic!("expected an ambiguity error"),
    }
}

#[test]
fn amend_duration_of_thirty_minutes_persists_1800000() {
    let records = vec![
        rec("test task", 123, d(2025, 8, 10), None),
        rec("elsewhere", 456, d(2025, 8, 9), None),
    ];
    let out = amend(&records, d(2025, 8, 10), "test", &changes(None, Some(30), None))
        .expect("one match");
    assert_eq!(out.index, 0);
    assert_eq!(out.old.duration_ms, 123);
    assert_eq!(out.new.duration_ms, 1_800_000);
    assert_eq!(out.new.task, "test task");
    assert_eq!(out.updated.len(), 2);
    assert_eq!(out.updated[0].duration_ms, 1_800_000);
    assert_eq!(out.updated[1].duration_ms, 456);
}

#[test]
fn amend_rejects_a_non_positive_duration() {
    let records = vec![rec("test task", 123, d(2025, 8, 10), None)];
    let r = amend(&records, d(2025, 8, 10), "test", &changes(None, Some(0), None));
    assert!(matches!(r, Err(AmendError::InvalidDuration)));
    let r = amend(&records, d(2025, 8, 10), "test", &changes(None, Some(-5), None));
    assert!(matches!(r, Err(AmendError::InvalidDuration)));
}

#[test]
fn amend_rejects_no_changes() {
    let records = vec![rec("test task", 123, d(2025, 8, 10), None)];
    let r = amend(&records, d(2025, 8, 10), "test", &changes(None, None, None));
    assert!(matches!(r, Err(AmendError::NoChanges)));
}

#[test]
fn amend_empty_project_clears_it() {
    let records = vec![rec("test task", 123, d(2025, 8, 10), Some("someproj"))];
    let out = amend(&records, d(2025, 8, 10), "test", &changes(None, None, Some("")))
        .expect("one match");
    assert_eq!(out.old.project, Some("someproj".to_string()));
    assert_eq!(out.new.project, None);
}

#[test]
fn amend_applies_only_the_supplied_fields() {
    let records = vec![rec("original task", 99, d(2025, 8, 10), Some("oldproj"))];
    let out = amend(
        &records,
        d(2025, 8, 10),
        "original",
        &changes(Some("updated task"), Some(60), Some("newproj")),
    )
        .expect("one match");
    assert_eq!(out.new.task, "updated task");
    assert_eq!(out.new.duration_ms, 3_600_000);
    assert_eq!(out.new.project, Some("newproj".to_string()));
    assert_eq!(out.new.date, d(2025, 8, 10));

    // An unsupplied field stays untouched.
    let out = amend(&records, d(2025, 8, 10), "original", &changes(Some("renamed"), None, None))
        .expect("one match");
    assert_eq!(out.new.duration_ms, 99);
    assert_eq!(out.new.project, Some("oldproj".to_string()));
}

#[test]
fn substring_match_is_case_sensitive() {
    assert!(contains_substring("Fix the build", "build"));
    assert!(!contains_substring("Fix the build", "Build"));
    assert!(contains_substring("anything", ""));
    assert!(!contains_substring("", "x"));
    assert!(contains_substring("abc", "abc"));
    assert!(!contains_substring("abc", "abcd"));
}
