use timelog::filter_records;
use timelog::fmt_record_for_period;
use timelog::period_range;
use timelog::sort_records;
use timelog::total_duration;
use timelog::Date;
use timelog::Period;
use timelog::Record;

fn d(year: u32, month: u32, day: u32) -> Date {
    Date { year, month, day }
}

fn rec(task: &str, duration_ms: i64, date: Date, project: Option<&str>) -> Record {
    Record {
        task: task.to_string(),
        duration_ms,
        date,
        project: project.map(|p| p.to_string()),
    }
}

#[test]
fn test_period_filtering() {
    let records = vec![
        rec("task1", 3600000, d(2024, 1, 15), None), // Monday
        rec("task2", 1800000, d(2024, 1, 16), None), // Tuesday
        rec("task3", 2700000, d(2024, 1, 17), None), // Wednesday
    ];

    let today = d(2024, 1, 17); // Wednesday

    // This week includes Monday, Tuesday and Wednesday.
    let (start, end) = period_range(Period::ThisWeek, today);
    let filtered = filter_records(&records, start, end, &None);
    assert_eq!(filtered.len(), 3);

    // Today includes only Wednesday.
    let (start, end) = period_range(Period::Today, today);
    let filtered = filter_records(&records, start, end, &None);
    assert_eq!(filtered.len(), 1);
    assert_eq!(filtered[0].task, "task3");
}

#[test]
fn test_project_filtering() {
    let records = vec![
        rec("task1", 3600000, d(2024, 1, 15), Some("project1")),
        rec("task2", 1800000, d(2024, 1, 16), Some("project2")),
        rec("task3", 2700000, d(2024, 1, 17), None),
    ];
    let start = d(2024, 1, 1);
    let end = d(2024, 12, 31);

    // Filter by project1
    let filtered = filter_records(&records, start, end, &Some("project1".to_string()));
    assert_eq!(filtered.len(), 1);
    assert_eq!(filtered[0].task, "task1");

    // Filter by project2
    let filtered = filter_records(&records, start, end, &Some("project2".to_string()));
    assert_eq!(filtered.len(), 1);
    assert_eq!(filtered[0].task, "task2");

    // Records with no project never match a filter.
    let filtered: Vec<&Record> = records.iter().filter(|r| r.project.is_none()).collect();
    assert_eq!(filtered.len(), 1);
    assert_eq!(filtered[0].task, "task3");
}

#[test]
fn test_date_formatting() {
    let date = d(2024, 1, 15);
    let record = rec("test task", 3600000, date, None);

    // Formatting for different periods
    let formatted_today = fmt_record_for_period(&record, Period::Today, date);
    assert!(formatted_today.contains("Today"));

    let formatted_week = fmt_record_for_period(&record, Period::ThisWeek, date);
    assert!(formatted_week.contains("Mon")); // Jan 15, 2024 is a Monday

    let formatted_ytd = fmt_record_for_period(&record, Period::YTD, date);
    assert!(formatted_ytd.contains("2024-01-15"));
}

#[test]
fn record_line_layout() {
    let record = rec("edit", 3661000, d(2024, 1, 15), None);
    let line = fmt_record_for_period(&record, Period::ThisMonth, d(2024, 1, 20));
    assert_eq!(line, "\u{2022} edit               01h01m01s  (01-15)");
}

#[test]
fn sort_orders_by_date_then_task() {
    let records = vec![
        rec("zeta", 1, d(2024, 1, 16), None),
        rec("beta", 2, d(2024, 1, 15), None),
        rec("alpha", 3, d(2024, 1, 16), None),
        rec("alpha", 4, d(2023, 12, 31), None),
    ];
    let sorted = sort_records(&records);
    assert_eq!(sorted.len(), 4);
    assert_eq!((sorted[0].task.as_str(), sorted[0].date), ("alpha", d(2023, 12, 31)));
    assert_eq!((sorted[1].task.as_str(), sorted[1].date), ("beta", d(2024, 1, 15)));
    assert_eq!((sorted[2].task.as_str(), sorted[2].date), ("alpha", d(2024, 1, 16)));
    assert_eq!((sorted[3].task.as_str(), sorted[3].date), ("zeta", d(2024, 1, 16)));
}

#[test]
fn sort_keeps_the_order_of_tied_records() {
    let records = vec![
        rec("same", 2, d(2024, 1, 15), Some("second")),
        rec("same", 1, d(2024, 1, 15), Some("first")),
    ];
    let sorted = sort_records(&records);
    assert_eq!(sorted[0].project, Some("second".to_string()));
    assert_eq!(sorted[1].project, Some("first".to_string()));
}

#[test]
fn total_sums_the_durations() {
    let records = vec![
        rec("a", 3600000, d(2024, 1, 15), None),
        rec("b", 1800000, d(2024, 1, 16), None),
        rec("c", 600000, d(2024, 1, 17), None),
    ];
    assert_eq!(total_duration(&records), 6000000);
    assert_eq!(total_duration(&Vec::new()), 0);
}

#[test]
fn filtering_keeps_store_order() {
    let records = vec![
        rec("late", 1, d(2024, 1, 17), None),
        rec("early", 2, d(2024, 1, 15), None),
        rec("outside", 3, d(2024, 2, 1), None),
    ];
    let filtered = filter_records(&records, d(2024, 1, 1), d(2024, 1, 31), &None);
    assert_eq!(filtered.len(), 2);
    assert_eq!(filtered[0].task, "late");
    assert_eq!(filtered[1].task, "early");
}
