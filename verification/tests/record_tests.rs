use timelog::record_from_fields;
use timelog::record_to_fields;
use timelog::Date;
use timelog::Record;
use timelog::RecordParseError;

fn d(year: u32, month: u32, day: u32) -> Date {
    Date { year, month, day }
}

fn parse_csv(content: &str) -> Vec<Record> {
    let mut rdr = csv::ReaderBuilder::new().flexible(true).from_reader(content.as_bytes());
    let mut records: Vec<Record> = Vec::new();
    for result in rdr.records() {
        let row = result.expect("Unable to read CSV record");
        let fields: Vec<String> = row.iter().map(|f| f.to_string()).collect();
        records.push(record_from_fields(&fields).expect("row should parse"));
    }
    records
}

#[test]
fn test_backwards_compatibility() {
    // Old format CSV (without project column)
    let old_csv_content = "task,duration_ms,date\ntask1,3600000,2024-01-15\ntask2,1800000,2024-01-16";

    let loaded_records = parse_csv(old_csv_content);
    assert_eq!(loaded_records.len(), 2);

    // Records have None for project
    assert_eq!(loaded_records[0].project, None);
    assert_eq!(loaded_records[1].project, None);

    // Other fields
    assert_eq!(loaded_records[0].task, "task1");
    assert_eq!(loaded_records[0].duration_ms, 3600000);
}

#[test]
fn test_record_operations() {
    let record1 = Record {
        task: "task1".to_string(),
        duration_ms: 3600000, // 1 hour
        date: d(2024, 1, 15),
        project: Some("project1".to_string()),
    };

    let record2 = Record {
        task: "task2".to_string(),
        duration_ms: 1800000, // 30 minutes
        date: d(2024, 1, 16),
        project: None,
    };

    // Write both records through the row form and read them back.
    let mut wtr = csv::Writer::from_writer(Vec::new());
    wtr.write_record(["task", "duration_ms", "date", "project"]).expect("header");
    wtr.write_record(&record_to_fields(&record1)).expect("row1");
    wtr.write_record(&record_to_fields(&record2)).expect("row2");
    let bytes = wtr.into_inner().expect("flush");
    let content = String::from_utf8(bytes).expect("utf8");

    let loaded_records = parse_csv(&content);
    assert_eq!(loaded_records.len(), 2);

    // Verify first record
    assert_eq!(loaded_records[0].task, record1.task);
    assert_eq!(loaded_records[0].duration_ms, record1.duration_ms);
    assert_eq!(loaded_records[0].date, record1.date);
    assert_eq!(loaded_records[0].project, record1.project);

    // Verify second record
    assert_eq!(loaded_records[1].task, record2.task);
    assert_eq!(loaded_records[1].duration_ms, record2.duration_ms);
    assert_eq!(loaded_records[1].date, record2.date);
    assert_eq!(loaded_records[1].project, record2.project);
}

#[test]
fn row_round_trip_preserves_every_field() {
    let record = Record {
        task: "task, with comma".to_string(),
        duration_ms: 987654321,
        date: d(2023, 12, 31),
        project: Some("proj x".to_string()),
    };
    let fields = record_to_fields(&record);
    let back = record_from_fields(&fields).expect("round trip");
    assert_eq!(back, record);
}

#[test]
fn empty_fourth_field_reads_as_no_project() {
    let fields = vec![
        "t".to_string(),
        "1000".to_string(),
        "2024-01-15".to_string(),
        "".to_string(),
    ];
    let rec = record_from_fields(&fields).expect("parses");
    assert_eq!(rec.project, None);
}

#[test]
fn extra_fields_beyond_four_are_tolerated() {
    let fields = vec![
        "t".to_string(),
        "1000".to_string(),
        "2024-01-15".to_string(),
        "p".to_string(),
        "junk".to_string(),
    ];
    let rec = record_from_fields(&fields).expect("parses");
    assert_eq!(rec.project, Some("p".to_string()));
}

#[test]
fn row_parse_errors_are_distinct() {
    let too_short = vec!["t".to_string(), "1000".to_string()];
    assert_eq!(record_from_fields(&too_short), Err(RecordParseError::InvalidFieldCount));

    let bad_duration = vec![
        "t".to_string(),
        "12x".to_string(),
        "2024-01-15".to_string(),
    ];
    assert_eq!(record_from_fields(&bad_duration), Err(RecordParseError::InvalidDuration));

    let bad_date = vec![
        "t".to_string(),
        "1000".to_string(),
        "2024-13-01".to_string(),
    ];
    assert_eq!(record_from_fields(&bad_date), Err(RecordParseError::InvalidDate));
}
