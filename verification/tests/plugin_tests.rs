use timelog::interpret_plugin_result;
use timelog::plugin_display_name;
use timelog::select_plugin;
use timelog::serialize_request;
use timelog::Date;
use timelog::Period;
use timelog::PluginRunError;
use timelog::PluginSelectError;
use timelog::Record;

fn d(year: u32, month: u32, day: u32) -> Date {
    Date { year, month, day }
}

fn rec(task: &str, duration_ms: i64, date: Date, project: Option<&str>) -> Record {
    Record {
        task: task.to_string(),
        duration_ms,
        date,
        project: project.map(|p| p.to_string()),
    }
}

#[test]
fn test_plugin_input_serialization() {
    let records = vec![rec("task1", 3600000, d(2024, 1, 15), Some("project1"))];

    let config = r#"{"api_key":"test_key","endpoint":"https://example.com"}"#;

    let serialized = serialize_request(&records, Period::Today, config);
    assert!(serialized.contains("task1"));
    assert!(serialized.contains("project1"));
    assert!(serialized.contains("today"));
    assert!(serialized.contains("api_key"));

    // It can be parsed back (by a plugin).
    let parsed: serde_json::Value = serde_json::from_str(&serialized).expect("Failed to parse");
    assert_eq!(parsed["period"], "today");
    assert_eq!(parsed["records"][0]["task"], "task1");
}

#[test]
fn test_plugin_input_structure() {
    let records = vec![
        rec("task1", 3600000, d(2024, 1, 15), Some("project1")),
        rec("task2", 1800000, d(2024, 1, 15), None),
    ];

    let config = r#"{"api_key":"test_key","endpoint":"https://api.example.com"}"#;

    let serialized = serialize_request(&records, Period::Today, config);

    // Verify structure
    let parsed: serde_json::Value = serde_json::from_str(&serialized).expect("Failed to parse");

    assert_eq!(parsed["period"], "today");
    assert_eq!(parsed["records"].as_array().unwrap().len(), 2);
    assert_eq!(parsed["records"][0]["task"], "task1");
    assert_eq!(parsed["records"][0]["project"], "project1");
    assert_eq!(parsed["records"][0]["duration_ms"], 3600000);
    assert_eq!(parsed["records"][0]["date"], "2024-01-15");
    assert_eq!(parsed["records"][1]["task"], "task2");
    assert!(parsed["records"][1]["project"].is_null());
    assert_eq!(parsed["config"]["api_key"], "test_key");
}

#[test]
fn serialized_request_escapes_string_content() {
    let records = vec![rec("say \"hi\"\nthen\tleave \\ now", 1, d(2024, 1, 15), None)];
    let serialized = serialize_request(&records, Period::YTD, "{}");
    let parsed: serde_json::Value = serde_json::from_str(&serialized).expect("Failed to parse");
    assert_eq!(parsed["records"][0]["task"], "say \"hi\"\nthen\tleave \\ now");
    assert_eq!(parsed["period"], "ytd");
}

#[test]
fn plugin_success_response_parses() {
    let stdout = br#"{
    "success": true,
    "message": "Test plugin executed successfully",
    "uploaded_count": 2,
    "errors": []
}"#
        .to_vec();
    let out = interpret_plugin_result(true, Some(0), &stdout, String::new())
        .expect("zero exit with a well-formed body");
    assert!(out.success);
    assert_eq!(out.message, "Test plugin executed successfully");
    assert_eq!(out.uploaded_count, Some(2));
    assert!(out.errors.is_empty());
}

#[test]
fn plugin_reported_failure_still_parses() {
    let stdout = br#"{
    "success": false,
    "message": "Plugin failed intentionally",
    "uploaded_count": null,
    "errors": ["Error 1", "Error 2"]
}"#
        .to_vec();
    let out = interpret_plugin_result(true, Some(0), &stdout, String::new())
        .expect("a reported failure is not a protocol failure");
    assert!(!out.success);
    assert_eq!(out.message, "Plugin failed intentionally");
    assert_eq!(out.uploaded_count, None);
    assert_eq!(out.errors, vec!["Error 1".to_string(), "Error 2".to_string()]);
}

#[test]
fn plugin_nonzero_exit_is_always_a_failure() {
    // Even with a perfectly well-formed body on the output stream.
    let stdout = br#"{"success":true,"message":"ok","uploaded_count":2,"errors":[]}"#.to_vec();
    let r = interpret_plugin_result(false, Some(1), &stdout, "boom".to_string());
    match r {
        Err(PluginRunError::NonZeroExit(code, stderr)) => {
            assert_eq!(code, Some(1));
            assert_eq!(stderr, "boom");
        },
        _ => panic!("expected the exit-code failure"),
    }
}

#[test]
fn plugin_invalid_output_is_malformed() {
    let stdout = b"invalid json output\n".to_vec();
    let r = interpret_plugin_result(true, Some(0), &stdout, String::new());
    assert_eq!(r, Err(PluginRunError::MalformedResponse));
}

#[test]
fn response_grammar_edges() {
    // Keys in another order, an absent uploaded_count, and escapes.
    let ok = br#"  {"message":"a\"b\nc","errors":["x"],"success":true}  "#.to_vec();
    let out = interpret_plugin_result(true, Some(0), &ok, String::new()).expect("parses");
    assert_eq!(out.message, "a\"b\nc");
    assert_eq!(out.uploaded_count, None);
    assert_eq!(out.errors, vec!["x".to_string()]);

    // A missing required key is malformed.
    let missing = br#"{"success":true,"errors":[]}"#.to_vec();
    let r = interpret_plugin_result(true, Some(0), &missing, String::new());
    assert_eq!(r, Err(PluginRunError::MalformedResponse));

    // A duplicated key is malformed.
    let dup = br#"{"success":true,"success":false,"message":"m","errors":[]}"#.to_vec();
    let r = interpret_plugin_result(true, Some(0), &dup, String::new());
    assert_eq!(r, Err(PluginRunError::MalformedResponse));

    // A key outside the contract is malformed.
    let unknown = br#"{"success":true,"message":"m","errors":[],"extra":1}"#.to_vec();
    let r = interpret_plugin_result(true, Some(0), &unknown, String::new());
    assert_eq!(r, Err(PluginRunError::MalformedResponse));

    // A wrongly typed value is malformed.
    let wrong = br#"{"success":"yes","message":"m","errors":[]}"#.to_vec();
    let r = interpret_plugin_result(true, Some(0), &wrong, String::new());
    assert_eq!(r, Err(PluginRunError::MalformedResponse));

    // Trailing content after the object is malformed.
    let trailing = br#"{"success":true,"message":"m","errors":[]} x"#.to_vec();
    let r = interpret_plugin_result(true, Some(0), &trailing, String::new());
    assert_eq!(r, Err(PluginRunError::MalformedResponse));
}

#[test]
fn plugin_selection_rules() {
    let none: Vec<String> = Vec::new();
    let one = vec!["track".to_string()];
    let two = vec!["track".to_string(), "sheet".to_string()];

    // An explicit name always wins.
    assert_eq!(
        select_plugin(Some("mine".to_string()), &two),
        Ok("mine".to_string())
    );
    // A sole plugin is selected automatically.
    assert_eq!(select_plugin(None, &one), Ok("track".to_string()));
    // None registered is a configuration error.
    assert_eq!(select_plugin(None, &none), Err(PluginSelectError::NoPlugins));
    // Several without a name never guesses.
    assert_eq!(select_plugin(None, &two), Err(PluginSelectError::Ambiguous));
}

#[test]
fn plugin_names_come_from_executable_prefixed_files() {
    assert_eq!(
        plugin_display_name("timelog-test1", true),
        Some("test1".to_string())
    );
    assert_eq!(
        plugin_display_name("timelog-withconfig", true),
        Some("withconfig".to_string())
    );
    // The stem drops the extension.
    assert_eq!(plugin_display_name("timelog-foo.sh", true), Some("foo".to_string()));
    // Configuration files are not plugins.
    assert_eq!(plugin_display_name("timelog-test1.json", true), None);
    // Non-executable files are not plugins.
    assert_eq!(plugin_display_name("timelog-notexec", false), None);
    // Files without the prefix are not plugins.
    assert_eq!(plugin_display_name("other-script", true), None);
    assert_eq!(plugin_display_name("README.md", true), None);
}
