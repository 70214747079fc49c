use salt_compressor::{
    cleanup_input_data, filter_groups, get_compressed, get_results, parse_value, read_report, FailureTable,
    Filter, JsonValue, MinionResult, ReportError, ResultError, Retcode, Suppression,
};

fn s(v: &str) -> JsonValue {
    JsonValue::String(v.to_string())
}

fn obj(members: Vec<(&str, JsonValue)>) -> JsonValue {
    JsonValue::Object(members.into_iter().map(|(k, v)| (k.to_string(), v)).collect())
}

fn state(comment: &str, changes: JsonValue) -> JsonValue {
    obj(vec![("comment", s(comment)), ("changes", changes)])
}

fn host_with(retcode: u64, ret: JsonValue) -> JsonValue {
    obj(vec![("retcode", JsonValue::Number(Some(retcode))), ("ret", ret)])
}

fn record(host: &str, command: Option<&str>, retcode: Retcode, result: Option<&str>, output: Option<&str>) -> MinionResult {
    MinionResult {
        command: command.map(|c| c.to_string()),
        retcode,
        output: output.map(|o| o.to_string()),
        result: result.map(|r| r.to_string()),
        host: host.to_string(),
    }
}

fn open_filter() -> Filter {
    Filter { command: None, failed: false, output: None, result: None, succeeded: false, unchanged: false }
}

fn error_of(value: JsonValue) -> ResultError {
    match get_results(&value, &FailureTable::new()) {
        Ok(r) => panic!("unexpected records: {:?}", r),
        Err(e) => e,
    }
}

#[test]
fn empty_object_gives_no_records() {
    let value = parse_value("{}").unwrap();
    assert_eq!(get_results(&value, &FailureTable::new()).unwrap(), Vec::<MinionResult>::new());
}

#[test]
fn bool_result_is_stringified() {
    let value = parse_value(r#"{"minionA": {"retcode": 0, "ret": true}}"#).unwrap();
    let got = get_results(&value, &FailureTable::new()).unwrap();
    assert_eq!(got, vec![record("minionA", None, Retcode::Success, Some("true"), None)]);
}

#[test]
fn silent_host_becomes_failed_record() {
    let raw = "Minion web1 did not respond. No job will be sent.\n{\"m1\": {\"retcode\": 0, \"ret\": \"done\"}}\n";
    let (text, table) = cleanup_input_data(raw.to_string());
    assert_eq!(table.len(), 1);
    let (host, reason) = table.entry(0);
    assert_eq!(host.as_str(), "web1");
    assert_eq!(reason.as_str(), "Minion did not respond. No job will be sent.");
    let got = read_report(text.as_str(), &table).unwrap();
    assert_eq!(
        got,
        vec![
            record("m1", None, Retcode::Success, Some("done"), None),
            record("web1", None, Retcode::Failure, None, Some("Minion did not respond. No job will be sent.")),
        ]
    );
}

#[test]
fn identical_states_collapse() {
    let value = parse_value(
        r#"{"m1": {"retcode": 0, "ret": {"state.x": {"comment": "ok", "changes": {}}}},
            "m2": {"retcode": 0, "ret": {"state.x": {"comment": "ok", "changes": {}}}}}"#,
    )
    .unwrap();
    let groups = get_compressed(get_results(&value, &FailureTable::new()).unwrap());
    assert_eq!(groups.len(), 1);
    assert_eq!(groups[0].0, record("", Some("state.x"), Retcode::Success, Some("ok"), None));
    assert_eq!(groups[0].1, vec!["m1".to_string(), "m2".to_string()]);
}

#[test]
fn unchanged_filter_hides_group() {
    let value = obj(vec![
        ("m1", host_with(0, obj(vec![("state.x", state("ok", obj(vec![])))]))),
        ("m2", host_with(0, obj(vec![("state.x", state("ok", obj(vec![])))]))),
    ]);
    let groups = get_compressed(get_results(&value, &FailureTable::new()).unwrap());
    let mut filter = open_filter();
    filter.unchanged = true;
    let report = filter_groups(&groups, &filter);
    assert_eq!(report.verdicts, vec![Some(Suppression::Unchanged)]);
    assert_eq!(report.filtered_unchanged, 1);
    assert!(report.succeeded_hosts.is_empty());
}

#[test]
fn non_string_array_item_is_fatal() {
    let value = parse_value(r#"{"m1": {"retcode": 1, "ret": [1, "x"]}}"#).unwrap();
    assert_eq!(error_of(value), ResultError::ArrayElementNotString);
}

#[test]
fn grouping_keeps_every_host() {
    let records = vec![
        record("a", Some("c1"), Retcode::Success, None, None),
        record("b", Some("c2"), Retcode::Success, None, None),
        record("c", Some("c1"), Retcode::Success, None, None),
        record("a", Some("c2"), Retcode::Failure, None, None),
    ];
    let groups = get_compressed(records);
    let mut hosts: Vec<String> = groups.iter().flat_map(|g| g.1.clone()).collect();
    hosts.sort();
    assert_eq!(hosts, vec!["a", "a", "b", "c"]);
    assert_eq!(groups.len(), 3);
    assert_eq!(groups[0].1, vec!["a".to_string(), "c".to_string()]);
    assert_eq!(groups[1].1, vec!["b".to_string()]);
    assert_eq!(groups[2].1, vec!["a".to_string()]);
}

#[test]
fn records_differing_in_host_share_group() {
    let records = vec![
        record("x", Some("c"), Retcode::Failure, Some("msg"), Some("-a\n+b")),
        record("y", Some("c"), Retcode::Failure, Some("msg"), Some("-a\n+b")),
        record("z", Some("c"), Retcode::Failure, Some("msg"), Some("-a\n+c")),
    ];
    let groups = get_compressed(records);
    assert_eq!(groups.len(), 2);
    assert_eq!(groups[0].1, vec!["x".to_string(), "y".to_string()]);
    assert_eq!(groups[1].1, vec!["z".to_string()]);
}

#[test]
fn sanitizing_twice_changes_nothing() {
    let raw = "Minion a did not respond. No job will be sent.\n\
               minion b was already deleted from tracker, probably a duplicate key\n\
               ERROR: No return received\n{\"m\": \"x\"}";
    let (once, table) = cleanup_input_data(raw.to_string());
    assert_eq!(once, "\n\n\n{\"m\": \"x\"}");
    assert_eq!(table.len(), 3);
    let (twice, table2) = cleanup_input_data(once.clone());
    assert_eq!(twice, once);
    assert_eq!(table2.len(), 0);
}

#[test]
fn later_reason_replaces_earlier() {
    let raw = "Minion h did not respond. No job will be sent.\n\
               minion h was already deleted from tracker, probably a duplicate key and more\n{}";
    let (text, table) = cleanup_input_data(raw.to_string());
    assert_eq!(text, "\n and more\n{}");
    assert_eq!(table.len(), 1);
    let (host, reason) = table.entry(0);
    assert_eq!(host.as_str(), "h");
    assert_eq!(reason.as_str(), "Minion was already deleted from tracker, probably a duplicate key.");
}

#[test]
fn no_return_marker_is_removed() {
    let (text, table) = cleanup_input_data("a ERROR: No return received b".to_string());
    assert_eq!(text, "a  b");
    let (host, reason) = table.entry(0);
    assert_eq!(host.as_str(), "*");
    assert_eq!(reason.as_str(), "ERROR: No return received.");
}

#[test]
fn near_diagnostics_are_kept() {
    let raw = "Minion a b did not respond. No job will be sent.\n  Minion a did not respond. No job will be sent.";
    let (text, table) = cleanup_input_data(raw.to_string());
    assert_eq!(text, raw);
    assert_eq!(table.len(), 0);
}

#[test]
fn open_filter_shows_everything() {
    let groups = get_compressed(vec![
        record("a", Some("c"), Retcode::Success, Some("r"), None),
        record("b", None, Retcode::Failure, None, Some("diff")),
    ]);
    let report = filter_groups(&groups, &open_filter());
    assert_eq!(report.verdicts, vec![None, None]);
    assert!(report.filtered_command.is_empty());
    assert!(report.filtered_result.is_empty());
    assert!(report.filtered_output.is_empty());
    assert!(report.filtered_failed.is_empty());
    assert!(report.filtered_succeeded.is_empty());
    assert_eq!(report.filtered_unchanged, 0);
    assert_eq!(report.succeeded_hosts, vec!["a".to_string()]);
    assert_eq!(report.failed_hosts, vec!["b".to_string()]);
}

#[test]
fn first_reason_counts_once() {
    let groups = get_compressed(vec![
        record("a", Some("other"), Retcode::Failure, None, None),
        record("b", Some("other"), Retcode::Failure, None, None),
    ]);
    let mut filter = open_filter();
    filter.succeeded = true;
    filter.command = Some(regex::Regex::new("^state").unwrap());
    let report = filter_groups(&groups, &filter);
    assert_eq!(report.verdicts, vec![Some(Suppression::NotSucceeded)]);
    assert_eq!(report.filtered_failed, vec!["a".to_string(), "b".to_string()]);
    assert!(report.filtered_command.is_empty());
}

#[test]
fn command_pattern_filters() {
    let groups = get_compressed(vec![
        record("a", Some("state.x"), Retcode::Success, None, None),
        record("b", Some("other"), Retcode::Success, None, None),
        record("c", None, Retcode::Success, None, None),
    ]);
    let mut filter = open_filter();
    filter.command = Some(regex::Regex::new("^state").unwrap());
    let report = filter_groups(&groups, &filter);
    assert_eq!(report.verdicts, vec![None, Some(Suppression::Command), None]);
    assert_eq!(report.filtered_command, vec!["b".to_string()]);
    assert_eq!(report.succeeded_hosts, vec!["a".to_string(), "c".to_string()]);
}

#[test]
fn result_and_output_patterns_filter() {
    let groups = get_compressed(vec![
        record("a", None, Retcode::Failure, Some("fine"), None),
        record("b", None, Retcode::Failure, None, Some("+added")),
    ]);
    let mut filter = open_filter();
    filter.result = Some(regex::Regex::new("bad").unwrap());
    filter.output = Some(regex::Regex::new("removed").unwrap());
    let report = filter_groups(&groups, &filter);
    assert_eq!(report.verdicts, vec![Some(Suppression::Result), Some(Suppression::Output)]);
    assert_eq!(report.filtered_result, vec!["a".to_string()]);
    assert_eq!(report.filtered_output, vec!["b".to_string()]);
}

#[test]
fn failed_only_hides_successes() {
    let groups = get_compressed(vec![
        record("a", None, Retcode::Success, None, None),
        record("b", None, Retcode::Failure, None, None),
        record("a", Some("c"), Retcode::Success, None, None),
    ]);
    let mut filter = open_filter();
    filter.failed = true;
    let report = filter_groups(&groups, &filter);
    assert_eq!(report.verdicts, vec![Some(Suppression::Succeeded), None, Some(Suppression::Succeeded)]);
    assert_eq!(report.filtered_succeeded, vec!["a".to_string()]);
    assert_eq!(report.failed_hosts, vec!["b".to_string()]);
}

#[test]
fn commands_become_records() {
    let value = obj(vec![(
        "m",
        host_with(
            2,
            obj(vec![
                ("s1", state("c1", obj(vec![("diff", s("-x\n+y"))]))),
                ("s2", obj(vec![])),
            ]),
        ),
    )]);
    let got = get_results(&value, &FailureTable::new()).unwrap();
    assert_eq!(
        got,
        vec![
            record("m", Some("s1"), Retcode::Failure, Some("c1"), Some("-x\n+y")),
            record("m", Some("s2"), Retcode::Failure, None, None),
        ]
    );
}

#[test]
fn empty_command_map_gives_status_record() {
    let value = obj(vec![("m", host_with(0, obj(vec![])))]);
    let got = get_results(&value, &FailureTable::new()).unwrap();
    assert_eq!(got, vec![record("m", None, Retcode::Success, None, None)]);
}

#[test]
fn each_error_kind() {
    assert_eq!(error_of(JsonValue::Array(vec![])), ResultError::ValueNotAnObject);
    assert_eq!(error_of(obj(vec![("m", obj(vec![("retcode", s("0"))]))])), ResultError::ReturnCodeNotNumber);
    assert_eq!(
        error_of(obj(vec![("m", obj(vec![("retcode", JsonValue::Number(None))]))])),
        ResultError::ReturnCodeNotNumber
    );
    assert_eq!(error_of(obj(vec![("m", host_with(0, JsonValue::Null))])), ResultError::RetValueIsNull);
    assert_eq!(error_of(obj(vec![("m", host_with(0, JsonValue::Number(Some(3))))])), ResultError::RetValueIsNumber);
    assert_eq!(
        error_of(obj(vec![("m", host_with(0, obj(vec![("s", obj(vec![("comment", JsonValue::Bool(true))]))])))])),
        ResultError::ConvertValueToString
    );
    assert_eq!(
        error_of(obj(vec![("m", host_with(0, obj(vec![("s", obj(vec![("changes", obj(vec![("diff", JsonValue::Null)]))]))])))])),
        ResultError::ConvertDiffToString
    );
    assert_eq!(ResultError::RetValueIsNull.message(), "ret value is null");
}

#[test]
fn invalid_json_is_reported() {
    let got = read_report("{not json", &FailureTable::new());
    assert_eq!(got, Err(ReportError::NotJson));
    assert!(parse_value("{not json").is_none());
    let got = read_report("[]", &FailureTable::new());
    assert_eq!(got, Err(ReportError::Results(ResultError::ValueNotAnObject)));
}

#[test]
fn parsed_numbers_keep_unsigned_value() {
    let value = parse_value(r#"{"a": 5, "b": -1, "c": 1.5, "d": [null, "t"]}"#).unwrap();
    assert_eq!(
        value,
        obj(vec![
            ("a", JsonValue::Number(Some(5))),
            ("b", JsonValue::Number(None)),
            ("c", JsonValue::Number(None)),
            ("d", JsonValue::Array(vec![JsonValue::Null, s("t")])),
        ])
    );
}

#[test]
fn missing_retcode_is_failure() {
    let value = obj(vec![("m", obj(vec![("ret", s("out"))]))]);
    let got = get_results(&value, &FailureTable::new()).unwrap();
    assert_eq!(got, vec![record("m", None, Retcode::Failure, Some("out"), None)]);
}
