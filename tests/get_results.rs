use salt_compressor::{cleanup_input_data, get_results, parse_value, FailureTable, JsonValue, MinionResult, Retcode};

fn text(s: &str) -> JsonValue {
    JsonValue::String(s.to_string())
}

fn object(members: Vec<(&str, JsonValue)>) -> JsonValue {
    JsonValue::Object(members.into_iter().map(|(k, v)| (k.to_string(), v)).collect())
}

fn lines_array() -> JsonValue {
    JsonValue::Array(vec![text("line1"), text("line2"), text("line3")])
}

#[test]
#[should_panic(expected = "value it not an object")]
fn value_not_an_object() {
    let value = JsonValue::Null;

    match get_results(&value, &FailureTable::new()) {
        Ok(_) => {}
        Err(e) => panic!("{}", e.message()),
    }
}

#[test]
fn empty_results() {
    let value = parse_value("{}").unwrap();

    let got = match get_results(&value, &FailureTable::new()) {
        Ok(r) => r,
        Err(e) => panic!("unexpected error: {}", e.message()),
    };
    let expected: Vec<MinionResult> = Vec::new();

    assert_eq!(got, expected);
}

#[test]
fn only_failed_hosts() {
    let input = "Minion minion_fail_1 did not respond. No job will be sent.\n{}\n";
    let (input, _) = cleanup_input_data(input.to_owned());

    let value = parse_value(input.as_str()).expect("can not parse input to json");

    let mut failed_hosts = FailureTable::new();
    failed_hosts.insert("minion_fail_1".into(), "".into());
    failed_hosts.insert("minion_fail_1".into(), "".into());

    let got = match get_results(&value, &failed_hosts) {
        Ok(r) => r,
        Err(e) => panic!("unexpected error: {}", e.message()),
    };
    let mut expected = Vec::new();
    for i in 0..failed_hosts.len() {
        let (host, message) = failed_hosts.entry(i);
        expected.push(MinionResult {
            host: host.clone(),
            retcode: Retcode::Failure,
            output: Some(message.clone()),
            ..MinionResult::default()
        });
    }

    println!("got: {:#?}", got);
    println!("expected: {:#?}", expected);

    assert_eq!(got, expected);
}

#[test]
fn duplicate_keys_hosts() {
    let input = "minion minion_fail_1 was already deleted from tracker, probably a duplicate key\n\
                 minion minion_fail_2 was already deleted from tracker, probably a duplicate key\n{}\n";
    let (input, _) = cleanup_input_data(input.to_owned());

    let value = parse_value(input.as_str()).expect("can not parse input to json");

    let mut failed_hosts = FailureTable::new();
    failed_hosts.insert("minion_fail_1".into(), "".into());
    failed_hosts.insert("minion_fail_2".into(), "".into());

    let got = match get_results(&value, &failed_hosts) {
        Ok(r) => r,
        Err(e) => panic!("unexpected error: {}", e.message()),
    };

    let mut expected = Vec::new();
    for i in 0..failed_hosts.len() {
        let (host, message) = failed_hosts.entry(i);
        expected.push(MinionResult {
            host: host.clone(),
            retcode: Retcode::Failure,
            output: Some(message.to_string()),
            ..MinionResult::default()
        });
    }

    println!("got: {:#?}", got);
    println!("expected: {:#?}", expected);

    assert_eq!(got, expected);
}

#[test]
fn array() {
    let value = object(vec![("minion", object(vec![("ret", lines_array())]))]);

    let got = match get_results(&value, &FailureTable::new()) {
        Ok(r) => r,
        Err(e) => panic!("unexpected error: {}", e.message()),
    };

    let mut expected = Vec::new();
    expected.push(MinionResult {
        host: "minion".to_string(),
        retcode: Retcode::Failure,
        result: Some("line1\nline2\nline3".to_string()),
        ..MinionResult::default()
    });

    assert_eq!(got, expected);
}

#[test]
#[should_panic]
fn array_weird() {
    let value = object(vec![(
        "minion",
        object(vec![("ret", JsonValue::Array(vec![text("line1"), JsonValue::Number(Some(2))]))]),
    )]);

    match get_results(&value, &FailureTable::new()) {
        Ok(_) => {}
        Err(e) => panic!("{}", e.message()),
    };
}

#[test]
fn bool() {
    let value = object(vec![
        ("minion", object(vec![("retcode", JsonValue::Number(Some(0))), ("ret", JsonValue::Bool(true))])),
        ("minion_fail", object(vec![("retcode", JsonValue::Number(Some(1))), ("ret", JsonValue::Bool(false))])),
    ]);

    let got = match get_results(&value, &FailureTable::new()) {
        Ok(r) => r,
        Err(e) => panic!("unexpected error: {}", e.message()),
    };

    let mut expected = Vec::new();
    expected.push(MinionResult {
        host: "minion".to_string(),
        retcode: Retcode::Success,
        result: Some("true".to_string()),
        ..MinionResult::default()
    });
    expected.push(MinionResult {
        host: "minion_fail".to_string(),
        retcode: Retcode::Failure,
        result: Some("false".to_string()),
        ..MinionResult::default()
    });
    expected.sort();

    assert_eq!(got, expected);
}

#[test]
fn not_ret_array() {
    let value = object(vec![("minion", lines_array())]);

    let got = match get_results(&value, &FailureTable::new()) {
        Ok(r) => r,
        Err(e) => panic!("unexpected error: {}", e.message()),
    };

    let mut expected = Vec::new();
    expected.push(MinionResult {
        host: "minion".to_string(),
        retcode: Retcode::Failure,
        result: Some("line1\nline2\nline3".to_string()),
        ..MinionResult::default()
    });

    assert_eq!(got, expected);
}
