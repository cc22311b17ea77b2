use elstatus::equipment::{
    is_elevator_category, parse_equipment, parse_equipment_list, Equipment, EquipmentAccessError,
};
use elstatus::json::{Json, JsonValue};
use elstatus::resolve::{check_status, merge_outcomes, parse_group, select_matches, GroupError};

fn model(v: &serde_json::Value) -> Json {
    let value = match v {
        serde_json::Value::Null => JsonValue::Null,
        serde_json::Value::Bool(b) => JsonValue::Bool(*b),
        serde_json::Value::Number(n) => JsonValue::Number(n.to_string()),
        serde_json::Value::String(s) => JsonValue::Str(s.clone()),
        serde_json::Value::Array(items) => JsonValue::Array(items.iter().map(model).collect()),
        serde_json::Value::Object(map) => {
            JsonValue::Object(map.iter().map(|(k, v)| (k.clone(), model(v))).collect())
        }
    };
    Json { value, text: v.to_string() }
}

fn json(text: &str) -> Json {
    model(&serde_json::from_str::<serde_json::Value>(text).unwrap())
}

fn record(name: &str, working: Option<bool>) -> Equipment {
    Equipment {
        name: name.to_owned(),
        category: "elevator".to_owned(),
        working,
        place: None,
    }
}

fn best_match(names: &[String], label: &str) -> Option<String> {
    let mut corpus = ngrammatic::CorpusBuilder::new().finish();
    for name in names {
        corpus.add_text(name);
    }
    corpus.search(label, 0.4).first().map(|r| r.text.clone())
}

fn resolve_labels(records: &Vec<Equipment>, labels: &[&str]) -> Result<Vec<Equipment>, GroupError> {
    let names: Vec<String> = records.iter().map(|e| e.name.clone()).collect();
    let labels: Vec<String> = labels.iter().map(|l| l.to_string()).collect();
    let best: Vec<Option<String>> = labels.iter().map(|l| best_match(&names, l)).collect();
    select_matches(records, &labels, &best)
}

#[test]
fn feature_without_properties_is_missing_value() {
    let feature = json(r#"{"geometry":{"type":"Point"}}"#);
    match parse_equipment(&feature) {
        Err(EquipmentAccessError::MissingValue(field, text)) => {
            assert_eq!(field, "properties");
            assert_eq!(text, r#"{"geometry":{"type":"Point"}}"#);
        }
        _ => panic!("expected a missing value"),
    }
}

#[test]
fn feature_reads_all_fields() {
    let feature = json(
        r#"{"properties":{"isWorking":false,"description":{"de":"Aufzug Gleis 3/4","en":"Lift"},"category":"elevator","placeInfoName":"Wannsee"}}"#,
    );
    let e = parse_equipment(&feature).ok().unwrap();
    assert_eq!(e.name, "Aufzug Gleis 3/4");
    assert_eq!(e.category, "elevator");
    assert_eq!(e.working, Some(false));
    assert_eq!(e.place, Some("Wannsee".to_owned()));
}

#[test]
fn feature_falls_back_on_defaults() {
    let plain = json(r#"{"properties":{"description":"EG Tunnel","isWorking":"yes"}}"#);
    let e = parse_equipment(&plain).ok().unwrap();
    assert_eq!(e.name, "EG Tunnel");
    assert_eq!(e.category, "elevator");
    assert_eq!(e.working, None);
    assert_eq!(e.place, None);

    let bare = json(r#"{"properties":{"description":{"en":"Lift"}}}"#);
    let e = parse_equipment(&bare).ok().unwrap();
    assert_eq!(e.name, "Cannot find description!");

    let empty = json(r#"{"properties":{}}"#);
    let e = parse_equipment(&empty).ok().unwrap();
    assert_eq!(e.name, "Cannot find description!");
}

#[test]
fn parsing_twice_gives_equal_records() {
    let feature = json(r#"{"properties":{"isWorking":true,"description":{"de":"Aufzug"},"placeInfoName":"Nord"}}"#);
    let a = parse_equipment(&feature).ok().unwrap();
    let b = parse_equipment(&feature).ok().unwrap();
    assert_eq!(a.name, b.name);
    assert_eq!(a.category, b.category);
    assert_eq!(a.working, b.working);
    assert_eq!(a.place, b.place);
}

#[test]
fn list_of_escalators_fails_with_parse_errors() {
    let list = json(
        r#"[{"properties":{"category":"escalator","description":"Rolltreppe"}},{"id":7},{"properties":{"category":"Escalator"}}]"#,
    );
    match parse_equipment_list(&list) {
        Err(errors) => {
            assert_eq!(errors.len(), 1);
            match &errors[0] {
                EquipmentAccessError::MissingValue(field, text) => {
                    assert_eq!(field, "properties");
                    assert_eq!(text, r#"{"id":7}"#);
                }
                _ => panic!("expected a missing value"),
            }
        }
        Ok(_) => panic!("expected a failure"),
    }
}

#[test]
fn list_of_escalators_only_fails_without_errors() {
    let list = json(r#"[{"properties":{"category":"escalator"}}]"#);
    match parse_equipment_list(&list) {
        Err(errors) => assert!(errors.is_empty()),
        Ok(_) => panic!("expected a failure"),
    }
}

#[test]
fn list_keeps_elevators_ignoring_case() {
    let list = json(
        r#"[{"properties":{"category":"ELEVATOR","description":"A"}},{"properties":{"category":"escalator","description":"B"}},{"properties":{"description":"C"}},{"x":1}]"#,
    );
    let records = parse_equipment_list(&list).ok().unwrap();
    let names: Vec<&str> = records.iter().map(|e| e.name.as_str()).collect();
    assert_eq!(names, vec!["A", "C"]);
    assert_eq!(records[0].category, "ELEVATOR");
}

#[test]
fn list_that_is_not_an_array_is_invalid_type() {
    let list = json(r#"{"features":1}"#);
    match parse_equipment_list(&list) {
        Err(errors) => {
            assert_eq!(errors.len(), 1);
            match &errors[0] {
                EquipmentAccessError::InvalidType { expected_type, json } => {
                    assert_eq!(expected_type, "Array");
                    assert_eq!(json, r#"{"features":1}"#);
                }
                _ => panic!("expected an invalid type"),
            }
        }
        Ok(_) => panic!("expected a failure"),
    }
}

#[test]
fn status_outside_success_class_is_http_error() {
    match check_status(503, "busy".to_owned()) {
        Err(GroupError::Access(EquipmentAccessError::HTTPRequestError { status, response_text })) => {
            assert_eq!(status, 503);
            assert_eq!(response_text, "busy");
        }
        _ => panic!("expected an HTTP error"),
    }
    assert_eq!(check_status(200, "ok".to_owned()).ok().unwrap(), "ok");
    assert_eq!(check_status(299, "ok".to_owned()).ok().unwrap(), "ok");
    assert!(check_status(300, "moved".to_owned()).is_err());
}

#[test]
fn response_without_features_is_missing_value() {
    let body = r#"{ "type": "FeatureCollection" }"#;
    match parse_group(body, &json(body)) {
        Err(GroupError::Access(EquipmentAccessError::MissingValue(field, text))) => {
            assert_eq!(field, "");
            assert_eq!(text, body);
        }
        _ => panic!("expected a missing value"),
    }
}

#[test]
fn response_without_elevators_is_a_sourcing_failure() {
    let body = r#"{"features":[{"properties":{"category":"escalator"}},{"id":1}]}"#;
    match parse_group(body, &json(body)) {
        Err(GroupError::Sourcing(errors)) => assert_eq!(errors.len(), 1),
        _ => panic!("expected a sourcing failure"),
    }
}

#[test]
fn exact_label_matches_its_record() {
    let records = vec![record("Aufzug Gleis 1/2", Some(true)), record("Aufzug EG Tunnel", None)];
    let found = resolve_labels(&records, &["Aufzug EG Tunnel", "Aufzug Gleis 1/2"]).ok().unwrap();
    assert_eq!(found.len(), 2);
    assert_eq!(found[0].name, "Aufzug EG Tunnel");
    assert_eq!(found[1].name, "Aufzug Gleis 1/2");
}

#[test]
fn unmatched_label_fails_the_group() {
    let records = vec![record("Aufzug Gleis 1/2", Some(true))];
    match resolve_labels(&records, &["Gleis 1/2", "xyzzy qwv"]) {
        Err(GroupError::Access(EquipmentAccessError::CannotFindEquipment { query_text })) => {
            assert_eq!(query_text, "xyzzy qwv");
        }
        _ => panic!("expected the label not to be found"),
    }
}

#[test]
fn first_unmatched_label_is_reported() {
    let records = vec![record("Aufzug Gleis 1/2", Some(true))];
    let labels = vec!["a".to_owned(), "b".to_owned(), "c".to_owned()];
    let best = vec![Some("Aufzug Gleis 1/2".to_owned()), None, Some("nothing like it".to_owned())];
    match select_matches(&records, &labels, &best) {
        Err(GroupError::Access(EquipmentAccessError::CannotFindEquipment { query_text })) => {
            assert_eq!(query_text, "b");
        }
        _ => panic!("expected the label not to be found"),
    }
    let best = vec![Some("Aufzug Gleis 1/2".to_owned()), Some("Aufzug Gleis 1/2".to_owned()), Some("other".to_owned())];
    match select_matches(&records, &labels, &best) {
        Err(GroupError::Access(EquipmentAccessError::CannotFindEquipment { query_text })) => {
            assert_eq!(query_text, "c");
        }
        _ => panic!("expected the label not to be found"),
    }
}

#[test]
fn failing_group_does_not_affect_the_others() {
    let first: Result<Vec<Equipment>, GroupError> = Ok(vec![record("A", Some(true)), record("B", None)]);
    let second = check_status(500, "oops".to_owned()).map(|_| Vec::new());
    let third: Result<Vec<Equipment>, GroupError> = Ok(vec![record("C", Some(false))]);
    let (records, errors) = merge_outcomes(vec![first, second, third]);
    let names: Vec<&str> = records.iter().map(|e| e.name.as_str()).collect();
    assert_eq!(names, vec!["A", "B", "C"]);
    assert_eq!(errors.len(), 1);
    match &errors[0] {
        GroupError::Access(EquipmentAccessError::HTTPRequestError { status, .. }) => assert_eq!(*status, 500),
        _ => panic!("expected an HTTP error"),
    }
}

#[test]
fn batch_of_failures_and_of_successes() {
    let (records, errors) = merge_outcomes(vec![
        check_status(404, String::new()).map(|_| Vec::new()),
        check_status(500, String::new()).map(|_| Vec::new()),
    ]);
    assert!(records.is_empty());
    assert_eq!(errors.len(), 2);
    let (records, errors) = merge_outcomes(vec![Ok(vec![record("A", None)]), Ok(Vec::new())]);
    assert_eq!(records.len(), 1);
    assert!(errors.is_empty());
}

#[test]
fn example_group_resolves_to_one_record() {
    let body = r#"{"type":"FeatureCollection","features":[{"properties":{"isWorking":true,"category":"elevator","description":{"de":"Aufzug Gleis 1/2, Nord"}}}]}"#;
    let body = check_status(200, body.to_owned()).ok().unwrap();
    let records = parse_group(&body, &json(&body)).ok().unwrap();
    let found = resolve_labels(&records, &["Gleis 1/2"]).ok().unwrap();
    let (records, errors) = merge_outcomes(vec![Ok(found)]);
    assert!(errors.is_empty());
    assert_eq!(records.len(), 1);
    assert_eq!(records[0].name, "Aufzug Gleis 1/2, Nord");
    assert_eq!(records[0].working, Some(true));
    assert_eq!(records[0].category, "elevator");
}

#[test]
fn error_texts() {
    let missing = EquipmentAccessError::MissingValue("properties".to_owned(), "{}".to_owned());
    assert_eq!(missing.message(), "Missing value: properties in JSON: {}");
    let invalid = EquipmentAccessError::InvalidType { expected_type: "Array".to_owned(), json: "1".to_owned() };
    assert_eq!(invalid.message(), "Expected JSON: 1 to be of type: Array");
    let http = EquipmentAccessError::HTTPRequestError { status: 503, response_text: "busy".to_owned() };
    assert_eq!(http.message(), "HTTP request failed, error code: 503\nbusy");
    let http = EquipmentAccessError::HTTPRequestError { status: 7, response_text: String::new() };
    assert_eq!(http.message(), "HTTP request failed, error code: 7\n");
    let missing_label = EquipmentAccessError::CannotFindEquipment { query_text: "Gleis 5".to_owned() };
    assert_eq!(missing_label.message(), "Could not find elevator: Gleis 5");
    assert_eq!(GroupError::Access(missing_label).message(), "Could not find elevator: Gleis 5");
}

#[test]
fn sourcing_failure_text_lists_each_error() {
    let errors = vec![
        EquipmentAccessError::MissingValue("properties".to_owned(), r#"{"id":1}"#.to_owned()),
        EquipmentAccessError::MissingValue("properties".to_owned(), r#"{"id":2}"#.to_owned()),
    ];
    assert_eq!(
        GroupError::Sourcing(errors).message(),
        "Errors encountered when sourcing equipments:\n\nMissing value: properties in JSON: {\"id\":1}\nMissing value: properties in JSON: {\"id\":2}"
    );
    assert_eq!(
        GroupError::Sourcing(Vec::new()).message(),
        "Errors encountered when sourcing equipments:\n"
    );
}

#[test]
fn unreadable_response_text() {
    let e = GroupError::Unreadable("expected value at line 1 column 1".to_owned());
    assert_eq!(e.message(), "expected value at line 1 column 1");
    let (records, errors) = merge_outcomes(vec![Err(e), Ok(vec![record("A", Some(true))])]);
    assert_eq!(records.len(), 1);
    assert_eq!(errors.len(), 1);
}

#[test]
fn empty_description_gets_the_placeholder() {
    for text in [r#"{"properties":{"description":""}}"#, r#"{"properties":{"description":{"de":""}}}"#] {
        let e = parse_equipment(&json(text)).ok().unwrap();
        assert_eq!(e.name, "Cannot find description!");
    }
}

#[test]
fn lowercased_category_check() {
    assert!(is_elevator_category(&"elevator".to_owned()));
    assert!(!is_elevator_category(&"Elevator".to_owned()));
    assert!(!is_elevator_category(&"escalator".to_owned()));
    assert!(!is_elevator_category(&String::new()));
}
