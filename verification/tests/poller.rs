use kreivo_monitor::config::ActionEntry;
use kreivo_monitor::poller::{
    build_alert_query_url, build_silence_payload, build_silences_url, command_for,
    execute_transition, make_silence_request, query_transition, should_execute, should_silence,
    ActionState, QueryOutcome, SILENCE_WINDOW_MS,
};

#[test]
fn active_alert_executes_command_once() {
    let st = query_transition(QueryOutcome::Active);
    assert_eq!(st, ActionState::Matched);
    assert!(should_execute(&st));
}

#[test]
fn empty_answer_executes_nothing() {
    let st = query_transition(QueryOutcome::NoActive);
    assert_eq!(st, ActionState::NoMatch);
    assert!(!should_execute(&st));
}

#[test]
fn failed_query_is_treated_as_no_match() {
    let st = query_transition(QueryOutcome::Failed);
    assert_eq!(st, ActionState::QueryFailed);
    assert!(!should_execute(&st));
}

#[test]
fn silence_only_after_successful_command() {
    assert!(should_silence(&execute_transition(true)));
    assert!(!should_silence(&execute_transition(false)));
    assert_eq!(execute_transition(false), ActionState::ExecuteFailed);
}

#[test]
fn only_configured_actions_have_commands() {
    let actions = vec![
        ActionEntry { name: b"restart".to_vec(), command: b"true".to_vec() },
        ActionEntry { name: b"reboot".to_vec(), command: b"false".to_vec() },
    ];
    assert_eq!(command_for(&actions, b"restart"), Some(b"true".to_vec()));
    assert_eq!(command_for(&actions, b"reboot"), Some(b"false".to_vec()));
    assert_eq!(command_for(&actions, b"other"), None);
    assert_eq!(command_for(&Vec::new(), b"restart"), None);
}

#[test]
fn alert_query_url_filters_action_and_instance() {
    let url = build_alert_query_url(b"http://am:9093", b"restart", b"nodeA");
    assert_eq!(
        url,
        b"http://am:9093/api/v2/alerts?filter=alert_action=%22restart%22&filter=instance=%22nodeA%22&active=true"
            .to_vec()
    );
}

#[test]
fn silences_url_appends_the_endpoint_path() {
    assert_eq!(
        build_silences_url(b"http://am:9093"),
        b"http://am:9093/api/v2/silences".to_vec()
    );
}

#[test]
fn silence_payload_holds_exact_matchers_and_window() {
    let now: i64 = 1_700_000_000_000;
    let payload = make_silence_request(b"nodeA", b"restart", now).unwrap();
    let starts = chrono::DateTime::<chrono::Utc>::from_timestamp_millis(now)
        .unwrap()
        .to_rfc3339();
    let ends = chrono::DateTime::<chrono::Utc>::from_timestamp_millis(now + SILENCE_WINDOW_MS)
        .unwrap()
        .to_rfc3339();
    let expected = format!(
        "{{\"matchers\":[{{\"name\":\"instance\",\"value\":\"nodeA\",\"isRegex\":false}},\
         {{\"name\":\"alert_action\",\"value\":\"restart\",\"isRegex\":false}}],\
         \"startsAt\":\"{}\",\"endsAt\":\"{}\",\
         \"createdBy\":\"kreivo-monitor-agent\",\
         \"comment\":\"Auto-silence after restart by agent on nodeA\"}}",
        starts, ends
    )
    .replace("         ", "");
    assert_eq!(String::from_utf8(payload).unwrap(), expected);
}

#[test]
fn silence_window_is_fifteen_minutes() {
    assert_eq!(SILENCE_WINDOW_MS, 15 * 60 * 1000);
}

#[test]
fn payload_escapes_embedded_quotes_and_backslashes() {
    let payload = build_silence_payload(b"a\"b", b"c\\d", b"S", b"E");
    let text = String::from_utf8(payload).unwrap();
    assert!(text.contains("\"value\":\"a\\\"b\""));
    assert!(text.contains("\"value\":\"c\\\\d\""));
    // the result is valid JSON carrying the given strings
    let v: serde_json::Value = serde_json::from_str(&text).unwrap();
    assert_eq!(v["matchers"][0]["value"], "a\"b");
    assert_eq!(v["matchers"][1]["value"], "c\\d");
    assert_eq!(v["matchers"][0]["isRegex"], false);
    assert_eq!(v["matchers"][1]["isRegex"], false);
}

#[test]
fn silence_payload_parses_as_json_with_expected_fields() {
    let now: i64 = 1_700_000_000_000;
    let payload = make_silence_request(b"nodeA", b"restart", now).unwrap();
    let v: serde_json::Value = serde_json::from_slice(&payload).unwrap();
    assert_eq!(v["matchers"][0]["name"], "instance");
    assert_eq!(v["matchers"][0]["value"], "nodeA");
    assert_eq!(v["matchers"][1]["name"], "alert_action");
    assert_eq!(v["matchers"][1]["value"], "restart");
    assert_eq!(v["createdBy"], "kreivo-monitor-agent");
    assert_eq!(v["comment"], "Auto-silence after restart by agent on nodeA");
    let starts = chrono::DateTime::parse_from_rfc3339(v["startsAt"].as_str().unwrap()).unwrap();
    let ends = chrono::DateTime::parse_from_rfc3339(v["endsAt"].as_str().unwrap()).unwrap();
    assert_eq!(
        ends.timestamp_millis() - starts.timestamp_millis(),
        SILENCE_WINDOW_MS
    );
}
