use bunyan_formatter::{
    BunyanFormattingLayer, Field, FieldValue, JsonStorage, Level, RecordMetadata, SpanTiming, Type,
};
use serde_json::Value;
use time::format_description::well_known::Rfc3339;

// Metadata for a span or event in these tests.
fn meta(name: &str, level: Level, target: &str) -> RecordMetadata {
    RecordMetadata {
        name: name.to_string(),
        level,
        target: target.to_string(),
        file: Some("tests/e2e.rs".to_string()),
        line: Some(52),
    }
}

// The formatting layer the tests run against: default fields with
// custom_field=custom_value, and "skipped" on the skip-list.
fn formatting_layer() -> BunyanFormattingLayer {
    let default_fields = vec![Field {
        name: "custom_field".to_string(),
        value: FieldValue::Str("custom_value".to_string()),
    }];
    BunyanFormattingLayer::with_default_fields("test".into(), 4242, default_fields)
        .skip_fields(vec!["skipped".to_string()])
        .expect("One of the specified fields cannot be skipped")
}

// An event's own field store, with its message field.
fn event_storage(message: &str) -> JsonStorage {
    let mut s = JsonStorage::default();
    s.record_debug("message", message);
    s
}

// The instrumented flow driven against the library: an outer span
// "shaving_yaks" with a=2, an info event, a nested span "inner shaving" with
// b=3 and skipped=false, another info event, then both spans close.
fn test_action(layer: &BunyanFormattingLayer) -> Vec<String> {
    let mut lines = Vec::new();

    let a: i64 = 2;
    let outer_meta = meta("shaving_yaks", Level::Debug, "e2e");
    let mut outer = JsonStorage::for_new_span(None);
    outer.record_i64("a", a);
    lines.push(layer.serialize_span(&outer_meta, &outer, &Type::EnterSpan));
    let mut outer_timing = SpanTiming::new();
    outer_timing.on_enter();

    let ev1 = event_storage("pre-shaving yaks");
    lines.push(layer.serialize_event(
        &meta("event tests/e2e.rs:57", Level::Info, "e2e"),
        &ev1,
        Some(("shaving_yaks", &outer)),
    ));

    let b: i64 = 3;
    let skipped = false;
    let inner_meta = meta("inner shaving", Level::Debug, "e2e");
    let mut inner = JsonStorage::for_new_span(Some(&outer));
    inner.record_i64("b", b);
    inner.record_bool("skipped", skipped);
    lines.push(layer.serialize_span(&inner_meta, &inner, &Type::EnterSpan));
    let mut inner_timing = SpanTiming::new();
    inner_timing.on_enter();

    let ev2 = event_storage("shaving yaks");
    lines.push(layer.serialize_event(
        &meta("event tests/e2e.rs:63", Level::Info, "e2e"),
        &ev2,
        Some(("inner shaving", &inner)),
    ));

    inner.record_elapsed(inner_timing.elapsed_or_zero());
    lines.push(layer.serialize_span(&inner_meta, &inner, &Type::ExitSpan));

    outer.record_elapsed(outer_timing.elapsed_or_zero());
    lines.push(layer.serialize_span(&outer_meta, &outer, &Type::ExitSpan));

    lines
}

fn run_and_get_raw_output() -> String {
    test_action(&formatting_layer()).concat()
}

fn run_and_get_output() -> Vec<Value> {
    run_and_get_raw_output()
        .lines()
        .filter(|l| !l.trim().is_empty())
        .map(|line| serde_json::from_str::<Value>(line).unwrap())
        .collect()
}

#[test]
fn each_line_is_valid_json() {
    let tracing_output = run_and_get_raw_output();

    // Each line is valid JSON
    for line in tracing_output.lines().filter(|&l| !l.is_empty()) {
        assert!(serde_json::from_str::<Value>(line).is_ok());
    }
}

#[test]
fn each_line_has_the_mandatory_bunyan_fields() {
    let tracing_output = run_and_get_output();

    for record in tracing_output {
        assert!(record.get("name").is_some());
        assert!(record.get("level").is_some());
        assert!(record.get("time").is_some());
        assert!(record.get("msg").is_some());
        assert!(record.get("v").is_some());
        assert!(record.get("pid").is_some());
        assert!(record.get("hostname").is_some());
        assert!(record.get("custom_field").is_some());
    }
}

#[test]
fn time_is_formatted_according_to_rfc_3339() {
    let tracing_output = run_and_get_output();

    for record in tracing_output {
        let time = record.get("time").unwrap().as_str().unwrap();
        let parsed = time::OffsetDateTime::parse(time, &Rfc3339);
        assert!(parsed.is_ok());
        let parsed = parsed.unwrap();
        assert!(parsed.offset().is_utc());
    }
}

#[test]
fn encode_f64_as_numbers() {
    let f64_value: f64 = 0.5;
    let layer = formatting_layer();
    let span_meta = meta("parent_span_f64", Level::Debug, "e2e");
    let mut span = JsonStorage::for_new_span(None);
    span.record_json("f64_field", Value::from(f64_value).to_string());
    let mut lines = Vec::new();
    lines.push(layer.serialize_span(&span_meta, &span, &Type::EnterSpan));
    let ev = event_storage("testing f64");
    lines.push(layer.serialize_event(
        &meta("event tests/e2e.rs:117", Level::Info, "e2e"),
        &ev,
        Some(("parent_span_f64", &span)),
    ));
    let tracing_output: Vec<Value> = lines
        .iter()
        .map(|l| serde_json::from_str::<Value>(l.trim_end()).unwrap())
        .collect();

    for record in tracing_output {
        if record
            .get("msg")
            .and_then(Value::as_str)
            .map_or(false, |msg| msg.contains("testing f64"))
        {
            let observed_value = record.get("f64_field").and_then(|v| v.as_f64());
            assert_eq!(observed_value, Some(f64_value));
        }
    }
}

#[test]
fn parent_properties_are_propagated() {
    let layer = formatting_layer();
    let mut lines = Vec::new();

    let parent_meta = meta("parent_span", Level::Debug, "e2e");
    let mut parent = JsonStorage::for_new_span(None);
    parent.record_i64("parent_property", 2);
    lines.push(layer.serialize_span(&parent_meta, &parent, &Type::EnterSpan));

    let child_meta = meta("child_span", Level::Debug, "e2e");
    let mut child = JsonStorage::for_new_span(Some(&parent));
    lines.push(layer.serialize_span(&child_meta, &child, &Type::EnterSpan));

    let ev = event_storage("shaving yaks");
    lines.push(layer.serialize_event(
        &meta("event tests/e2e.rs:141", Level::Info, "e2e"),
        &ev,
        Some(("child_span", &child)),
    ));

    child.record_elapsed(0);
    lines.push(layer.serialize_span(&child_meta, &child, &Type::ExitSpan));
    parent.record_elapsed(0);
    lines.push(layer.serialize_span(&parent_meta, &parent, &Type::ExitSpan));

    let tracing_output: Vec<Value> = lines
        .iter()
        .map(|l| serde_json::from_str::<Value>(l.trim_end()).unwrap())
        .collect();

    for record in tracing_output {
        assert!(record.get("parent_property").is_some());
    }
}

#[test]
fn elapsed_milliseconds_are_present_on_exit_span() {
    let tracing_output = run_and_get_output();

    for record in tracing_output {
        if record
            .get("msg")
            .and_then(Value::as_str)
            .map_or(false, |msg| msg.ends_with("END]"))
        {
            assert!(record.get("elapsed_milliseconds").is_some());
        }
    }
}

#[test]
fn skip_fields() {
    let tracing_output = run_and_get_output();

    for record in tracing_output {
        assert!(record.get("skipped").is_none());
    }
}

#[test]
fn set_hostname() {
    let tracing_output = run_and_get_output();
    let record = tracing_output.first().unwrap();
    let default_hostname = record.get("hostname").unwrap().to_string();

    let expected_hostname = "banana".to_string();

    let layer = formatting_layer().with_hostname(Some(expected_hostname.clone()));
    let lines = test_action(&layer);
    let output = lines
        .concat()
        .lines()
        .next()
        .map(ToString::to_string)
        .unwrap();
    let output = output.parse::<Value>().unwrap();
    let new_hostname = output["hostname"].as_str().unwrap();

    assert_ne!(default_hostname, new_hostname);
    assert_eq!(new_hostname, expected_hostname);
}

#[test]
fn skip_hostname() {
    let layer = formatting_layer().with_hostname(None);
    let lines = test_action(&layer);
    let output = lines
        .concat()
        .lines()
        .next()
        .map(ToString::to_string)
        .unwrap();
    let output = output.parse::<Value>().unwrap();

    assert!(output.get("hostname").is_none());
}

#[test]
fn skipping_core_fields_is_not_allowed() {
    let skipped_fields = vec!["level".to_string()];

    let result = BunyanFormattingLayer::new("test".into(), 4242).skip_fields(skipped_fields);

    match result {
        Err(err) => {
            assert_eq!(
                "level is a core field in the bunyan log format, it can't be skipped",
                err.message().as_str()
            );
        }
        Ok(_) => panic!("skipping core fields shouldn't work"),
    }
}

#[test]
fn encode_valuable_composite_types_as_json() {
    let expected: Value =
        serde_json::from_str("{\"a\":17,\"b\":\"Hello, world!\",\"c\":{\"B\":27}}").unwrap();

    let layer = formatting_layer();
    let mut ev = event_storage("Test info event");
    ev.record_json("s", expected.to_string());
    let line = layer.serialize_event(
        &meta("event tests/e2e.rs:283", Level::Info, "e2e"),
        &ev,
        None,
    );

    let out: Vec<Value> = line
        .lines()
        .filter(|l| !l.trim().is_empty())
        .map(|l| serde_json::from_str::<Value>(l).unwrap())
        .collect();

    assert_eq!(out.len(), 1);
    let entry = &out[0];

    let s_json = entry
        .as_object()
        .expect("expect entry is object")
        .get("s")
        .expect("expect entry.s is present");

    assert_eq!(expected, *s_json);
}

#[test]
fn events_inherit_the_enclosing_span_fields() {
    let tracing_output = run_and_get_output();

    assert_eq!(tracing_output.len(), 6);
    let events: Vec<&Value> = tracing_output
        .iter()
        .filter(|r| {
            r.get("msg")
                .and_then(Value::as_str)
                .map_or(false, |m| m.contains("EVENT"))
        })
        .collect();
    assert_eq!(events.len(), 2);
    let outer_event = events[0];
    let inner_event = events[1];
    assert_eq!(outer_event.get("a").and_then(Value::as_i64), Some(2));
    assert_eq!(inner_event.get("a").and_then(Value::as_i64), Some(2));
    assert_eq!(inner_event.get("b").and_then(Value::as_i64), Some(3));
    assert!(outer_event.get("b").is_none());

    let end_records: Vec<&Value> = tracing_output
        .iter()
        .filter(|r| {
            r.get("msg")
                .and_then(Value::as_str)
                .map_or(false, |m| m.ends_with("END]"))
        })
        .collect();
    assert_eq!(end_records.len(), 2);
    for record in end_records {
        let elapsed = record.get("elapsed_milliseconds").unwrap();
        assert!(elapsed.as_u64().is_some());
    }
}
