use bunyan_formatter::{
    BunyanFormattingLayer, Field, FieldValue, FilteringMode, JsonStorage, JsonStorageFilter, Level,
    RecordMetadata, SpanTiming, Type, UtcTimestamp,
};
use serde_json::Value;

fn fixed_time() -> UtcTimestamp {
    UtcTimestamp {
        year: 2023,
        month: 1,
        day: 2,
        hour: 3,
        minute: 4,
        second: 5,
        nanosecond: 0,
    }
}

fn plain_meta() -> RecordMetadata {
    RecordMetadata {
        name: "span1".to_string(),
        level: Level::Info,
        target: "mytarget".to_string(),
        file: Some("main.rs".to_string()),
        line: Some(7),
    }
}

#[test]
fn exact_span_start_record() {
    let layer =
        BunyanFormattingLayer::new("app".into(), 1).with_hostname(Some("host1".to_string()));
    let storage = JsonStorage::default();
    let line = layer.serialize_span_at(&plain_meta(), &storage, &Type::EnterSpan, &fixed_time());
    assert_eq!(
        line,
        "{\"v\":0,\"name\":\"app\",\"msg\":\"[SPAN1 - START]\",\"level\":30,\"hostname\":\"host1\",\"pid\":1,\"time\":\"2023-01-02T03:04:05Z\",\"target\":\"mytarget\",\"line\":7,\"file\":\"main.rs\"}\n"
    );
}

#[test]
fn exact_end_record_with_zero_elapsed_when_never_entered() {
    let layer =
        BunyanFormattingLayer::new("app".into(), 1).with_hostname(Some("host1".to_string()));
    let mut storage = JsonStorage::default();
    let timing = SpanTiming::new();
    storage.record_elapsed(timing.elapsed_or_zero());
    let line = layer.serialize_span_at(&plain_meta(), &storage, &Type::ExitSpan, &fixed_time());
    assert_eq!(
        line,
        "{\"v\":0,\"name\":\"app\",\"msg\":\"[SPAN1 - END]\",\"level\":30,\"hostname\":\"host1\",\"pid\":1,\"time\":\"2023-01-02T03:04:05Z\",\"target\":\"mytarget\",\"line\":7,\"file\":\"main.rs\",\"elapsed_milliseconds\":0}\n"
    );
}

#[test]
fn fractional_seconds_are_rendered_and_parse() {
    let layer =
        BunyanFormattingLayer::new("app".into(), 1).with_hostname(Some("host1".to_string()));
    let t = UtcTimestamp {
        nanosecond: 123_000_000,
        ..fixed_time()
    };
    let line = layer.serialize_span_at(&plain_meta(), &JsonStorage::default(), &Type::EnterSpan, &t);
    let record: Value = serde_json::from_str(line.trim_end()).unwrap();
    let time = record.get("time").unwrap().as_str().unwrap();
    assert_eq!(time, "2023-01-02T03:04:05.123000000Z");
    let parsed =
        time::OffsetDateTime::parse(time, &time::format_description::well_known::Rfc3339).unwrap();
    assert!(parsed.offset().is_utc());
    assert_eq!(parsed.millisecond(), 123);
}

#[test]
fn event_message_falls_back_to_target() {
    let layer = BunyanFormattingLayer::new("app".into(), 1);
    let ev = JsonStorage::default();
    let line = layer.serialize_event(&plain_meta(), &ev, None);
    let record: Value = serde_json::from_str(line.trim_end()).unwrap();
    assert_eq!(record.get("msg").unwrap().as_str().unwrap(), "mytarget");
}

#[test]
fn event_message_is_prefixed_with_span_context() {
    let layer = BunyanFormattingLayer::new("app".into(), 1);
    let mut ev = JsonStorage::default();
    ev.record_debug("message", "did a thing");
    let span = JsonStorage::default();
    let line = layer.serialize_event(&plain_meta(), &ev, Some(("outer work", &span)));
    let record: Value = serde_json::from_str(line.trim_end()).unwrap();
    assert_eq!(
        record.get("msg").unwrap().as_str().unwrap(),
        "[OUTER WORK - EVENT] did a thing"
    );
}

#[test]
fn string_values_are_escaped_and_survive_parsing() {
    let layer = BunyanFormattingLayer::new("app".into(), 1);
    let mut storage = JsonStorage::default();
    let tricky = "a\"b\\c\nd\te\u{1f}f";
    storage.record_str("note", tricky);
    let line = layer.serialize_span_at(&plain_meta(), &storage, &Type::EnterSpan, &fixed_time());
    let record: Value = serde_json::from_str(line.trim_end()).unwrap();
    assert_eq!(record.get("note").unwrap().as_str().unwrap(), tricky);
}

#[test]
fn integer_values_keep_their_exact_value() {
    let layer = BunyanFormattingLayer::new("app".into(), 1);
    let mut storage = JsonStorage::default();
    storage.record_i64("lowest", i64::MIN);
    storage.record_i64("minus", -42);
    storage.record_u64("highest", u64::MAX);
    storage.record_bool("flag", true);
    let line = layer.serialize_span_at(&plain_meta(), &storage, &Type::EnterSpan, &fixed_time());
    let record: Value = serde_json::from_str(line.trim_end()).unwrap();
    assert_eq!(record.get("lowest").unwrap().as_i64(), Some(i64::MIN));
    assert_eq!(record.get("minus").unwrap().as_i64(), Some(-42));
    assert_eq!(record.get("highest").unwrap().as_u64(), Some(u64::MAX));
    assert_eq!(record.get("flag").unwrap().as_bool(), Some(true));
}

#[test]
fn missing_source_location_renders_as_null() {
    let layer = BunyanFormattingLayer::new("app".into(), 1);
    let m = RecordMetadata {
        file: None,
        line: None,
        ..plain_meta()
    };
    let line =
        layer.serialize_span_at(&m, &JsonStorage::default(), &Type::EnterSpan, &fixed_time());
    let record: Value = serde_json::from_str(line.trim_end()).unwrap();
    assert!(record.get("line").unwrap().is_null());
    assert!(record.get("file").unwrap().is_null());
}

#[test]
fn log_metadata_fields_are_dropped() {
    let mut storage = JsonStorage::default();
    storage.record_debug("log.target", "noise");
    storage.record_debug("log.line", "17");
    assert!(storage.lookup("log.target").is_none());
    assert!(storage.lookup("log.line").is_none());
    assert_eq!(storage.len(), 0);
}

#[test]
fn raw_identifier_names_are_unwrapped() {
    let mut storage = JsonStorage::default();
    storage.record_debug("r#type", "thing");
    assert!(storage.lookup("r#type").is_none());
    match storage.lookup("type") {
        Some(FieldValue::Str(s)) => assert_eq!(s, "thing"),
        _ => panic!("expected the bare name to hold the rendered value"),
    }
}

#[test]
fn later_records_overwrite_earlier_ones() {
    let mut storage = JsonStorage::default();
    storage.record_i64("x", 1);
    storage.record_i64("x", 2);
    assert_eq!(storage.len(), 1);
    match storage.lookup("x") {
        Some(FieldValue::I64(v)) => assert_eq!(*v, 2),
        _ => panic!("expected the later value"),
    }
}

#[test]
fn child_inherits_parent_fields_unless_overridden() {
    let mut parent = JsonStorage::for_new_span(None);
    parent.record_i64("shared", 1);
    parent.record_str("kept", "from parent");
    let mut child = JsonStorage::for_new_span(Some(&parent));
    child.record_i64("shared", 5);
    match child.lookup("shared") {
        Some(FieldValue::I64(v)) => assert_eq!(*v, 5),
        _ => panic!("expected the creation-time override"),
    }
    match child.lookup("kept") {
        Some(FieldValue::Str(s)) => assert_eq!(s, "from parent"),
        _ => panic!("expected the inherited value"),
    }
}

#[test]
fn parent_and_child_field_sets_are_independent() {
    let mut parent = JsonStorage::for_new_span(None);
    parent.record_i64("x", 1);
    let mut child = JsonStorage::for_new_span(Some(&parent));
    parent.record_i64("x", 99);
    parent.record_str("only_parent", "p");
    child.record_str("only_child", "c");
    match child.lookup("x") {
        Some(FieldValue::I64(v)) => assert_eq!(*v, 1),
        _ => panic!("expected the value copied at creation"),
    }
    assert!(child.lookup("only_parent").is_none());
    assert!(parent.lookup("only_child").is_none());
    match parent.lookup("x") {
        Some(FieldValue::I64(v)) => assert_eq!(*v, 99),
        _ => panic!("expected the parent's own later value"),
    }
}

#[test]
fn default_fields_carry_their_configured_value_everywhere() {
    let default_fields = vec![Field {
        name: "custom_field".to_string(),
        value: FieldValue::Str("custom_value".to_string()),
    }];
    let layer = BunyanFormattingLayer::with_default_fields("test".into(), 1, default_fields);
    let span = JsonStorage::default();
    let span_line = layer.serialize_span_at(&plain_meta(), &span, &Type::EnterSpan, &fixed_time());
    let ev = JsonStorage::default();
    let event_line = layer.serialize_event_at(&plain_meta(), &ev, None, &fixed_time());
    for line in [span_line, event_line] {
        let record: Value = serde_json::from_str(line.trim_end()).unwrap();
        assert_eq!(
            record.get("custom_field").unwrap().as_str().unwrap(),
            "custom_value"
        );
    }
}

#[test]
fn default_fields_never_shadow_required_keys() {
    let default_fields = vec![
        Field {
            name: "msg".to_string(),
            value: FieldValue::Str("not the real message".to_string()),
        },
        Field {
            name: "extra".to_string(),
            value: FieldValue::U64(9),
        },
    ];
    let layer = BunyanFormattingLayer::with_default_fields("test".into(), 1, default_fields)
        .with_hostname(Some("h".to_string()));
    let line = layer.serialize_span_at(
        &plain_meta(),
        &JsonStorage::default(),
        &Type::EnterSpan,
        &fixed_time(),
    );
    let record: Value = serde_json::from_str(line.trim_end()).unwrap();
    assert_eq!(
        record.get("msg").unwrap().as_str().unwrap(),
        "[SPAN1 - START]"
    );
    assert_eq!(record.get("extra").unwrap().as_u64(), Some(9));
}

#[test]
fn skip_list_also_hides_debug_aid_fields() {
    let layer = BunyanFormattingLayer::new("test".into(), 1)
        .skip_fields(vec![
            "target".to_string(),
            "line".to_string(),
            "file".to_string(),
        ])
        .unwrap();
    let line = layer.serialize_span_at(
        &plain_meta(),
        &JsonStorage::default(),
        &Type::EnterSpan,
        &fixed_time(),
    );
    let record: Value = serde_json::from_str(line.trim_end()).unwrap();
    assert!(record.get("target").is_none());
    assert!(record.get("line").is_none());
    assert!(record.get("file").is_none());
}

#[test]
fn skip_field_error_names_the_offending_key() {
    let result = BunyanFormattingLayer::new("test".into(), 1)
        .skip_fields(vec!["ok".to_string(), "time".to_string()]);
    match result {
        Err(err) => assert_eq!(err.key(), "time"),
        Ok(_) => panic!("skipping a required key must fail"),
    }
}

#[test]
fn bunyan_level_codes_are_fixed() {
    assert_eq!(Level::Error.to_bunyan_level(), 50);
    assert_eq!(Level::Warn.to_bunyan_level(), 40);
    assert_eq!(Level::Info.to_bunyan_level(), 30);
    assert_eq!(Level::Debug.to_bunyan_level(), 20);
    assert_eq!(Level::Trace.to_bunyan_level(), 10);
}

#[test]
fn record_types_have_fixed_tags() {
    assert_eq!(Type::EnterSpan.tag(), "START");
    assert_eq!(Type::ExitSpan.tag(), "END");
    assert_eq!(Type::Event.tag(), "EVENT");
}

#[test]
fn storage_filter_modes() {
    let only_named = JsonStorageFilter::new(
        vec!["a".to_string(), "b".to_string()],
        FilteringMode::Include,
    );
    assert!(only_named.filter_field("a"));
    assert!(only_named.filter_field("b"));
    assert!(!only_named.filter_field("c"));
    assert!(only_named.filter_span("anything"));

    let exclude = JsonStorageFilter::new(vec!["a".to_string()], FilteringMode::Exclude);
    assert!(!exclude.filter_field("a"));
    assert!(exclude.filter_field("c"));
}

#[test]
fn storage_filter_scoped_to_one_span() {
    let scoped = JsonStorageFilter::for_span(
        "only this".to_string(),
        vec!["a".to_string()],
        FilteringMode::Include,
    );
    assert!(scoped.filter_span("only this"));
    assert!(!scoped.filter_span("another"));
}

#[test]
fn round_trip_reserialization_keeps_keys_and_values() {
    let default_fields = vec![Field {
        name: "custom_field".to_string(),
        value: FieldValue::Str("custom_value".to_string()),
    }];
    let layer = BunyanFormattingLayer::with_default_fields("test".into(), 77, default_fields)
        .with_hostname(Some("h".to_string()));
    let mut storage = JsonStorage::default();
    storage.record_i64("big", i64::MAX);
    storage.record_u64("bigger", u64::MAX);
    storage.record_str("text", "with \"quotes\" and \\slashes\\");
    storage.record_elapsed(12);
    let line = layer.serialize_span_at(&plain_meta(), &storage, &Type::ExitSpan, &fixed_time());

    let first: Value = serde_json::from_str(line.trim_end()).unwrap();
    let reserialized = first.to_string();
    let second: Value = serde_json::from_str(&reserialized).unwrap();
    assert_eq!(first, second);
    assert_eq!(second.get("big").unwrap().as_i64(), Some(i64::MAX));
    assert_eq!(second.get("bigger").unwrap().as_u64(), Some(u64::MAX));
}
