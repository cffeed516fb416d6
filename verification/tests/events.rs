use stoopid_logging::layer::level_to_str;
use stoopid_logging::otel::{extract_trace_ids, own_trace_context};
use stoopid_logging::timestamp::{current_rfc3339, normalize_ts, rfc3339_from_clock};
use stoopid_logging::{
    FieldMap, FieldValue, JsonLayer, JsonVisitor, Level, LevelFilter, LogEvent, Pipeline, Settings,
};

fn layer() -> JsonLayer<()> {
    JsonLayer::new((), "test-service".to_string(), "0.0.0-test".to_string())
}

fn event_with(level: Level, fields: FieldMap, spans: &Vec<FieldMap>) -> LogEvent {
    layer().build_event(&current_rfc3339(), level, fields, spans, None)
}

fn str_value(v: &str) -> FieldValue {
    FieldValue::Str(v.to_string())
}

fn message_only(msg: &str) -> FieldMap {
    let mut visitor = JsonVisitor::new();
    visitor.record_str("message", msg);
    visitor.fields
}

#[test]
fn minimal_event_validates() {
    let event = event_with(Level::Info, message_only("service started"), &vec![]);
    assert_eq!(event.level, "info".to_string());
    assert_eq!(event.message, str_value("service started"));
    assert_eq!(event.service, "test-service".to_string());
    assert_eq!(event.version, "0.0.0-test".to_string());
    assert!(event.context.is_none());
    assert!(event.trace_id.is_none());
    assert!(event.span_id.is_none());
}

#[test]
fn event_fields_land_in_context() {
    let mut visitor = JsonVisitor::new();
    visitor.record_str("user_id", "u_1");
    visitor.record_str("request_method", "GET");
    visitor.record_str("message", "processed");
    let event = event_with(Level::Info, visitor.fields, &vec![]);
    let ctx = event.context.expect("context object");
    assert_eq!(ctx.get("user_id"), Some(&str_value("u_1")));
    assert_eq!(ctx.get("request_method"), Some(&str_value("GET")));
    assert_eq!(ctx.get("message"), None);
    assert_eq!(event.message, str_value("processed"));
}

#[test]
fn span_fields_merge_into_context_with_innermost_wins() {
    let mut outer = JsonVisitor::new();
    outer.record_str("request_id", "req_42");
    outer.record_str("layer", "outer");
    let mut inner = JsonVisitor::new();
    inner.record_str("layer", "inner");
    let mut ev = JsonVisitor::new();
    ev.record_i64("extra", 1);
    ev.record_str("message", "in span");
    let spans = vec![outer.fields, inner.fields];
    let event = event_with(Level::Info, ev.fields, &spans);
    let ctx = event.context.expect("context");
    assert_eq!(ctx.get("request_id"), Some(&str_value("req_42")));
    assert_eq!(ctx.get("layer"), Some(&str_value("inner")));
    assert_eq!(ctx.get("extra"), Some(&FieldValue::I64(1)));
}

#[test]
fn warn_level_emitted_as_warn() {
    let event = event_with(Level::Warn, message_only("downstream slow"), &vec![]);
    assert_eq!(event.level, "warn".to_string());
}

#[test]
fn timestamp_format_is_iso_z_ms() {
    let event = event_with(Level::Info, message_only("ts"), &vec![]);
    let ts = event.timestamp;
    let re_ok = ts.len() == 24
        && ts.ends_with('Z')
        && ts.chars().nth(10) == Some('T')
        && ts.chars().nth(19) == Some('.');
    assert!(re_ok, "unexpected timestamp shape: {ts}");
}

#[test]
fn levels_map_to_schema_names() {
    assert_eq!(level_to_str(Level::Trace), "debug");
    assert_eq!(level_to_str(Level::Debug), "debug");
    assert_eq!(level_to_str(Level::Info), "info");
    assert_eq!(level_to_str(Level::Warn), "warn");
    assert_eq!(level_to_str(Level::Error), "error");
    let event = event_with(Level::Trace, message_only("fine"), &vec![]);
    assert_eq!(event.level, "debug".to_string());
}

#[test]
fn event_field_beats_span_field_and_span_message_is_dropped() {
    let mut span = JsonVisitor::new();
    span.record_str("user", "from-span");
    span.record_str("message", "span message");
    let mut ev = JsonVisitor::new();
    ev.record_str("user", "from-event");
    let event = event_with(Level::Error, ev.fields, &vec![span.fields]);
    assert_eq!(event.message, str_value(""));
    let ctx = event.context.expect("context");
    assert_eq!(ctx.get("user"), Some(&str_value("from-event")));
    assert_eq!(ctx.get("message"), None);
    assert_eq!(ctx.entries().len(), 1);
}

#[test]
fn context_left_out_when_only_messages() {
    let span = message_only("span message");
    let event = event_with(Level::Debug, FieldMap::new(), &vec![span]);
    assert!(event.context.is_none());
    assert_eq!(event.message, str_value(""));
}

#[test]
fn non_string_message_is_kept() {
    let mut ev = JsonVisitor::new();
    ev.record_u64("message", 7);
    let event = event_with(Level::Info, ev.fields, &vec![]);
    assert_eq!(event.message, FieldValue::U64(7));
}

#[test]
fn visitor_records_every_kind() {
    let mut v = JsonVisitor::new();
    v.record_str("s", "x");
    v.record_i64("i", -5);
    v.record_u64("u", 5);
    v.record_bool("b", true);
    v.record_f64("f", Some(1.5f64.to_bits()));
    v.record_f64("nan", None);
    v.record_debug("d", format!("{:?}", Some(3)));
    v.record_str("s", "y");
    let f = v.fields;
    assert_eq!(f.get("s"), Some(&str_value("y")));
    assert_eq!(f.get("i"), Some(&FieldValue::I64(-5)));
    assert_eq!(f.get("u"), Some(&FieldValue::U64(5)));
    assert_eq!(f.get("b"), Some(&FieldValue::Bool(true)));
    assert_eq!(f.get("f"), Some(&FieldValue::F64Bits(1.5f64.to_bits())));
    assert_eq!(f.get("nan"), Some(&FieldValue::Null));
    assert_eq!(f.get("d"), Some(&str_value("Some(3)")));
    assert_eq!(f.entries().len(), 7);
}

#[test]
fn field_map_insert_remove() {
    let mut m = FieldMap::new();
    assert!(m.is_empty());
    m.insert("a".to_string(), FieldValue::Bool(false));
    m.insert("b".to_string(), FieldValue::I64(2));
    m.insert("a".to_string(), FieldValue::Bool(true));
    assert_eq!(m.entries().len(), 2);
    assert_eq!(m.remove("a"), Some(FieldValue::Bool(true)));
    assert_eq!(m.remove("a"), None);
    assert_eq!(m.get("b"), Some(&FieldValue::I64(2)));
    assert!(!m.is_empty());
    let mut base = FieldMap::new();
    base.insert("b".to_string(), FieldValue::I64(1));
    base.insert("message".to_string(), str_value("m"));
    let mut target = FieldMap::new();
    target.overlay(&base, true);
    assert_eq!(target.get("message"), None);
    target.overlay(&m, false);
    assert_eq!(target.get("b"), Some(&FieldValue::I64(2)));
}

#[test]
fn normalize_ts_cases() {
    assert_eq!(normalize_ts("2026-05-05T17:42:11.123456789Z"), "2026-05-05T17:42:11.123Z");
    assert_eq!(normalize_ts("2026-05-05T17:42:11.1Z"), "2026-05-05T17:42:11.100Z");
    assert_eq!(normalize_ts("2026-05-05T17:42:11Z"), "2026-05-05T17:42:11.000Z");
    assert_eq!(normalize_ts("2026-05-05T17:42:11.5+00:00"), "2026-05-05T17:42:11.500Z");
    assert_eq!(normalize_ts("2026-05-05T17:42:11-01:00"), "2026-05-05T17:42:11-01:00");
    assert_eq!(normalize_ts("1970-01-01T00:00:00Z"), "1970-01-01T00:00:00.000Z");
    assert_eq!(normalize_ts(""), "");
    assert_eq!(normalize_ts("x.éZ"), "x.é0Z");
    assert_eq!(normalize_ts("x.€Z"), "x.€Z");
}

#[test]
fn current_timestamp_has_rfc3339_shape() {
    let ts = current_rfc3339();
    assert!(ts.ends_with('Z'));
    assert_eq!(ts.chars().nth(10), Some('T'));
    assert!(ts.len() >= 20 && ts.len() <= 30);
    assert!(!ts.starts_with("1970"));
}

#[test]
fn trace_ids_are_w3c_hex() {
    let contexts = vec![
        (9u128, 9u64),
        (0x4bf92f3577b34da6a3ce929d0e0e4736u128, 0x00f067aa0ba902b7u64),
    ];
    let (trace_id, span_id) = extract_trace_ids(&contexts).expect("ids");
    assert_eq!(trace_id, "4bf92f3577b34da6a3ce929d0e0e4736");
    assert_eq!(span_id, "00f067aa0ba902b7");
    let small = extract_trace_ids(&vec![(1u128, 255u64)]).expect("ids");
    assert_eq!(small.0, "00000000000000000000000000000001");
    assert_eq!(small.1, "00000000000000ff");
    assert_eq!(extract_trace_ids(&vec![(1u128, 1u64), (0u128, 1u64)]), None);
    assert_eq!(extract_trace_ids(&vec![(1u128, 1u64), (1u128, 0u64)]), None);
    assert_eq!(extract_trace_ids(&vec![]), None);
}

#[test]
fn trace_ids_come_from_the_innermost_span() {
    let (trace_id, span_id) = extract_trace_ids(&vec![(1u128, 1u64), (1u128, 2u64)]).expect("ids");
    assert_eq!(trace_id, "00000000000000000000000000000001");
    assert_eq!(span_id, "0000000000000002");
}

#[test]
fn trace_ids_reach_the_event() {
    let l = layer();
    let ids = extract_trace_ids(&vec![(16u128, 17u64)]);
    let event = l.build_event("2026-05-05T17:42:11Z", Level::Info, FieldMap::new(), &vec![], ids);
    assert_eq!(event.trace_id, Some("00000000000000000000000000000010".to_string()));
    assert_eq!(event.span_id, Some("0000000000000011".to_string()));
    assert_eq!(event.timestamp, "2026-05-05T17:42:11.000Z");
    assert_eq!(l.service(), "test-service");
    assert_eq!(l.version(), "0.0.0-test");
}

#[test]
fn clock_readings_format_as_rfc3339_utc() {
    assert_eq!(rfc3339_from_clock(Ok(0)), "1970-01-01T00:00:00Z");
    assert_eq!(
        rfc3339_from_clock(Ok(1_546_300_800_000_000_000)),
        "2019-01-01T00:00:00Z"
    );
    assert_eq!(rfc3339_from_clock(Ok(1_500_000_000)), "1970-01-01T00:00:01.5Z");
    assert_eq!(rfc3339_from_clock(Err(1)), "1969-12-31T23:59:59.999999999Z");
    assert_eq!(
        rfc3339_from_clock(Ok(253_402_300_799_999_999_999)),
        "9999-12-31T23:59:59.999999999Z"
    );
    assert_eq!(
        rfc3339_from_clock(Ok(253_402_300_800_000_000_000)),
        "1970-01-01T00:00:00Z"
    );
    assert_eq!(rfc3339_from_clock(Err(u128::MAX)), "1970-01-01T00:00:00Z");
    assert_eq!(
        normalize_ts(&rfc3339_from_clock(Ok(1_546_300_800_123_456_789))),
        "2019-01-01T00:00:00.123Z"
    );
}

#[test]
fn pipeline_filters_by_level_and_keeps_settings() {
    let settings = Settings {
        level: LevelFilter::Warn,
        service: "builder-test".to_string(),
        version: "9.9.9".to_string(),
    };
    let pipeline = Pipeline::new(settings, ());
    assert!(!pipeline.enabled(Level::Trace));
    assert!(!pipeline.enabled(Level::Debug));
    assert!(!pipeline.enabled(Level::Info));
    assert!(pipeline.enabled(Level::Warn));
    assert!(pipeline.enabled(Level::Error));
    let ts = "2026-05-05T17:42:11Z";
    assert!(pipeline
        .event(ts, Level::Info, message_only("filtered out by level"), &vec![], None)
        .is_none());
    let mut ev = JsonVisitor::new();
    ev.record_str("reason", "downstream slow");
    ev.record_str("message", "service degraded");
    let warn = pipeline
        .event(ts, Level::Warn, ev.fields, &vec![], None)
        .expect("warn passes");
    assert_eq!(warn.level, "warn");
    assert_eq!(warn.service, "builder-test");
    assert_eq!(warn.version, "9.9.9");
    assert_eq!(warn.message, str_value("service degraded"));
    assert_eq!(
        warn.context.expect("context").get("reason"),
        Some(&str_value("downstream slow"))
    );
    let error = pipeline
        .event(ts, Level::Error, message_only("hard fail"), &vec![], None)
        .expect("error passes");
    assert_eq!(error.level, "error");
    assert_eq!(pipeline.layer().service(), "builder-test");
}

#[test]
fn level_filters_admit_at_least_their_level() {
    assert!(LevelFilter::Debug.admits(Level::Debug));
    assert!(!LevelFilter::Debug.admits(Level::Trace));
    assert!(LevelFilter::Info.admits(Level::Error));
    assert!(!LevelFilter::Error.admits(Level::Warn));
    assert!(LevelFilter::Error.admits(Level::Error));
}

#[test]
fn own_trace_context_of_spans() {
    assert_eq!(own_trace_context(true, 7, Some(9), Some(3)), (7, 3));
    assert_eq!(own_trace_context(false, 7, Some(9), Some(3)), (9, 3));
    assert_eq!(own_trace_context(false, 7, None, None), (0, 0));
}
