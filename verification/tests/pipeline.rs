use log_resolver_rs::error::RecordError;
use log_resolver_rs::header::LogHeader;
use log_resolver_rs::models::{LogParserField, LogParserPattern, LogParserRule, SubsysLogParser};
use log_resolver_rs::parser::parse_log;
use log_resolver_rs::store::ConfigStore;

const NOW: i64 = 1_700_000_000_000;

fn binding(id: u64, subsys_code: &str, rule_id: u64, status: bool) -> SubsysLogParser {
    SubsysLogParser {
        id,
        subsys_code: subsys_code.to_string(),
        log_parser_rule_id: rule_id,
        file_name: None,
        status,
        log_split: None,
        source_topic: "topic".to_string(),
    }
}

fn pattern(id: u64, rule_id: u64, source: Option<&str>) -> LogParserPattern {
    LogParserPattern {
        id,
        log_parser_rule_id: rule_id,
        name: None,
        pattern: source.map(|s| s.to_string()),
    }
}

fn field(
    id: u64,
    rule_id: u64,
    name_in_capture: &str,
    type_: i32,
    format_pattern: Option<&str>,
) -> LogParserField {
    LogParserField {
        id,
        log_parser_rule_id: rule_id,
        name: None,
        name_in_capture: name_in_capture.to_string(),
        type_,
        format_pattern: format_pattern.map(|s| s.to_string()),
        default_val: None,
        is_sensitive: None,
    }
}

fn rule(id: u64) -> LogParserRule {
    LogParserRule { id, name: None, status: true, chinese_name: None }
}

fn store(
    bindings: Vec<SubsysLogParser>,
    patterns: Vec<LogParserPattern>,
    fields: Vec<LogParserField>,
) -> ConfigStore {
    ConfigStore::new(Vec::new(), bindings, vec![rule(1), rule(2)], patterns, fields)
}

fn attr(log: &log_resolver_rs::models::Log, key: &str) -> Option<String> {
    log.log_header.attr.get(key).cloned()
}

#[test]
fn malformed_record_no_terminator() {
    let st = store(Vec::new(), Vec::new(), Vec::new());
    let raw: Vec<u8> = b"no terminator here [not=closed".to_vec();
    let r = parse_log(&st, &raw, NOW);
    assert_eq!(r.unwrap_err(), RecordError::MalformedRecord);
}

#[test]
fn empty_buffer_is_malformed() {
    let st = store(Vec::new(), Vec::new(), Vec::new());
    let raw: Vec<u8> = Vec::new();
    assert_eq!(parse_log(&st, &raw, NOW).unwrap_err(), RecordError::MalformedRecord);
}

#[test]
fn header_not_utf8_rejected() {
    let st = store(Vec::new(), Vec::new(), Vec::new());
    let raw: Vec<u8> = vec![b'[', b'[', 0xFF, b']', b']'];
    assert_eq!(parse_log(&st, &raw, NOW).unwrap_err(), RecordError::HeaderEncoding);
}

#[test]
fn unknown_encoding_rejected() {
    let st = store(Vec::new(), Vec::new(), Vec::new());
    let raw: Vec<u8> = b"[[encode=bogus-7]]body".to_vec();
    assert_eq!(parse_log(&st, &raw, NOW).unwrap_err(), RecordError::UnsupportedEncoding);
}

#[test]
fn zero_active_bindings_yield_empty_list() {
    // a binding for another subsystem and an inactive one for this subsystem
    let st = store(
        vec![binding(1, "OTHER", 1, true), binding(2, "SUBSYS_TEST", 1, false)],
        vec![pattern(1, 1, Some("(?s).*"))],
        Vec::new(),
    );
    let raw: Vec<u8> = b"[[subsyscode=SUBSYS_TEST]]anything".to_vec();
    let logs = parse_log(&st, &raw, NOW).unwrap();
    assert_eq!(logs.len(), 0);
}

#[test]
fn end_to_end_scenario() {
    let st = store(
        vec![binding(1, "SUBSYS_TEST", 1, true)],
        vec![pattern(1, 1, Some("\\|INFO\\| (?P<msg>MSG)"))],
        Vec::new(),
    );
    let raw: Vec<u8> =
        b"[[subsyscode=SUBSYS_TEST][encode=utf-8]]2025-01-01 22:22:22.222 |INFO| MSG".to_vec();
    let logs = parse_log(&st, &raw, NOW).unwrap();
    assert_eq!(logs.len(), 1);
    let log = &logs[0];
    assert_eq!(attr(log, "subsyscode").unwrap(), "SUBSYS_TEST");
    assert_eq!(attr(log, "encode").unwrap(), "utf-8");
    assert_eq!(attr(log, "msg").unwrap(), "MSG");
    assert_eq!(log.date_time, NOW);
    assert_eq!(log.log_header.subsys_code, "SUBSYS_TEST");
    assert_eq!(log.log_header.encode, "UTF-8");
    assert_eq!(log.log_content, "2025-01-01 22:22:22.222 |INFO| MSG");
}

#[test]
fn timestamp_field_sets_entry_time() {
    let st = store(
        vec![binding(1, "S", 1, true)],
        vec![pattern(1, 1, Some("(?P<ts>\\d{4}-\\d{2}-\\d{2} \\d{2}:\\d{2}:\\d{2})"))],
        vec![field(1, 1, "ts", 10, Some("%Y-%m-%d %H:%M:%S"))],
    );
    let raw: Vec<u8> = b"[[subsyscode=S]]2025-01-01 22:22:22 hello".to_vec();
    let logs = parse_log(&st, &raw, NOW).unwrap();
    assert_eq!(logs.len(), 1);
    let expected = chrono::NaiveDateTime::parse_from_str("2025-01-01 22:22:22", "%Y-%m-%d %H:%M:%S")
        .unwrap()
        .and_utc()
        .timestamp_millis();
    assert_eq!(logs[0].date_time, expected);
}

#[test]
fn nonconforming_timestamp_leaves_default() {
    let st = store(
        vec![binding(1, "S", 1, true)],
        vec![pattern(1, 1, Some("(?P<ts>[a-z]+)"))],
        vec![field(1, 1, "ts", 10, Some("%Y-%m-%d %H:%M:%S"))],
    );
    let raw: Vec<u8> = b"[[subsyscode=S]]notadate".to_vec();
    let logs = parse_log(&st, &raw, NOW).unwrap();
    assert_eq!(logs.len(), 1);
    assert_eq!(logs[0].date_time, NOW);
}

#[test]
fn timestamp_field_without_format_leaves_default() {
    let st = store(
        vec![binding(1, "S", 1, true)],
        vec![pattern(1, 1, Some("(?P<ts>.+)"))],
        vec![field(1, 1, "ts", 10, None)],
    );
    let raw: Vec<u8> = b"[[subsyscode=S]]2025-01-01 22:22:22".to_vec();
    let logs = parse_log(&st, &raw, NOW).unwrap();
    assert_eq!(logs.len(), 1);
    assert_eq!(logs[0].date_time, NOW);
}

#[test]
fn unbound_group_becomes_attribute() {
    let st = store(
        vec![binding(1, "S", 1, true)],
        vec![pattern(1, 1, Some("level=(?P<level>[A-Z]+)"))],
        Vec::new(),
    );
    let raw: Vec<u8> = b"[[subsyscode=S]]level=WARN rest".to_vec();
    let logs = parse_log(&st, &raw, NOW).unwrap();
    assert_eq!(logs.len(), 1);
    assert_eq!(attr(&logs[0], "level").unwrap(), "WARN");
}

#[test]
fn type_zero_field_is_plain_attribute() {
    let st = store(
        vec![binding(1, "S", 1, true)],
        vec![pattern(1, 1, Some("user=(?P<user>\\w+)"))],
        vec![field(1, 1, "user", 0, None)],
    );
    let raw: Vec<u8> = b"[[subsyscode=S]]user=alex".to_vec();
    let logs = parse_log(&st, &raw, NOW).unwrap();
    assert_eq!(attr(&logs[0], "user").unwrap(), "alex");
}

#[test]
fn unsupported_field_type_skips_group_but_keeps_entry() {
    let st = store(
        vec![binding(1, "S", 1, true)],
        vec![pattern(1, 1, Some("user=(?P<user>\\w+)"))],
        vec![field(1, 1, "user", 5, None)],
    );
    let raw: Vec<u8> = b"[[subsyscode=S]]user=alex".to_vec();
    let logs = parse_log(&st, &raw, NOW).unwrap();
    assert_eq!(logs.len(), 1);
    assert_eq!(attr(&logs[0], "user"), None);
    assert_eq!(logs[0].date_time, NOW);
}

#[test]
fn optional_group_without_value_writes_nothing() {
    let st = store(
        vec![binding(1, "S", 1, true)],
        vec![pattern(1, 1, Some("a(?P<opt>b)? c=(?P<c>\\d)"))],
        Vec::new(),
    );
    let raw: Vec<u8> = b"[[subsyscode=S]]a c=7".to_vec();
    let logs = parse_log(&st, &raw, NOW).unwrap();
    assert_eq!(logs.len(), 1);
    assert_eq!(attr(&logs[0], "opt"), None);
    assert_eq!(attr(&logs[0], "c").unwrap(), "7");
}

#[test]
fn bad_pattern_is_skipped_not_fatal() {
    let st = store(
        vec![binding(1, "S", 1, true)],
        vec![pattern(1, 1, Some("(unclosed")), pattern(2, 1, Some("ok"))],
        Vec::new(),
    );
    let raw: Vec<u8> = b"[[subsyscode=S]]ok then".to_vec();
    let logs = parse_log(&st, &raw, NOW).unwrap();
    assert_eq!(logs.len(), 1);
}

#[test]
fn absent_pattern_source_matches_everything() {
    // a row with no source compiles as the empty pattern, which matches
    let st = store(vec![binding(1, "S", 1, true)], vec![pattern(1, 1, None)], Vec::new());
    let raw: Vec<u8> = b"[[subsyscode=S]]whatever".to_vec();
    let logs = parse_log(&st, &raw, NOW).unwrap();
    assert_eq!(logs.len(), 1);
    assert_eq!(logs[0].log_content, "whatever");
}

#[test]
fn nonmatching_pattern_produces_nothing() {
    let st = store(
        vec![binding(1, "S", 1, true)],
        vec![pattern(1, 1, Some("absent"))],
        Vec::new(),
    );
    let raw: Vec<u8> = b"[[subsyscode=S]]something else".to_vec();
    let logs = parse_log(&st, &raw, NOW).unwrap();
    assert_eq!(logs.len(), 0);
}

#[test]
fn entries_come_in_binding_then_pattern_order() {
    let st = store(
        vec![binding(1, "S", 1, true), binding(2, "S", 2, true)],
        vec![
            pattern(1, 1, Some("x=(?P<a>1)")),
            pattern(2, 1, Some("x=(?P<b>1)x")),
            pattern(3, 2, Some("x=(?P<c>1)xy")),
        ],
        Vec::new(),
    );
    let raw: Vec<u8> = b"[[subsyscode=S]]x=1xyz".to_vec();
    let logs = parse_log(&st, &raw, NOW).unwrap();
    assert_eq!(logs.len(), 3);
    assert_eq!(attr(&logs[0], "a").unwrap(), "1");
    assert_eq!(attr(&logs[1], "b").unwrap(), "1");
    assert_eq!(attr(&logs[2], "c").unwrap(), "1");
}

#[test]
fn duplicate_header_keys_last_wins_end_to_end() {
    let st = store(vec![binding(1, "S", 1, true)], vec![pattern(1, 1, None)], Vec::new());
    let raw: Vec<u8> = b"[[subsyscode=S][a=1][a=2]]body".to_vec();
    let logs = parse_log(&st, &raw, NOW).unwrap();
    assert_eq!(attr(&logs[0], "a").unwrap(), "2");
}

#[test]
fn fields0_subsyscode_takes_precedence() {
    let st = store(
        vec![binding(1, "FIRST", 1, true), binding(2, "SECOND", 1, true)],
        vec![pattern(1, 1, None)],
        Vec::new(),
    );
    let raw: Vec<u8> = b"[[fields0.SUBSYSCODE=FIRST][subsyscode=SECOND]]x".to_vec();
    let logs = parse_log(&st, &raw, NOW).unwrap();
    assert_eq!(logs.len(), 1);
    assert_eq!(logs[0].log_header.subsys_code, "FIRST");
}

#[test]
fn missing_subsyscode_falls_back_to_null() {
    let st = store(vec![binding(1, "null", 1, true)], vec![pattern(1, 1, None)], Vec::new());
    let raw: Vec<u8> = b"[[a=1]]x".to_vec();
    let logs = parse_log(&st, &raw, NOW).unwrap();
    assert_eq!(logs.len(), 1);
    assert_eq!(logs[0].log_header.subsys_code, "null");
}

#[test]
fn latin1_body_is_decoded_via_windows_1252() {
    let st = store(vec![binding(1, "S", 1, true)], vec![pattern(1, 1, Some("(?s).*"))], Vec::new());
    let mut raw: Vec<u8> = b"[[subsyscode=S][encode=latin1]]caf".to_vec();
    raw.push(0xE9);
    let logs = parse_log(&st, &raw, NOW).unwrap();
    assert_eq!(logs.len(), 1);
    assert_eq!(logs[0].log_header.encode, "windows-1252");
    assert_eq!(logs[0].log_content, "caf\u{e9}");
}

#[test]
fn gbk_body_is_decoded() {
    let st = store(vec![binding(1, "S", 1, true)], vec![pattern(1, 1, Some("(?s).*"))], Vec::new());
    let mut raw: Vec<u8> = b"[[subsyscode=S][encode=GBK]]".to_vec();
    raw.push(0xC4);
    raw.push(0xE3);
    let logs = parse_log(&st, &raw, NOW).unwrap();
    assert_eq!(logs.len(), 1);
    assert_eq!(logs[0].log_header.encode, "GBK");
    assert_eq!(logs[0].log_content, "\u{4f60}");
}

#[test]
fn invalid_utf8_body_is_replaced_not_fatal() {
    let st = store(vec![binding(1, "S", 1, true)], vec![pattern(1, 1, Some("(?s).*"))], Vec::new());
    let mut raw: Vec<u8> = b"[[subsyscode=S]]ab".to_vec();
    raw.push(0xFF);
    let logs = parse_log(&st, &raw, NOW).unwrap();
    assert_eq!(logs.len(), 1);
    assert_eq!(logs[0].log_content, "ab\u{fffd}");
}

#[test]
fn tokenizer_idempotent_on_header_segment() {
    let raw: Vec<u8> = b"[[subsyscode=S][a=1][a=2]]tail]]more".to_vec();
    let pos = raw.windows(2).position(|w| w == b"]]").unwrap();
    let segment: Vec<u8> = raw[..pos + 2].to_vec();
    let first = LogHeader::from_bytes(&segment).unwrap();
    // splitting the header segment again finds the same terminator, so the
    // re-extracted header segment is the whole segment
    let pos2 = segment.windows(2).position(|w| w == b"]]").unwrap();
    assert_eq!(pos2, pos);
    let again = LogHeader::from_bytes(&segment[..pos2 + 2]).unwrap();
    assert_eq!(first.subsys_code, again.subsys_code);
    assert_eq!(first.encode, again.encode);
    assert_eq!(first.attr.get("a"), again.attr.get("a"));
    assert_eq!(first.attr.get("subsyscode"), again.attr.get("subsyscode"));
    assert_eq!(first.attr.get("a").unwrap(), "2");
}
