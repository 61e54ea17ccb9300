use log_resolver_rs::encoding::get_encoding_from_label;
use log_resolver_rs::error::ParseError;
use log_resolver_rs::header::{parse_header, parse_log_block, AttrMap, LogHeader};
use log_resolver_rs::models::{LogParserField, LogParserPattern, LogParserRule, SubsysLogParser,
    SysSubsysConfig};
use log_resolver_rs::store::ConfigStore;
use log_resolver_rs::util::{is_empty, str_eq, trim_str, IsEmpty};

#[test]
fn tokenizer_takes_every_token() {
    let m = parse_header("[[a=1][b=2]]");
    assert_eq!(m.get("a").unwrap(), "1");
    assert_eq!(m.get("b").unwrap(), "2");
    assert_eq!(m.get("c"), None);
}

#[test]
fn tokenizer_duplicate_key_last_wins() {
    let m = parse_header("[[a=1][a=2]]");
    assert_eq!(m.get("a").unwrap(), "2");
}

#[test]
fn tokenizer_skips_malformed_tokens() {
    // a token with no key, one with no terminator, stray text
    let m = parse_header("junk[=v][a=1] loose [b=2][c=");
    assert_eq!(m.get("a").unwrap(), "1");
    assert_eq!(m.get("b").unwrap(), "2");
    assert_eq!(m.get(""), None);
    assert_eq!(m.get("c"), None);
}

#[test]
fn tokenizer_empty_value_is_permitted() {
    let m = parse_header("[a=]");
    assert_eq!(m.get("a").unwrap(), "");
}

#[test]
fn tokenizer_key_may_hold_dots_and_spaces() {
    let m = parse_header("[fields0.SUBSYSCODE=X][k v=w w]");
    assert_eq!(m.get("fields0.SUBSYSCODE").unwrap(), "X");
    assert_eq!(m.get("k v").unwrap(), "w w");
}

#[test]
fn tokenizer_reparse_same_text_same_map() {
    let text = "[[x=1][y=2][x=3]]";
    let m1 = parse_header(text);
    let m2 = parse_header(text);
    assert_eq!(m1.get("x"), m2.get("x"));
    assert_eq!(m1.get("y"), m2.get("y"));
    assert_eq!(m1.get("x").unwrap(), "3");
}

#[test]
fn log_block_splits_header_and_trimmed_body() {
    let (attrs, body) = parse_log_block("[[[a=1][b=2] ]]  payload text \n").unwrap();
    assert_eq!(attrs.get("a").unwrap(), "1");
    assert_eq!(attrs.get("b").unwrap(), "2");
    assert_eq!(body, "payload text");
}

#[test]
fn log_block_without_opening_brackets_is_none() {
    assert!(parse_log_block("a=1]]body").is_none());
    assert!(parse_log_block("").is_none());
    assert!(parse_log_block("[[never closed").is_none());
}

#[test]
fn log_block_empty_header_and_body() {
    let (attrs, body) = parse_log_block("[[]]").unwrap();
    assert!(attrs.get("a").is_none());
    assert_eq!(body, "");
}

#[test]
fn trim_removes_surrounding_whitespace() {
    assert_eq!(trim_str("  x y  "), "x y");
    assert_eq!(trim_str("\t\n"), "");
    assert_eq!(trim_str(""), "");
    assert_eq!(trim_str("x"), "x");
    assert_eq!(trim_str("\u{3000}wide\u{3000}"), "wide");
}

#[test]
fn attrmap_insert_overwrites() {
    let mut m = AttrMap::new();
    m.insert("k".to_string(), "v1".to_string());
    m.insert("k".to_string(), "v2".to_string());
    assert_eq!(m.get("k").unwrap(), "v2");
    let d = m.duplicate();
    assert_eq!(d.get("k").unwrap(), "v2");
}

#[test]
fn header_defaults_to_utf8() {
    let h = LogHeader::from_bytes(b"[[a=1]]").unwrap();
    assert_eq!(h.encode, "UTF-8");
}

#[test]
fn header_resolves_declared_encoding_case_insensitively() {
    let h = LogHeader::from_bytes(b"[[encode=UTF8]]").unwrap();
    assert_eq!(h.encode, "UTF-8");
    let h = LogHeader::from_bytes(b"[[encode=Latin1]]").unwrap();
    assert_eq!(h.encode, "windows-1252");
}

#[test]
fn encoding_lookup_canonical_names() {
    assert_eq!(get_encoding_from_label("utf-8").unwrap(), "UTF-8");
    assert_eq!(get_encoding_from_label("UTF8").unwrap(), "UTF-8");
    assert_eq!(get_encoding_from_label("gbk").unwrap(), "GBK");
    assert_eq!(get_encoding_from_label("GB18030").unwrap(), "gb18030");
    assert_eq!(get_encoding_from_label("latin1").unwrap(), "windows-1252");
    assert_eq!(get_encoding_from_label("windows-1252").unwrap(), "windows-1252");
    assert_eq!(get_encoding_from_label("bogus-7"), None);
}

#[test]
fn store_lookups_find_first_match() {
    let st = ConfigStore::new(
        vec![
            SysSubsysConfig {
                id: 1,
                sys_code: "SYS".to_string(),
                sys_name: None,
                subsys_code: "A".to_string(),
                subsys_name: Some("first".to_string()),
            },
            SysSubsysConfig {
                id: 2,
                sys_code: "SYS".to_string(),
                sys_name: None,
                subsys_code: "A".to_string(),
                subsys_name: Some("second".to_string()),
            },
        ],
        vec![
            SubsysLogParser {
                id: 1,
                subsys_code: "A".to_string(),
                log_parser_rule_id: 7,
                file_name: None,
                status: true,
                log_split: None,
                source_topic: "t".to_string(),
            },
            SubsysLogParser {
                id: 2,
                subsys_code: "A".to_string(),
                log_parser_rule_id: 8,
                file_name: None,
                status: false,
                log_split: None,
                source_topic: "t".to_string(),
            },
        ],
        vec![LogParserRule { id: 7, name: Some("r".to_string()), status: true, chinese_name: None }],
        vec![
            LogParserPattern { id: 1, log_parser_rule_id: 7, name: None, pattern: None },
            LogParserPattern { id: 2, log_parser_rule_id: 9, name: None, pattern: None },
            LogParserPattern { id: 3, log_parser_rule_id: 7, name: None, pattern: None },
        ],
        vec![
            LogParserField {
                id: 1,
                log_parser_rule_id: 7,
                name: None,
                name_in_capture: "ts".to_string(),
                type_: 10,
                format_pattern: None,
                default_val: None,
                is_sensitive: None,
            },
            LogParserField {
                id: 2,
                log_parser_rule_id: 7,
                name: None,
                name_in_capture: "ts".to_string(),
                type_: 0,
                format_pattern: None,
                default_val: None,
                is_sensitive: None,
            },
        ],
    );
    assert_eq!(st.subsystem_config("A").unwrap().id, 1);
    assert!(st.subsystem_config("B").is_none());
    let bindings = st.active_parser_bindings("A");
    assert_eq!(bindings.len(), 1);
    assert_eq!(bindings[0].id, 1);
    let patterns = st.query_by_log_parser_rule_id(7);
    assert_eq!(patterns.len(), 2);
    assert_eq!(patterns[0].id, 1);
    assert_eq!(patterns[1].id, 3);
    assert_eq!(st.query_by_id(7).unwrap().name.as_deref(), Some("r"));
    assert!(st.query_by_id(99).is_none());
    let f = st.query_by_log_parser_rule_id_and_name_in_capture(7, "ts").unwrap();
    assert_eq!(f.id, 1);
    assert!(st.query_by_log_parser_rule_id_and_name_in_capture(7, "other").is_none());
}

#[test]
fn is_empty_blank_and_null() {
    assert!(is_empty(""));
    assert!(is_empty("   \t\n"));
    assert!(is_empty("null"));
    assert!(is_empty("NULL"));
    assert!(is_empty("Null"));
    assert!(!is_empty("x"));
    assert!(!is_empty(" null "));
    assert!(!is_empty("nil"));
    assert!(<String as IsEmpty<String>>::is_empty("null".to_string()));
    assert!(!<String as IsEmpty<String>>::is_empty("set".to_string()));
}

#[test]
fn str_eq_compares_characters() {
    assert!(str_eq("abc", "abc"));
    assert!(!str_eq("abc", "abd"));
    assert!(!str_eq("abc", "ab"));
    assert!(str_eq("", ""));
}

#[test]
fn parse_error_carries_messages() {
    let e = ParseError::new("boom");
    assert_eq!(e.message, "boom");
    assert!(e.source.is_none());
    let e = ParseError::with_source("outer", "inner");
    assert_eq!(e.message, "outer");
    assert_eq!(e.source.as_deref(), Some("inner"));
}

#[test]
fn parse_error_describes_itself() {
    assert_eq!(ParseError::new("boom").describe(), "boom");
    assert_eq!(ParseError::with_source("outer", "inner").describe(), "outer: inner");
}
