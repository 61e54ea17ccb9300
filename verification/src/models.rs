use vstd::prelude::*;

use crate::header::{HeaderView, LogHeader};

verus! {

/// One subsystem row: the producing application and its codes.
#[derive(Debug, Clone)]
pub struct SysSubsysConfig {
    pub id: u64,
    pub sys_code: String,
    pub sys_name: Option<String>,
    pub subsys_code: String,
    pub subsys_name: Option<String>,
}

/// One binding row: an active association between a subsystem and a parser
/// rule.
#[derive(Debug, Clone)]
pub struct SubsysLogParser {
    pub id: u64,
    pub subsys_code: String,
    pub log_parser_rule_id: u64,
    pub file_name: Option<String>,
    pub status: bool,
    pub log_split: Option<String>,
    pub source_topic: String,
}

/// One parser rule row: a named group of patterns and field definitions.
#[derive(Debug, Clone)]
pub struct LogParserRule {
    pub id: u64,
    pub name: Option<String>,
    pub status: bool,
    pub chinese_name: Option<String>,
}

/// One pattern row: a regular-expression source belonging to a rule.
#[derive(Debug, Clone)]
pub struct LogParserPattern {
    pub id: u64,
    pub log_parser_rule_id: u64,
    pub name: Option<String>,
    pub pattern: Option<String>,
}

/// One field row: how the text a named capture group matches is typed.
/// `type_` 0 is a plain attribute and 10 a timestamp; the trailing
/// underscore keeps the stored column name, which is a keyword here.
#[derive(Debug, Clone)]
pub struct LogParserField {
    pub id: u64,
    pub log_parser_rule_id: u64,
    pub name: Option<String>,
    pub name_in_capture: String,
    pub type_: i32,
    pub format_pattern: Option<String>,
    pub default_val: Option<String>,
    pub is_sensitive: Option<bool>,
}

/// An owned copy of an optional string, equal in value.
pub fn dup_opt_string(s: &Option<String>) -> (r: Option<String>)
    ensures
        r == *s,
{
    match s {
        Some(x) => Some(x.clone()),
        None => None,
    }
}

impl SubsysLogParser {
    /// An owned copy equal in value.
    pub fn duplicate(&self) -> (r: Self)
        ensures
            r == *self,
    {
        SubsysLogParser {
            id: self.id,
            subsys_code: self.subsys_code.clone(),
            log_parser_rule_id: self.log_parser_rule_id,
            file_name: dup_opt_string(&self.file_name),
            status: self.status,
            log_split: dup_opt_string(&self.log_split),
            source_topic: self.source_topic.clone(),
        }
    }
}

impl LogParserPattern {
    /// An owned copy equal in value.
    pub fn duplicate(&self) -> (r: Self)
        ensures
            r == *self,
    {
        LogParserPattern {
            id: self.id,
            log_parser_rule_id: self.log_parser_rule_id,
            name: dup_opt_string(&self.name),
            pattern: dup_opt_string(&self.pattern),
        }
    }
}

/// The mathematical content of one produced log entry.
pub ghost struct LogView {
    pub date_time: i64,
    pub log_header: HeaderView,
    pub log_content: Seq<char>,
}

/// One structured log entry, produced for one successful pattern match:
/// the entry's timestamp in milliseconds, its header (whose attribute map
/// also carries the typed capture attributes), and the decoded body.
#[derive(Debug)]
pub struct Log {
    pub date_time: i64,
    pub log_header: LogHeader,
    pub log_content: String,
}

impl View for Log {
    type V = LogView;

    open spec fn view(&self) -> LogView {
        LogView {
            date_time: self.date_time,
            log_header: self.log_header@,
            log_content: self.log_content@,
        }
    }
}

/// A split record before pattern matching: the parsed header and the
/// decoded body text.
#[derive(Debug)]
pub struct ParsedLog {
    pub header: LogHeader,
    pub log_content: String,
}

} // verus!
