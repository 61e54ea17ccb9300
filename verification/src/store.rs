use vstd::prelude::*;

use crate::models::{LogParserField, LogParserPattern, LogParserRule, SubsysLogParser,
    SysSubsysConfig};
use crate::util::str_eq;

verus! {

// ---------------------------------------------------------------------------
// Lookup semantics over the five configuration tables, held in memory in
// table order.  Every lookup is read-only and idempotent.
// ---------------------------------------------------------------------------
/// The active bindings of one subsystem, in table order.
pub open spec fn spec_active_bindings(rows: Seq<SubsysLogParser>, code: Seq<char>) -> Seq<
    SubsysLogParser,
>
    decreases rows.len(),
{
    if rows.len() == 0 {
        Seq::empty()
    } else {
        let rest = spec_active_bindings(rows.drop_first(), code);
        if rows.first().subsys_code@ == code && rows.first().status {
            seq![rows.first()] + rest
        } else {
            rest
        }
    }
}

/// The patterns of one rule, in table order.
pub open spec fn spec_patterns_for(rows: Seq<LogParserPattern>, rule_id: u64) -> Seq<
    LogParserPattern,
>
    decreases rows.len(),
{
    if rows.len() == 0 {
        Seq::empty()
    } else {
        let rest = spec_patterns_for(rows.drop_first(), rule_id);
        if rows.first().log_parser_rule_id == rule_id {
            seq![rows.first()] + rest
        } else {
            rest
        }
    }
}

/// The first field row of a rule with a given capture name, if any.
pub open spec fn spec_find_field(rows: Seq<LogParserField>, rule_id: u64, name: Seq<char>) -> Option<
    LogParserField,
>
    decreases rows.len(),
{
    if rows.len() == 0 {
        None
    } else if rows.first().log_parser_rule_id == rule_id && rows.first().name_in_capture@
        == name {
        Some(rows.first())
    } else {
        spec_find_field(rows.drop_first(), rule_id, name)
    }
}

/// The first rule row with a given id, if any.
pub open spec fn spec_find_rule(rows: Seq<LogParserRule>, id: u64) -> Option<LogParserRule>
    decreases rows.len(),
{
    if rows.len() == 0 {
        None
    } else if rows.first().id == id {
        Some(rows.first())
    } else {
        spec_find_rule(rows.drop_first(), id)
    }
}

/// The first subsystem row with a given code, if any.
pub open spec fn spec_find_subsys(rows: Seq<SysSubsysConfig>, code: Seq<char>) -> Option<
    SysSubsysConfig,
>
    decreases rows.len(),
{
    if rows.len() == 0 {
        None
    } else if rows.first().subsys_code@ == code {
        Some(rows.first())
    } else {
        spec_find_subsys(rows.drop_first(), code)
    }
}

/// The five configuration tables, loaded once and read by the pipeline.
/// Loading them eagerly also serves as the rule-scoped cache: no lookup
/// leaves the process.
pub struct ConfigStore {
    pub sys_subsys_configs: Vec<SysSubsysConfig>,
    pub subsys_log_parsers: Vec<SubsysLogParser>,
    pub log_parser_rules: Vec<LogParserRule>,
    pub log_parser_patterns: Vec<LogParserPattern>,
    pub log_parser_fields: Vec<LogParserField>,
}

impl ConfigStore {
    pub fn new(
        sys_subsys_configs: Vec<SysSubsysConfig>,
        subsys_log_parsers: Vec<SubsysLogParser>,
        log_parser_rules: Vec<LogParserRule>,
        log_parser_patterns: Vec<LogParserPattern>,
        log_parser_fields: Vec<LogParserField>,
    ) -> (r: Self)
        ensures
            r.sys_subsys_configs == sys_subsys_configs,
            r.subsys_log_parsers == subsys_log_parsers,
            r.log_parser_rules == log_parser_rules,
            r.log_parser_patterns == log_parser_patterns,
            r.log_parser_fields == log_parser_fields,
    {
        ConfigStore {
            sys_subsys_configs,
            subsys_log_parsers,
            log_parser_rules,
            log_parser_patterns,
            log_parser_fields,
        }
    }

    /// The one subsystem row for a code, if present.
    pub fn subsystem_config(&self, subsys_code: &str) -> (r: Option<&SysSubsysConfig>)
        ensures
            match r {
                Some(c) => spec_find_subsys(self.sys_subsys_configs@, subsys_code@) == Some(*c),
                None => spec_find_subsys(self.sys_subsys_configs@, subsys_code@) is None,
            },
    {
        let n = self.sys_subsys_configs.len();
        let mut i: usize = 0;
        proof {
            assert(self.sys_subsys_configs@.skip(0) =~= self.sys_subsys_configs@);
        }
        while i < n
            invariant
                0 <= i <= n,
                n == self.sys_subsys_configs.len(),
                spec_find_subsys(self.sys_subsys_configs@, subsys_code@) == spec_find_subsys(
                    self.sys_subsys_configs@.skip(i as int),
                    subsys_code@,
                ),
            decreases n - i,
        {
            let ghost rows = self.sys_subsys_configs@;
            proof {
                assert(rows.skip(i as int).first() == rows[i as int]);
                assert(rows.skip(i as int).drop_first() =~= rows.skip(i as int + 1));
            }
            if str_eq(self.sys_subsys_configs[i].subsys_code.as_str(), subsys_code) {
                return Some(&self.sys_subsys_configs[i]);
            }
            i += 1;
        }
        proof {
            assert(self.sys_subsys_configs@.skip(i as int) =~= Seq::<SysSubsysConfig>::empty());
        }
        None
    }

    /// All active bindings of a subsystem, in table order.
    pub fn active_parser_bindings(&self, subsys_code: &str) -> (r: Vec<SubsysLogParser>)
        ensures
            r@ == spec_active_bindings(self.subsys_log_parsers@, subsys_code@),
    {
        let ghost rows = self.subsys_log_parsers@;
        let n = self.subsys_log_parsers.len();
        let mut out: Vec<SubsysLogParser> = Vec::new();
        let mut i: usize = 0;
        proof {
            assert(rows.skip(0) =~= rows);
            assert(out@ + spec_active_bindings(rows, subsys_code@) =~= spec_active_bindings(
                rows,
                subsys_code@,
            ));
        }
        while i < n
            invariant
                0 <= i <= n,
                n == rows.len(),
                rows == self.subsys_log_parsers@,
                out@ + spec_active_bindings(rows.skip(i as int), subsys_code@)
                    == spec_active_bindings(rows, subsys_code@),
            decreases n - i,
        {
            proof {
                assert(rows.skip(i as int).first() == rows[i as int]);
                assert(rows.skip(i as int).drop_first() =~= rows.skip(i as int + 1));
            }
            let row = &self.subsys_log_parsers[i];
            if row.status {
                if str_eq(row.subsys_code.as_str(), subsys_code) {
                    let ghost old_out = out@;
                    out.push(row.duplicate());
                    proof {
                        assert(old_out + (seq![rows[i as int]] + spec_active_bindings(
                            rows.skip(i as int + 1),
                            subsys_code@,
                        )) =~= out@ + spec_active_bindings(rows.skip(i as int + 1), subsys_code@));
                    }
                }
            }
            i += 1;
        }
        proof {
            assert(rows.skip(i as int) =~= Seq::<SubsysLogParser>::empty());
            assert(out@ + spec_active_bindings(rows.skip(i as int), subsys_code@) =~= out@);
        }
        out
    }

    /// All patterns of a rule, in table order.
    pub fn query_by_log_parser_rule_id(&self, id: u64) -> (r: Vec<LogParserPattern>)
        ensures
            r@ == spec_patterns_for(self.log_parser_patterns@, id),
    {
        let ghost rows = self.log_parser_patterns@;
        let n = self.log_parser_patterns.len();
        let mut out: Vec<LogParserPattern> = Vec::new();
        let mut i: usize = 0;
        proof {
            assert(rows.skip(0) =~= rows);
            assert(out@ + spec_patterns_for(rows, id) =~= spec_patterns_for(rows, id));
        }
        while i < n
            invariant
                0 <= i <= n,
                n == rows.len(),
                rows == self.log_parser_patterns@,
                out@ + spec_patterns_for(rows.skip(i as int), id) == spec_patterns_for(rows, id),
            decreases n - i,
        {
            proof {
                assert(rows.skip(i as int).first() == rows[i as int]);
                assert(rows.skip(i as int).drop_first() =~= rows.skip(i as int + 1));
            }
            let row = &self.log_parser_patterns[i];
            if row.log_parser_rule_id == id {
                let ghost old_out = out@;
                out.push(row.duplicate());
                proof {
                    assert(old_out + (seq![rows[i as int]] + spec_patterns_for(
                        rows.skip(i as int + 1),
                        id,
                    )) =~= out@ + spec_patterns_for(rows.skip(i as int + 1), id));
                }
            }
            i += 1;
        }
        proof {
            assert(rows.skip(i as int) =~= Seq::<LogParserPattern>::empty());
            assert(out@ + spec_patterns_for(rows.skip(i as int), id) =~= out@);
        }
        out
    }

    /// The rule row with a given id, if present.
    pub fn query_by_id(&self, id: u64) -> (r: Option<&LogParserRule>)
        ensures
            match r {
                Some(rule) => spec_find_rule(self.log_parser_rules@, id) == Some(*rule),
                None => spec_find_rule(self.log_parser_rules@, id) is None,
            },
    {
        let n = self.log_parser_rules.len();
        let mut i: usize = 0;
        proof {
            assert(self.log_parser_rules@.skip(0) =~= self.log_parser_rules@);
        }
        while i < n
            invariant
                0 <= i <= n,
                n == self.log_parser_rules.len(),
                spec_find_rule(self.log_parser_rules@, id) == spec_find_rule(
                    self.log_parser_rules@.skip(i as int),
                    id,
                ),
            decreases n - i,
        {
            let ghost rows = self.log_parser_rules@;
            proof {
                assert(rows.skip(i as int).first() == rows[i as int]);
                assert(rows.skip(i as int).drop_first() =~= rows.skip(i as int + 1));
            }
            if self.log_parser_rules[i].id == id {
                return Some(&self.log_parser_rules[i]);
            }
            i += 1;
        }
        proof {
            assert(self.log_parser_rules@.skip(i as int) =~= Seq::<LogParserRule>::empty());
        }
        None
    }

    /// The first field row of a rule with a given capture-group name.
    pub fn query_by_log_parser_rule_id_and_name_in_capture(
        &self,
        id: u64,
        name_in_capture: &str,
    ) -> (r: Option<&LogParserField>)
        ensures
            match r {
                Some(f) => spec_find_field(self.log_parser_fields@, id, name_in_capture@) == Some(
                    *f,
                ),
                None => spec_find_field(self.log_parser_fields@, id, name_in_capture@) is None,
            },
    {
        let n = self.log_parser_fields.len();
        let mut i: usize = 0;
        proof {
            assert(self.log_parser_fields@.skip(0) =~= self.log_parser_fields@);
        }
        while i < n
            invariant
                0 <= i <= n,
                n == self.log_parser_fields.len(),
                spec_find_field(self.log_parser_fields@, id, name_in_capture@) == spec_find_field(
                    self.log_parser_fields@.skip(i as int),
                    id,
                    name_in_capture@,
                ),
            decreases n - i,
        {
            let ghost rows = self.log_parser_fields@;
            proof {
                assert(rows.skip(i as int).first() == rows[i as int]);
                assert(rows.skip(i as int).drop_first() =~= rows.skip(i as int + 1));
            }
            let row = &self.log_parser_fields[i];
            if row.log_parser_rule_id == id {
                if str_eq(row.name_in_capture.as_str(), name_in_capture) {
                    return Some(&self.log_parser_fields[i]);
                }
            }
            i += 1;
        }
        proof {
            assert(self.log_parser_fields@.skip(i as int) =~= Seq::<LogParserField>::empty());
        }
        None
    }
}

} // verus!
