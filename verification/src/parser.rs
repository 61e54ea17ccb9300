use vstd::prelude::*;

use crate::clock::{datetime_parse, parse_datetime_millis};
use crate::encoding::{decode_body, decode_of};
use crate::error::RecordError;
use crate::header::{spec_header_from_bytes, HeaderView, LogHeader};
use crate::models::{Log, LogParserField, LogParserPattern, LogView, SubsysLogParser};
use crate::pattern::{capture_of, group_names_of, regex_compiles, regex_matches, CompiledPattern};
use crate::store::{spec_active_bindings, spec_find_field, spec_patterns_for, ConfigStore};

verus! {

// ---------------------------------------------------------------------------
// Splitting a raw record at the first header terminator.
// ---------------------------------------------------------------------------
/// The byte value of `]`, two of which in a row terminate the header.
pub const DELIM_BYTE: u8 = 93;

/// The position of the first `]]` at or after `i`, if any.
pub open spec fn delim_from(raw: Seq<u8>, i: int) -> Option<int>
    decreases raw.len() - i,
    when 0 <= i
{
    if i + 2 > raw.len() {
        None
    } else if raw[i] == DELIM_BYTE && raw[i + 1] == DELIM_BYTE {
        Some(i)
    } else {
        delim_from(raw, i + 1)
    }
}

/// Split a raw record at the first `]]`: the header segment keeps the
/// terminator, the rest is the body segment.
pub open spec fn spec_split(raw: Seq<u8>) -> Option<(Seq<u8>, Seq<u8>)> {
    match delim_from(raw, 0) {
        Some(p) => Some((raw.subrange(0, p + 2), raw.subrange(p + 2, raw.len() as int))),
        None => None,
    }
}

/// What a found delimiter position means: it is the first one.
pub proof fn lemma_delim_from_some(raw: Seq<u8>, i: int, p: int)
    requires
        0 <= i,
        delim_from(raw, i) == Some(p),
    ensures
        i <= p,
        p + 2 <= raw.len(),
        raw[p] == DELIM_BYTE,
        raw[p + 1] == DELIM_BYTE,
        forall|j: int| i <= j < p ==> !(#[trigger] raw[j] == DELIM_BYTE && raw[j + 1] == DELIM_BYTE),
    decreases raw.len() - i,
{
    if i + 2 > raw.len() {
    } else if raw[i] == DELIM_BYTE && raw[i + 1] == DELIM_BYTE {
    } else {
        lemma_delim_from_some(raw, i + 1, p);
    }
}

/// A delimiter at `p`, preceded by none, is the one the scan finds.
pub proof fn lemma_delim_from_exact(raw: Seq<u8>, i: int, p: int)
    requires
        0 <= i <= p,
        p + 2 <= raw.len(),
        raw[p] == DELIM_BYTE,
        raw[p + 1] == DELIM_BYTE,
        forall|j: int| i <= j < p ==> !(#[trigger] raw[j] == DELIM_BYTE && raw[j + 1] == DELIM_BYTE),
    ensures
        delim_from(raw, i) == Some(p),
    decreases p - i,
{
    if i < p {
        lemma_delim_from_exact(raw, i + 1, p);
    }
}

/// Find the first `]]` in the raw bytes.
fn find_delim(raw: &Vec<u8>) -> (r: Option<usize>)
    ensures
        match r {
            Some(p) => delim_from(raw@, 0) == Some(p as int),
            None => delim_from(raw@, 0) is None,
        },
{
    let n = raw.len();
    if n < 2 {
        proof {
            assert(delim_from(raw@, 0) is None);
        }
        return None;
    }
    let mut i: usize = 0;
    while i + 1 < n
        invariant
            0 <= i < n,
            n == raw@.len(),
            delim_from(raw@, 0) == delim_from(raw@, i as int),
        decreases n - i,
    {
        if raw[i] == DELIM_BYTE && raw[i + 1] == DELIM_BYTE {
            proof {
                assert(delim_from(raw@, i as int) == Some(i as int));
            }
            return Some(i);
        }
        proof {
            assert(delim_from(raw@, i as int) == delim_from(raw@, i as int + 1));
        }
        i += 1;
    }
    proof {
        assert(delim_from(raw@, i as int) is None);
    }
    None
}

// ---------------------------------------------------------------------------
// Field typing: how one successful match turns its named capture groups
// into a timestamp and attributes.
// ---------------------------------------------------------------------------
/// Fold the named groups of a matched pattern, in order, over the entry
/// state: a participating group either re-times the entry (a field typed
/// 10, parsed by its format; failures leave the timestamp), becomes a plain
/// attribute (a field typed 0, or no field at all), or is skipped (any
/// other type).
pub open spec fn spec_apply_group(
    fields: Seq<LogParserField>,
    rule_id: u64,
    src: Seq<char>,
    text: Seq<char>,
    n: Seq<char>,
    date_time: i64,
    attrs: Map<Seq<char>, Seq<char>>,
) -> (i64, Map<Seq<char>, Seq<char>>) {
    match capture_of(src, text, n) {
        None => (date_time, attrs),
        Some(v) => match spec_find_field(fields, rule_id, n) {
            None => (date_time, attrs.insert(n, v)),
            Some(f) => if f.type_ == 10 {
                match f.format_pattern {
                    Some(fp) => match datetime_parse(v, fp@) {
                        Some(ms) => (ms, attrs),
                        None => (date_time, attrs),
                    },
                    None => (date_time, attrs),
                }
            } else if f.type_ == 0 {
                (date_time, attrs.insert(n, v))
            } else {
                (date_time, attrs)
            },
        },
    }
}

/// The same fold over a whole name sequence, front to back.
pub open spec fn spec_apply_groups(
    fields: Seq<LogParserField>,
    rule_id: u64,
    src: Seq<char>,
    text: Seq<char>,
    names: Seq<Seq<char>>,
    date_time: i64,
    attrs: Map<Seq<char>, Seq<char>>,
) -> (i64, Map<Seq<char>, Seq<char>>)
    decreases names.len(),
{
    if names.len() == 0 {
        (date_time, attrs)
    } else {
        let stepped = spec_apply_group(fields, rule_id, src, text, names.first(), date_time, attrs);
        spec_apply_groups(fields, rule_id, src, text, names.drop_first(), stepped.0, stepped.1)
    }
}

/// The regular-expression source of a pattern row; an absent source is the
/// empty pattern.
pub open spec fn spec_src_of(p: LogParserPattern) -> Seq<char> {
    match p.pattern {
        Some(s) => s@,
        None => Seq::empty(),
    }
}

/// The entry one pattern produces against a decoded body, if its source
/// compiles and it matches: the header attributes plus the typed captures,
/// the body text, and the capture-time timestamp unless a timestamp field
/// replaced it.
pub open spec fn spec_entry_for_pattern(
    fields: Seq<LogParserField>,
    rule_id: u64,
    header: HeaderView,
    text: Seq<char>,
    src: Seq<char>,
    now_millis: i64,
) -> Option<LogView> {
    if regex_compiles(src) && regex_matches(src, text) {
        let fold = spec_apply_groups(
            fields,
            rule_id,
            src,
            text,
            group_names_of(src),
            now_millis,
            header.attr,
        );
        Some(
            LogView {
                date_time: fold.0,
                log_header: HeaderView {
                    subsys_code: header.subsys_code,
                    encode: header.encode,
                    attr: fold.1,
                },
                log_content: text,
            },
        )
    } else {
        None
    }
}

/// The entries of one binding: each of its rule's patterns is tried
/// independently, in order, and each match yields one entry.
pub open spec fn spec_config_entries(
    patterns: Seq<LogParserPattern>,
    fields: Seq<LogParserField>,
    rule_id: u64,
    header: HeaderView,
    text: Seq<char>,
    now_millis: i64,
) -> Seq<LogView>
    decreases patterns.len(),
{
    if patterns.len() == 0 {
        Seq::empty()
    } else {
        let head = match spec_entry_for_pattern(
            fields,
            rule_id,
            header,
            text,
            spec_src_of(patterns.first()),
            now_millis,
        ) {
            Some(e) => seq![e],
            None => Seq::empty(),
        };
        head + spec_config_entries(patterns.drop_first(), fields, rule_id, header, text, now_millis)
    }
}

/// The entries of all bindings, in binding order then pattern order.
pub open spec fn spec_bindings_entries(
    bindings: Seq<SubsysLogParser>,
    patterns: Seq<LogParserPattern>,
    fields: Seq<LogParserField>,
    header: HeaderView,
    text: Seq<char>,
    now_millis: i64,
) -> Seq<LogView>
    decreases bindings.len(),
{
    if bindings.len() == 0 {
        Seq::empty()
    } else {
        spec_config_entries(
            spec_patterns_for(patterns, bindings.first().log_parser_rule_id),
            fields,
            bindings.first().log_parser_rule_id,
            header,
            text,
            now_millis,
        ) + spec_bindings_entries(bindings.drop_first(), patterns, fields, header, text, now_millis)
    }
}

/// The views of a sequence of produced entries.
pub open spec fn logs_view(s: Seq<Log>) -> Seq<LogView> {
    s.map_values(|l: Log| l@)
}

/// What processing one whole raw record yields.
pub open spec fn spec_parse_log(store: ConfigStore, raw: Seq<u8>, now_millis: i64) -> Result<
    Seq<LogView>,
    RecordError,
> {
    match spec_split(raw) {
        None => Err(RecordError::MalformedRecord),
        Some(hb) => match spec_header_from_bytes(hb.0) {
            Err(e) => Err(e),
            Ok(h) => Ok(
                spec_bindings_entries(
                    spec_active_bindings(store.subsys_log_parsers@, h.subsys_code),
                    store.log_parser_patterns@,
                    store.log_parser_fields@,
                    h,
                    decode_of(h.encode, hb.1),
                    now_millis,
                ),
            ),
        },
    }
}

// ---------------------------------------------------------------------------
// The executable pipeline.
// ---------------------------------------------------------------------------
/// Build the entry for one compiled, matching pattern: seed it with the
/// capture-time timestamp and the header attributes, then fold every named
/// capture group through its field definition.
fn build_entry(
    store: &ConfigStore,
    log_header: &LogHeader,
    decoded_log: &str,
    rule_id: u64,
    compiled: &CompiledPattern,
    now_millis: i64,
) -> (r: Log)
    requires
        regex_compiles(compiled.src()),
        regex_matches(compiled.src(), decoded_log@),
    ensures
        Some(r@) == spec_entry_for_pattern(
            store.log_parser_fields@,
            rule_id,
            log_header@,
            decoded_log@,
            compiled.src(),
            now_millis,
        ),
{
    let ghost src = compiled.src();
    let ghost text = decoded_log@;
    let ghost fields = store.log_parser_fields@;
    let ghost names_seq = group_names_of(src);
    let ghost attrs0 = log_header@.attr;
    let names = compiled.group_names();
    let mut date_time = now_millis;
    let mut attrs = log_header.attr.duplicate();
    let mut gi: usize = 0;
    proof {
        assert(names_seq.skip(0) =~= names_seq);
    }
    while gi < names.len()
        invariant
            0 <= gi <= names.len(),
            names@.map_values(|s: String| s@) == names_seq,
            names_seq.len() == names.len(),
            src == compiled.src(),
            text == decoded_log@,
            names_seq == group_names_of(src),
            attrs0 == log_header@.attr,
            spec_apply_groups(fields, rule_id, src, text, names_seq.skip(gi as int), date_time, attrs@)
                == spec_apply_groups(fields, rule_id, src, text, names_seq, now_millis, attrs0),
            fields == store.log_parser_fields@,
        decreases names.len() - gi,
    {
        let name = &names[gi];
        let ghost dt_before = date_time;
        let ghost attrs_before = attrs@;
        proof {
            assert(names_seq[gi as int] == names@[gi as int]@);
            assert(names_seq.skip(gi as int).first() == names_seq[gi as int]);
            assert(names_seq.skip(gi as int).drop_first() =~= names_seq.skip(gi as int + 1));
        }
        match compiled.capture(decoded_log, name.as_str()) {
            Some(value) => {
                match store.query_by_log_parser_rule_id_and_name_in_capture(
                    rule_id,
                    name.as_str(),
                ) {
                    Some(field) => {
                        if field.type_ == 10 {
                            match &field.format_pattern {
                                Some(fp) => {
                                    match parse_datetime_millis(value.as_str(), fp.as_str()) {
                                        Some(ms) => {
                                            date_time = ms;
                                        },
                                        None => {},
                                    }
                                },
                                None => {},
                            }
                        } else if field.type_ == 0 {
                            attrs.insert(name.clone(), value);
                        } else {
                            // an unsupported field type: the group is skipped,
                            // the entry is still produced
                        }
                    },
                    None => {
                        attrs.insert(name.clone(), value);
                    },
                }
            },
            None => {},
        }
        proof {
            assert(spec_apply_group(fields, rule_id, src, text, name@, dt_before, attrs_before).0
                == date_time);
            assert(spec_apply_group(fields, rule_id, src, text, name@, dt_before, attrs_before).1
                == attrs@);
            assert(spec_apply_groups(
                fields,
                rule_id,
                src,
                text,
                names_seq.skip(gi as int),
                dt_before,
                attrs_before,
            ) == spec_apply_groups(
                fields,
                rule_id,
                src,
                text,
                names_seq.skip(gi as int + 1),
                date_time,
                attrs@,
            ));
        }
        gi += 1;
    }
    proof {
        assert(names_seq.skip(gi as int) =~= Seq::<Seq<char>>::empty());
    }
    let r = Log {
        date_time,
        log_header: LogHeader {
            subsys_code: log_header.subsys_code.clone(),
            encode: log_header.encode.clone(),
            attr: attrs,
        },
        log_content: decoded_log.to_owned(),
    };
    r
}

/// Apply one binding to a decoded body: try each pattern of its rule, in
/// order; a source that does not compile is skipped, and each matching
/// pattern yields one independent entry.
pub fn apply_parse_config(
    store: &ConfigStore,
    log_header: &LogHeader,
    decoded_log: &str,
    subsys_log_parser_config: &SubsysLogParser,
    now_millis: i64,
) -> (r: Vec<Log>)
    ensures
        logs_view(r@) == spec_config_entries(
            spec_patterns_for(
                store.log_parser_patterns@,
                subsys_log_parser_config.log_parser_rule_id,
            ),
            store.log_parser_fields@,
            subsys_log_parser_config.log_parser_rule_id,
            log_header@,
            decoded_log@,
            now_millis,
        ),
{
    let rule_id = subsys_log_parser_config.log_parser_rule_id;
    let patterns = store.query_by_log_parser_rule_id(rule_id);
    let ghost pats = patterns@;
    let ghost fields = store.log_parser_fields@;
    let ghost text = decoded_log@;
    let mut out: Vec<Log> = Vec::new();
    let mut pi: usize = 0;
    proof {
        assert(pats.skip(0) =~= pats);
        assert(logs_view(out@) + spec_config_entries(pats, fields, rule_id, log_header@, text, now_millis)
            =~= spec_config_entries(pats, fields, rule_id, log_header@, text, now_millis));
    }
    while pi < patterns.len()
        invariant
            0 <= pi <= patterns.len(),
            pats == patterns@,
            fields == store.log_parser_fields@,
            text == decoded_log@,
            logs_view(out@) + spec_config_entries(
                pats.skip(pi as int),
                fields,
                rule_id,
                log_header@,
                text,
                now_millis,
            ) == spec_config_entries(pats, fields, rule_id, log_header@, text, now_millis),
        decreases patterns.len() - pi,
    {
        proof {
            assert(pats.skip(pi as int).first() == pats[pi as int]);
            assert(pats.skip(pi as int).drop_first() =~= pats.skip(pi as int + 1));
        }
        let row = &patterns[pi];
        let src: &str = match &row.pattern {
            Some(s) => s.as_str(),
            None => "",
        };
        proof {
            reveal_strlit("");
            assert(src@ == spec_src_of(pats[pi as int]));
        }
        let ghost old_out = out@;
        match CompiledPattern::compile(src) {
            Some(compiled) => {
                if compiled.is_match(decoded_log) {
                    let entry = build_entry(
                        store,
                        log_header,
                        decoded_log,
                        rule_id,
                        &compiled,
                        now_millis,
                    );
                    out.push(entry);
                    proof {
                        assert(logs_view(out@) =~= logs_view(old_out).push(out@.last()@));
                        assert(logs_view(old_out) + (seq![out@.last()@] + spec_config_entries(
                            pats.skip(pi as int + 1),
                            fields,
                            rule_id,
                            log_header@,
                            text,
                            now_millis,
                        )) =~= logs_view(out@) + spec_config_entries(
                            pats.skip(pi as int + 1),
                            fields,
                            rule_id,
                            log_header@,
                            text,
                            now_millis,
                        ));
                    }
                }
            },
            None => {},
        }
        pi += 1;
    }
    proof {
        assert(pats.skip(pi as int) =~= Seq::<LogParserPattern>::empty());
        assert(logs_view(out@) + spec_config_entries(
            pats.skip(pi as int),
            fields,
            rule_id,
            log_header@,
            text,
            now_millis,
        ) =~= logs_view(out@));
    }
    out
}

/// Process one whole raw record: split it at the first `]]`, parse the
/// header, decode the body with the declared encoding, and collect the
/// entries of every active binding of the declared subsystem, in binding
/// order then pattern order.  A record with no terminator, a header that is
/// not UTF-8 text, or an unresolvable encoding label fails as a whole;
/// everything else degrades to fewer (possibly zero) entries.
pub fn parse_log(store: &ConfigStore, raw_log: &Vec<u8>, now_millis: i64) -> (r: Result<
    Vec<Log>,
    RecordError,
>)
    ensures
        match r {
            Ok(logs) => spec_parse_log(*store, raw_log@, now_millis) == Ok::<
                Seq<LogView>,
                RecordError,
            >(logs_view(logs@)),
            Err(e) => spec_parse_log(*store, raw_log@, now_millis) == Err::<
                Seq<LogView>,
                RecordError,
            >(e),
        },
        (delim_from(raw_log@, 0) is None) <==> r == Err::<Vec<Log>, RecordError>(
            RecordError::MalformedRecord,
        ),
{
    let ghost raw = raw_log@;
    let delim_pos = match find_delim(raw_log) {
        Some(p) => p,
        None => {
            return Err(RecordError::MalformedRecord);
        },
    };
    let n = raw_log.len();
    proof {
        lemma_delim_from_some(raw, 0, delim_pos as int);
        assert(delim_pos as int + 2 <= n);
    }
    let header_end = delim_pos + 2;
    let mut header_bytes: Vec<u8> = Vec::new();
    let mut k: usize = 0;
    proof {
        assert(header_bytes@ =~= raw.subrange(0, 0));
    }
    while k < header_end
        invariant
            0 <= k <= header_end,
            header_end <= n,
            n == raw.len(),
            raw == raw_log@,
            header_bytes@ == raw.subrange(0, k as int),
        decreases header_end - k,
    {
        header_bytes.push(raw_log[k]);
        proof {
            assert(raw.subrange(0, k as int + 1) =~= raw.subrange(0, k as int).push(
                raw[k as int],
            ));
        }
        k += 1;
    }
    let mut body_bytes: Vec<u8> = Vec::new();
    let mut m: usize = header_end;
    proof {
        assert(body_bytes@ =~= raw.subrange(header_end as int, header_end as int));
    }
    while m < n
        invariant
            header_end <= m <= n,
            n == raw.len(),
            raw == raw_log@,
            body_bytes@ == raw.subrange(header_end as int, m as int),
        decreases n - m,
    {
        body_bytes.push(raw_log[m]);
        proof {
            assert(raw.subrange(header_end as int, m as int + 1) =~= raw.subrange(
                header_end as int,
                m as int,
            ).push(raw[m as int]));
        }
        m += 1;
    }
    proof {
        assert(spec_split(raw) == Some((header_bytes@, body_bytes@)));
    }
    let log_header = match LogHeader::from_bytes(header_bytes.as_slice()) {
        Ok(h) => h,
        Err(e) => {
            return Err(e);
        },
    };
    let decoded = decode_body(log_header.encode.as_str(), &body_bytes);
    let bindings = store.active_parser_bindings(log_header.subsys_code.as_str());
    let ghost bseq = bindings@;
    let ghost hv = log_header@;
    let ghost text = decoded@;
    let ghost patterns = store.log_parser_patterns@;
    let ghost fields = store.log_parser_fields@;
    let mut logs: Vec<Log> = Vec::new();
    let mut bi: usize = 0;
    proof {
        assert(bseq.skip(0) =~= bseq);
        assert(logs_view(logs@) + spec_bindings_entries(bseq, patterns, fields, hv, text, now_millis)
            =~= spec_bindings_entries(bseq, patterns, fields, hv, text, now_millis));
    }
    while bi < bindings.len()
        invariant
            0 <= bi <= bindings.len(),
            bseq == bindings@,
            hv == log_header@,
            text == decoded@,
            patterns == store.log_parser_patterns@,
            fields == store.log_parser_fields@,
            logs_view(logs@) + spec_bindings_entries(
                bseq.skip(bi as int),
                patterns,
                fields,
                hv,
                text,
                now_millis,
            ) == spec_bindings_entries(bseq, patterns, fields, hv, text, now_millis),
        decreases bindings.len() - bi,
    {
        proof {
            assert(bseq.skip(bi as int).first() == bseq[bi as int]);
            assert(bseq.skip(bi as int).drop_first() =~= bseq.skip(bi as int + 1));
        }
        let ghost old_logs = logs@;
        let mut produced = apply_parse_config(
            store,
            &log_header,
            decoded.as_str(),
            &bindings[bi],
            now_millis,
        );
        let ghost produced_seq = produced@;
        logs.append(&mut produced);
        proof {
            assert(logs_view(old_logs + produced_seq) =~= logs_view(old_logs) + logs_view(
                produced_seq,
            ));
            assert((logs_view(old_logs) + logs_view(produced_seq)) + spec_bindings_entries(
                bseq.skip(bi as int + 1),
                patterns,
                fields,
                hv,
                text,
                now_millis,
            ) =~= logs_view(old_logs) + (logs_view(produced_seq) + spec_bindings_entries(
                bseq.skip(bi as int + 1),
                patterns,
                fields,
                hv,
                text,
                now_millis,
            )));
        }
        bi += 1;
    }
    proof {
        assert(bseq.skip(bi as int) =~= Seq::<SubsysLogParser>::empty());
        assert(logs_view(logs@) + spec_bindings_entries(
            bseq.skip(bi as int),
            patterns,
            fields,
            hv,
            text,
            now_millis,
        ) =~= logs_view(logs@));
    }
    Ok(logs)
}

} // verus!
