use vstd::prelude::*;

use crate::error::RecordError;
use crate::header::{spec_header_from_bytes, HeaderView};
use crate::models::{LogParserField, LogParserPattern, LogView, SubsysLogParser};
use crate::parser::{delim_from, lemma_delim_from_exact, lemma_delim_from_some,
    spec_apply_group, spec_apply_groups, spec_bindings_entries, spec_config_entries,
    spec_parse_log, spec_split, DELIM_BYTE};
use crate::pattern::capture_of;
use crate::store::{spec_active_bindings, spec_find_field, ConfigStore};

verus! {

/// Splitting is idempotent: the header segment that a successful split
/// extracts splits again into itself and an empty body, so re-tokenizing it
/// parses to the very same header, attribute map included.
pub proof fn lemma_tokenizer_idempotent(raw: Seq<u8>)
    requires
        spec_split(raw) is Some,
    ensures
        ({
            let hb = spec_split(raw)->Some_0;
            &&& spec_split(hb.0) == Some((hb.0, Seq::<u8>::empty()))
            &&& spec_header_from_bytes(spec_split(hb.0)->Some_0.0) == spec_header_from_bytes(
                hb.0,
            )
        }),
{
    let p = delim_from(raw, 0)->Some_0;
    lemma_delim_from_some(raw, 0, p);
    let h = raw.subrange(0, p + 2);
    assert(h[p] == DELIM_BYTE);
    assert(h[p + 1] == DELIM_BYTE);
    assert forall|j: int| 0 <= j < p implies !(#[trigger] h[j] == DELIM_BYTE && h[j + 1]
        == DELIM_BYTE) by {
        assert(h[j] == raw[j]);
        assert(h[j + 1] == raw[j + 1]);
    }
    lemma_delim_from_exact(h, 0, p);
    assert(h.subrange(0, p + 2) =~= h);
    assert(h.subrange(p + 2, h.len() as int) =~= Seq::<u8>::empty());
}

/// A subsystem with no active binding yields an empty entry list, not an
/// error, whenever the record itself splits, its header parses and its
/// encoding resolves.
pub proof fn lemma_no_active_bindings(store: ConfigStore, raw: Seq<u8>, now_millis: i64)
    requires
        spec_split(raw) is Some,
        spec_header_from_bytes(spec_split(raw)->Some_0.0) is Ok,
        spec_active_bindings(
            store.subsys_log_parsers@,
            spec_header_from_bytes(spec_split(raw)->Some_0.0)->Ok_0.subsys_code,
        ) == Seq::<SubsysLogParser>::empty(),
    ensures
        spec_parse_log(store, raw, now_millis) == Ok::<Seq<LogView>, RecordError>(
            Seq::<LogView>::empty(),
        ),
{
    let hb = spec_split(raw)->Some_0;
    let h = spec_header_from_bytes(hb.0)->Ok_0;
    assert(spec_bindings_entries(
        spec_active_bindings(store.subsys_log_parsers@, h.subsys_code),
        store.log_parser_patterns@,
        store.log_parser_fields@,
        h,
        crate::encoding::decode_of(h.encode, hb.1),
        now_millis,
    ) =~= Seq::<LogView>::empty());
}

/// Pattern evaluation is exhaustive and ordered: the entries of two pattern
/// lists evaluated one after the other are the entries of the first
/// followed by the entries of the second.
pub proof fn lemma_config_entries_append(
    p1: Seq<LogParserPattern>,
    p2: Seq<LogParserPattern>,
    fields: Seq<LogParserField>,
    rule_id: u64,
    header: HeaderView,
    text: Seq<char>,
    now_millis: i64,
)
    ensures
        spec_config_entries(p1 + p2, fields, rule_id, header, text, now_millis)
            == spec_config_entries(p1, fields, rule_id, header, text, now_millis)
            + spec_config_entries(p2, fields, rule_id, header, text, now_millis),
    decreases p1.len(),
{
    let a = spec_config_entries(p1, fields, rule_id, header, text, now_millis);
    let b = spec_config_entries(p2, fields, rule_id, header, text, now_millis);
    if p1.len() == 0 {
        assert(p1 + p2 =~= p2);
        assert(a + b =~= b);
    } else {
        assert((p1 + p2).first() == p1.first());
        assert((p1 + p2).drop_first() =~= p1.drop_first() + p2);
        lemma_config_entries_append(p1.drop_first(), p2, fields, rule_id, header, text, now_millis);
        assert(spec_config_entries(p1 + p2, fields, rule_id, header, text, now_millis) =~= a + b);
    }
}

/// Binding evaluation is exhaustive and ordered in the same way: every
/// match of every binding yields its own independent entry, in binding
/// order then pattern order.
pub proof fn lemma_bindings_entries_append(
    b1: Seq<SubsysLogParser>,
    b2: Seq<SubsysLogParser>,
    patterns: Seq<LogParserPattern>,
    fields: Seq<LogParserField>,
    header: HeaderView,
    text: Seq<char>,
    now_millis: i64,
)
    ensures
        spec_bindings_entries(b1 + b2, patterns, fields, header, text, now_millis)
            == spec_bindings_entries(b1, patterns, fields, header, text, now_millis)
            + spec_bindings_entries(b2, patterns, fields, header, text, now_millis),
    decreases b1.len(),
{
    let a = spec_bindings_entries(b1, patterns, fields, header, text, now_millis);
    let b = spec_bindings_entries(b2, patterns, fields, header, text, now_millis);
    if b1.len() == 0 {
        assert(b1 + b2 =~= b2);
        assert(a + b =~= b);
    } else {
        assert((b1 + b2).first() == b1.first());
        assert((b1 + b2).drop_first() =~= b1.drop_first() + b2);
        lemma_bindings_entries_append(
            b1.drop_first(),
            b2,
            patterns,
            fields,
            header,
            text,
            now_millis,
        );
        assert(spec_bindings_entries(b1 + b2, patterns, fields, header, text, now_millis) =~= a
            + b);
    }
}

/// Field typing never removes an attribute: a key present before the named
/// groups are folded is present afterwards.
pub proof fn lemma_groups_keep_attrs(
    fields: Seq<LogParserField>,
    rule_id: u64,
    src: Seq<char>,
    text: Seq<char>,
    names: Seq<Seq<char>>,
    date_time: i64,
    attrs: Map<Seq<char>, Seq<char>>,
    key: Seq<char>,
)
    requires
        attrs.contains_key(key),
    ensures
        spec_apply_groups(fields, rule_id, src, text, names, date_time, attrs).1.contains_key(key),
    decreases names.len(),
{
    if names.len() > 0 {
        let stepped = spec_apply_group(fields, rule_id, src, text, names.first(), date_time, attrs);
        lemma_groups_keep_attrs(
            fields,
            rule_id,
            src,
            text,
            names.drop_first(),
            stepped.0,
            stepped.1,
            key,
        );
    }
}

/// A key no group carries keeps its value through the whole fold.
pub proof fn lemma_groups_keep_attr_value(
    fields: Seq<LogParserField>,
    rule_id: u64,
    src: Seq<char>,
    text: Seq<char>,
    names: Seq<Seq<char>>,
    date_time: i64,
    attrs: Map<Seq<char>, Seq<char>>,
    key: Seq<char>,
)
    requires
        attrs.contains_key(key),
        forall|j: int| 0 <= j < names.len() ==> #[trigger] names[j] != key,
    ensures
        spec_apply_groups(fields, rule_id, src, text, names, date_time, attrs).1.contains_key(key),
        spec_apply_groups(fields, rule_id, src, text, names, date_time, attrs).1[key]
            == attrs[key],
    decreases names.len(),
{
    if names.len() > 0 {
        let stepped = spec_apply_group(fields, rule_id, src, text, names.first(), date_time, attrs);
        assert(names[0] != key);
        assert(forall|j: int|
            0 <= j < names.drop_first().len() ==> #[trigger] names.drop_first()[j] != key);
        lemma_groups_keep_attr_value(
            fields,
            rule_id,
            src,
            text,
            names.drop_first(),
            stepped.0,
            stepped.1,
            key,
        );
    }
}

/// A participating named group with no field definition is written into
/// the entry's attribute map under its capture name; if no later group has
/// that name, the map holds exactly the captured text.
pub proof fn lemma_unbound_group_becomes_attribute(
    fields: Seq<LogParserField>,
    rule_id: u64,
    src: Seq<char>,
    text: Seq<char>,
    names: Seq<Seq<char>>,
    date_time: i64,
    attrs: Map<Seq<char>, Seq<char>>,
    i: int,
)
    requires
        0 <= i < names.len(),
        capture_of(src, text, names[i]) is Some,
        spec_find_field(fields, rule_id, names[i]) is None,
        forall|j: int| i < j < names.len() ==> #[trigger] names[j] != names[i],
    ensures
        spec_apply_groups(fields, rule_id, src, text, names, date_time, attrs).1.contains_key(
            names[i],
        ),
        spec_apply_groups(fields, rule_id, src, text, names, date_time, attrs).1[names[i]]
            == capture_of(src, text, names[i])->Some_0,
    decreases i,
{
    let stepped = spec_apply_group(fields, rule_id, src, text, names.first(), date_time, attrs);
    if i == 0 {
        assert(forall|j: int|
            0 <= j < names.drop_first().len() ==> #[trigger] names.drop_first()[j] != names[0]);
        lemma_groups_keep_attr_value(
            fields,
            rule_id,
            src,
            text,
            names.drop_first(),
            stepped.0,
            stepped.1,
            names[0],
        );
    } else {
        assert(names.drop_first()[i - 1] == names[i]);
        assert(forall|j: int|
            i - 1 < j < names.drop_first().len() ==> #[trigger] names.drop_first()[j] != names[i
                - 1 + 1]);
        lemma_unbound_group_becomes_attribute(
            fields,
            rule_id,
            src,
            text,
            names.drop_first(),
            stepped.0,
            stepped.1,
            i - 1,
        );
    }
}

} // verus!
