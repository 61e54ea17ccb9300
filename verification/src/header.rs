use vstd::prelude::*;

use crate::encoding::{get_encoding_from_label, label_lookup, utf8_to_string};
use crate::error::RecordError;
use crate::util::{lower_codes, spec_trim, str_eq, trim_str};
use vstd::utf8::{decode_utf8, valid_utf8};

verus! {

// ---------------------------------------------------------------------------
// The header token grammar.
//
// A header token has the shape `[key=value]`: the key is a non-empty run of
// characters other than `=`, `[` and `]`; the value is a possibly empty run
// of characters other than `[` and `]`.  Scanning goes from the left; text
// that does not form a token is skipped, one character at a time, exactly as
// a leftmost-match search would skip it.
// ---------------------------------------------------------------------------
/// A character that may appear in a token key.
pub open spec fn is_key_char(c: char) -> bool {
    c != '=' && c != '[' && c != ']'
}

/// A character that may appear in a token value.
pub open spec fn is_value_char(c: char) -> bool {
    c != '[' && c != ']'
}

/// The first position at or after `j` that cannot extend a key run.
pub open spec fn key_end(s: Seq<char>, j: int) -> int
    decreases s.len() - j,
    when 0 <= j <= s.len()
{
    if j >= s.len() {
        s.len() as int
    } else if !is_key_char(s[j]) {
        j
    } else {
        key_end(s, j + 1)
    }
}

/// The first position at or after `j` that cannot extend a value run.
pub open spec fn value_end(s: Seq<char>, j: int) -> int
    decreases s.len() - j,
    when 0 <= j <= s.len()
{
    if j >= s.len() {
        s.len() as int
    } else if !is_value_char(s[j]) {
        j
    } else {
        value_end(s, j + 1)
    }
}

pub proof fn lemma_key_end_bounds(s: Seq<char>, j: int)
    requires
        0 <= j <= s.len(),
    ensures
        j <= key_end(s, j) <= s.len(),
    decreases s.len() - j,
{
    if j < s.len() && is_key_char(s[j]) {
        lemma_key_end_bounds(s, j + 1);
    }
}

pub proof fn lemma_value_end_bounds(s: Seq<char>, j: int)
    requires
        0 <= j <= s.len(),
    ensures
        j <= value_end(s, j) <= s.len(),
    decreases s.len() - j,
{
    if j < s.len() && is_value_char(s[j]) {
        lemma_value_end_bounds(s, j + 1);
    }
}

/// The token starting exactly at position `i`, if the text there has the
/// shape `[key=value]` with a non-empty key: the key, the value, and the
/// position just past the closing bracket.
pub open spec fn token_at(s: Seq<char>, i: int) -> Option<(Seq<char>, Seq<char>, int)> {
    if 0 <= i < s.len() && s[i] == '[' {
        let ke = key_end(s, i + 1);
        if i + 1 < ke && ke < s.len() && s[ke] == '=' {
            let ve = value_end(s, ke + 1);
            if ve < s.len() && s[ve] == ']' {
                Some((s.subrange(i + 1, ke), s.subrange(ke + 1, ve), ve + 1))
            } else {
                None
            }
        } else {
            None
        }
    } else {
        None
    }
}

/// All tokens found scanning from position `i` to the end of the text.
pub open spec fn tokens_from(s: Seq<char>, i: int) -> Seq<(Seq<char>, Seq<char>)>
    decreases s.len() - i,
    when 0 <= i
    via tokens_from_decreases
{
    if i >= s.len() {
        Seq::empty()
    } else {
        match token_at(s, i) {
            Some(t) => seq![(t.0, t.1)] + tokens_from(s, t.2),
            None => tokens_from(s, i + 1),
        }
    }
}

#[via_fn]
proof fn tokens_from_decreases(s: Seq<char>, i: int) {
    if 0 <= i < s.len() {
        match token_at(s, i) {
            Some(t) => {
                lemma_key_end_bounds(s, i + 1);
                lemma_value_end_bounds(s, key_end(s, i + 1) + 1);
            },
            None => {},
        }
    }
}

/// The attribute map a token sequence denotes: a later token with the same
/// key overwrites an earlier one.
pub open spec fn map_of_tokens(toks: Seq<(Seq<char>, Seq<char>)>) -> Map<Seq<char>, Seq<char>>
    decreases toks.len(),
{
    if toks.len() == 0 {
        Map::empty()
    } else {
        map_of_tokens(toks.drop_last()).insert(toks.last().0, toks.last().1)
    }
}

/// The attribute map of a whole header text.
pub open spec fn header_map(s: Seq<char>) -> Map<Seq<char>, Seq<char>> {
    map_of_tokens(tokens_from(s, 0))
}

pub proof fn lemma_map_of_tokens_push(toks: Seq<(Seq<char>, Seq<char>)>, k: Seq<char>, v: Seq<char>)
    ensures
        map_of_tokens(toks.push((k, v))) == map_of_tokens(toks).insert(k, v),
{
    assert(toks.push((k, v)).drop_last() =~= toks);
}

/// Last occurrence wins: where a key occurs and never again afterwards, the
/// map holds the value of that occurrence.
pub proof fn lemma_map_of_tokens_last(toks: Seq<(Seq<char>, Seq<char>)>, key: Seq<char>, i: int)
    requires
        0 <= i < toks.len(),
        toks[i].0 == key,
        forall|j: int| i < j < toks.len() ==> (#[trigger] toks[j]).0 != key,
    ensures
        map_of_tokens(toks).contains_key(key),
        map_of_tokens(toks)[key] == toks[i].1,
    decreases toks.len(),
{
    if i == toks.len() - 1 {
    } else {
        assert(toks[toks.len() - 1].0 != key);
        lemma_map_of_tokens_last(toks.drop_last(), key, i);
    }
}

/// A key that occurs in no token is absent from the map.
pub proof fn lemma_map_of_tokens_absent(toks: Seq<(Seq<char>, Seq<char>)>, key: Seq<char>)
    requires
        forall|j: int| 0 <= j < toks.len() ==> (#[trigger] toks[j]).0 != key,
    ensures
        !map_of_tokens(toks).contains_key(key),
    decreases toks.len(),
{
    if toks.len() > 0 {
        lemma_map_of_tokens_absent(toks.drop_last(), key);
    }
}

// ---------------------------------------------------------------------------
// The attribute map as a value.
// ---------------------------------------------------------------------------
/// The views of a sequence of owned key/value pairs.
pub open spec fn pair_views(pairs: Seq<(String, String)>) -> Seq<(Seq<char>, Seq<char>)> {
    pairs.map_values(|p: (String, String)| (p.0@, p.1@))
}

/// A mapping from attribute names to attribute values, built by inserting
/// pairs in order; a later insertion with the same key overwrites.
#[derive(Debug)]
pub struct AttrMap {
    pairs: Vec<(String, String)>,
}

impl View for AttrMap {
    type V = Map<Seq<char>, Seq<char>>;

    closed spec fn view(&self) -> Map<Seq<char>, Seq<char>> {
        map_of_tokens(pair_views(self.pairs@))
    }
}

impl AttrMap {
    pub fn new() -> (r: Self)
        ensures
            r@ == Map::<Seq<char>, Seq<char>>::empty(),
    {
        let r = AttrMap { pairs: Vec::new() };
        proof {
            assert(pair_views(r.pairs@) =~= Seq::<(Seq<char>, Seq<char>)>::empty());
        }
        r
    }

    pub fn insert(&mut self, key: String, value: String)
        ensures
            final(self)@ == old(self)@.insert(key@, value@),
    {
        let ghost old_pairs = self.pairs@;
        let ghost k = key@;
        let ghost v = value@;
        self.pairs.push((key, value));
        proof {
            assert(pair_views(self.pairs@) =~= pair_views(old_pairs).push((k, v)));
            lemma_map_of_tokens_push(pair_views(old_pairs), k, v);
        }
    }

    /// The value stored under a key, if any.
    pub fn get(&self, key: &str) -> (r: Option<&String>)
        ensures
            match r {
                Some(v) => self@.contains_key(key@) && v@ == self@[key@],
                None => !self@.contains_key(key@),
            },
    {
        let n = self.pairs.len();
        let mut i: usize = n;
        while i > 0
            invariant
                i <= n,
                n == self.pairs.len(),
                forall|j: int| i <= j < n ==> (#[trigger] pair_views(self.pairs@)[j]).0 != key@,
            decreases i,
        {
            i = i - 1;
            if str_eq(self.pairs[i].0.as_str(), key) {
                proof {
                    assert(pair_views(self.pairs@)[i as int].0 == key@);
                    lemma_map_of_tokens_last(pair_views(self.pairs@), key@, i as int);
                }
                return Some(&self.pairs[i].1);
            }
            proof {
                assert(pair_views(self.pairs@)[i as int].0 == self.pairs@[i as int].0@);
            }
        }
        proof {
            lemma_map_of_tokens_absent(pair_views(self.pairs@), key@);
        }
        None
    }

    /// An owned copy holding the same mapping.
    pub fn duplicate(&self) -> (r: Self)
        ensures
            r@ == self@,
    {
        let n = self.pairs.len();
        let mut pairs2: Vec<(String, String)> = Vec::new();
        let mut i: usize = 0;
        while i < n
            invariant
                0 <= i <= n,
                n == self.pairs.len(),
                pairs2@.len() == i,
                forall|j: int| 0 <= j < i ==> #[trigger] pairs2@[j] == self.pairs@[j],
            decreases n - i,
        {
            let k = self.pairs[i].0.clone();
            let v = self.pairs[i].1.clone();
            pairs2.push((k, v));
            i += 1;
        }
        let r = AttrMap { pairs: pairs2 };
        proof {
            assert(r.pairs@ =~= self.pairs@);
        }
        r
    }
}

// ---------------------------------------------------------------------------
// The tokenizer, executable form.
// ---------------------------------------------------------------------------
/// The first position at or after `start` whose character ends a key run.
fn scan_key_end(s: &str, start: usize, len: usize) -> (r: usize)
    requires
        start <= len,
        len == s@.len(),
    ensures
        r == key_end(s@, start as int),
{
    let mut j = start;
    while j < len
        invariant
            start <= j <= len,
            len == s@.len(),
            key_end(s@, start as int) == key_end(s@, j as int),
        decreases len - j,
    {
        let c = s.get_char(j);
        if c == '=' || c == '[' || c == ']' {
            proof {
                assert(key_end(s@, j as int) == j);
            }
            return j;
        }
        proof {
            assert(key_end(s@, j as int) == key_end(s@, j as int + 1));
        }
        j += 1;
    }
    j
}

/// The first position at or after `start` whose character ends a value run.
fn scan_value_end(s: &str, start: usize, len: usize) -> (r: usize)
    requires
        start <= len,
        len == s@.len(),
    ensures
        r == value_end(s@, start as int),
{
    let mut j = start;
    while j < len
        invariant
            start <= j <= len,
            len == s@.len(),
            value_end(s@, start as int) == value_end(s@, j as int),
        decreases len - j,
    {
        let c = s.get_char(j);
        if c == '[' || c == ']' {
            proof {
                assert(value_end(s@, j as int) == j);
            }
            return j;
        }
        proof {
            assert(value_end(s@, j as int) == value_end(s@, j as int + 1));
        }
        j += 1;
    }
    j
}

/// Tokenize a header text into its attribute map.  Every `[key=value]`
/// token is taken, a later duplicate key overwriting an earlier one; text
/// that forms no token is skipped.
pub fn parse_header(header_content: &str) -> (r: AttrMap)
    ensures
        r@ == header_map(header_content@),
{
    let ghost s = header_content@;
    let len = header_content.unicode_len();
    let mut attrs = AttrMap::new();
    let ghost mut toks: Seq<(Seq<char>, Seq<char>)> = Seq::empty();
    let mut i: usize = 0;
    proof {
        assert(toks + tokens_from(s, 0) =~= tokens_from(s, 0));
    }
    while i < len
        invariant
            0 <= i <= len,
            len == s.len(),
            s == header_content@,
            tokens_from(s, 0) == toks + tokens_from(s, i as int),
            attrs@ == map_of_tokens(toks),
        decreases len - i,
    {
        let c = header_content.get_char(i);
        if c != '[' {
            proof {
                assert(token_at(s, i as int) is None);
            }
            i += 1;
        } else {
            let ke = scan_key_end(header_content, i + 1, len);
            proof {
                lemma_key_end_bounds(s, i as int + 1);
            }
            let mut token_found = false;
            let mut next_i = i + 1;
            if i + 1 < ke && ke < len {
                if header_content.get_char(ke) == '=' {
                    let ve = scan_value_end(header_content, ke + 1, len);
                    proof {
                        lemma_value_end_bounds(s, ke as int + 1);
                    }
                    if ve < len {
                        if header_content.get_char(ve) == ']' {
                            let k = header_content.substring_char(i + 1, ke).to_owned();
                            let v = header_content.substring_char(ke + 1, ve).to_owned();
                            proof {
                                assert(token_at(s, i as int) == Some((k@, v@, ve as int + 1)));
                                assert(tokens_from(s, i as int) == seq![(k@, v@)] + tokens_from(
                                    s,
                                    ve as int + 1,
                                ));
                                assert(toks + (seq![(k@, v@)] + tokens_from(s, ve as int + 1))
                                    =~= toks.push((k@, v@)) + tokens_from(s, ve as int + 1));
                                lemma_map_of_tokens_push(toks, k@, v@);
                                toks = toks.push((k@, v@));
                            }
                            attrs.insert(k, v);
                            token_found = true;
                            next_i = ve + 1;
                        }
                    }
                }
            }
            if token_found {
                i = next_i;
            } else {
                proof {
                    assert(token_at(s, i as int) is None);
                }
                i += 1;
            }
        }
    }
    proof {
        assert(tokens_from(s, i as int) =~= Seq::<(Seq<char>, Seq<char>)>::empty());
        assert(toks + tokens_from(s, i as int) =~= toks);
    }
    attrs
}

// ---------------------------------------------------------------------------
// Subsystem code resolution.
// ---------------------------------------------------------------------------
/// The subsystem code an attribute map declares: `fields0.SUBSYSCODE`
/// first, then `subsyscode`.
pub open spec fn spec_subsys_code(m: Map<Seq<char>, Seq<char>>) -> Option<Seq<char>> {
    if m.contains_key("fields0.SUBSYSCODE"@) {
        Some(m["fields0.SUBSYSCODE"@])
    } else if m.contains_key("subsyscode"@) {
        Some(m["subsyscode"@])
    } else {
        None
    }
}

/// Resolve the subsystem code from the header attributes, with the fixed
/// two-step fallback.
pub fn get_subsys_code(headers: &AttrMap) -> (r: Option<String>)
    ensures
        match r {
            Some(v) => spec_subsys_code(headers@) == Some(v@),
            None => spec_subsys_code(headers@) is None,
        },
{
    match headers.get("fields0.SUBSYSCODE") {
        Some(v) => Some(v.clone()),
        None => match headers.get("subsyscode") {
            Some(v) => Some(v.clone()),
            None => None,
        },
    }
}

// ---------------------------------------------------------------------------
// The parsed header.
// ---------------------------------------------------------------------------
/// The mathematical content of a parsed header.
pub ghost struct HeaderView {
    pub subsys_code: Seq<char>,
    pub encode: Seq<char>,
    pub attr: Map<Seq<char>, Seq<char>>,
}

/// A parsed record header: the resolved subsystem code, the canonical name
/// of the declared encoding, and all header attributes.
#[derive(Debug)]
pub struct LogHeader {
    pub subsys_code: String,
    pub encode: String,
    pub attr: AttrMap,
}

impl View for LogHeader {
    type V = HeaderView;

    open spec fn view(&self) -> HeaderView {
        HeaderView { subsys_code: self.subsys_code@, encode: self.encode@, attr: self.attr@ }
    }
}

/// What parsing a header byte segment yields: the header text must be valid
/// UTF-8, and the declared encoding label (default `UTF-8`) must resolve.
pub open spec fn spec_header_from_bytes(bytes: Seq<u8>) -> Result<HeaderView, RecordError> {
    if !valid_utf8(bytes) {
        Err(RecordError::HeaderEncoding)
    } else {
        let m = header_map(decode_utf8(bytes));
        let label = if m.contains_key("encode"@) {
            m["encode"@]
        } else {
            "UTF-8"@
        };
        match label_lookup(label) {
            None => Err(RecordError::UnsupportedEncoding),
            Some(name) => Ok(
                HeaderView {
                    subsys_code: match spec_subsys_code(m) {
                        Some(c) => c,
                        None => "null"@,
                    },
                    encode: name,
                    attr: m,
                },
            ),
        }
    }
}

impl LogHeader {
    /// Parse a header segment: decode it as UTF-8, tokenize the attributes,
    /// and resolve the declared encoding.
    pub fn from_bytes(header_bytes: &[u8]) -> (r: Result<LogHeader, RecordError>)
        ensures
            match r {
                Ok(h) => spec_header_from_bytes(header_bytes@) == Ok::<HeaderView, RecordError>(
                    h@,
                ) && label_lookup(h@.encode) == Some(h@.encode),
                Err(e) => spec_header_from_bytes(header_bytes@) == Err::<
                    HeaderView,
                    RecordError,
                >(e),
            },
            (valid_utf8(header_bytes@) && !header_map(decode_utf8(header_bytes@)).contains_key(
                "encode"@,
            )) ==> (r matches Ok(h) && h@.encode == "UTF-8"@),
    {
        let header_str = match utf8_to_string(header_bytes) {
            Some(s) => s,
            None => {
                return Err(RecordError::HeaderEncoding);
            },
        };
        let headers = parse_header(header_str.as_str());
        let encoding = match headers.get("encode") {
            Some(label) => get_encoding_from_label(label.as_str()),
            None => {
                proof {
                    lemma_lower_utf8_default();
                }
                get_encoding_from_label("UTF-8")
            },
        };
        let encoding = match encoding {
            Some(name) => name,
            None => {
                return Err(RecordError::UnsupportedEncoding);
            },
        };
        let subsys_code = match get_subsys_code(&headers) {
            Some(c) => c,
            None => "null".to_owned(),
        };
        Ok(LogHeader { subsys_code, encode: encoding, attr: headers })
    }
}

// ---------------------------------------------------------------------------
// Whole log blocks given as text.
// ---------------------------------------------------------------------------
/// The position of the first `]]` at or after `i` in a text.
pub open spec fn char_delim_from(s: Seq<char>, i: int) -> Option<int>
    decreases s.len() - i,
    when 0 <= i
{
    if i + 2 > s.len() {
        None
    } else if s[i] == ']' && s[i + 1] == ']' {
        Some(i)
    } else {
        char_delim_from(s, i + 1)
    }
}

/// Split a log block written as `[[` header `]]` body: the attribute map of
/// the header text between the opening `[[` and the first `]]` after it,
/// and the body trimmed of surrounding whitespace.  A block that does not
/// open with `[[` or never closes the header yields nothing.
pub open spec fn spec_parse_log_block(s: Seq<char>) -> Option<
    (Map<Seq<char>, Seq<char>>, Seq<char>),
> {
    if s.len() >= 2 && s[0] == '[' && s[1] == '[' {
        match char_delim_from(s, 2) {
            Some(p) => Some(
                (header_map(s.subrange(2, p)), spec_trim(s.subrange(p + 2, s.len() as int))),
            ),
            None => None,
        }
    } else {
        None
    }
}

/// The first `]]` at or after position 2 of a text.
fn scan_char_delim(s: &str, len: usize) -> (r: Option<usize>)
    requires
        2 <= len,
        len == s@.len(),
    ensures
        match r {
            Some(p) => char_delim_from(s@, 2) == Some(p as int) && 2 <= p && p + 2 <= len,
            None => char_delim_from(s@, 2) is None,
        },
{
    let mut i: usize = 2;
    while i < len - 1
        invariant
            2 <= i,
            len == s@.len(),
            i <= len,
            char_delim_from(s@, 2) == char_delim_from(s@, i as int),
        decreases len - i,
    {
        if s.get_char(i) == ']' && s.get_char(i + 1) == ']' {
            proof {
                assert(char_delim_from(s@, i as int) == Some(i as int));
            }
            return Some(i);
        }
        proof {
            assert(char_delim_from(s@, i as int) == char_delim_from(s@, i as int + 1));
        }
        i += 1;
    }
    proof {
        assert(char_delim_from(s@, i as int) is None);
    }
    None
}

/// Split a log block into its attribute map and its trimmed body text.
pub fn parse_log_block(log_block: &str) -> (r: Option<(AttrMap, String)>)
    ensures
        r matches Some(pair) ==> spec_parse_log_block(log_block@) matches Some(sp) && pair.0@
            == sp.0 && pair.1@ == sp.1,
        r is None ==> spec_parse_log_block(log_block@) is None,
{
    let len = log_block.unicode_len();
    if len < 2 {
        return None;
    }
    if log_block.get_char(0) != '[' || log_block.get_char(1) != '[' {
        return None;
    }
    let p = match scan_char_delim(log_block, len) {
        Some(p) => p,
        None => {
            return None;
        },
    };
    let header_content = log_block.substring_char(2, p);
    let attributes = parse_header(header_content);
    let body = log_block.substring_char(p + 2, len);
    let raw_log = trim_str(body).to_owned();
    Some((attributes, raw_log))
}

/// The default label lowers to the curated `utf-8` alias.
proof fn lemma_lower_utf8_default()
    ensures
        lower_codes("UTF-8"@) == lower_codes("utf-8"@),
{
    reveal_strlit("UTF-8");
    reveal_strlit("utf-8");
    assert(lower_codes("UTF-8"@) =~= lower_codes("utf-8"@));
}

} // verus!
