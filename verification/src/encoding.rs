use vstd::prelude::*;

use crate::util::lower_codes;
use vstd::utf8::{decode_utf8, valid_utf8};

verus! {

/// What WHATWG label resolution yields for an encoding label: the canonical
/// name of the encoding the label denotes, if it denotes one.  Resolution
/// is ASCII-case-insensitive and ignores surrounding ASCII whitespace.
pub uninterp spec fn label_lookup(label: Seq<char>) -> Option<Seq<char>>;

/// What decoding a byte sequence with the encoding a label denotes yields,
/// with BOM sniffing and replacement characters for malformed sequences.
pub uninterp spec fn decode_of(label: Seq<char>, bytes: Seq<u8>) -> Seq<char>;

/// Relies on core::str::from_utf8: it succeeds exactly on valid UTF-8 input
/// and yields the characters the bytes encode.
#[verifier::external_body]
pub(crate) fn utf8_to_string(bytes: &[u8]) -> (r: Option<String>)
    ensures
        match r {
            Some(s) => valid_utf8(bytes@) && s@ == decode_utf8(bytes@),
            None => !valid_utf8(bytes@),
        },
{
    match core::str::from_utf8(bytes) {
        Ok(s) => Some(s.to_string()),
        Err(_) => None,
    }
}

/// The curated aliases whose resolution the contracts pin down exactly.
pub open spec fn is_curated_alias(label: Seq<char>) -> bool {
    lower_codes(label) == lower_codes("utf-8"@) || lower_codes(label) == lower_codes("utf8"@)
        || lower_codes(label) == lower_codes("gbk"@) || lower_codes(label) == lower_codes(
        "gb18030"@,
    ) || lower_codes(label) == lower_codes("latin1"@) || lower_codes(label) == lower_codes(
        "windows-1252"@,
    )
}

/// Relies on encoding_rs::Encoding::for_label and Encoding::name: a label
/// is looked up in the WHATWG label table and the canonical name of the
/// encoding found is returned.  Every canonical name is itself a label of
/// its own encoding, and the clauses on particular labels restate rows of
/// that table.
#[verifier::external_body]
fn encoding_name_for_label(label: &str) -> (r: Option<String>)
    ensures
        r matches Some(n) ==> label_lookup(label@) == Some(n@) && label_lookup(n@) == Some(n@),
        r is None ==> label_lookup(label@) is None,
        r is None ==> !is_curated_alias(label@),
        r matches Some(n) ==> ((lower_codes(label@) == lower_codes("utf-8"@) || lower_codes(
            label@,
        ) == lower_codes("utf8"@)) ==> n@ == "UTF-8"@),
        r matches Some(n) ==> (lower_codes(label@) == lower_codes("gbk"@) ==> n@ == "GBK"@),
        r matches Some(n) ==> (lower_codes(label@) == lower_codes("gb18030"@) ==> n@
            == "gb18030"@),
        r matches Some(n) ==> ((lower_codes(label@) == lower_codes("latin1"@) || lower_codes(
            label@,
        ) == lower_codes("windows-1252"@)) ==> n@ == "windows-1252"@),
{
    encoding_rs::Encoding::for_label(label.as_bytes()).map(|e| e.name().to_string())
}

/// Resolve an encoding label to the canonical name of its decoder.  The
/// common aliases `utf-8`, `utf8`, `gbk`, `gb18030`, `latin1` and
/// `windows-1252` resolve as the contract pins down; any other label
/// resolves exactly when the standards-based lookup knows it.
pub fn get_encoding_from_label(label: &str) -> (r: Option<String>)
    ensures
        r matches Some(n) ==> label_lookup(label@) == Some(n@) && label_lookup(n@) == Some(n@),
        r is None ==> label_lookup(label@) is None,
        is_curated_alias(label@) ==> r is Some,
        r matches Some(n) ==> ((lower_codes(label@) == lower_codes("utf-8"@) || lower_codes(
            label@,
        ) == lower_codes("utf8"@)) ==> n@ == "UTF-8"@),
        r matches Some(n) ==> (lower_codes(label@) == lower_codes("gbk"@) ==> n@ == "GBK"@),
        r matches Some(n) ==> (lower_codes(label@) == lower_codes("gb18030"@) ==> n@
            == "gb18030"@),
        r matches Some(n) ==> ((lower_codes(label@) == lower_codes("latin1"@) || lower_codes(
            label@,
        ) == lower_codes("windows-1252"@)) ==> n@ == "windows-1252"@),
{
    encoding_name_for_label(label)
}

/// Relies on encoding_rs::Encoding::for_label and Encoding::decode: the
/// bytes are decoded by the encoding the label denotes, malformed sequences
/// becoming replacement characters.  The label must denote an encoding.
#[verifier::external_body]
pub(crate) fn decode_body(label: &str, bytes: &Vec<u8>) -> (r: String)
    requires
        label_lookup(label@) is Some,
    ensures
        r@ == decode_of(label@, bytes@),
{
    let encoding = encoding_rs::Encoding::for_label(label.as_bytes()).unwrap();
    let (text, _, _) = encoding.decode(bytes);
    text.into_owned()
}

} // verus!

