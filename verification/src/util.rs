use vstd::prelude::*;

verus! {

/// The Unicode code points with the White_Space property; these are the
/// characters that trimming removes.
pub open spec fn is_whitespace_char(c: char) -> bool {
    let u = c as u32;
    (0x9 <= u && u <= 0xD) || u == 0x20 || u == 0x85 || u == 0xA0 || u == 0x1680 || (0x2000
        <= u && u <= 0x200A) || u == 0x2028 || u == 0x2029 || u == 0x202F || u == 0x205F || u
        == 0x3000
}

/// ASCII lowering of one character, seen as a code point.
pub open spec fn lower_code(c: char) -> u32 {
    let u = c as u32;
    if 65 <= u && u <= 90 {
        (u + 32) as u32
    } else {
        u
    }
}

/// ASCII lowering of a whole character sequence, as code points.
pub open spec fn lower_codes(s: Seq<char>) -> Seq<u32> {
    s.map_values(|c: char| lower_code(c))
}

/// A string counts as empty when every character is whitespace or when it
/// spells "null" regardless of ASCII case.
pub open spec fn spec_is_empty(s: Seq<char>) -> bool {
    (forall|i: int| 0 <= i < s.len() ==> is_whitespace_char(#[trigger] s[i])) || lower_codes(s)
        == lower_codes("null"@)
}

/// ASCII lowering of one character, executable form.
fn lower_code_of(c: char) -> (r: u32)
    ensures
        r == lower_code(c),
{
    let u = c as u32;
    if 65 <= u && u <= 90 {
        u + 32
    } else {
        u
    }
}

/// Whether a string is blank or a spelled-out "null".
pub fn is_empty(s: &str) -> (r: bool)
    ensures
        r == spec_is_empty(s@),
{
    let len = s.unicode_len();
    let mut all_ws = true;
    let mut i: usize = 0;
    while i < len
        invariant
            0 <= i <= len,
            len == s@.len(),
            all_ws == (forall|j: int| 0 <= j < i ==> is_whitespace_char(#[trigger] s@[j])),
        decreases len - i,
    {
        let ws = is_ws_char(s.get_char(i));
        all_ws = all_ws && ws;
        i += 1;
    }
    if all_ws {
        return true;
    }
    proof {
        reveal_strlit("null");
    }
    if len != 4 {
        proof {
            assert(lower_codes(s@).len() != lower_codes("null"@).len());
        }
        return false;
    }
    let r = lower_code_of(s.get_char(0)) == 110 && lower_code_of(s.get_char(1)) == 117
        && lower_code_of(s.get_char(2)) == 108 && lower_code_of(s.get_char(3)) == 108;
    proof {
        assert(forall|j: int| 0 <= j < 4 ==> lower_codes(s@)[j] == lower_code(#[trigger] s@[j]));
        assert(forall|j: int|
            0 <= j < 4 ==> lower_codes("null"@)[j] == lower_code(#[trigger] "null"@[j]));
        if r {
            assert(lower_codes(s@) =~= lower_codes("null"@));
        } else {
            assert(lower_codes(s@)[0] == lower_code(s@[0]));
            assert(lower_codes(s@) != lower_codes("null"@));
        }
    }
    r
}

/// The first position at or after `i` holding a non-whitespace character,
/// or the length if there is none.
pub open spec fn ws_from(s: Seq<char>, i: int) -> int
    decreases s.len() - i,
    when 0 <= i <= s.len()
{
    if i >= s.len() {
        s.len() as int
    } else if !is_whitespace_char(s[i]) {
        i
    } else {
        ws_from(s, i + 1)
    }
}

/// The position just past the last non-whitespace character strictly before
/// `j`, or zero if there is none.
pub open spec fn ws_until(s: Seq<char>, j: int) -> int
    decreases j,
    when 0 <= j <= s.len()
{
    if j <= 0 {
        0
    } else if !is_whitespace_char(s[j - 1]) {
        j
    } else {
        ws_until(s, j - 1)
    }
}

/// A string with its leading and trailing whitespace removed.
pub open spec fn spec_trim(s: Seq<char>) -> Seq<char> {
    let a = ws_from(s, 0);
    let b = ws_until(s, s.len() as int);
    if a <= b {
        s.subrange(a, b)
    } else {
        Seq::empty()
    }
}

pub proof fn lemma_ws_until_bounds(s: Seq<char>, j: int)
    requires
        0 <= j <= s.len(),
    ensures
        0 <= ws_until(s, j) <= j,
    decreases j,
{
    if j > 0 && is_whitespace_char(s[j - 1]) {
        lemma_ws_until_bounds(s, j - 1);
    }
}

/// Whether one character is whitespace, executable form.
fn is_ws_char(c: char) -> (r: bool)
    ensures
        r == is_whitespace_char(c),
{
    let u = c as u32;
    (0x9 <= u && u <= 0xD) || u == 0x20 || u == 0x85 || u == 0xA0 || u == 0x1680 || (0x2000 <= u
        && u <= 0x200A) || u == 0x2028 || u == 0x2029 || u == 0x202F || u == 0x205F || u == 0x3000
}

/// The first position holding a non-whitespace character.
fn scan_trim_start(s: &str, len: usize) -> (r: usize)
    requires
        len == s@.len(),
    ensures
        r == ws_from(s@, 0),
        r <= len,
{
    let mut a: usize = 0;
    while a < len
        invariant
            0 <= a <= len,
            len == s@.len(),
            ws_from(s@, 0) == ws_from(s@, a as int),
        decreases len - a,
    {
        if !is_ws_char(s.get_char(a)) {
            proof {
                assert(ws_from(s@, a as int) == a);
            }
            return a;
        }
        proof {
            assert(ws_from(s@, a as int) == ws_from(s@, a as int + 1));
        }
        a += 1;
    }
    proof {
        assert(ws_from(s@, a as int) == a);
    }
    a
}

/// Trim leading and trailing whitespace.
pub fn trim_str<'a>(s: &'a str) -> (r: &'a str)
    ensures
        r@ == spec_trim(s@),
{
    let len = s.unicode_len();
    let a = scan_trim_start(s, len);
    let mut b: usize = len;
    while b > a
        invariant
            a <= b <= len,
            len == s@.len(),
            a == ws_from(s@, 0),
            ws_until(s@, len as int) == ws_until(s@, b as int),
        decreases b,
    {
        if !is_ws_char(s.get_char(b - 1)) {
            proof {
                assert(ws_until(s@, b as int) == b);
            }
            return s.substring_char(a, b);
        }
        proof {
            assert(ws_until(s@, b as int) == ws_until(s@, b as int - 1));
        }
        b -= 1;
    }
    // only whitespace from `a` on: the trimmed text is empty
    proof {
        lemma_ws_until_bounds(s@, a as int);
        assert(s@.subrange(a as int, a as int) =~= spec_trim(s@));
    }
    s.substring_char(a, a)
}

/// Whether two strings hold the same characters.
pub fn str_eq(a: &str, b: &str) -> (r: bool)
    ensures
        r == (a@ == b@),
{
    let alen = a.unicode_len();
    let blen = b.unicode_len();
    if alen != blen {
        return false;
    }
    let mut i: usize = 0;
    while i < alen
        invariant
            0 <= i <= alen,
            alen == a@.len(),
            alen == b@.len(),
            forall|j: int| 0 <= j < i ==> a@[j] == b@[j],
        decreases alen - i,
    {
        if a.get_char(i) != b.get_char(i) {
            return false;
        }
        i += 1;
    }
    proof {
        assert(a@ =~= b@);
    }
    true
}

/// Emptiness seen through a trait, so that generic callers can ask it of
/// any type that offers it.
pub trait IsEmpty<T> {
    fn is_empty(t: T) -> bool;
}

impl IsEmpty<String> for String {
    fn is_empty(t: String) -> bool {
        is_empty(t.as_str())
    }
}

} // verus!
