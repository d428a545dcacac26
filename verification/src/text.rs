//! Character-level text utilities: ASCII-whitespace trimming,
//! case-insensitive matching, building ASCII strings, and rendering
//! integers as decimal text.

use vstd::prelude::*;
use vstd::string::StrSliceExecFns;

verus! {

/// The whitespace characters this library trims: space, tab, LF, CR.
pub open spec fn is_ascii_space(c: char) -> bool {
    c == ' ' || c == '\t' || c == '\n' || c == '\r'
}

/// `s` without its leading ASCII whitespace.
pub open spec fn trim_front_chars(s: Seq<char>) -> Seq<char>
    decreases s.len(),
{
    if s.len() > 0 && is_ascii_space(s[0]) {
        trim_front_chars(s.drop_first())
    } else {
        s
    }
}

/// `s` without its trailing ASCII whitespace.
pub open spec fn trim_back_chars(s: Seq<char>) -> Seq<char>
    decreases s.len(),
{
    if s.len() > 0 && is_ascii_space(s.last()) {
        trim_back_chars(s.drop_last())
    } else {
        s
    }
}

/// `s` without leading and trailing ASCII whitespace.
pub open spec fn trim_chars(s: Seq<char>) -> Seq<char> {
    trim_back_chars(trim_front_chars(s))
}

proof fn lemma_trim_front_subrange(s: Seq<char>, k: int)
    requires
        0 <= k <= s.len(),
        forall|j: int| 0 <= j < k ==> is_ascii_space(#[trigger] s[j]),
        k < s.len() ==> !is_ascii_space(s[k]),
    ensures
        trim_front_chars(s) == s.subrange(k, s.len() as int),
    decreases k,
{
    if k == 0 {
        assert(s.subrange(0, s.len() as int) =~= s);
    } else {
        assert(is_ascii_space(s[0]));
        let t = s.drop_first();
        assert(forall|j: int| 0 <= j < k - 1 ==> is_ascii_space(#[trigger] t[j]));
        lemma_trim_front_subrange(t, k - 1);
        assert(t.subrange(k - 1, t.len() as int) =~= s.subrange(k, s.len() as int));
    }
}

proof fn lemma_trim_back_subrange(s: Seq<char>, e: int)
    requires
        0 <= e <= s.len(),
        forall|j: int| e <= j < s.len() ==> is_ascii_space(#[trigger] s[j]),
        e > 0 ==> !is_ascii_space(s[e - 1]),
    ensures
        trim_back_chars(s) == s.subrange(0, e),
    decreases s.len() - e,
{
    if e == s.len() {
        if s.len() > 0 {
            assert(!is_ascii_space(s.last()));
        }
        assert(s.subrange(0, e) =~= s);
    } else {
        assert(is_ascii_space(s.last()));
        let t = s.drop_last();
        assert(forall|j: int| e <= j < t.len() ==> is_ascii_space(#[trigger] t[j]));
        lemma_trim_back_subrange(t, e);
        assert(t.subrange(0, e) =~= s.subrange(0, e));
    }
}

/// Tests one character for ASCII whitespace.
pub fn is_space_char(c: char) -> (r: bool)
    ensures
        r == is_ascii_space(c),
{
    c == ' ' || c == '\t' || c == '\n' || c == '\r'
}

/// Finds the character-index bounds `(start, end)` of `s` with ASCII
/// whitespace removed from both sides, so that the trimmed text is
/// exactly `s@.subrange(start, end)`.
pub fn trim_bounds(s: &str) -> (r: (usize, usize))
    ensures
        0 <= r.0 <= r.1 <= s@.len(),
        trim_chars(s@) == s@.subrange(r.0 as int, r.1 as int),
{
    let n = s.unicode_len();
    let mut start: usize = 0;
    while start < n && is_space_char(s.get_char(start))
        invariant
            0 <= start <= n,
            n == s@.len(),
            forall|j: int| 0 <= j < start ==> is_ascii_space(#[trigger] s@[j]),
        decreases n - start,
    {
        start = start + 1;
    }
    let mut end: usize = n;
    while end > start && is_space_char(s.get_char(end - 1))
        invariant
            start <= end <= n,
            n == s@.len(),
            forall|j: int| end <= j < n ==> is_ascii_space(#[trigger] s@[j]),
        decreases end,
    {
        end = end - 1;
    }
    proof {
        lemma_trim_front_subrange(s@, start as int);
        let t = s@.subrange(start as int, n as int);
        assert(forall|j: int| (end - start) <= j < t.len() ==> is_ascii_space(#[trigger] t[j]));
        lemma_trim_back_subrange(t, end - start);
        assert(t.subrange(0, end - start) =~= s@.subrange(start as int, end as int));
    }
    (start, end)
}

/// Copies `s` without its leading and trailing ASCII whitespace.
pub fn trim_to_string(s: &str) -> (r: String)
    ensures
        r@ == trim_chars(s@),
{
    let (start, end) = trim_bounds(s);
    s.substring_char(start, end).to_owned()
}

/// Relies on `String::from_utf8`: it succeeds exactly on valid UTF-8 input
/// and returns the string those bytes encode.
#[verifier::external_body]
pub(crate) fn string_from_utf8_bytes(bytes: Vec<u8>) -> (r: Option<String>)
    ensures
        match r {
            Some(s) => vstd::utf8::valid_utf8(bytes@) && s@ == vstd::utf8::decode_utf8(bytes@),
            None => !vstd::utf8::valid_utf8(bytes@),
        },
{
    match String::from_utf8(bytes) {
        Ok(s) => Some(s),
        Err(_) => None,
    }
}

/// Turns a sequence of ASCII bytes into the string of those characters.
pub fn ascii_bytes_to_string(bytes: Vec<u8>) -> (r: String)
    requires
        forall|i: int| 0 <= i < bytes@.len() ==> #[trigger] bytes@[i] < 128,
    ensures
        r@ == bytes@.map_values(|b: u8| b as char),
{
    proof {
        let chars = bytes@.map_values(|b: u8| b as char);
        assert(vstd::utf8::is_ascii_chars(chars)) by {
            assert(forall|i: int|
                0 <= i < chars.len() ==> '\0' <= #[trigger] chars[i] <= '\u{7f}') by {
                assert(forall|i: int|
                    0 <= i < bytes@.len() ==> (#[trigger] bytes@[i] as char) as u32 == bytes@[i]);
            }
        }
        vstd::utf8::is_ascii_chars_encode_utf8(chars);
        assert(vstd::utf8::encode_utf8(chars) =~= bytes@);
        vstd::utf8::encode_utf8_valid_utf8(chars);
        vstd::utf8::encode_utf8_decode_utf8(chars);
    }
    match string_from_utf8_bytes(bytes) {
        Some(s) => s,
        None => vstd::pervasive::unreached(),
    }
}

/// The lowercase image of a character's code point, folding only ASCII
/// letters, as `u8::to_ascii_lowercase` does.
pub open spec fn lower_code(c: char) -> u32 {
    if 'A' <= c && c <= 'Z' {
        (c as u32 + 32) as u32
    } else {
        c as u32
    }
}

/// `pat` matches `s` at offset `i` up to ASCII case.
pub open spec fn ci_match_at(s: Seq<char>, pat: Seq<char>, i: int) -> bool {
    forall|j: int| 0 <= j < pat.len() ==> lower_code(s[i + j]) == lower_code(#[trigger] pat[j])
}

/// `pat` occurs somewhere in `s`, up to ASCII case.
pub open spec fn ci_contains(s: Seq<char>, pat: Seq<char>) -> bool {
    exists|i: int| 0 <= i <= s.len() - pat.len() && ci_match_at(s, pat, i)
}

/// `s` and `t` are equal up to ASCII case.
pub open spec fn ci_equal(s: Seq<char>, t: Seq<char>) -> bool {
    s.len() == t.len() && ci_match_at(s, t, 0)
}

fn lower_code_of(c: char) -> (r: u32)
    ensures
        r == lower_code(c),
{
    let u = c as u32;
    if 65 <= u && u <= 90 {
        u + 32
    } else {
        u
    }
}

fn ci_match_here(s: &str, n: usize, pat: &str, m: usize, i: usize) -> (r: bool)
    requires
        n == s@.len(),
        m == pat@.len(),
        i + m <= n,
    ensures
        r == ci_match_at(s@, pat@, i as int),
{
    let mut j: usize = 0;
    while j < m
        invariant
            0 <= j <= m,
            n == s@.len(),
            m == pat@.len(),
            i + m <= n,
            forall|k: int|
                0 <= k < j ==> lower_code(s@[i + k]) == lower_code(#[trigger] pat@[k]),
        decreases m - j,
    {
        if lower_code_of(s.get_char(i + j)) != lower_code_of(pat.get_char(j)) {
            return false;
        }
        j = j + 1;
    }
    true
}

/// Case-insensitive (ASCII folding) substring test, the library's analogue
/// of lowercasing both sides and calling `contains`.
pub fn contains_ci(s: &str, pat: &str) -> (r: bool)
    ensures
        r == ci_contains(s@, pat@),
{
    let n = s.unicode_len();
    let m = pat.unicode_len();
    if m > n {
        return false;
    }
    let mut i: usize = 0;
    while i <= n - m
        invariant
            0 <= i <= n - m + 1,
            m <= n,
            n == s@.len(),
            m == pat@.len(),
            forall|k: int| 0 <= k < i ==> !ci_match_at(s@, pat@, k),
        decreases n + 1 - i,
    {
        if ci_match_here(s, n, pat, m, i) {
            return true;
        }
        i = i + 1;
    }
    false
}

/// Case-insensitive (ASCII folding) equality test.
pub fn equals_ci(s: &str, t: &str) -> (r: bool)
    ensures
        r == ci_equal(s@, t@),
{
    let n = s.unicode_len();
    let m = t.unicode_len();
    if n != m {
        return false;
    }
    ci_match_here(s, n, t, m, 0)
}

/// The character for decimal digit `d`.
pub open spec fn digit_char(d: int) -> char {
    ((48 + d) as u32) as char
}

/// The decimal rendering of `n`, most significant digit first, no leading
/// zeros (a single `'0'` for zero).
pub open spec fn dec_digits(n: nat) -> Seq<char>
    decreases n,
{
    if n < 10 {
        seq![digit_char(n as int)]
    } else {
        dec_digits(n / 10) + seq![digit_char((n % 10) as int)]
    }
}

/// Renders `n` in decimal.
pub fn u64_to_dec_string(n: u64) -> (r: String)
    ensures
        r@ == dec_digits(n as nat),
{
    let mut rev_digits: Vec<u8> = Vec::new();
    if n == 0 {
        rev_digits.push(48);
        proof {
            assert((48u8 as char) as u32 == 48);
            assert(rev_digits@.reverse() =~= rev_digits@);
            assert(rev_digits@.reverse().map_values(|b: u8| b as char) =~= seq![digit_char(0)]);
        }
    } else {
        let mut x = n;
        while x > 0
            invariant
                forall|i: int|
                    0 <= i < rev_digits@.len() ==> 48 <= #[trigger] rev_digits@[i] < 58,
                dec_digits(n as nat) == (if x > 0 {
                    dec_digits(x as nat)
                } else {
                    Seq::<char>::empty()
                }) + rev_digits@.reverse().map_values(|b: u8| b as char),
            decreases x,
        {
            let ghost prev = rev_digits@;
            let ghost x0 = x;
            let d: u8 = (x % 10) as u8;
            rev_digits.push(48 + d);
            x = x / 10;
            proof {
                assert(rev_digits@.reverse() =~= seq![(48 + d) as u8] + prev.reverse());
                assert(((48 + d) as u8 as char) as u32 == 48 + d);
                assert(rev_digits@.reverse().map_values(|b: u8| b as char) =~= seq![
                    digit_char(d as int),
                ] + prev.reverse().map_values(|b: u8| b as char));
                if x0 >= 10 {
                    assert(dec_digits(x0 as nat) == dec_digits((x0 as nat) / 10) + seq![
                        digit_char(((x0 as nat) % 10) as int),
                    ]);
                } else {
                    assert(dec_digits(x0 as nat) == seq![digit_char(x0 as int)]);
                }
            }
        }
    }
    let mut bytes: Vec<u8> = Vec::new();
    let total = rev_digits.len();
    let mut i: usize = 0;
    while i < total
        invariant
            0 <= i <= total,
            total == rev_digits@.len(),
            forall|k: int| 0 <= k < rev_digits@.len() ==> 48 <= #[trigger] rev_digits@[k] < 58,
            bytes@ =~= rev_digits@.reverse().take(i as int),
        decreases total - i,
    {
        proof {
            assert(rev_digits@.reverse()[i as int] == rev_digits@[total - 1 - i]);
        }
        bytes.push(rev_digits[total - 1 - i]);
        proof {
            assert(bytes@ =~= rev_digits@.reverse().take(i + 1));
        }
        i = i + 1;
    }
    proof {
        assert(bytes@ =~= rev_digits@.reverse());
    }
    ascii_bytes_to_string(bytes)
}

} // verus!
