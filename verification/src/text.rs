//! Character-level text helpers shared by both stores: scanning for
//! delimiters, trimming quotes, decimal parsing, and uppercase
//! normalization of country codes.

use vstd::prelude::*;
use vstd::string::*;

verus! {

/// A decimal digit.
pub open spec fn is_digit(c: char) -> bool {
    '0' as u32 <= c as u32 && c as u32 <= '9' as u32
}

/// The numeric value of one decimal digit.
pub open spec fn digit_val(c: char) -> int {
    c as u32 - '0' as u32
}

/// A non-empty, all-digit character sequence.
pub open spec fn is_digits(s: Seq<char>) -> bool {
    s.len() > 0 && forall|i: int| 0 <= i < s.len() ==> is_digit(#[trigger] s[i])
}

/// The value of a digit sequence read as a base-ten numeral.
pub open spec fn digits_val(s: Seq<char>) -> int
    decreases s.len(),
{
    if s.len() == 0 {
        0
    } else {
        digits_val(s.drop_last()) * 10 + digit_val(s.last())
    }
}

/// What a well-formed unsigned decimal field denotes: its numeral value,
/// if the text is all digits and the value fits in 32 bits.
pub open spec fn parse_u32_spec(s: Seq<char>) -> Option<u32> {
    if is_digits(s) && digits_val(s) <= u32::MAX {
        Some(digits_val(s) as u32)
    } else {
        None
    }
}

pub proof fn lemma_digits_val_nonneg(s: Seq<char>)
    requires
        forall|i: int| 0 <= i < s.len() ==> is_digit(#[trigger] s[i]),
    ensures
        digits_val(s) >= 0,
    decreases s.len(),
{
    if s.len() > 0 {
        lemma_digits_val_nonneg(s.drop_last());
    }
}

/// A numeral's value is no less than the value of any of its prefixes.
pub proof fn lemma_digits_val_prefix(s: Seq<char>, i: int)
    requires
        forall|j: int| 0 <= j < s.len() ==> is_digit(#[trigger] s[j]),
        0 <= i <= s.len(),
    ensures
        digits_val(s.take(i)) <= digits_val(s),
    decreases s.len(),
{
    if i == s.len() {
        assert(s.take(i) =~= s);
    } else {
        let d = s.drop_last();
        assert(d =~= s.take(s.len() - 1));
        assert(d.take(i) =~= s.take(i));
        lemma_digits_val_prefix(d, i);
        lemma_digits_val_nonneg(d);
    }
}

/// Reads a non-empty all-digit string as an unsigned 32-bit decimal
/// numeral; yields nothing on any other input.
pub fn parse_u32(s: &str) -> (r: Option<u32>)
    ensures
        r == parse_u32_spec(s@),
{
    let n = s.unicode_len();
    if n == 0 {
        return None;
    }
    let mut val: u64 = 0;
    let mut i: usize = 0;
    while i < n
        invariant
            0 < n == s@.len(),
            i <= n,
            forall|j: int| 0 <= j < i ==> is_digit(#[trigger] s@[j]),
            val == digits_val(s@.take(i as int)),
            val <= u32::MAX,
        decreases n - i,
    {
        let c = s.get_char(i);
        let cu = c as u32;
        if !('0' as u32 <= cu && cu <= '9' as u32) {
            return None;
        }
        let d = cu - '0' as u32;
        proof {
            assert(s@.take(i + 1).drop_last() =~= s@.take(i as int));
            assert(s@.take(i + 1).last() == s@[i as int]);
        }
        let nv: u64 = val * 10 + d as u64;
        assert(nv == digits_val(s@.take(i + 1)));
        if nv > u32::MAX as u64 {
            proof {
                if is_digits(s@) {
                    lemma_digits_val_prefix(s@, i + 1);
                }
            }
            return None;
        }
        val = nv;
        i += 1;
    }
    proof {
        assert(s@.take(n as int) =~= s@);
    }
    Some(val as u32)
}

/// The position of the first occurrence of `c` in `s` at or after `i`,
/// or -1 if there is none.
pub open spec fn find_char_from(s: Seq<char>, c: char, i: int) -> int
    decreases s.len() - i,
{
    if i < 0 || i >= s.len() {
        -1
    } else if s[i] == c {
        i
    } else {
        find_char_from(s, c, i + 1)
    }
}

/// Scans `s` for the first occurrence of `c` at or after index `from`.
pub fn find_char(s: &str, from: usize, c: char) -> (r: Option<usize>)
    requires
        from <= s@.len(),
    ensures
        match r {
            Some(i) => find_char_from(s@, c, from as int) == i as int && from <= i < s@.len(),
            None => find_char_from(s@, c, from as int) == -1,
        },
{
    let n = s.unicode_len();
    let mut i = from;
    while i < n
        invariant
            from <= i <= n == s@.len(),
            find_char_from(s@, c, from as int) == find_char_from(s@, c, i as int),
        decreases n - i,
    {
        if s.get_char(i) == c {
            return Some(i);
        }
        i += 1;
    }
    None
}

/// Whether a field separator (a quote, a comma, a quote) starts at `i`.
pub open spec fn is_sep_at(s: Seq<char>, i: int) -> bool {
    0 <= i && i + 3 <= s.len() && s[i] == '"' && s[i + 1] == ',' && s[i + 2] == '"'
}

/// The position of the first field separator at or after `i`, or -1.
pub open spec fn find_sep_from(s: Seq<char>, i: int) -> int
    decreases s.len() - i,
{
    if i < 0 || i + 3 > s.len() {
        -1
    } else if is_sep_at(s, i) {
        i
    } else {
        find_sep_from(s, i + 1)
    }
}

/// Scans `s` for the first field separator at or after index `from`.
pub fn find_sep(s: &str, from: usize) -> (r: Option<usize>)
    requires
        from <= s@.len(),
    ensures
        match r {
            Some(i) => find_sep_from(s@, from as int) == i as int && is_sep_at(s@, i as int)
                && from <= i,
            None => find_sep_from(s@, from as int) == -1,
        },
{
    let n = s.unicode_len();
    let mut i = from;
    while n - i >= 3
        invariant
            from <= i <= n == s@.len(),
            find_sep_from(s@, from as int) == find_sep_from(s@, i as int),
        decreases n - i,
    {
        if s.get_char(i) == '"' && s.get_char(i + 1) == ',' && s.get_char(i + 2) == '"' {
            return Some(i);
        }
        i += 1;
    }
    None
}

/// The index of the first character at or after `i` that is not a quote,
/// or the length of `s` if all of them are.
pub open spec fn first_non_quote(s: Seq<char>, i: int) -> int
    decreases s.len() - i,
{
    if i < 0 || i >= s.len() {
        s.len() as int
    } else if s[i] != '"' {
        i
    } else {
        first_non_quote(s, i + 1)
    }
}

/// The index of the last character at or before `i` that is not a quote,
/// or -1 if all of them are.
pub open spec fn last_non_quote(s: Seq<char>, i: int) -> int
    decreases i + 1,
{
    if i < 0 || i >= s.len() {
        -1
    } else if s[i] != '"' {
        i
    } else {
        last_non_quote(s, i - 1)
    }
}

/// A field with every leading and trailing quote removed.
pub open spec fn trim_quotes_spec(s: Seq<char>) -> Seq<char> {
    let a = first_non_quote(s, 0);
    let b = last_non_quote(s, s.len() - 1);
    if a > b {
        Seq::empty()
    } else {
        s.subrange(a, b + 1)
    }
}

/// Removes every leading and trailing quote of a field.
pub fn trim_quotes<'a>(s: &'a str) -> (r: &'a str)
    ensures
        r@ == trim_quotes_spec(s@),
{
    let n = s.unicode_len();
    let mut a: usize = 0;
    while a < n && s.get_char(a) == '"'
        invariant
            a <= n == s@.len(),
            first_non_quote(s@, 0) == first_non_quote(s@, a as int),
        decreases n - a,
    {
        a += 1;
    }
    assert(a as int == first_non_quote(s@, 0));
    let mut b: usize = n;
    while b > 0 && s.get_char(b - 1) == '"'
        invariant
            b <= n == s@.len(),
            last_non_quote(s@, n as int - 1) == last_non_quote(s@, b as int - 1),
        decreases b,
    {
        b -= 1;
    }
    assert(b as int - 1 == last_non_quote(s@, n as int - 1));
    if a < b {
        s.substring_char(a, b)
    } else {
        let r = s.substring_char(0, 0);
        proof {
            assert(r@ =~= trim_quotes_spec(s@));
        }
        r
    }
}

/// The uppercase form of one character; letters outside the lowercase
/// range are left unchanged.
pub open spec fn upper_char_spec(c: char) -> char {
    if 'a' as u32 <= c as u32 && c as u32 <= 'z' as u32 {
        ((c as u32 - 32) as u8) as char
    } else {
        c
    }
}

/// A character sequence with every character normalized to uppercase.
pub open spec fn upper_seq(s: Seq<char>) -> Seq<char> {
    Seq::new(s.len(), |i: int| upper_char_spec(s[i]))
}

/// Normalizes one character to uppercase.
pub fn upper_char(c: char) -> (r: char)
    ensures
        r == upper_char_spec(c),
{
    let u = c as u32;
    if 'a' as u32 <= u && u <= 'z' as u32 {
        ((u - 32) as u8) as char
    } else {
        c
    }
}

/// Relies on String::push: appends exactly the given character.
#[verifier::external_body]
fn push_char(s: &mut String, c: char)
    ensures
        final(s)@ == old(s)@.push(c),
{
    s.push(c)
}

/// Normalizes a field to uppercase, character by character.
pub fn upper_string(s: &str) -> (r: String)
    ensures
        r@ == upper_seq(s@),
{
    let n = s.unicode_len();
    let mut r = String::new();
    let mut i: usize = 0;
    while i < n
        invariant
            i <= n == s@.len(),
            r@.len() == i,
            forall|j: int| 0 <= j < i ==> r@[j] == upper_char_spec(s@[j]),
        decreases n - i,
    {
        let c = s.get_char(i);
        let u = upper_char(c);
        push_char(&mut r, u);
        i += 1;
    }
    proof {
        assert(r@ =~= upper_seq(s@));
    }
    r
}

} // verus!
