//! Character-level scanning and integer parsing, specified over `Seq<char>`.
//!
//! The graph description format is whitespace- and line-oriented; this
//! module defines the grammar (whitespace runs, tokens, line breaks,
//! decimal integers) as spec functions and provides verified scanners and
//! parsers whose contracts are exact with respect to that grammar.
//! Whitespace is the Unicode white-space set.

use vstd::prelude::*;

verus! {

/// A Unicode white-space character: the ASCII whitespace controls and
/// space, next line, and the Unicode space separators.
pub open spec fn is_space(c: char) -> bool {
    ||| c == '\t' || c == '\n' || c == '\u{B}' || c == '\u{C}' || c == '\r' || c == ' '
    ||| c == '\u{85}' || c == '\u{A0}' || c == '\u{1680}'
    ||| '\u{2000}' as u32 <= c as u32 && c as u32 <= '\u{200A}' as u32
    ||| c == '\u{2028}' || c == '\u{2029}' || c == '\u{202F}' || c == '\u{205F}'
    ||| c == '\u{3000}'
}

/// An ASCII decimal digit.
pub open spec fn is_digit(c: char) -> bool {
    '0' as u32 <= c as u32 && c as u32 <= '9' as u32
}

/// The numeric value of an ASCII decimal digit.
pub open spec fn digit_val(c: char) -> int {
    c as u32 - '0' as u32
}

/// The first index at or after `i` holding a non-whitespace character,
/// or the length of `s` if there is none.
pub open spec fn skip_ws_idx(s: Seq<char>, i: int) -> int
    decreases s.len() - i,
{
    if i < s.len() && is_space(s[i]) {
        skip_ws_idx(s, i + 1)
    } else {
        i
    }
}

/// The first index at or after `i` holding a whitespace character,
/// or the length of `s` if there is none.
pub open spec fn token_end_idx(s: Seq<char>, i: int) -> int
    decreases s.len() - i,
{
    if i < s.len() && !is_space(s[i]) {
        token_end_idx(s, i + 1)
    } else {
        i
    }
}

/// The first index at or after `i` holding a line feed,
/// or the length of `s` if there is none.
pub open spec fn find_nl_idx(s: Seq<char>, i: int) -> int
    decreases s.len() - i,
{
    if i < s.len() && s[i] != '\n' {
        find_nl_idx(s, i + 1)
    } else {
        i
    }
}

pub proof fn lemma_skip_ws_bounds(s: Seq<char>, i: int)
    requires
        0 <= i <= s.len(),
    ensures
        i <= skip_ws_idx(s, i) <= s.len(),
        skip_ws_idx(s, i) < s.len() ==> !is_space(s[skip_ws_idx(s, i)]),
        forall|k: int| i <= k < skip_ws_idx(s, i) ==> is_space(s[k]),
    decreases s.len() - i,
{
    if i < s.len() && is_space(s[i]) {
        lemma_skip_ws_bounds(s, i + 1);
    }
}

pub proof fn lemma_token_end_bounds(s: Seq<char>, i: int)
    requires
        0 <= i <= s.len(),
    ensures
        i <= token_end_idx(s, i) <= s.len(),
        token_end_idx(s, i) < s.len() ==> is_space(s[token_end_idx(s, i)]),
        forall|k: int| i <= k < token_end_idx(s, i) ==> !is_space(s[k]),
    decreases s.len() - i,
{
    if i < s.len() && !is_space(s[i]) {
        lemma_token_end_bounds(s, i + 1);
    }
}

pub proof fn lemma_find_nl_bounds(s: Seq<char>, i: int)
    requires
        0 <= i <= s.len(),
    ensures
        i <= find_nl_idx(s, i) <= s.len(),
        find_nl_idx(s, i) < s.len() ==> s[find_nl_idx(s, i)] == '\n',
        forall|k: int| i <= k < find_nl_idx(s, i) ==> s[k] != '\n',
    decreases s.len() - i,
{
    if i < s.len() && s[i] != '\n' {
        lemma_find_nl_bounds(s, i + 1);
    }
}

/// Returns the index of the first non-whitespace character at or after
/// `from`, or the character length of `s` if there is none.
pub fn skip_spaces(s: &str, from: usize, len: usize) -> (j: usize)
    requires
        len == s@.len(),
        from <= len,
    ensures
        j as int == skip_ws_idx(s@, from as int),
        from <= j <= len,
{
    let mut j: usize = from;
    while j < len && is_space_char(s.get_char(j))
        invariant
            from <= j <= len,
            len == s@.len(),
            skip_ws_idx(s@, from as int) == skip_ws_idx(s@, j as int),
        decreases len - j,
    {
        assert(skip_ws_idx(s@, j as int) == skip_ws_idx(s@, j + 1));
        j = j + 1;
    }
    j
}

/// Returns the index of the first whitespace character at or after
/// `from`, or the character length of `s` if there is none.
pub fn scan_token_end(s: &str, from: usize, len: usize) -> (j: usize)
    requires
        len == s@.len(),
        from <= len,
    ensures
        j as int == token_end_idx(s@, from as int),
        from <= j <= len,
{
    let mut j: usize = from;
    while j < len && !is_space_char(s.get_char(j))
        invariant
            from <= j <= len,
            len == s@.len(),
            token_end_idx(s@, from as int) == token_end_idx(s@, j as int),
        decreases len - j,
    {
        assert(token_end_idx(s@, j as int) == token_end_idx(s@, j + 1));
        j = j + 1;
    }
    j
}

/// Returns the index of the first line feed at or after `from`,
/// or the character length of `s` if there is none.
pub fn find_line_feed(s: &str, from: usize, len: usize) -> (j: usize)
    requires
        len == s@.len(),
        from <= len,
    ensures
        j as int == find_nl_idx(s@, from as int),
        from <= j <= len,
{
    let mut j: usize = from;
    while j < len && s.get_char(j) != '\n'
        invariant
            from <= j <= len,
            len == s@.len(),
            find_nl_idx(s@, from as int) == find_nl_idx(s@, j as int),
        decreases len - j,
    {
        assert(find_nl_idx(s@, j as int) == find_nl_idx(s@, j + 1));
        j = j + 1;
    }
    j
}

/// Decides Unicode whitespace.
pub fn is_space_char(c: char) -> (r: bool)
    ensures
        r == is_space(c),
{
    if c == '\t' || c == '\n' || c == '\u{B}' || c == '\u{C}' || c == '\r' || c == ' ' {
        return true;
    }
    if c == '\u{85}' || c == '\u{A0}' || c == '\u{1680}' {
        return true;
    }
    let cv = c as u32;
    if '\u{2000}' as u32 <= cv && cv <= '\u{200A}' as u32 {
        return true;
    }
    c == '\u{2028}' || c == '\u{2029}' || c == '\u{202F}' || c == '\u{205F}' || c == '\u{3000}'
}

/// Every character of `s` is an ASCII decimal digit.
pub open spec fn all_digits(s: Seq<char>) -> bool {
    forall|i: int| 0 <= i < s.len() ==> is_digit(#[trigger] s[i])
}

/// The value of a sequence of decimal digits (most significant first).
pub open spec fn digits_val(s: Seq<char>) -> int
    decreases s.len(),
{
    if s.len() == 0 {
        0
    } else {
        digits_val(s.drop_last()) * 10 + digit_val(s.last())
    }
}

pub proof fn lemma_digits_val_nonneg(s: Seq<char>)
    requires
        all_digits(s),
    ensures
        digits_val(s) >= 0,
    decreases s.len(),
{
    if s.len() > 0 {
        assert(all_digits(s.drop_last())) by {
            assert(forall|i: int|
                0 <= i < s.drop_last().len() ==> s.drop_last()[i] == s[i]);
        }
        lemma_digits_val_nonneg(s.drop_last());
    }
}

/// Extending a digit string on the right never decreases its value.
pub proof fn lemma_digits_val_prefix_le(s: Seq<char>, k: int)
    requires
        all_digits(s),
        0 <= k <= s.len(),
    ensures
        digits_val(s.take(k)) <= digits_val(s),
    decreases s.len() - k,
{
    if k < s.len() {
        lemma_digits_val_prefix_le(s, k + 1);
        let t = s.take(k + 1);
        assert(t.drop_last() =~= s.take(k));
        assert(all_digits(t.drop_last()));
        lemma_digits_val_nonneg(t.drop_last());
        assert(digits_val(t) == digits_val(s.take(k)) * 10 + digit_val(t.last()));
        assert(digit_val(t.last()) >= 0);
        assert(digits_val(s.take(k)) <= digits_val(s.take(k)) * 10 + digit_val(t.last()));
    } else {
        assert(s.take(k) =~= s);
    }
}

/// The magnitude part of `s` after an optional leading sign accepted by
/// `signs`: with `plus` a leading `'+'` is skipped, with `minus` a
/// leading `'-'` is skipped.
pub open spec fn unsigned_part(s: Seq<char>) -> Seq<char> {
    if s.len() > 0 && s[0] == '+' {
        s.drop_first()
    } else {
        s
    }
}

/// `s` is a decimal `u32`: an optional `'+'`, then at least one digit,
/// with a value that fits in 32 unsigned bits.
pub open spec fn is_u32_token(s: Seq<char>) -> bool {
    let d = unsigned_part(s);
    d.len() > 0 && all_digits(d) && digits_val(d) <= u32::MAX
}

/// The value of a decimal `u32` token.
pub open spec fn u32_token_val(s: Seq<char>) -> int {
    digits_val(unsigned_part(s))
}

/// `s` is a decimal `usize`: an optional `'+'`, then at least one digit,
/// with a value that fits in the machine word.
pub open spec fn is_usize_token(s: Seq<char>) -> bool {
    let d = unsigned_part(s);
    d.len() > 0 && all_digits(d) && digits_val(d) <= usize::MAX
}

/// The value of a decimal `usize` token.
pub open spec fn usize_token_val(s: Seq<char>) -> int {
    digits_val(unsigned_part(s))
}

/// The magnitude part of a possibly signed decimal token.
pub open spec fn signed_part(s: Seq<char>) -> Seq<char> {
    if s.len() > 0 && (s[0] == '+' || s[0] == '-') {
        s.drop_first()
    } else {
        s
    }
}

/// Whether a signed decimal token denotes a negative number.
pub open spec fn signed_negative(s: Seq<char>) -> bool {
    s.len() > 0 && s[0] == '-'
}

/// `s` is a decimal `i32`: an optional sign, then at least one digit,
/// with a value that fits in 32 signed bits.
pub open spec fn is_i32_token(s: Seq<char>) -> bool {
    let d = signed_part(s);
    d.len() > 0 && all_digits(d) && (if signed_negative(s) {
        digits_val(d) <= 0x8000_0000
    } else {
        digits_val(d) <= i32::MAX
    })
}

/// The value of a decimal `i32` token.
pub open spec fn i32_token_val(s: Seq<char>) -> int {
    if signed_negative(s) {
        -digits_val(signed_part(s))
    } else {
        digits_val(signed_part(s))
    }
}

/// Reads the digits of `s` from `start` on as a decimal number, failing
/// on a non-digit, on an empty digit run and on any value above `cap`.
fn parse_digits(s: &str, start: usize, len: usize, cap: u128) -> (r: Option<u128>)
    requires
        len == s@.len(),
        start <= len,
        cap <= u64::MAX,
    ensures
        ({
            let d = s@.skip(start as int);
            match r {
                Some(v) => d.len() > 0 && all_digits(d) && digits_val(d) <= cap
                    && v as int == digits_val(d),
                None => !(d.len() > 0 && all_digits(d) && digits_val(d) <= cap),
            }
        }),
{
    let ghost d = s@.skip(start as int);
    if start == len {
        return None;
    }
    let mut acc: u128 = 0;
    let mut i: usize = start;
    while i < len
        invariant
            start <= i <= len,
            len == s@.len(),
            start < len,
            cap <= u64::MAX,
            d == s@.skip(start as int),
            all_digits(d.take(i - start)),
            acc as int == digits_val(d.take(i - start)),
            acc <= cap,
        decreases len - i,
    {
        let c = s.get_char(i);
        let cv = c as u32;
        if cv < '0' as u32 || cv > '9' as u32 {
            assert(d[i - start] == s@[i as int]);
            assert(!is_digit(s@[i as int]));
            return None;
        }
        let dv: u128 = (cv - '0' as u32) as u128;
        proof {
            assert(d[i - start] == s@[i as int]);
            assert(is_digit(s@[i as int]));
            assert(d.take(i - start + 1).drop_last() =~= d.take(i - start));
            assert(d.take(i - start + 1).last() == d[i - start]);
        }
        let next: u128 = acc * 10 + dv;
        assert(next as int == digits_val(d.take(i - start + 1)));
        if next > cap {
            proof {
                assert(all_digits(d.take(i - start + 1)));
                if d.len() > 0 && all_digits(d) && digits_val(d) <= cap {
                    lemma_digits_val_prefix_le(d, i - start + 1);
                    assert(d.take(i - start + 1) =~= d.take(i - start + 1));
                    assert(digits_val(d.take(i - start + 1)) <= digits_val(d));
                }
            }
            return None;
        }
        acc = next;
        i = i + 1;
    }
    proof {
        assert(d.take(i - start) =~= d);
    }
    Some(acc)
}

/// Parses a whole token as a decimal `u32`, exactly when it matches the
/// `u32` grammar.
pub fn parse_u32_token(s: &str) -> (r: Option<u32>)
    ensures
        match r {
            Some(v) => is_u32_token(s@) && v as int == u32_token_val(s@),
            None => !is_u32_token(s@),
        },
{
    let len = s.unicode_len();
    let start: usize = if len > 0 && s.get_char(0) == '+' {
        1
    } else {
        0
    };
    proof {
        if start == 1 {
            assert(s@.skip(1) =~= unsigned_part(s@));
        } else {
            assert(s@.skip(0) =~= unsigned_part(s@));
        }
    }
    match parse_digits(s, start, len, u32::MAX as u128) {
        Some(v) => Some(v as u32),
        None => None,
    }
}

/// Parses a whole token as a decimal `usize`, exactly when it matches the
/// `usize` grammar.
pub fn parse_usize_token(s: &str) -> (r: Option<usize>)
    ensures
        match r {
            Some(v) => is_usize_token(s@) && v as int == usize_token_val(s@),
            None => !is_usize_token(s@),
        },
{
    let len = s.unicode_len();
    let start: usize = if len > 0 && s.get_char(0) == '+' {
        1
    } else {
        0
    };
    proof {
        if start == 1 {
            assert(s@.skip(1) =~= unsigned_part(s@));
        } else {
            assert(s@.skip(0) =~= unsigned_part(s@));
        }
    }
    match parse_digits(s, start, len, usize::MAX as u128) {
        Some(v) => Some(v as usize),
        None => None,
    }
}

/// Parses a whole token as a decimal `i32`, exactly when it matches the
/// `i32` grammar.
pub fn parse_i32_token(s: &str) -> (r: Option<i32>)
    ensures
        match r {
            Some(v) => is_i32_token(s@) && v as int == i32_token_val(s@),
            None => !is_i32_token(s@),
        },
{
    let len = s.unicode_len();
    let mut negative: bool = false;
    let start: usize = if len > 0 && s.get_char(0) == '+' {
        1
    } else if len > 0 && s.get_char(0) == '-' {
        negative = true;
        1
    } else {
        0
    };
    proof {
        if start == 1 {
            assert(s@.skip(1) =~= signed_part(s@));
        } else {
            assert(s@.skip(0) =~= signed_part(s@));
        }
        assert(negative == signed_negative(s@));
    }
    let cap: u128 = if negative {
        0x8000_0000
    } else {
        i32::MAX as u128
    };
    match parse_digits(s, start, len, cap) {
        Some(v) => {
            if negative {
                if v == 0x8000_0000 {
                    Some(i32::MIN)
                } else {
                    Some(-(v as i32))
                }
            } else {
                Some(v as i32)
            }
        },
        None => None,
    }
}

} // verus!
