//! Character classes and searches that the quick-add grammar is built from.

use crate::text::is_ws;
use vstd::prelude::*;

verus! {

/// A character of the CJK Unified Ideographs block (U+4E00..=U+9FFF).
pub open spec fn cjk_ideograph(c: char) -> bool {
    0x4E00 <= (c as u32) <= 0x9FFF
}

/// Whether the class `\d` holds of a character outside ASCII, the CJK ideographs
/// and the fullwidth colon.
pub uninterp spec fn other_decimal_digit(c: char) -> bool;

/// Whether the regular-expression class `\d` holds of a character. The `regex`
/// crate documents `\d` as the Unicode class Nd (decimal digit): among ASCII
/// characters exactly `0` to `9`; CJK ideographs and the fullwidth colon are
/// letters and punctuation, not Nd.
pub open spec fn is_decimal_digit(c: char) -> bool {
    if (c as u32) < 128 {
        '0' <= c <= '9'
    } else if cjk_ideograph(c) || c == '：' {
        false
    } else {
        other_decimal_digit(c)
    }
}

/// Tests a character against the class `\d` of the `regex` crate (see
/// `is_decimal_digit`).
#[verifier::external_body]
pub(crate) fn decimal_digit(c: char) -> (r: bool)
    ensures
        r == is_decimal_digit(c),
        !((c as u32) < 128) && !cjk_ideograph(c) && c != '：' ==> r == other_decimal_digit(c),
{
    let mut buf = [0u8; 4];
    regex::Regex::new(r"^\d$").map(|re| re.is_match(c.encode_utf8(&mut buf))).unwrap_or(false)
}

/// What `char::is_alphanumeric` says of a character outside ASCII, the CJK
/// ideographs and whitespace.
pub uninterp spec fn other_alnum(c: char) -> bool;

/// What `char::is_alphanumeric` says of a character. std documents it as
/// Alphabetic or Numeric: among ASCII characters exactly the letters and digits;
/// CJK ideographs are alphabetic (Ideographic); whitespace is neither.
pub open spec fn is_alnum(c: char) -> bool {
    if (c as u32) < 128 {
        '0' <= c <= '9' || 'a' <= c <= 'z' || 'A' <= c <= 'Z'
    } else if cjk_ideograph(c) {
        true
    } else if is_ws(c) {
        false
    } else {
        other_alnum(c)
    }
}

/// Calls `char::is_alphanumeric` (see `is_alnum`).
#[verifier::external_body]
pub(crate) fn alphanumeric(c: char) -> (r: bool)
    ensures
        r == is_alnum(c),
        !((c as u32) < 128) && !cjk_ideograph(c) && !is_ws(c) ==> r == other_alnum(c),
{
    c.is_alphanumeric()
}

/// Characters that may follow `#` in a tag or `+` in a project name.
pub open spec fn is_tag_char(c: char) -> bool {
    is_alnum(c) || c == '_' || c == '-'
}

pub fn tag_char(c: char) -> (r: bool)
    ensures
        r == is_tag_char(c),
{
    alphanumeric(c) || c == '_' || c == '-'
}

pub open spec fn is_ascii_digit(c: char) -> bool {
    '0' <= c <= '9'
}

/// Decimal value of a run of ASCII digits.
pub open spec fn decimal(s: Seq<char>) -> int
    decreases s.len(),
{
    if s.len() == 0 {
        0
    } else {
        decimal(s.drop_last()) * 10 + (s.last() as int - '0' as int)
    }
}

pub open spec fn all_ascii_digits(s: Seq<char>) -> bool {
    forall|i: int| 0 <= i < s.len() ==> is_ascii_digit(#[trigger] s[i])
}

/// The number that `str::parse` reads from a run of `\d` characters: its decimal
/// value when every character is an ASCII digit, and 0 (the parse fails) otherwise.
pub open spec fn digits_value(s: Seq<char>) -> int {
    if all_ascii_digits(s) {
        decimal(s)
    } else {
        0
    }
}

/// Value of a run of up to three `\d` characters, as `str::parse` gives it.
pub fn digits_number(s: &[char], from: usize, to: usize) -> (r: i32)
    requires
        from <= to <= s@.len(),
        to - from <= 3,
    ensures
        r == digits_value(s@.subrange(from as int, to as int)),
        0 <= r <= 999,
{
    let mut v: i32 = 0;
    let mut i = from;
    let mut all = true;
    while i < to
        invariant
            from <= i <= to <= s@.len(),
            to - from <= 3,
            all == all_ascii_digits(s@.subrange(from as int, i as int)),
            all ==> v == decimal(s@.subrange(from as int, i as int)),
            0 <= v < pow10(i - from),
        decreases to - i,
    {
        let c = s[i];
        let ghost pre = s@.subrange(from as int, i as int);
        let ghost cur = s@.subrange(from as int, i + 1);
        proof {
            assert(cur.drop_last() =~= pre);
            assert(cur.last() == c);
            assert(pow10(i + 1 - from) == 10 * pow10(i - from));
            assert(pow10(i - from) <= 100) by {
                reveal_with_fuel(pow10, 4);
            }
        }
        if all && '0' <= c && c <= '9' {
            proof {
                assert(all_ascii_digits(cur)) by {
                    assert forall|k: int| 0 <= k < cur.len() implies is_ascii_digit(#[trigger] cur[k]) by {
                        if k < pre.len() {
                            assert(cur[k] == pre[k]);
                        }
                    }
                }
            }
            v = v * 10 + (c as i32 - '0' as i32);
        } else {
            proof {
                assert(!all_ascii_digits(cur)) by {
                    if all {
                        assert(!is_ascii_digit(cur[cur.len() - 1]));
                    } else {
                        let k = choose|k: int| 0 <= k < pre.len() && !is_ascii_digit(#[trigger] pre[k]);
                        assert(cur[k] == pre[k]);
                    }
                }
            }
            all = false;
        }
        i = i + 1;
    }
    proof {
        assert(pow10(to - from) <= 1000) by {
            reveal_with_fuel(pow10, 4);
        }
    }
    if all {
        v
    } else {
        0
    }
}

pub open spec fn pow10(n: int) -> int
    decreases n,
{
    if n <= 0 {
        1
    } else {
        10 * pow10(n - 1)
    }
}

/// Lower-cases ASCII letters and keeps every other character.
pub open spec fn fold_ascii(c: char) -> char {
    if 'A' <= c <= 'Z' {
        ((c as u32) + 32) as char
    } else {
        c
    }
}

/// `fold_ascii(c) == t`.
pub fn fold_eq(c: char, t: char) -> (r: bool)
    ensures
        r == (fold_ascii(c) == t),
{
    if 'A' <= c && c <= 'Z' {
        (c as u32) + 32 == (t as u32)
    } else {
        c == t
    }
}

/// `tok` stands in `text` at `i`.
pub open spec fn occurs_at(text: Seq<char>, tok: Seq<char>, i: int) -> bool {
    0 <= i && i + tok.len() <= text.len() && text.subrange(i, i + tok.len()) == tok
}

/// `tok` stands in `text` at `i` once ASCII letters are lower-cased.
pub open spec fn occurs_ci_at(text: Seq<char>, tok: Seq<char>, i: int) -> bool {
    0 <= i && i + tok.len() <= text.len() && forall|k: int|
        0 <= k < tok.len() ==> fold_ascii(#[trigger] text[i + k]) == tok[k]
}

/// The first place at or after `from` where `tok` stands in `text` (`str::find`).
pub open spec fn find_from(text: Seq<char>, tok: Seq<char>, from: int) -> Option<int>
    decreases text.len() + 1 - from,
{
    if from < 0 || from + tok.len() > text.len() {
        None
    } else if occurs_at(text, tok, from) {
        Some(from)
    } else {
        find_from(text, tok, from + 1)
    }
}

pub open spec fn find_first(text: Seq<char>, tok: Seq<char>) -> Option<int> {
    find_from(text, tok, 0)
}

pub open spec fn contains_text(text: Seq<char>, tok: Seq<char>) -> bool {
    find_first(text, tok) is Some
}

pub fn occurs_at_exec(text: &[char], tok: &[char], i: usize) -> (r: bool)
    ensures
        r == occurs_at(text@, tok@, i as int),
{
    if i > text.len() || tok.len() > text.len() - i {
        return false;
    }
    let mut k: usize = 0;
    while k < tok.len()
        invariant
            i + tok@.len() <= text@.len(),
            text@.len() == text.len(),
            k <= tok@.len(),
            forall|j: int| 0 <= j < k ==> text@[i + j] == tok@[j],
        decreases tok.len() - k,
    {
        if text[i + k] != tok[k] {
            proof {
                assert(text@.subrange(i as int, i + tok@.len())[k as int] != tok@[k as int]);
            }
            return false;
        }
        k = k + 1;
    }
    proof {
        assert(text@.subrange(i as int, i + tok@.len()) =~= tok@);
    }
    true
}

pub fn occurs_ci_at_exec(text: &[char], tok: &[char], i: usize) -> (r: bool)
    ensures
        r == occurs_ci_at(text@, tok@, i as int),
{
    if i > text.len() || tok.len() > text.len() - i {
        return false;
    }
    let mut k: usize = 0;
    while k < tok.len()
        invariant
            i + tok@.len() <= text@.len(),
            text@.len() == text.len(),
            k <= tok@.len(),
            forall|j: int| 0 <= j < k ==> fold_ascii(#[trigger] text@[i + j]) == tok@[j],
        decreases tok.len() - k,
    {
        if !fold_eq(text[i + k], tok[k]) {
            return false;
        }
        k = k + 1;
    }
    true
}

/// `str::find` from a starting place.
pub fn find_from_exec(text: &[char], tok: &[char], from: usize) -> (r: Option<usize>)
    ensures
        match r {
            Some(i) => find_from(text@, tok@, from as int) == Some(i as int),
            None => find_from(text@, tok@, from as int) is None,
        },
{
    let mut i = from;
    loop
        invariant
            from <= i,
            find_from(text@, tok@, from as int) == find_from(text@, tok@, i as int),
        decreases text.len() + 1 - i,
    {
        if i > text.len() || tok.len() > text.len() - i {
            return None;
        }
        if occurs_at_exec(text, tok, i) {
            return Some(i);
        }
        if i == text.len() {
            proof {
                assert(find_from(text@, tok@, i + 1) is None);
            }
            return None;
        }
        i = i + 1;
    }
}

pub fn find_first_exec(text: &[char], tok: &[char]) -> (r: Option<usize>)
    ensures
        match r {
            Some(i) => find_first(text@, tok@) == Some(i as int),
            None => find_first(text@, tok@) is None,
        },
{
    find_from_exec(text, tok, 0)
}

pub fn contains_exec(text: &[char], tok: &[char]) -> (r: bool)
    ensures
        r == contains_text(text@, tok@),
{
    find_first_exec(text, tok).is_some()
}

/// The character before `i` is whitespace, or there is none.
pub open spec fn token_start(text: Seq<char>, i: int) -> bool {
    i <= 0 || is_ws(text[i - 1])
}

/// The character at `j` is whitespace, or the text ends there.
pub open spec fn token_end(text: Seq<char>, j: int) -> bool {
    j >= text.len() || is_ws(text[j])
}

pub fn token_start_exec(text: &[char], i: usize) -> (r: bool)
    requires
        i <= text@.len(),
    ensures
        r == token_start(text@, i as int),
{
    i == 0 || crate::text::char_is_ws(text[i - 1])
}

pub fn token_end_exec(text: &[char], j: usize) -> (r: bool)
    ensures
        r == token_end(text@, j as int),
{
    j >= text.len() || crate::text::char_is_ws(text[j])
}

/// `text` with the characters in `[a, b)` taken out.
pub open spec fn cut(text: Seq<char>, a: int, b: int) -> Seq<char> {
    text.take(a) + text.skip(b)
}

pub fn cut_exec(text: &[char], a: usize, b: usize) -> (r: Vec<char>)
    requires
        a <= text@.len(),
        b <= text@.len(),
    ensures
        r@ == cut(text@, a as int, b as int),
{
    let mut r: Vec<char> = Vec::new();
    let mut i: usize = 0;
    while i < a
        invariant
            i <= a <= text@.len(),
            b <= text@.len(),
            r@ == text@.take(i as int),
        decreases a - i,
    {
        r.push(text[i]);
        i = i + 1;
        proof {
            assert(r@ =~= text@.take(i as int));
        }
    }
    let mut j = b;
    while j < text.len()
        invariant
            a <= text@.len(),
            b <= j <= text@.len(),
            r@ == text@.take(a as int) + text@.subrange(b as int, j as int),
        decreases text.len() - j,
    {
        r.push(text[j]);
        j = j + 1;
        proof {
            assert(r@ =~= text@.take(a as int) + text@.subrange(b as int, j as int));
        }
    }
    proof {
        assert(text@.subrange(b as int, text@.len() as int) =~= text@.skip(b as int));
    }
    r
}

} // verus!

verus! {

pub proof fn lemma_find_from_occurs(text: Seq<char>, tok: Seq<char>, from: int)
    ensures
        find_from(text, tok, from) matches Some(i) ==> occurs_at(text, tok, i) && from <= i,
    decreases text.len() + 1 - from,
{
    if from >= 0 && from + tok.len() <= text.len() && !occurs_at(text, tok, from) {
        lemma_find_from_occurs(text, tok, from + 1);
    }
}

} // verus!
