//! The duration-expression parser.
//!
//! An expression is up to three fragments — hours, then minutes, then
//! seconds — each a digit run, optional spaces, and a unit suffix such as
//! `"h"` or `"hours"`. Fragments are joined by a separator: optional
//! whitespace around the word `"and"` (itself allowed one leading comma),
//! a colon, a comma, a semicolon, or whitespace alone, which may be empty.
//! Every fragment is optional, the whole input must be consumed, and suffix
//! matching is case-insensitive, longest alias first.
//!
//! The grammar is specified over the input's UTF-8 bytes; it only ever
//! matches ASCII, so any other input simply fails to parse.

use vstd::prelude::*;
use vstd::string::StrSliceExecFns;
use vstd::string::StringSliceAdditionalSpecFns;
use crate::duration::Duration;
use crate::duration::ParseError;

verus! {

/// ASCII lower-casing of one byte; bytes outside `A`..`Z` are unchanged.
pub open spec fn lower(b: u8) -> u8 {
    if 'A' as u8 <= b && b <= 'Z' as u8 {
        (b + 32) as u8
    } else {
        b
    }
}

/// The whitespace the grammar skips: a space or a tab.
pub open spec fn is_space(b: u8) -> bool {
    b == ' ' as u8 || b == '\t' as u8
}

/// An ASCII decimal digit.
pub open spec fn is_digit(b: u8) -> bool {
    '0' as u8 <= b && b <= '9' as u8
}

/// The position reached from `i` by skipping spaces and tabs.
pub open spec fn skip_spaces(s: Seq<u8>, i: int) -> int
    decreases s.len() - i,
{
    if i < 0 || i >= s.len() || !is_space(s[i]) {
        i
    } else {
        skip_spaces(s, i + 1)
    }
}

/// `pat` occurs in `s` at position `i`, compared case-insensitively.
pub open spec fn matches_at(s: Seq<u8>, i: int, pat: Seq<u8>) -> bool {
    &&& 0 <= i
    &&& i + pat.len() <= s.len()
    &&& forall|k: int| 0 <= k < pat.len() ==> lower(s[i + k]) == lower(pat[k])
}

/// The three units a fragment can carry.
#[derive(Clone, Copy, Debug, PartialEq, Eq, Structural)]
pub enum Unit {
    Hour,
    Minute,
    Second,
}

/// The accepted suffix spellings of each unit, longest first, so that no
/// spelling that is a prefix of a longer one can cut a match short.
pub open spec fn aliases(u: Unit) -> Seq<Seq<u8>> {
    match u {
        Unit::Hour => seq![
            seq!['h' as u8, 'o' as u8, 'u' as u8, 'r' as u8, 's' as u8],
            seq!['h' as u8, 'o' as u8, 'u' as u8, 'r' as u8],
            seq!['h' as u8, 'r' as u8, 's' as u8],
            seq!['h' as u8, 'r' as u8],
            seq!['h' as u8],
        ],
        Unit::Minute => seq![
            seq!['m' as u8, 'i' as u8, 'n' as u8, 'u' as u8, 't' as u8, 'e' as u8, 's' as u8],
            seq!['m' as u8, 'i' as u8, 'n' as u8, 'u' as u8, 't' as u8, 'e' as u8],
            seq!['m' as u8, 'i' as u8, 'n' as u8, 's' as u8],
            seq!['m' as u8, 'i' as u8, 'n' as u8],
            seq!['m' as u8, 'i' as u8],
            seq!['m' as u8],
        ],
        Unit::Second => seq![
            seq!['s' as u8, 'e' as u8, 'c' as u8, 'o' as u8, 'n' as u8, 'd' as u8, 's' as u8],
            seq!['s' as u8, 'e' as u8, 'c' as u8, 'o' as u8, 'n' as u8, 'd' as u8],
            seq!['s' as u8, 'e' as u8, 'c' as u8, 's' as u8],
            seq!['s' as u8, 'e' as u8, 'c' as u8],
            seq!['s' as u8, 'e' as u8],
            seq!['s' as u8],
        ],
    }
}

/// First alias at index `k` or later that matches at `i`, and the position
/// just past it.
pub open spec fn alias_match_from(s: Seq<u8>, i: int, als: Seq<Seq<u8>>, k: int) -> Option<int>
    decreases als.len() - k,
{
    if !(0 <= k < als.len()) {
        None
    } else if matches_at(s, i, als[k]) {
        Some(i + als[k].len() as int)
    } else {
        alias_match_from(s, i, als, k + 1)
    }
}

/// The position just past the unit suffix read at `i`, trying the unit's
/// aliases longest first.
pub open spec fn match_suffix(s: Seq<u8>, i: int, u: Unit) -> Option<int> {
    alias_match_from(s, i, aliases(u), 0)
}

/// End of the digit run that starts at `i`; `i` itself when `s[i]` is no digit.
pub open spec fn digits_end(s: Seq<u8>, i: int) -> int
    decreases s.len() - i,
{
    if i < 0 || i >= s.len() || !is_digit(s[i]) {
        i
    } else {
        digits_end(s, i + 1)
    }
}

/// The number the decimal digits `s[i..j)` spell.
pub open spec fn digits_value(s: Seq<u8>, i: int, j: int) -> nat
    decreases j - i,
{
    if i >= j {
        0
    } else {
        digits_value(s, i, j - 1) * 10 + (s[j - 1] - '0' as u8) as nat
    }
}

/// One fragment at `i`: a digit run, optional spaces, then a unit suffix.
/// `None` when there is no digit, when the digit run does not fit in 64
/// bits, or when no alias of the unit follows — in each case the fragment
/// as a whole matches nothing and consumes nothing.
pub open spec fn spec_fragment(s: Seq<u8>, i: int, u: Unit) -> Option<(nat, int)> {
    let j = digits_end(s, i);
    if j == i {
        None
    } else if digits_value(s, i, j) > u64::MAX {
        None
    } else {
        match match_suffix(s, skip_spaces(s, j), u) {
            Some(e) => Some((digits_value(s, i, j), e)),
            None => None,
        }
    }
}

/// The word `"and"`.
pub open spec fn and_word() -> Seq<u8> {
    seq!['a' as u8, 'n' as u8, 'd' as u8]
}

/// The `"and"` spelling of a separator, after leading spaces were skipped:
/// an optional comma with trailing spaces, then the word itself. The comma,
/// once seen, commits: `", and"` matches here, `","` alone does not.
pub open spec fn and_end(s: Seq<u8>, a: int) -> Option<int> {
    let b = if 0 <= a < s.len() && s[a] == ',' as u8 {
        skip_spaces(s, a + 1)
    } else {
        a
    };
    if matches_at(s, b, and_word()) {
        Some(b + 3)
    } else {
        None
    }
}

/// The position just past the separator read at `i`. A separator never
/// fails: its spellings are tried in order — `"and"` with an optional
/// leading comma, `":"`, `","`, `";"` — and when none fits, the whitespace
/// already skipped (possibly none) is the separator.
pub open spec fn spec_separator(s: Seq<u8>, i: int) -> int {
    let a = skip_spaces(s, i);
    let m = match and_end(s, a) {
        Some(e) => e,
        None => if a < s.len() && (s[a] == ':' as u8 || s[a] == ',' as u8 || s[a] == ';' as u8) {
            a + 1
        } else {
            a
        },
    };
    skip_spaces(s, m)
}

/// A fragment's value and end, or zero and the unchanged position when the
/// fragment is absent.
pub open spec fn frag_or_zero(s: Seq<u8>, i: int, u: Unit) -> (nat, int) {
    match spec_fragment(s, i, u) {
        Some(p) => p,
        None => (0, i),
    }
}

/// One full pass of the grammar: the hour, minute and second values and the
/// position where matching stopped.
pub open spec fn spec_parts(s: Seq<u8>) -> (nat, nat, nat, int) {
    let h = frag_or_zero(s, 0, Unit::Hour);
    let i2 = spec_separator(s, h.1);
    let m = frag_or_zero(s, i2, Unit::Minute);
    let i4 = spec_separator(s, m.1);
    let sec = frag_or_zero(s, i4, Unit::Second);
    (h.0, m.0, sec.0, sec.1)
}

/// Where the grammar stopped reading; the input parses exactly when this is
/// its length.
pub open spec fn spec_parse_end(s: Seq<u8>) -> int {
    spec_parts(s).3
}

/// The total seconds the input spells, when the grammar consumes all of it.
pub open spec fn spec_parse(s: Seq<u8>) -> Option<nat> {
    let p = spec_parts(s);
    if p.3 == s.len() {
        Some(p.0 * 3600 + p.1 * 60 + p.2)
    } else {
        None
    }
}

/// Skipping spaces stays inside the input and moves only forward.
pub proof fn lemma_skip_spaces_bounds(s: Seq<u8>, i: int)
    requires
        0 <= i <= s.len(),
    ensures
        i <= skip_spaces(s, i) <= s.len(),
    decreases s.len() - i,
{
    if i < s.len() && is_space(s[i]) {
        lemma_skip_spaces_bounds(s, i + 1);
    }
}

/// The digit run stays inside the input, moves only forward, and covers
/// exactly a run of digits.
pub proof fn lemma_digits_end(s: Seq<u8>, i: int)
    requires
        0 <= i <= s.len(),
    ensures
        i <= digits_end(s, i) <= s.len(),
        forall|t: int| i <= t < digits_end(s, i) ==> is_digit(s[t]),
        digits_end(s, i) == s.len() || !is_digit(s[digits_end(s, i)]),
    decreases s.len() - i,
{
    if i < s.len() && is_digit(s[i]) {
        lemma_digits_end(s, i + 1);
    }
}

/// A longer digit run never spells a smaller number.
pub proof fn lemma_digits_value_monotone(s: Seq<u8>, i: int, j: int, k: int)
    requires
        j <= k,
    ensures
        digits_value(s, i, j) <= digits_value(s, i, k),
    decreases k - j,
{
    if j < k {
        lemma_digits_value_monotone(s, i, j, k - 1);
        assert(digits_value(s, i, k - 1) * 10 >= digits_value(s, i, k - 1));
    }
}

fn lower_byte(b: u8) -> (r: u8)
    ensures
        r == lower(b),
{
    if 'A' as u8 <= b && b <= 'Z' as u8 {
        b + 32
    } else {
        b
    }
}

fn is_space_byte(b: u8) -> (r: bool)
    ensures
        r == is_space(b),
{
    b == ' ' as u8 || b == '\t' as u8
}

fn is_digit_byte(b: u8) -> (r: bool)
    ensures
        r == is_digit(b),
{
    '0' as u8 <= b && b <= '9' as u8
}

fn skip_spaces_at(s: &Vec<u8>, i: usize) -> (r: usize)
    requires
        i <= s@.len(),
    ensures
        i <= r <= s@.len(),
        r == skip_spaces(s@, i as int),
{
    let n = s.len();
    let mut k = i;
    while k < n && is_space_byte(s[k])
        invariant
            i <= k <= n,
            n == s@.len(),
            skip_spaces(s@, i as int) == skip_spaces(s@, k as int),
        decreases n - k,
    {
        k = k + 1;
    }
    k
}

fn match_ci(s: &Vec<u8>, i: usize, pat: &Vec<u8>) -> (r: bool)
    requires
        i <= s@.len(),
    ensures
        r == matches_at(s@, i as int, pat@),
{
    let n = s.len();
    let m = pat.len();
    if n - i < m {
        return false;
    }
    let mut k: usize = 0;
    while k < m
        invariant
            i + m <= n,
            n == s@.len(),
            m == pat@.len(),
            k <= m,
            forall|t: int| 0 <= t < k ==> lower(s@[i + t]) == lower(pat@[t]),
        decreases m - k,
    {
        if lower_byte(s[i + k]) != lower_byte(pat[k]) {
            return false;
        }
        k = k + 1;
    }
    true
}

fn alias_count(u: Unit) -> (n: usize)
    ensures
        n == aliases(u).len(),
{
    match u {
        Unit::Hour => 5,
        Unit::Minute => 6,
        Unit::Second => 6,
    }
}

fn alias_pat(u: Unit, idx: usize) -> (p: Vec<u8>)
    requires
        idx < aliases(u).len(),
    ensures
        p@ == aliases(u)[idx as int],
{
    let mut p: Vec<u8> = Vec::new();
    match u {
        Unit::Hour => {
            if idx == 0 {
                p.push('h' as u8);
                p.push('o' as u8);
                p.push('u' as u8);
                p.push('r' as u8);
                p.push('s' as u8);
            } else if idx == 1 {
                p.push('h' as u8);
                p.push('o' as u8);
                p.push('u' as u8);
                p.push('r' as u8);
            } else if idx == 2 {
                p.push('h' as u8);
                p.push('r' as u8);
                p.push('s' as u8);
            } else if idx == 3 {
                p.push('h' as u8);
                p.push('r' as u8);
            } else {
                p.push('h' as u8);
            }
        },
        Unit::Minute => {
            if idx == 0 {
                p.push('m' as u8);
                p.push('i' as u8);
                p.push('n' as u8);
                p.push('u' as u8);
                p.push('t' as u8);
                p.push('e' as u8);
                p.push('s' as u8);
            } else if idx == 1 {
                p.push('m' as u8);
                p.push('i' as u8);
                p.push('n' as u8);
                p.push('u' as u8);
                p.push('t' as u8);
                p.push('e' as u8);
            } else if idx == 2 {
                p.push('m' as u8);
                p.push('i' as u8);
                p.push('n' as u8);
                p.push('s' as u8);
            } else if idx == 3 {
                p.push('m' as u8);
                p.push('i' as u8);
                p.push('n' as u8);
            } else if idx == 4 {
                p.push('m' as u8);
                p.push('i' as u8);
            } else {
                p.push('m' as u8);
            }
        },
        Unit::Second => {
            if idx == 0 {
                p.push('s' as u8);
                p.push('e' as u8);
                p.push('c' as u8);
                p.push('o' as u8);
                p.push('n' as u8);
                p.push('d' as u8);
                p.push('s' as u8);
            } else if idx == 1 {
                p.push('s' as u8);
                p.push('e' as u8);
                p.push('c' as u8);
                p.push('o' as u8);
                p.push('n' as u8);
                p.push('d' as u8);
            } else if idx == 2 {
                p.push('s' as u8);
                p.push('e' as u8);
                p.push('c' as u8);
                p.push('s' as u8);
            } else if idx == 3 {
                p.push('s' as u8);
                p.push('e' as u8);
                p.push('c' as u8);
            } else if idx == 4 {
                p.push('s' as u8);
                p.push('e' as u8);
            } else {
                p.push('s' as u8);
            }
        },
    }
    proof {
        assert(p@ =~= aliases(u)[idx as int]);
    }
    p
}

fn read_suffix(s: &Vec<u8>, i: usize, u: Unit) -> (r: Option<usize>)
    requires
        i <= s@.len(),
    ensures
        match r {
            Some(e) => i <= e <= s@.len() && match_suffix(s@, i as int, u) == Some(e as int),
            None => match_suffix(s@, i as int, u) is None,
        },
{
    let count = alias_count(u);
    let n = s.len();
    let mut k: usize = 0;
    while k < count
        invariant
            i <= s@.len(),
            n == s@.len(),
            k <= count,
            count == aliases(u).len(),
            match_suffix(s@, i as int, u) == alias_match_from(s@, i as int, aliases(u), k as int),
        decreases count - k,
    {
        let pat = alias_pat(u, k);
        if match_ci(s, i, &pat) {
            return Some(i + pat.len());
        }
        k = k + 1;
    }
    None
}

fn read_digits(s: &Vec<u8>, i: usize) -> (r: Option<(u64, usize)>)
    requires
        i <= s@.len(),
    ensures
        match r {
            Some(p) => {
                &&& i < p.1 <= s@.len()
                &&& p.1 == digits_end(s@, i as int)
                &&& p.0 as nat == digits_value(s@, i as int, p.1 as int)
            },
            None => digits_end(s@, i as int) == i as int || digits_value(
                s@,
                i as int,
                digits_end(s@, i as int),
            ) > u64::MAX,
        },
{
    let n = s.len();
    let mut k = i;
    let mut v: u128 = 0;
    while k < n && is_digit_byte(s[k])
        invariant
            i <= k <= n,
            n == s@.len(),
            digits_end(s@, i as int) == digits_end(s@, k as int),
            v as nat == digits_value(s@, i as int, k as int),
            v <= u64::MAX,
        decreases n - k,
    {
        let d = s[k] - '0' as u8;
        v = v * 10 + d as u128;
        k = k + 1;
        if v > u64::MAX as u128 {
            proof {
                lemma_digits_end(s@, k as int);
                lemma_digits_value_monotone(s@, i as int, k as int, digits_end(s@, i as int));
            }
            return None;
        }
    }
    if k == i {
        return None;
    }
    Some((v as u64, k))
}

fn read_fragment(s: &Vec<u8>, i: usize, u: Unit) -> (r: Option<(u64, usize)>)
    requires
        i <= s@.len(),
    ensures
        match r {
            Some(p) => i < p.1 <= s@.len() && spec_fragment(s@, i as int, u) == Some(
                (p.0 as nat, p.1 as int),
            ),
            None => spec_fragment(s@, i as int, u) is None,
        },
{
    match read_digits(s, i) {
        None => None,
        Some((v, j)) => {
            let sp = skip_spaces_at(s, j);
            match read_suffix(s, sp, u) {
                None => None,
                Some(e) => Some((v, e)),
            }
        },
    }
}

fn read_separator(s: &Vec<u8>, i: usize) -> (r: usize)
    requires
        i <= s@.len(),
    ensures
        i <= r <= s@.len(),
        r == spec_separator(s@, i as int),
{
    let a = skip_spaces_at(s, i);
    let b = if a < s.len() && s[a] == ',' as u8 {
        skip_spaces_at(s, a + 1)
    } else {
        a
    };
    let mut word = Vec::new();
    word.push('a' as u8);
    word.push('n' as u8);
    word.push('d' as u8);
    proof {
        assert(word@ =~= and_word());
    }
    let m: usize;
    if match_ci(s, b, &word) {
        m = b + 3;
    } else if a < s.len() && (s[a] == ':' as u8 || s[a] == ',' as u8 || s[a] == ';' as u8) {
        m = a + 1;
    } else {
        m = a;
    }
    skip_spaces_at(s, m)
}

/// Turns a free-form duration expression into an exact number of seconds.
///
/// The whole input must be matched by the grammar ([`spec_parse`]); the
/// error carries the byte offset where matching stopped, or says that the
/// total does not fit in 64 bits of seconds.
pub fn parse(input: &str) -> (r: Result<Duration, ParseError>)
    ensures
        match spec_parse(input.spec_bytes()) {
            Some(total) => if total <= u64::MAX {
                r == Ok::<Duration, ParseError>(Duration { secs: total as u64 })
            } else {
                r == Err::<Duration, ParseError>(ParseError::Overflow)
            },
            None => r == Err::<Duration, ParseError>(
                ParseError::Unmatched { pos: spec_parse_end(input.spec_bytes()) as usize },
            ),
        },
{
    let s: Vec<u8> = input.as_bytes_vec();
    let n = s.len();
    let (h, i1) = match read_fragment(&s, 0, Unit::Hour) {
        Some(p) => p,
        None => (0, 0),
    };
    let i2 = read_separator(&s, i1);
    let (m, i3) = match read_fragment(&s, i2, Unit::Minute) {
        Some(p) => p,
        None => (0, i2),
    };
    let i4 = read_separator(&s, i3);
    let (sec, i5) = match read_fragment(&s, i4, Unit::Second) {
        Some(p) => p,
        None => (0, i4),
    };
    if i5 != n {
        return Err(ParseError::Unmatched { pos: i5 });
    }
    let total: u128 = h as u128 * 3600 + m as u128 * 60 + sec as u128;
    if total > u64::MAX as u128 {
        return Err(ParseError::Overflow);
    }
    Ok(Duration { secs: total as u64 })
}

} // verus!
