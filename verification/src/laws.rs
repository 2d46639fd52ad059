//! Laws that hold of the parser and the formatter as wholes, beyond the
//! contracts of the individual functions.

use vstd::prelude::*;
use crate::parser::lower;
use crate::parser::is_space;
use crate::parser::is_digit;
use crate::parser::skip_spaces;
use crate::parser::matches_at;
use crate::parser::Unit;
use crate::parser::aliases;
use crate::parser::alias_match_from;
use crate::parser::match_suffix;
use crate::parser::digits_end;
use crate::parser::digits_value;
use crate::parser::spec_fragment;
use crate::parser::and_end;
use crate::parser::spec_separator;
use crate::parser::frag_or_zero;
use crate::parser::spec_parts;
use crate::parser::spec_parse;
use crate::parser::spec_parse_end;
use crate::formatter::spec_format;

verus! {

/// The input with every byte ASCII-lower-cased.
pub open spec fn lowered(s: Seq<u8>) -> Seq<u8> {
    s.map_values(|b: u8| lower(b))
}

proof fn lemma_lower_fixes_lower(b: u8)
    ensures
        lower(lower(b)) == lower(b),
        is_space(lower(b)) == is_space(b),
        is_digit(lower(b)) == is_digit(b),
        lower(b) == ':' as u8 <==> b == ':' as u8,
        lower(b) == ',' as u8 <==> b == ',' as u8,
        lower(b) == ';' as u8 <==> b == ';' as u8,
{
}

proof fn lemma_skip_spaces_lowered(s: Seq<u8>, i: int)
    ensures
        skip_spaces(lowered(s), i) == skip_spaces(s, i),
    decreases s.len() - i,
{
    if 0 <= i < s.len() {
        lemma_lower_fixes_lower(s[i]);
        if is_space(s[i]) {
            lemma_skip_spaces_lowered(s, i + 1);
        }
    }
}

proof fn lemma_digits_end_lowered(s: Seq<u8>, i: int)
    ensures
        digits_end(lowered(s), i) == digits_end(s, i),
    decreases s.len() - i,
{
    if 0 <= i < s.len() {
        lemma_lower_fixes_lower(s[i]);
        if is_digit(s[i]) {
            lemma_digits_end_lowered(s, i + 1);
        }
    }
}

proof fn lemma_digits_value_lowered(s: Seq<u8>, i: int, j: int)
    requires
        0 <= i,
        j <= s.len(),
        forall|t: int| i <= t < j ==> is_digit(s[t]),
    ensures
        digits_value(lowered(s), i, j) == digits_value(s, i, j),
    decreases j - i,
{
    if i < j {
        lemma_lower_fixes_lower(s[j - 1]);
        assert(lower(s[j - 1]) == s[j - 1]);
        lemma_digits_value_lowered(s, i, j - 1);
    }
}

proof fn lemma_matches_at_lowered(s: Seq<u8>, i: int, pat: Seq<u8>)
    ensures
        matches_at(lowered(s), i, pat) == matches_at(s, i, pat),
{
    if matches_at(s, i, pat) {
        assert forall|k: int| 0 <= k < pat.len() implies lower(lowered(s)[i + k]) == lower(
            pat[k],
        ) by {
            lemma_lower_fixes_lower(s[i + k]);
        }
    }
    if matches_at(lowered(s), i, pat) {
        assert forall|k: int| 0 <= k < pat.len() implies lower(s[i + k]) == lower(pat[k]) by {
            lemma_lower_fixes_lower(s[i + k]);
            assert(lower(lowered(s)[i + k]) == lower(pat[k]));
        }
    }
}

proof fn lemma_alias_match_from_lowered(s: Seq<u8>, i: int, als: Seq<Seq<u8>>, k: int)
    ensures
        alias_match_from(lowered(s), i, als, k) == alias_match_from(s, i, als, k),
    decreases als.len() - k,
{
    if 0 <= k < als.len() {
        lemma_matches_at_lowered(s, i, als[k]);
        if !matches_at(s, i, als[k]) {
            lemma_alias_match_from_lowered(s, i, als, k + 1);
        }
    }
}

proof fn lemma_fragment_lowered(s: Seq<u8>, i: int, u: Unit)
    requires
        0 <= i <= s.len(),
    ensures
        spec_fragment(lowered(s), i, u) == spec_fragment(s, i, u),
{
    lemma_digits_end_lowered(s, i);
    let j = digits_end(s, i);
    crate::parser::lemma_digits_end(s, i);
    lemma_digits_value_lowered(s, i, j);
    lemma_skip_spaces_lowered(s, j);
    lemma_alias_match_from_lowered(s, skip_spaces(s, j), aliases(u), 0);
}

proof fn lemma_separator_lowered(s: Seq<u8>, i: int)
    requires
        0 <= i <= s.len(),
    ensures
        spec_separator(lowered(s), i) == spec_separator(s, i),
{
    lemma_skip_spaces_lowered(s, i);
    let a = skip_spaces(s, i);
    crate::parser::lemma_skip_spaces_bounds(s, i);
    if 0 <= a < s.len() {
        lemma_lower_fixes_lower(s[a]);
    }
    if 0 <= a < s.len() && s[a] == ',' as u8 {
        lemma_skip_spaces_lowered(s, a + 1);
    }
    let b = if 0 <= a < s.len() && s[a] == ',' as u8 {
        skip_spaces(s, a + 1)
    } else {
        a
    };
    lemma_matches_at_lowered(s, b, crate::parser::and_word());
    assert(and_end(lowered(s), a) == and_end(s, a));
    let m = match and_end(s, a) {
        Some(e) => e,
        None => if a < s.len() && (s[a] == ':' as u8 || s[a] == ',' as u8 || s[a] == ';' as u8) {
            a + 1
        } else {
            a
        },
    };
    lemma_skip_spaces_lowered(s, m);
}

/// Case-insensitivity: lower-casing the input changes neither the parse
/// result nor the position where the grammar stops, so any alias in any
/// letter-casing parses exactly as its canonical lower-case spelling does.
pub proof fn lemma_parse_case_insensitive(s: Seq<u8>)
    ensures
        spec_parse(lowered(s)) == spec_parse(s),
        spec_parse_end(lowered(s)) == spec_parse_end(s),
{
    let h = frag_or_zero(s, 0, Unit::Hour);
    lemma_fragment_lowered(s, 0, Unit::Hour);
    lemma_frag_bounds(s, 0, Unit::Hour);
    let i2 = spec_separator(s, h.1);
    lemma_separator_lowered(s, h.1);
    lemma_sep_bounds(s, h.1);
    let m = frag_or_zero(s, i2, Unit::Minute);
    lemma_fragment_lowered(s, i2, Unit::Minute);
    lemma_frag_bounds(s, i2, Unit::Minute);
    let i4 = spec_separator(s, m.1);
    lemma_separator_lowered(s, m.1);
    lemma_sep_bounds(s, m.1);
    lemma_fragment_lowered(s, i4, Unit::Second);
}

/// A fragment read inside the input ends inside the input.
proof fn lemma_frag_bounds(s: Seq<u8>, i: int, u: Unit)
    requires
        0 <= i <= s.len(),
    ensures
        i <= frag_or_zero(s, i, u).1 <= s.len(),
{
    crate::parser::lemma_digits_end(s, i);
    let j = digits_end(s, i);
    crate::parser::lemma_skip_spaces_bounds(s, j);
    lemma_alias_match_bounds(s, skip_spaces(s, j), aliases(u), 0);
}

proof fn lemma_alias_match_bounds(s: Seq<u8>, i: int, als: Seq<Seq<u8>>, k: int)
    requires
        0 <= i,
    ensures
        match alias_match_from(s, i, als, k) {
            Some(e) => i <= e <= s.len(),
            None => true,
        },
    decreases als.len() - k,
{
    if 0 <= k < als.len() && !matches_at(s, i, als[k]) {
        lemma_alias_match_bounds(s, i, als, k + 1);
    }
}

/// A separator read inside the input ends inside the input.
proof fn lemma_sep_bounds(s: Seq<u8>, i: int)
    requires
        0 <= i <= s.len(),
    ensures
        i <= spec_separator(s, i) <= s.len(),
{
    crate::parser::lemma_skip_spaces_bounds(s, i);
    let a = skip_spaces(s, i);
    if 0 <= a < s.len() && s[a] == ',' as u8 {
        crate::parser::lemma_skip_spaces_bounds(s, a + 1);
    }
    let m = match and_end(s, a) {
        Some(e) => e,
        None => if a < s.len() && (s[a] == ':' as u8 || s[a] == ',' as u8 || s[a] == ';' as u8) {
            a + 1
        } else {
            a
        },
    };
    crate::parser::lemma_skip_spaces_bounds(s, m);
}

/// Within each unit the accepted spellings are listed longest first.
proof fn lemma_aliases_sorted(u: Unit)
    ensures
        forall|x: int, y: int|
            0 <= x < y < aliases(u).len() ==> (#[trigger] aliases(u)[x]).len() >= (
            #[trigger] aliases(u)[y]).len(),
{
    let als = aliases(u);
    assert forall|x: int, y: int| 0 <= x < y < als.len() implies (#[trigger] als[x]).len() >= (
    #[trigger] als[y]).len() by {
        match u {
            Unit::Hour => {
                assert(als[0].len() == 5);
                assert(als[1].len() == 4);
                assert(als[2].len() == 3);
                assert(als[3].len() == 2);
                assert(als[4].len() == 1);
            },
            Unit::Minute => {
                assert(als[0].len() == 7);
                assert(als[1].len() == 6);
                assert(als[2].len() == 4);
                assert(als[3].len() == 3);
                assert(als[4].len() == 2);
                assert(als[5].len() == 1);
            },
            Unit::Second => {
                assert(als[0].len() == 7);
                assert(als[1].len() == 6);
                assert(als[2].len() == 4);
                assert(als[3].len() == 3);
                assert(als[4].len() == 2);
                assert(als[5].len() == 1);
            },
        }
    }
}

proof fn lemma_alias_match_from_no_steal(s: Seq<u8>, i: int, u: Unit, k: int, a: int)
    requires
        0 <= k <= a < aliases(u).len(),
        matches_at(s, i, aliases(u)[a]),
    ensures
        match alias_match_from(s, i, aliases(u), k) {
            Some(e) => e >= i + aliases(u)[a].len(),
            None => false,
        },
    decreases aliases(u).len() - k,
{
    lemma_aliases_sorted(u);
    if !matches_at(s, i, aliases(u)[k]) {
        lemma_alias_match_from_no_steal(s, i, u, k + 1, a);
    }
}

/// Alias ordering: a longer spelling is never cut short by a shorter one
/// that is its prefix. Whenever any accepted spelling of a unit matches at
/// a position, the suffix matcher succeeds there and consumes at least that
/// spelling — `"hours"` can never be read as `"h"` with `"ours"` left over.
pub proof fn lemma_alias_no_steal(s: Seq<u8>, i: int, u: Unit, a: int)
    requires
        0 <= a < aliases(u).len(),
        matches_at(s, i, aliases(u)[a]),
    ensures
        match match_suffix(s, i, u) {
            Some(e) => e >= i + aliases(u)[a].len(),
            None => false,
        },
{
    lemma_alias_match_from_no_steal(s, i, u, 0, a);
}

/// Formatting is a pure function of the duration and the template: two
/// renderings of the same pair are the same string, however often repeated.
pub proof fn lemma_format_deterministic(total: nat, t: Seq<char>, r1: Seq<char>, r2: Seq<char>)
    requires
        r1 == spec_format(total, t),
        r2 == spec_format(total, t),
    ensures
        r1 == r2,
{
}

} // verus!
