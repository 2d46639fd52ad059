//! The template formatter.
//!
//! A duration is decomposed into whole hours, the minutes left over, and
//! the seconds left over; hours are not capped, so a million seconds shows
//! 277 hours. The template is copied to the output character by character,
//! except that the six two-character placeholders `%h`, `%H`, `%m`, `%M`,
//! `%s` and `%S` are replaced by the matching component, the capitalised
//! ones zero-padded to at least two digits. Anything else — including an
//! unrecognised `%x` pair or a trailing lone `%` — passes through
//! unchanged, so formatting never fails.

use vstd::prelude::*;
use vstd::string::StrSliceExecFns;
use vstd::string::StringExecFns;
use crate::duration::Duration;

verus! {

/// The decimal digit character for one digit value.
pub open spec fn digit_char(d: nat) -> char {
    if d == 0 {
        '0'
    } else if d == 1 {
        '1'
    } else if d == 2 {
        '2'
    } else if d == 3 {
        '3'
    } else if d == 4 {
        '4'
    } else if d == 5 {
        '5'
    } else if d == 6 {
        '6'
    } else if d == 7 {
        '7'
    } else if d == 8 {
        '8'
    } else {
        '9'
    }
}

/// The decimal spelling of a number: no sign, no padding, a single `0` for
/// zero.
pub open spec fn spec_dec(n: nat) -> Seq<char>
    decreases n,
{
    if n < 10 {
        seq![digit_char(n)]
    } else {
        spec_dec(n / 10).push(digit_char(n % 10))
    }
}

/// The decimal spelling zero-padded to at least two digits; wider numbers
/// are never truncated.
pub open spec fn spec_pad2(n: nat) -> Seq<char> {
    if n < 10 {
        seq!['0'] + spec_dec(n)
    } else {
        spec_dec(n)
    }
}

/// The six characters that may follow `%` to form a placeholder.
pub open spec fn is_placeholder(c: char) -> bool {
    c == 'h' || c == 'H' || c == 'm' || c == 'M' || c == 's' || c == 'S'
}

/// What one placeholder shows of a total number of seconds.
pub open spec fn expansion(total: nat, c: char) -> Seq<char> {
    let hours = total / 3600;
    let minutes = (total % 3600) / 60;
    let seconds = total % 60;
    if c == 'h' {
        spec_dec(hours)
    } else if c == 'H' {
        spec_pad2(hours)
    } else if c == 'm' {
        spec_dec(minutes)
    } else if c == 'M' {
        spec_pad2(minutes)
    } else if c == 's' {
        spec_dec(seconds)
    } else {
        spec_pad2(seconds)
    }
}

/// One left-to-right pass over the template: each placeholder is replaced
/// by its expansion, every other character is passed through literally.
pub open spec fn spec_format(total: nat, t: Seq<char>) -> Seq<char>
    decreases t.len(),
{
    if t.len() == 0 {
        Seq::empty()
    } else if t.len() >= 2 && t[0] == '%' && is_placeholder(t[1]) {
        expansion(total, t[1]) + spec_format(total, t.skip(2))
    } else {
        seq![t[0]] + spec_format(total, t.skip(1))
    }
}

fn digit_str(d: u64) -> (r: String)
    requires
        d < 10,
    ensures
        r@ == seq![digit_char(d as nat)],
{
    let s: &str = if d == 0 {
        "0"
    } else if d == 1 {
        "1"
    } else if d == 2 {
        "2"
    } else if d == 3 {
        "3"
    } else if d == 4 {
        "4"
    } else if d == 5 {
        "5"
    } else if d == 6 {
        "6"
    } else if d == 7 {
        "7"
    } else if d == 8 {
        "8"
    } else {
        "9"
    };
    proof {
        reveal_strlit("0");
        reveal_strlit("1");
        reveal_strlit("2");
        reveal_strlit("3");
        reveal_strlit("4");
        reveal_strlit("5");
        reveal_strlit("6");
        reveal_strlit("7");
        reveal_strlit("8");
        reveal_strlit("9");
        assert(s@ =~= seq![digit_char(d as nat)]);
    }
    s.to_owned()
}

fn dec_str(n: u64) -> (r: String)
    ensures
        r@ == spec_dec(n as nat),
    decreases n,
{
    if n < 10 {
        digit_str(n)
    } else {
        let mut s = dec_str(n / 10);
        let d = digit_str(n % 10);
        s.append(d.as_str());
        proof {
            assert(s@ =~= spec_dec(n as nat));
        }
        s
    }
}

fn pad2_str(n: u64) -> (r: String)
    ensures
        r@ == spec_pad2(n as nat),
{
    if n < 10 {
        let mut s = digit_str(0);
        let d = digit_str(n);
        s.append(d.as_str());
        proof {
            reveal_strlit("0");
            assert(s@ =~= spec_pad2(n as nat));
        }
        s
    } else {
        dec_str(n)
    }
}

fn expansion_str(total: u64, c: char) -> (r: String)
    requires
        is_placeholder(c),
    ensures
        r@ == expansion(total as nat, c),
{
    let hours = total / 3600;
    let minutes = (total % 3600) / 60;
    let seconds = total % 60;
    if c == 'h' {
        dec_str(hours)
    } else if c == 'H' {
        pad2_str(hours)
    } else if c == 'm' {
        dec_str(minutes)
    } else if c == 'M' {
        pad2_str(minutes)
    } else if c == 's' {
        dec_str(seconds)
    } else {
        pad2_str(seconds)
    }
}

fn is_placeholder_char(c: char) -> (r: bool)
    ensures
        r == is_placeholder(c),
{
    c == 'h' || c == 'H' || c == 'm' || c == 'M' || c == 's' || c == 'S'
}

/// Renders a duration through a display template ([`spec_format`]): a pure
/// function of its two arguments, total for every duration and every
/// template.
pub fn format(duration: Duration, template: &str) -> (r: String)
    ensures
        r@ == spec_format(duration.secs as nat, template@),
{
    let total = duration.secs;
    let tlen = template.unicode_len();
    let mut out = String::new();
    let mut i: usize = 0;
    proof {
        assert(template@.skip(0) =~= template@);
        assert(out@ + spec_format(total as nat, template@) =~= spec_format(
            total as nat,
            template@,
        ));
    }
    while i < tlen
        invariant
            i <= tlen,
            tlen == template@.len(),
            total == duration.secs,
            out@ + spec_format(total as nat, template@.skip(i as int)) == spec_format(
                total as nat,
                template@,
            ),
        decreases tlen - i,
    {
        let c = template.get_char(i);
        if c == '%' && i + 1 < tlen && is_placeholder_char(template.get_char(i + 1)) {
            let c2 = template.get_char(i + 1);
            let piece = expansion_str(total, c2);
            out.append(piece.as_str());
            proof {
                assert(template@.skip(i as int).skip(2) =~= template@.skip(i as int + 2));
                assert(template@.skip(i as int)[0] == template@[i as int]);
                assert(template@.skip(i as int)[1] == template@[i as int + 1]);
            }
            i = i + 2;
        } else {
            let piece = template.substring_char(i, i + 1);
            out.append(piece);
            proof {
                assert(template@.skip(i as int).skip(1) =~= template@.skip(i as int + 1));
                assert(template@.skip(i as int)[0] == template@[i as int]);
                assert(template@.subrange(i as int, i as int + 1) =~= seq![template@[i as int]]);
            }
            i = i + 1;
        }
    }
    proof {
        assert(template@.skip(tlen as int) =~= Seq::<char>::empty());
    }
    out
}

} // verus!
