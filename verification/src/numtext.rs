//! Decimal integer text: classification, parsing and formatting.
//!
//! Domain bounds, list elements and literal branch keys all arrive as decimal
//! text (optionally signed, with spaces and sometimes underscores tolerated as
//! filler). This module gives that text a mathematical reading and provides a
//! verified parser and formatter against it.

use vstd::prelude::*;
use vstd::string::*;

verus! {

/// A decimal digit character.
pub open spec fn is_digit(c: char) -> bool {
    '0' <= c && c <= '9'
}

/// Numeric value of a digit character.
pub open spec fn digit_val(c: char) -> int {
    c as int - '0' as int
}

/// The digit character for a value in 0..=9.
pub open spec fn digit_char(d: int) -> char {
    if d == 0 {
        '0'
    } else if d == 1 {
        '1'
    } else if d == 2 {
        '2'
    } else if d == 3 {
        '3'
    } else if d == 4 {
        '4'
    } else if d == 5 {
        '5'
    } else if d == 6 {
        '6'
    } else if d == 7 {
        '7'
    } else if d == 8 {
        '8'
    } else {
        '9'
    }
}

/// Text with filler removed: spaces always, underscores only when asked.
pub open spec fn spec_strip(s: Seq<char>, underscores: bool) -> Seq<char>
    decreases s.len(),
{
    if s.len() == 0 {
        Seq::empty()
    } else {
        let rest = spec_strip(s.drop_last(), underscores);
        if s.last() == ' ' || (underscores && s.last() == '_') {
            rest
        } else {
            rest.push(s.last())
        }
    }
}

/// Every character is a decimal digit.
pub open spec fn all_digits(s: Seq<char>) -> bool {
    forall|i: int| 0 <= i < s.len() ==> is_digit(#[trigger] s[i])
}

/// Value of an unsigned digit string, most significant digit first.
pub open spec fn digits_val(s: Seq<char>) -> int
    decreases s.len(),
{
    if s.len() == 0 {
        0
    } else {
        digits_val(s.drop_last()) * 10 + digit_val(s.last())
    }
}

/// Well-formed decimal integer text: an optional sign, then at least one
/// digit, and nothing else.
pub open spec fn is_int_text(s: Seq<char>) -> bool {
    if s.len() == 0 {
        false
    } else if s[0] == '-' || s[0] == '+' {
        s.len() > 1 && all_digits(s.subrange(1, s.len() as int))
    } else {
        all_digits(s)
    }
}

/// The signed value that well-formed decimal text denotes.
pub open spec fn int_text_val(s: Seq<char>) -> int {
    if s.len() > 0 && s[0] == '-' {
        -digits_val(s.subrange(1, s.len() as int))
    } else if s.len() > 0 && s[0] == '+' {
        digits_val(s.subrange(1, s.len() as int))
    } else {
        digits_val(s)
    }
}

/// Canonical decimal digits of a nonnegative value (no sign, no leading zero).
pub open spec fn dec_digits(n: nat) -> Seq<char>
    decreases n,
{
    if n < 10 {
        seq![digit_char(n as int)]
    } else {
        dec_digits(n / 10).push(digit_char((n % 10) as int))
    }
}

/// Canonical decimal text of a signed value.
pub open spec fn int_text(v: int) -> Seq<char> {
    if v < 0 {
        seq!['-'] + dec_digits((-v) as nat)
    } else {
        dec_digits(v as nat)
    }
}

pub proof fn lemma_digits_val_nonneg(s: Seq<char>)
    requires
        all_digits(s),
    ensures
        digits_val(s) >= 0,
    decreases s.len(),
{
    if s.len() > 0 {
        lemma_digits_val_nonneg(s.drop_last());
        assert(digits_val(s.drop_last()) * 10 >= 0) by (nonlinear_arith)
            requires
                digits_val(s.drop_last()) >= 0,
        ;
    }
}

/// A digit string is worth at least any of its prefixes.
pub proof fn lemma_digits_val_prefix(s: Seq<char>, k: int)
    requires
        all_digits(s),
        0 <= k <= s.len(),
    ensures
        digits_val(s) >= digits_val(s.subrange(0, k)),
    decreases s.len() - k,
{
    if k < s.len() {
        let p = s.subrange(0, k);
        let q = s.subrange(0, k + 1);
        assert(q.drop_last() =~= p);
        assert(all_digits(p));
        lemma_digits_val_nonneg(p);
        assert(digits_val(q) == digits_val(p) * 10 + digit_val(s[k]));
        assert(digits_val(p) * 10 >= digits_val(p)) by (nonlinear_arith)
            requires
                digits_val(p) >= 0,
        ;
        lemma_digits_val_prefix(s, k + 1);
    } else {
        assert(s.subrange(0, k) =~= s);
    }
}

/// Strip filler characters out of text.
pub fn strip_text(s: &str, underscores: bool) -> (r: Vec<char>)
    ensures
        r@ == spec_strip(s@, underscores),
{
    let n: usize = s.unicode_len();
    let mut out: Vec<char> = Vec::new();
    let mut i: usize = 0;
    while i < n
        invariant
            n == s@.len(),
            i <= n,
            out@ == spec_strip(s@.subrange(0, i as int), underscores),
        decreases n - i,
    {
        let c: char = s.get_char(i);
        proof {
            assert(s@.subrange(0, i + 1).drop_last() =~= s@.subrange(0, i as int));
        }
        if !(c == ' ' || (underscores && c == '_')) {
            out.push(c);
        }
        i = i + 1;
    }
    proof {
        assert(s@.subrange(0, n as int) =~= s@);
    }
    out
}

/// Parse signed decimal character text into an `i64`.
///
/// Succeeds exactly on well-formed decimal text whose value fits the type.
pub fn parse_i64_chars(v: &Vec<char>) -> (r: Option<i64>)
    ensures
        match r {
            Some(x) => is_int_text(v@) && i64::MIN <= int_text_val(v@) <= i64::MAX && x
                == int_text_val(v@),
            None => !(is_int_text(v@) && i64::MIN <= int_text_val(v@) <= i64::MAX),
        },
{
    let n: usize = v.len();
    if n == 0 {
        return None;
    }
    let c0: char = v[0];
    let neg: bool = c0 == '-';
    let start: usize = if c0 == '-' || c0 == '+' {
        1
    } else {
        0
    };
    if start >= n {
        return None;
    }
    let ghost dp = v@.subrange(start as int, n as int);
    let mut mag: u64 = 0;
    let mut i: usize = start;
    while i < n
        invariant
            start <= i <= n,
            n == v@.len(),
            start == 0 || start == 1,
            start == 1 <==> (v@[0] == '-' || v@[0] == '+'),
            neg <==> v@[0] == '-',
            dp == v@.subrange(start as int, n as int),
            all_digits(v@.subrange(start as int, i as int)),
            mag == digits_val(v@.subrange(start as int, i as int)),
        decreases n - i,
    {
        let c: char = v[i];
        proof {
            assert(v@.subrange(start as int, i + 1).drop_last() =~= v@.subrange(
                start as int,
                i as int,
            ));
            assert(v@.subrange(start as int, i + 1).last() == v@[i as int]);
        }
        if !(c >= '0' && c <= '9') {
            proof {
                assert(dp[i - start] == v@[i as int]);
                assert(!all_digits(dp));
            }
            return None;
        }
        let d: u64 = (c as u32 - '0' as u32) as u64;
        if mag > (u64::MAX - d) / 10 {
            proof {
                let q: int = ((u64::MAX - d) / 10) as int;
                assert(mag * 10 >= (q + 1) * 10) by (nonlinear_arith)
                    requires
                        mag >= q + 1,
                ;
                assert((q + 1) * 10 == q * 10 + 10);
                vstd::arithmetic::div_mod::lemma_fundamental_div_mod((u64::MAX - d) as int, 10);
                assert(mag * 10 + d > u64::MAX);
                if is_int_text(v@) {
                    assert(all_digits(dp));
                    let k: int = i + 1 - start;
                    assert(dp.subrange(0, k) =~= v@.subrange(start as int, i + 1));
                    lemma_digits_val_prefix(dp, k);
                    assert(digits_val(dp) >= mag * 10 + d);
                    if start == 1 {
                        assert(v@.subrange(1, n as int) == dp);
                    } else {
                        assert(v@.subrange(0, n as int) =~= v@);
                        assert(dp == v@);
                    }
                    assert(int_text_val(v@) == digits_val(dp) || int_text_val(v@) == -digits_val(
                        dp,
                    ));
                    assert(!(i64::MIN <= int_text_val(v@) <= i64::MAX));
                }
            }
            return None;
        }
        mag = mag * 10 + d;
        i = i + 1;
    }
    proof {
        assert(v@.subrange(start as int, i as int) =~= dp);
        lemma_digits_val_nonneg(dp);
        if start == 1 {
            assert(v@.subrange(1, n as int) == dp);
        } else {
            assert(v@.subrange(0, n as int) =~= v@);
            assert(dp == v@);
        }
        assert(is_int_text(v@));
    }
    if neg {
        if mag > 9223372036854775808u64 {
            return None;
        }
        if mag == 9223372036854775808u64 {
            Some(i64::MIN)
        } else {
            Some(-(mag as i64))
        }
    } else {
        if mag > 9223372036854775807u64 {
            return None;
        }
        Some(mag as i64)
    }
}

/// Strip filler from text and parse it as a signed decimal `i64`.
pub fn parse_stripped(s: &str, underscores: bool) -> (r: Option<i64>)
    ensures
        match r {
            Some(x) => is_int_text(spec_strip(s@, underscores)) && i64::MIN <= int_text_val(
                spec_strip(s@, underscores),
            ) <= i64::MAX && x == int_text_val(spec_strip(s@, underscores)),
            None => !(is_int_text(spec_strip(s@, underscores)) && i64::MIN <= int_text_val(
                spec_strip(s@, underscores),
            ) <= i64::MAX),
        },
{
    let stripped: Vec<char> = strip_text(s, underscores);
    parse_i64_chars(&stripped)
}

/// The one-character string for a digit value.
fn digit_str(d: u64) -> (r: &'static str)
    requires
        d < 10,
    ensures
        r@ == seq![digit_char(d as int)],
{
    let r: &'static str = match d {
        0 => "0",
        1 => "1",
        2 => "2",
        3 => "3",
        4 => "4",
        5 => "5",
        6 => "6",
        7 => "7",
        8 => "8",
        _ => "9",
    };
    proof {
        reveal_strlit("0");
        reveal_strlit("1");
        reveal_strlit("2");
        reveal_strlit("3");
        reveal_strlit("4");
        reveal_strlit("5");
        reveal_strlit("6");
        reveal_strlit("7");
        reveal_strlit("8");
        reveal_strlit("9");
    }
    r
}

/// Append the canonical decimal digits of `n` to `out`.
pub fn push_dec_digits(out: &mut String, n: u64)
    ensures
        final(out)@ == old(out)@ + dec_digits(n as nat),
    decreases n,
{
    if n < 10 {
        out.append(digit_str(n));
    } else {
        push_dec_digits(out, n / 10);
        out.append(digit_str(n % 10));
        proof {
            assert(out@ =~= old(out)@ + dec_digits(n as nat));
        }
    }
}

/// Magnitude of a signed value, exact even at the type's minimum.
pub fn magnitude_u64(v: i64) -> (m: u64)
    ensures
        m == if v >= 0 {
            v as int
        } else {
            -(v as int)
        },
{
    if v >= 0 {
        v as u64
    } else if v == i64::MIN {
        9223372036854775808u64
    } else {
        (-v) as u64
    }
}

/// Append the canonical decimal text of `v` to `out`.
pub fn push_int_text(out: &mut String, v: i64)
    ensures
        final(out)@ == old(out)@ + int_text(v as int),
{
    if v < 0 {
        out.append("-");
        proof {
            reveal_strlit("-");
        }
        push_dec_digits(out, magnitude_u64(v));
        proof {
            assert(out@ =~= old(out)@ + int_text(v as int));
        }
    } else {
        push_dec_digits(out, v as u64);
    }
}

} // verus!
