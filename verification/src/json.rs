//! The record-line grammar: one JSON object per line, read into `LogEntry`.
//!
//! The grammar is stated as spec functions (a recursive-descent reading of
//! JSON) and each executable function is proved to return exactly what its
//! spec function says. A line that does not parse, or that parses to a record
//! the schema rejects (wrong type in a known field, duplicate known field,
//! missing `timestamp` or `message`), yields nothing; unknown fields of any
//! shape are skipped over.
//!
//! Numbers for token counts must be plain non-negative integers that fit
//! `u64`. The precomputed cost is a JSON number read into microcents
//! (hundred-millionths of a USD): digits beyond that precision are truncated,
//! a negative cost clamps to zero, and a magnitude beyond `u128` saturates.
//! Nesting is bounded and over-long lines are rejected, so parsing always
//! terminates.

use vstd::prelude::*;
use crate::types::{LogEntry, LogEntryModel, Message, MessageModel, TokenUsage};

verus! {

/// Upper bound on the characters of one line the parser will look at.
pub const MAX_LINE_CHARS: usize = 0x1000000;

/// Nesting depth allowed for objects and arrays, counted from the top-level
/// object inward.
pub const MAX_NESTING: u32 = 128;

pub open spec fn is_ws_char(c: char) -> bool {
    c == ' ' || c == '\t' || c == '\n' || c == '\r'
}

pub open spec fn is_digit_char(c: char) -> bool {
    0x30 <= (c as u32) && (c as u32) <= 0x39
}

pub open spec fn digit_val(c: char) -> int {
    (c as u32) - 0x30
}

pub open spec fn spec_skip_ws(s: Seq<char>, i: int) -> int
    decreases s.len() - i,
    when 0 <= i <= s.len()
{
    if i < s.len() && is_ws_char(s[i]) {
        spec_skip_ws(s, i + 1)
    } else {
        i
    }
}

fn skip_ws(s: &Vec<char>, i: usize) -> (r: usize)
    requires
        i <= s@.len(),
    ensures
        r as int == spec_skip_ws(s@, i as int),
        i <= r <= s@.len(),
    decreases s@.len() - i,
{
    if i < s.len() && (s[i] == ' ' || s[i] == '\t' || s[i] == '\n' || s[i] == '\r') {
        skip_ws(s, i + 1)
    } else {
        i
    }
}

pub open spec fn spec_hex_val(c: char) -> Option<u32> {
    let u = c as u32;
    if 0x30 <= u && u <= 0x39 {
        Option::Some((u - 0x30) as u32)
    } else if 0x61 <= u && u <= 0x66 {
        Option::Some((u - 0x61 + 10) as u32)
    } else if 0x41 <= u && u <= 0x46 {
        Option::Some((u - 0x41 + 10) as u32)
    } else {
        Option::None
    }
}

fn hex_val(c: char) -> (r: Option<u32>)
    ensures
        r == spec_hex_val(c),
{
    let u = c as u32;
    if 0x30 <= u && u <= 0x39 {
        Option::Some(u - 0x30)
    } else if 0x61 <= u && u <= 0x66 {
        Option::Some(u - 0x61 + 10)
    } else if 0x41 <= u && u <= 0x46 {
        Option::Some(u - 0x41 + 10)
    } else {
        Option::None
    }
}

/// Four hex digits at `i`, as a code unit.
pub open spec fn spec_hex4(s: Seq<char>, i: int) -> Option<u32> {
    if 0 <= i && i + 4 <= s.len() {
        match (spec_hex_val(s[i]), spec_hex_val(s[i + 1]), spec_hex_val(s[i + 2]), spec_hex_val(
            s[i + 3],
        )) {
            (Option::Some(a), Option::Some(b), Option::Some(c), Option::Some(d)) => Option::Some(
                (a * 0x1000 + b * 0x100 + c * 0x10 + d) as u32,
            ),
            _ => Option::None,
        }
    } else {
        Option::None
    }
}

fn hex4(s: &Vec<char>, i: usize) -> (r: Option<u32>)
    requires
        i <= s@.len(),
    ensures
        r == spec_hex4(s@, i as int),
{
    if s.len() - i < 4 {
        return Option::None;
    }
    match (hex_val(s[i]), hex_val(s[i + 1]), hex_val(s[i + 2]), hex_val(s[i + 3])) {
        (Option::Some(a), Option::Some(b), Option::Some(c), Option::Some(d)) => Option::Some(
            a * 0x1000 + b * 0x100 + c * 0x10 + d,
        ),
        _ => Option::None,
    }
}

/// The body of a string literal, from just after the opening quote, decoding
/// escapes; yields the decoded characters and the position after the closing
/// quote.
pub open spec fn spec_string_body(s: Seq<char>, i: int, acc: Seq<char>) -> Option<(Seq<char>, int)>
    decreases s.len() - i, 1int,
    when 0 <= i <= s.len()
{
    if i >= s.len() {
        Option::None
    } else {
        let c = s[i];
        if c == '"' {
            Option::Some((acc, i + 1))
        } else if c == '\\' {
            if i + 1 >= s.len() {
                Option::None
            } else {
                let e = s[i + 1];
                if e == '"' {
                    spec_string_body(s, i + 2, acc.push('"'))
                } else if e == '\\' {
                    spec_string_body(s, i + 2, acc.push('\\'))
                } else if e == '/' {
                    spec_string_body(s, i + 2, acc.push('/'))
                } else if e == 'b' {
                    spec_string_body(s, i + 2, acc.push('\u{0008}'))
                } else if e == 'f' {
                    spec_string_body(s, i + 2, acc.push('\u{000C}'))
                } else if e == 'n' {
                    spec_string_body(s, i + 2, acc.push('\n'))
                } else if e == 'r' {
                    spec_string_body(s, i + 2, acc.push('\r'))
                } else if e == 't' {
                    spec_string_body(s, i + 2, acc.push('\t'))
                } else if e == 'u' {
                    spec_u_escape(s, i, acc)
                } else {
                    Option::None
                }
            }
        } else if (c as u32) < 0x20 {
            Option::None
        } else {
            spec_string_body(s, i + 1, acc.push(c))
        }
    }
}

/// A `\u` escape at `i` (where `s[i] == '\\'` and `s[i+1] == 'u'`), including
/// a following low surrogate when the first code unit is a high surrogate.
pub open spec fn spec_u_escape(s: Seq<char>, i: int, acc: Seq<char>) -> Option<(Seq<char>, int)>
    decreases s.len() - i, 0int,
    when 0 <= i <= s.len()
{
    match spec_hex4(s, i + 2) {
        Option::None => Option::None,
        Option::Some(h) => if h < 0xD800 || h > 0xDFFF {
            spec_string_body(s, i + 6, acc.push(h as char))
        } else if h < 0xDC00 {
            if s.len() - i >= 8 && s[i + 6] == '\\' && s[i + 7] == 'u' {
                match spec_hex4(s, i + 8) {
                    Option::None => Option::None,
                    Option::Some(l) => if 0xDC00 <= l && l <= 0xDFFF {
                        spec_string_body(
                            s,
                            i + 12,
                            acc.push(
                                ((0x10000 + (h - 0xD800) * 0x400 + (l - 0xDC00)) as u32) as char,
                            ),
                        )
                    } else {
                        Option::None
                    },
                }
            } else {
                Option::None
            }
        } else {
            Option::None
        },
    }
}

fn p_string_body(s: &Vec<char>, i: usize, acc: Vec<char>) -> (r: Option<(Vec<char>, usize)>)
    requires
        i <= s@.len(),
    ensures
        (match r {
            Option::None => spec_string_body(s@, i as int, acc@) is None,
            Option::Some(p) => spec_string_body(s@, i as int, acc@) matches Option::Some(q)
                && p.0@ == q.0 && p.1 as int == q.1 && p.1 <= s@.len(),
        }),
    decreases s@.len() - i, 1int,
{
    if i >= s.len() {
        return Option::None;
    }
    let c = s[i];
    if c == '"' {
        return Option::Some((acc, i + 1));
    }
    if c == '\\' {
        if i + 1 >= s.len() {
            return Option::None;
        }
        let e = s[i + 1];
        let mut acc2 = acc;
        if e == '"' {
            acc2.push('"');
            p_string_body(s, i + 2, acc2)
        } else if e == '\\' {
            acc2.push('\\');
            p_string_body(s, i + 2, acc2)
        } else if e == '/' {
            acc2.push('/');
            p_string_body(s, i + 2, acc2)
        } else if e == 'b' {
            acc2.push('\u{0008}');
            p_string_body(s, i + 2, acc2)
        } else if e == 'f' {
            acc2.push('\u{000C}');
            p_string_body(s, i + 2, acc2)
        } else if e == 'n' {
            acc2.push('\n');
            p_string_body(s, i + 2, acc2)
        } else if e == 'r' {
            acc2.push('\r');
            p_string_body(s, i + 2, acc2)
        } else if e == 't' {
            acc2.push('\t');
            p_string_body(s, i + 2, acc2)
        } else if e == 'u' {
            p_u_escape(s, i, acc2)
        } else {
            Option::None
        }
    } else if (c as u32) < 0x20 {
        Option::None
    } else {
        let mut acc2 = acc;
        acc2.push(c);
        p_string_body(s, i + 1, acc2)
    }
}

fn p_u_escape(s: &Vec<char>, i: usize, acc: Vec<char>) -> (r: Option<(Vec<char>, usize)>)
    requires
        i <= s@.len(),
    ensures
        (match r {
            Option::None => spec_u_escape(s@, i as int, acc@) is None,
            Option::Some(p) => spec_u_escape(s@, i as int, acc@) matches Option::Some(q)
                && p.0@ == q.0 && p.1 as int == q.1 && p.1 <= s@.len(),
        }),
    decreases s@.len() - i, 0int,
{
    if s.len() - i < 2 {
        proof {
            assert(spec_hex4(s@, i as int + 2) is None);
        }
        return Option::None;
    }
    let h = match hex4(s, i + 2) {
        Option::None => {
            return Option::None;
        },
        Option::Some(h) => h,
    };
    let mut acc2 = acc;
    if h < 0xD800 || h > 0xDFFF {
        match crate::text::char_from_u32(h) {
            Option::Some(c) => {
                acc2.push(c);
                p_string_body(s, i + 6, acc2)
            },
            Option::None => {
                proof {
                    assert(false);
                }
                Option::None
            },
        }
    } else if h < 0xDC00 {
        if s.len() - i >= 8 && s[i + 6] == '\\' && s[i + 7] == 'u' {
            match hex4(s, i + 8) {
                Option::None => Option::None,
                Option::Some(l) => if 0xDC00 <= l && l <= 0xDFFF {
                    let code: u32 = 0x10000 + (h - 0xD800) * 0x400 + (l - 0xDC00);
                    match crate::text::char_from_u32(code) {
                        Option::Some(c) => {
                            acc2.push(c);
                            p_string_body(s, i + 12, acc2)
                        },
                        Option::None => {
                            proof {
                                assert(false);
                            }
                            Option::None
                        },
                    }
                } else {
                    Option::None
                },
            }
        } else {
            Option::None
        }
    } else {
        Option::None
    }
}

/// A whole string literal at `i`: the decoded characters and the position
/// after the closing quote.
pub open spec fn spec_string(s: Seq<char>, i: int) -> Option<(Seq<char>, int)>
    recommends
        0 <= i <= s.len(),
{
    if 0 <= i && i < s.len() && s[i] == '"' {
        spec_string_body(s, i + 1, Seq::empty())
    } else {
        Option::None
    }
}

fn p_string(s: &Vec<char>, i: usize) -> (r: Option<(Vec<char>, usize)>)
    requires
        i <= s@.len(),
    ensures
        (match r {
            Option::None => spec_string(s@, i as int) is None,
            Option::Some(p) => spec_string(s@, i as int) matches Option::Some(q) && p.0@ == q.0
                && p.1 as int == q.1 && p.1 <= s@.len(),
        }),
{
    if i < s.len() && s[i] == '"' {
        let acc: Vec<char> = Vec::new();
        p_string_body(s, i + 1, acc)
    } else {
        Option::None
    }
}

/// Digits of a `u64` integer from `i`, on top of `acc`; overflow is an error.
pub open spec fn spec_digits_u64(s: Seq<char>, i: int, acc: u64) -> Option<(u64, int)>
    decreases s.len() - i,
    when 0 <= i <= s.len()
{
    if i < s.len() && is_digit_char(s[i]) {
        if acc * 10 + digit_val(s[i]) > u64::MAX {
            Option::None
        } else {
            spec_digits_u64(s, i + 1, (acc * 10 + digit_val(s[i])) as u64)
        }
    } else {
        Option::Some((acc, i))
    }
}

fn p_digits_u64(s: &Vec<char>, i: usize, acc: u64) -> (r: Option<(u64, usize)>)
    requires
        i <= s@.len(),
    ensures
        (match r {
            Option::None => spec_digits_u64(s@, i as int, acc) is None,
            Option::Some(p) => spec_digits_u64(s@, i as int, acc) matches Option::Some(q)
                && p.0 == q.0 && p.1 as int == q.1 && i <= p.1 <= s@.len(),
        }),
    decreases s@.len() - i,
{
    if i < s.len() && 0x30 <= (s[i] as u32) && (s[i] as u32) <= 0x39 {
        let d: u64 = (s[i] as u32 - 0x30) as u64;
        match acc.checked_mul(10) {
            Option::None => Option::None,
            Option::Some(m) => match m.checked_add(d) {
                Option::None => Option::None,
                Option::Some(v) => p_digits_u64(s, i + 1, v),
            },
        }
    } else {
        Option::Some((acc, i))
    }
}

/// A token-count value: a plain non-negative integer that fits `u64`, with no
/// leading zero, fraction or exponent.
pub open spec fn spec_u64_value(s: Seq<char>, i: int) -> Option<(u64, int)>
    recommends
        0 <= i <= s.len(),
{
    if 0 <= i && i < s.len() && is_digit_char(s[i]) {
        let parsed = if s[i] == '0' {
            Option::Some((0u64, i + 1))
        } else {
            spec_digits_u64(s, i, 0)
        };
        match parsed {
            Option::None => Option::None,
            Option::Some(p) => if p.1 < s.len() && (is_digit_char(s[p.1]) || s[p.1] == '.'
                || s[p.1] == 'e' || s[p.1] == 'E') {
                Option::None
            } else {
                Option::Some(p)
            },
        }
    } else {
        Option::None
    }
}

fn p_u64_value(s: &Vec<char>, i: usize) -> (r: Option<(u64, usize)>)
    requires
        i <= s@.len(),
    ensures
        (match r {
            Option::None => spec_u64_value(s@, i as int) is None,
            Option::Some(p) => spec_u64_value(s@, i as int) matches Option::Some(q) && p.0 == q.0
                && p.1 as int == q.1 && i <= p.1 <= s@.len(),
        }),
{
    if i < s.len() && 0x30 <= (s[i] as u32) && (s[i] as u32) <= 0x39 {
        let parsed = if s[i] == '0' {
            Option::Some((0u64, i + 1))
        } else {
            p_digits_u64(s, i, 0)
        };
        match parsed {
            Option::None => Option::None,
            Option::Some(p) => {
                if p.1 < s.len() && (0x30 <= (s[p.1] as u32) && (s[p.1] as u32) <= 0x39
                    || s[p.1] == '.' || s[p.1] == 'e' || s[p.1] == 'E') {
                    Option::None
                } else {
                    Option::Some(p)
                }
            },
        }
    } else {
        Option::None
    }
}

/// Saturating accumulation of decimal digits on top of `acc`; never fails,
/// clamping at the top of `u128`.
pub open spec fn spec_digits_sat(s: Seq<char>, i: int, acc: u128) -> (u128, int)
    decreases s.len() - i,
    when 0 <= i <= s.len()
{
    if i < s.len() && is_digit_char(s[i]) {
        let v = if acc * 10 + digit_val(s[i]) > u128::MAX {
            u128::MAX
        } else {
            (acc * 10 + digit_val(s[i])) as u128
        };
        spec_digits_sat(s, i + 1, v)
    } else {
        (acc, i)
    }
}

fn p_digits_sat(s: &Vec<char>, i: usize, acc: u128) -> (r: (u128, usize))
    requires
        i <= s@.len(),
    ensures
        r.0 == spec_digits_sat(s@, i as int, acc).0,
        r.1 as int == spec_digits_sat(s@, i as int, acc).1,
        i <= r.1 <= s@.len(),
    decreases s@.len() - i,
{
    if i < s.len() && 0x30 <= (s[i] as u32) && (s[i] as u32) <= 0x39 {
        let d: u128 = (s[i] as u32 - 0x30) as u128;
        let v = match acc.checked_mul(10) {
            Option::None => u128::MAX,
            Option::Some(m) => match m.checked_add(d) {
                Option::None => u128::MAX,
                Option::Some(v) => v,
            },
        };
        p_digits_sat(s, i + 1, v)
    } else {
        (acc, i)
    }
}

/// Exponent digits, saturating at a million; more than enough to decide the
/// scaled value, since anything that large saturates or truncates anyway.
pub open spec fn spec_exp_digits(s: Seq<char>, i: int, acc: u32) -> (u32, int)
    decreases s.len() - i,
    when 0 <= i <= s.len()
{
    if i < s.len() && is_digit_char(s[i]) {
        let v = if acc * 10 + digit_val(s[i]) > 1000000 {
            1000000u32
        } else {
            (acc * 10 + digit_val(s[i])) as u32
        };
        spec_exp_digits(s, i + 1, v)
    } else {
        (acc, i)
    }
}

fn p_exp_digits(s: &Vec<char>, i: usize, acc: u32) -> (r: (u32, usize))
    requires
        i <= s@.len(),
        acc <= 1000000,
    ensures
        r.0 == spec_exp_digits(s@, i as int, acc).0,
        r.1 as int == spec_exp_digits(s@, i as int, acc).1,
        i <= r.1 <= s@.len(),
        r.0 <= 1000000,
    decreases s@.len() - i,
{
    if i < s.len() && 0x30 <= (s[i] as u32) && (s[i] as u32) <= 0x39 {
        let d: u32 = s[i] as u32 - 0x30;
        let v: u32 = if acc > 99999 || acc * 10 + d > 1000000 {
            1000000
        } else {
            acc * 10 + d
        };
        p_exp_digits(s, i + 1, v)
    } else {
        (acc, i)
    }
}

/// Powers of ten.
pub open spec fn pow10(e: nat) -> int
    decreases e,
{
    if e == 0 {
        1int
    } else {
        10 * pow10((e - 1) as nat)
    }
}

pub proof fn lemma_pow10_pos(e: nat)
    ensures
        pow10(e) >= 1,
    decreases e,
{
    if e > 0 {
        lemma_pow10_pos((e - 1) as nat);
    }
}

pub proof fn lemma_pow10_mono(a: nat, b: nat)
    requires
        a <= b,
    ensures
        pow10(a) <= pow10(b),
    decreases b,
{
    if a < b {
        lemma_pow10_mono(a, (b - 1) as nat);
        lemma_pow10_pos((b - 1) as nat);
    }
}

pub proof fn lemma_pow10_39_large()
    ensures
        pow10(39) > u128::MAX,
{
    reveal_with_fuel(pow10, 41);
    assert(pow10(39) == 1000000000000000000000000000000000000000int);
}

fn pow10_exec(e: u32) -> (r: u128)
    requires
        e <= 38,
    ensures
        r as int == pow10(e as nat),
        r >= 1,
{
    proof {
        lemma_pow10_pos(e as nat);
    }
    let mut r: u128 = 1;
    let mut j: u32 = 0;
    while j < e
        invariant
            j <= e <= 38,
            r as int == pow10(j as nat),
        decreases e - j,
    {
        proof {
            lemma_pow10_mono(j as nat + 1, 38);
            reveal_with_fuel(pow10, 40);
            assert(pow10(38) < u128::MAX) by {
                assert(pow10(0) == 1);
            };
        }
        r = r * 10;
        j = j + 1;
    }
    r
}

/// The microcent value of a parsed decimal: mantissa digits `d`, `flen`
/// fraction digits, decimal exponent `ex`. Negative clamps to zero, overflow
/// saturates, and extra precision truncates toward zero.
pub open spec fn spec_microcents(neg: bool, d: u128, flen: int, ex: int) -> u128 {
    if neg {
        0u128
    } else {
        let e = ex - flen + 8;
        if e >= 0 {
            if d * pow10(e as nat) > u128::MAX {
                u128::MAX
            } else {
                (d * pow10(e as nat)) as u128
            }
        } else {
            (d as int / pow10((0 - e) as nat)) as u128
        }
    }
}

fn microcents_of(neg: bool, d: u128, flen: usize, ex: i64) -> (r: u128)
    requires
        flen <= 0x1000000,
        -1000000 <= ex <= 1000000,
    ensures
        r == spec_microcents(neg, d, flen as int, ex as int),
{
    if neg {
        return 0;
    }
    let e: i64 = ex - (flen as i64) + 8;
    if e >= 0 {
        if d == 0 {
            proof {
                lemma_pow10_pos(e as nat);
            }
            return 0;
        }
        if e > 38 {
            proof {
                lemma_pow10_39_large();
                lemma_pow10_mono(39, e as nat);
                lemma_pow10_pos(e as nat);
                assert(d * pow10(e as nat) >= 1 * pow10(e as nat)) by (nonlinear_arith)
                    requires
                        d >= 1,
                        pow10(e as nat) >= 1,
                ;
            }
            return u128::MAX;
        }
        let p = pow10_exec(e as u32);
        match d.checked_mul(p) {
            Option::Some(v) => v,
            Option::None => u128::MAX,
        }
    } else {
        let kk: i64 = 0 - e;
        if kk > 38 {
            proof {
                lemma_pow10_39_large();
                lemma_pow10_mono(39, kk as nat);
                vstd::arithmetic::div_mod::lemma_basic_div(d as int, pow10(kk as nat));
            }
            return 0;
        }
        let p = pow10_exec(kk as u32);
        proof {
            vstd::arithmetic::div_mod::lemma_div_pos_is_pos(d as int, p as int);
            vstd::arithmetic::div_mod::lemma_div_is_ordered_by_denominator(d as int, 1, p as int);
            assert(d as int / 1 == d as int);
        }
        d / p
    }
}

/// The fraction part from `j1` (if any), extending the mantissa; yields the
/// mantissa, the end position, and the number of fraction digits.
pub open spec fn spec_frac(s: Seq<char>, j1: int, d0: u128) -> Option<(u128, int, int)>
    recommends
        0 <= j1 <= s.len(),
{
    if j1 < s.len() && s[j1] == '.' {
        if j1 + 1 < s.len() && is_digit_char(s[j1 + 1]) {
            let fp = spec_digits_sat(s, j1 + 1, d0);
            Option::Some((fp.0, fp.1, fp.1 - (j1 + 1)))
        } else {
            Option::None
        }
    } else {
        Option::Some((d0, j1, 0))
    }
}

fn p_frac(s: &Vec<char>, j1: usize, d0: u128) -> (r: Option<(u128, usize, usize)>)
    requires
        j1 <= s@.len(),
    ensures
        (match r {
            Option::None => spec_frac(s@, j1 as int, d0) is None,
            Option::Some(p) => spec_frac(s@, j1 as int, d0) matches Option::Some(q) && p.0 == q.0
                && p.1 as int == q.1 && p.2 as int == q.2 && j1 <= p.1 <= s@.len() && p.2 <= p.1,
        }),
{
    if j1 < s.len() && s[j1] == '.' {
        if j1 + 1 < s.len() && 0x30 <= (s[j1 + 1] as u32) && (s[j1 + 1] as u32) <= 0x39 {
            let fp = p_digits_sat(s, j1 + 1, d0);
            Option::Some((fp.0, fp.1, fp.1 - (j1 + 1)))
        } else {
            Option::None
        }
    } else {
        Option::Some((d0, j1, 0))
    }
}

/// The exponent part from `j2` (if any): its signed value and end position.
pub open spec fn spec_expo(s: Seq<char>, j2: int) -> Option<(int, int)>
    recommends
        0 <= j2 <= s.len(),
{
    if j2 < s.len() && (s[j2] == 'e' || s[j2] == 'E') {
        let k0 = j2 + 1;
        let eneg = k0 < s.len() && s[k0] == '-';
        let k1 = if k0 < s.len() && (s[k0] == '-' || s[k0] == '+') {
            k0 + 1
        } else {
            k0
        };
        if k1 < s.len() && is_digit_char(s[k1]) {
            let ep = spec_exp_digits(s, k1, 0);
            Option::Some(((if eneg { 0 - ep.0 } else { ep.0 as int }), ep.1))
        } else {
            Option::None
        }
    } else {
        Option::Some((0, j2))
    }
}

fn p_expo(s: &Vec<char>, j2: usize) -> (r: Option<(i64, usize)>)
    requires
        j2 <= s@.len(),
    ensures
        (match r {
            Option::None => spec_expo(s@, j2 as int) is None,
            Option::Some(p) => spec_expo(s@, j2 as int) matches Option::Some(q)
                && p.0 as int == q.0 && p.1 as int == q.1 && j2 <= p.1 <= s@.len()
                && -1000000 <= p.0 <= 1000000,
        }),
{
    if j2 < s.len() && (s[j2] == 'e' || s[j2] == 'E') {
        let k0 = j2 + 1;
        let eneg = k0 < s.len() && s[k0] == '-';
        let k1 = if k0 < s.len() && (s[k0] == '-' || s[k0] == '+') {
            k0 + 1
        } else {
            k0
        };
        if k1 < s.len() && 0x30 <= (s[k1] as u32) && (s[k1] as u32) <= 0x39 {
            let ep = p_exp_digits(s, k1, 0);
            let sv: i64 = if eneg {
                0 - (ep.0 as i64)
            } else {
                ep.0 as i64
            };
            Option::Some((sv, ep.1))
        } else {
            Option::None
        }
    } else {
        Option::Some((0, j2))
    }
}

/// A full JSON number at `i`, read into microcents.
pub open spec fn spec_number(s: Seq<char>, i: int) -> Option<(u128, int)>
    recommends
        0 <= i <= s.len(),
{
    if !(0 <= i && i < s.len()) {
        Option::None
    } else {
        let neg = s[i] == '-';
        let j = if neg {
            i + 1
        } else {
            i
        };
        if !(j < s.len() && is_digit_char(s[j])) {
            Option::None
        } else {
            let ip = if s[j] == '0' {
                (0u128, j + 1)
            } else {
                spec_digits_sat(s, j, 0)
            };
            if ip.1 < s.len() && is_digit_char(s[ip.1]) {
                Option::None
            } else {
                match spec_frac(s, ip.1, ip.0) {
                    Option::None => Option::None,
                    Option::Some(fr) => match spec_expo(s, fr.1) {
                        Option::None => Option::None,
                        Option::Some(ex) => Option::Some(
                            (spec_microcents(neg, fr.0, fr.2, ex.0), ex.1),
                        ),
                    },
                }
            }
        }
    }
}

fn p_number(s: &Vec<char>, i: usize) -> (r: Option<(u128, usize)>)
    requires
        i <= s@.len(),
        s@.len() <= MAX_LINE_CHARS,
    ensures
        (match r {
            Option::None => spec_number(s@, i as int) is None,
            Option::Some(p) => spec_number(s@, i as int) matches Option::Some(q) && p.0 == q.0
                && p.1 as int == q.1 && i <= p.1 <= s@.len(),
        }),
{
    if !(i < s.len()) {
        return Option::None;
    }
    let neg = s[i] == '-';
    let j = if neg {
        i + 1
    } else {
        i
    };
    if !(j < s.len() && 0x30 <= (s[j] as u32) && (s[j] as u32) <= 0x39) {
        return Option::None;
    }
    let ip: (u128, usize) = if s[j] == '0' {
        (0u128, j + 1)
    } else {
        p_digits_sat(s, j, 0)
    };
    if ip.1 < s.len() && 0x30 <= (s[ip.1] as u32) && (s[ip.1] as u32) <= 0x39 {
        return Option::None;
    }
    let fr = match p_frac(s, ip.1, ip.0) {
        Option::None => {
            return Option::None;
        },
        Option::Some(x) => x,
    };
    let ex = match p_expo(s, fr.1) {
        Option::None => {
            return Option::None;
        },
        Option::Some(x) => x,
    };
    Option::Some((microcents_of(neg, fr.0, fr.2, ex.0), ex.1))
}

/// The literal word `w` at `i`.
pub open spec fn spec_lit(s: Seq<char>, i: int, w: Seq<char>) -> Option<int> {
    if 0 <= i && i + w.len() <= s.len() && s.subrange(i, i + w.len() as int) == w {
        Option::Some(i + w.len() as int)
    } else {
        Option::None
    }
}

fn p_lit(s: &Vec<char>, i: usize, w: &str) -> (r: Option<usize>)
    requires
        i <= s@.len(),
    ensures
        (match r {
            Option::None => spec_lit(s@, i as int, w@) is None,
            Option::Some(j) => spec_lit(s@, i as int, w@) == Option::Some(j as int)
                && i <= j <= s@.len(),
        }),
{
    let m = w.unicode_len();
    if s.len() - i < m {
        return Option::None;
    }
    let mut j: usize = 0;
    while j < m
        invariant
            m == w@.len(),
            i + m <= s@.len(),
            i + m <= usize::MAX,
            j <= m,
            forall|t: int| 0 <= t < j ==> s@[i + t] == w@[t],
        decreases m - j,
    {
        if s[i + j] != w.get_char(j) {
            proof {
                assert(s@.subrange(i as int, i as int + w@.len() as int)[j as int] == s@[i + j]);
            }
            return Option::None;
        }
        j = j + 1;
    }
    proof {
        assert(s@.subrange(i as int, i as int + w@.len() as int) =~= w@);
    }
    Option::Some(i + m)
}

/// Skips any JSON value starting at `i` (already past whitespace), within
/// the given nesting allowance. The fuel only bounds recursion; it is chosen
/// so large by the callers that it never runs out on a line the grammar
/// accepts.
pub open spec fn spec_sk_value(s: Seq<char>, i: int, depth: u32, fuel: nat) -> Option<int>
    decreases fuel,
{
    if fuel == 0 {
        Option::None
    } else if !(0 <= i && i < s.len()) {
        Option::None
    } else {
        let c = s[i];
        if c == '"' {
            match spec_string(s, i) {
                Option::None => Option::None,
                Option::Some(p) => Option::Some(p.1),
            }
        } else if c == '{' {
            if depth == 0 {
                Option::None
            } else {
                spec_sk_obj(s, spec_skip_ws(s, i + 1), (depth - 1) as u32, true, (fuel - 1) as nat)
            }
        } else if c == '[' {
            if depth == 0 {
                Option::None
            } else {
                spec_sk_arr(s, spec_skip_ws(s, i + 1), (depth - 1) as u32, true, (fuel - 1) as nat)
            }
        } else if c == 't' {
            spec_lit(s, i, "true"@)
        } else if c == 'f' {
            spec_lit(s, i, "false"@)
        } else if c == 'n' {
            spec_lit(s, i, "null"@)
        } else if c == '-' || is_digit_char(c) {
            match spec_number(s, i) {
                Option::None => Option::None,
                Option::Some(p) => Option::Some(p.1),
            }
        } else {
            Option::None
        }
    }
}

/// Skips the members of an object, from past the opening brace (whitespace
/// already skipped), to past the closing brace.
pub open spec fn spec_sk_obj(s: Seq<char>, i: int, depth: u32, first: bool, fuel: nat) -> Option<
    int,
>
    decreases fuel,
{
    if fuel == 0 {
        Option::None
    } else if !(0 <= i && i < s.len()) {
        Option::None
    } else if s[i] == '}' {
        Option::Some(i + 1)
    } else if !first && s[i] != ',' {
        Option::None
    } else {
        let ms = if first {
            i
        } else {
            spec_skip_ws(s, i + 1)
        };
        match spec_string(s, ms) {
            Option::None => Option::None,
            Option::Some(k) => {
                let c1 = spec_skip_ws(s, k.1);
                if c1 < s.len() && s[c1] == ':' {
                    let vs = spec_skip_ws(s, c1 + 1);
                    match spec_sk_value(s, vs, depth, (fuel - 1) as nat) {
                        Option::None => Option::None,
                        Option::Some(ve) => spec_sk_obj(
                            s,
                            spec_skip_ws(s, ve),
                            depth,
                            false,
                            (fuel - 1) as nat,
                        ),
                    }
                } else {
                    Option::None
                }
            },
        }
    }
}

/// Skips the elements of an array, from past the opening bracket (whitespace
/// already skipped), to past the closing bracket.
pub open spec fn spec_sk_arr(s: Seq<char>, i: int, depth: u32, first: bool, fuel: nat) -> Option<
    int,
>
    decreases fuel,
{
    if fuel == 0 {
        Option::None
    } else if !(0 <= i && i < s.len()) {
        Option::None
    } else if s[i] == ']' {
        Option::Some(i + 1)
    } else if !first && s[i] != ',' {
        Option::None
    } else {
        let es = if first {
            i
        } else {
            spec_skip_ws(s, i + 1)
        };
        match spec_sk_value(s, es, depth, (fuel - 1) as nat) {
            Option::None => Option::None,
            Option::Some(ve) => spec_sk_arr(s, spec_skip_ws(s, ve), depth, false, (fuel - 1) as nat),
        }
    }
}

fn p_sk_value(s: &Vec<char>, i: usize, depth: u32, fuel: u64) -> (r: Option<usize>)
    requires
        i <= s@.len(),
        s@.len() <= MAX_LINE_CHARS,
    ensures
        (match r {
            Option::None => spec_sk_value(s@, i as int, depth, fuel as nat) is None,
            Option::Some(j) => spec_sk_value(s@, i as int, depth, fuel as nat) == Option::Some(
                j as int,
            ) && j <= s@.len(),
        }),
    decreases fuel,
{
    if fuel == 0 {
        return Option::None;
    }
    if !(i < s.len()) {
        return Option::None;
    }
    let c = s[i];
    if c == '"' {
        match p_string(s, i) {
            Option::None => Option::None,
            Option::Some(p) => Option::Some(p.1),
        }
    } else if c == '{' {
        if depth == 0 {
            Option::None
        } else {
            p_sk_obj(s, skip_ws(s, i + 1), depth - 1, true, fuel - 1)
        }
    } else if c == '[' {
        if depth == 0 {
            Option::None
        } else {
            p_sk_arr(s, skip_ws(s, i + 1), depth - 1, true, fuel - 1)
        }
    } else if c == 't' {
        p_lit(s, i, "true")
    } else if c == 'f' {
        p_lit(s, i, "false")
    } else if c == 'n' {
        p_lit(s, i, "null")
    } else if c == '-' || 0x30 <= (c as u32) && (c as u32) <= 0x39 {
        match p_number(s, i) {
            Option::None => Option::None,
            Option::Some(p) => Option::Some(p.1),
        }
    } else {
        Option::None
    }
}

fn p_sk_obj(s: &Vec<char>, i: usize, depth: u32, first: bool, fuel: u64) -> (r: Option<usize>)
    requires
        i <= s@.len(),
        s@.len() <= MAX_LINE_CHARS,
    ensures
        (match r {
            Option::None => spec_sk_obj(s@, i as int, depth, first, fuel as nat) is None,
            Option::Some(j) => spec_sk_obj(s@, i as int, depth, first, fuel as nat)
                == Option::Some(j as int) && j <= s@.len(),
        }),
    decreases fuel,
{
    if fuel == 0 {
        return Option::None;
    }
    if !(i < s.len()) {
        return Option::None;
    }
    if s[i] == '}' {
        return Option::Some(i + 1);
    }
    if !first && s[i] != ',' {
        return Option::None;
    }
    let ms = if first {
        i
    } else {
        skip_ws(s, i + 1)
    };
    match p_string(s, ms) {
        Option::None => Option::None,
        Option::Some(k) => {
            let c1 = skip_ws(s, k.1);
            if c1 < s.len() && s[c1] == ':' {
                let vs = skip_ws(s, c1 + 1);
                match p_sk_value(s, vs, depth, fuel - 1) {
                    Option::None => Option::None,
                    Option::Some(ve) => p_sk_obj(s, skip_ws(s, ve), depth, false, fuel - 1),
                }
            } else {
                Option::None
            }
        },
    }
}

fn p_sk_arr(s: &Vec<char>, i: usize, depth: u32, first: bool, fuel: u64) -> (r: Option<usize>)
    requires
        i <= s@.len(),
        s@.len() <= MAX_LINE_CHARS,
    ensures
        (match r {
            Option::None => spec_sk_arr(s@, i as int, depth, first, fuel as nat) is None,
            Option::Some(j) => spec_sk_arr(s@, i as int, depth, first, fuel as nat)
                == Option::Some(j as int) && j <= s@.len(),
        }),
    decreases fuel,
{
    if fuel == 0 {
        return Option::None;
    }
    if !(i < s.len()) {
        return Option::None;
    }
    if s[i] == ']' {
        return Option::Some(i + 1);
    }
    if !first && s[i] != ',' {
        return Option::None;
    }
    let es = if first {
        i
    } else {
        skip_ws(s, i + 1)
    };
    match p_sk_value(s, es, depth, fuel - 1) {
        Option::None => Option::None,
        Option::Some(ve) => p_sk_arr(s, skip_ws(s, ve), depth, false, fuel - 1),
    }
}

pub open spec fn flat_opt<T>(x: Option<Option<T>>) -> Option<T> {
    match x {
        Option::None => Option::None,
        Option::Some(y) => y,
    }
}

pub open spec fn or_zero(x: Option<u64>) -> u64 {
    match x {
        Option::None => 0u64,
        Option::Some(v) => v,
    }
}

pub open spec fn v_ocs(x: Option<Vec<char>>) -> Option<Seq<char>> {
    match x {
        Option::None => Option::None,
        Option::Some(v) => Option::Some(v@),
    }
}

pub open spec fn v_oos(x: Option<Option<String>>) -> Option<Option<Seq<char>>> {
    match x {
        Option::None => Option::None,
        Option::Some(y) => Option::Some(crate::types::view_opt_string(y)),
    }
}

pub open spec fn v_om(x: Option<Message>) -> Option<MessageModel> {
    match x {
        Option::None => Option::None,
        Option::Some(m) => Option::Some(m@),
    }
}

/// A string literal or the word `null` at `i`.
pub open spec fn spec_string_or_null(s: Seq<char>, i: int) -> Option<(Option<Seq<char>>, int)>
    recommends
        0 <= i <= s.len(),
{
    if 0 <= i && i < s.len() && s[i] == '"' {
        match spec_string(s, i) {
            Option::None => Option::None,
            Option::Some(p) => Option::Some((Option::Some(p.0), p.1)),
        }
    } else {
        match spec_lit(s, i, "null"@) {
            Option::None => Option::None,
            Option::Some(j) => Option::Some((Option::None, j)),
        }
    }
}

fn p_string_or_null(s: &Vec<char>, i: usize) -> (r: Option<(Option<Vec<char>>, usize)>)
    requires
        i <= s@.len(),
    ensures
        (match r {
            Option::None => spec_string_or_null(s@, i as int) is None,
            Option::Some(p) => spec_string_or_null(s@, i as int) matches Option::Some(q)
                && v_ocs(p.0) == q.0 && p.1 as int == q.1 && p.1 <= s@.len(),
        }),
{
    if i < s.len() && s[i] == '"' {
        match p_string(s, i) {
            Option::None => Option::None,
            Option::Some(p) => Option::Some((Option::Some(p.0), p.1)),
        }
    } else {
        match p_lit(s, i, "null") {
            Option::None => Option::None,
            Option::Some(j) => Option::Some((Option::None, j)),
        }
    }
}

/// A token-count integer or the word `null` at `i`.
pub open spec fn spec_u64_or_null(s: Seq<char>, i: int) -> Option<(Option<u64>, int)>
    recommends
        0 <= i <= s.len(),
{
    if 0 <= i && i < s.len() && s[i] == 'n' {
        match spec_lit(s, i, "null"@) {
            Option::None => Option::None,
            Option::Some(j) => Option::Some((Option::None, j)),
        }
    } else {
        match spec_u64_value(s, i) {
            Option::None => Option::None,
            Option::Some(p) => Option::Some((Option::Some(p.0), p.1)),
        }
    }
}

fn p_u64_or_null(s: &Vec<char>, i: usize) -> (r: Option<(Option<u64>, usize)>)
    requires
        i <= s@.len(),
    ensures
        (match r {
            Option::None => spec_u64_or_null(s@, i as int) is None,
            Option::Some(p) => spec_u64_or_null(s@, i as int) matches Option::Some(q)
                && p.0 == q.0 && p.1 as int == q.1 && p.1 <= s@.len(),
        }),
{
    if i < s.len() && s[i] == 'n' {
        match p_lit(s, i, "null") {
            Option::None => Option::None,
            Option::Some(j) => Option::Some((Option::None, j)),
        }
    } else {
        match p_u64_value(s, i) {
            Option::None => Option::None,
            Option::Some(p) => Option::Some((Option::Some(p.0), p.1)),
        }
    }
}

/// A cost number or the word `null` at `i`.
pub open spec fn spec_cost_or_null(s: Seq<char>, i: int) -> Option<(Option<u128>, int)>
    recommends
        0 <= i <= s.len(),
{
    if 0 <= i && i < s.len() && s[i] == 'n' {
        match spec_lit(s, i, "null"@) {
            Option::None => Option::None,
            Option::Some(j) => Option::Some((Option::None, j)),
        }
    } else {
        match spec_number(s, i) {
            Option::None => Option::None,
            Option::Some(p) => Option::Some((Option::Some(p.0), p.1)),
        }
    }
}

fn p_cost_or_null(s: &Vec<char>, i: usize) -> (r: Option<(Option<u128>, usize)>)
    requires
        i <= s@.len(),
        s@.len() <= MAX_LINE_CHARS,
    ensures
        (match r {
            Option::None => spec_cost_or_null(s@, i as int) is None,
            Option::Some(p) => spec_cost_or_null(s@, i as int) matches Option::Some(q)
                && p.0 == q.0 && p.1 as int == q.1 && p.1 <= s@.len(),
        }),
{
    if i < s.len() && s[i] == 'n' {
        match p_lit(s, i, "null") {
            Option::None => Option::None,
            Option::Some(j) => Option::Some((Option::None, j)),
        }
    } else {
        match p_number(s, i) {
            Option::None => Option::None,
            Option::Some(p) => Option::Some((Option::Some(p.0), p.1)),
        }
    }
}

/// The members of a `usage` object: the four token fields are read, anything
/// else is skipped, a duplicate known field is an error, and missing fields
/// default (counts to zero, cache fields to absent).
pub open spec fn spec_usage_obj(
    s: Seq<char>,
    i: int,
    depth: u32,
    first: bool,
    fuel: nat,
    fin: Option<u64>,
    fout: Option<u64>,
    fcc: Option<Option<u64>>,
    fcr: Option<Option<u64>>,
) -> Option<(TokenUsage, int)>
    decreases fuel,
{
    if fuel == 0 {
        Option::None
    } else if !(0 <= i && i < s.len()) {
        Option::None
    } else if s[i] == '}' {
        Option::Some(
            (
                TokenUsage {
                    input_tokens: or_zero(fin),
                    output_tokens: or_zero(fout),
                    cache_creation_input_tokens: flat_opt(fcc),
                    cache_read_input_tokens: flat_opt(fcr),
                },
                i + 1,
            ),
        )
    } else if !first && s[i] != ',' {
        Option::None
    } else {
        let ms = if first {
            i
        } else {
            spec_skip_ws(s, i + 1)
        };
        match spec_string(s, ms) {
            Option::None => Option::None,
            Option::Some(k) => {
                let c1 = spec_skip_ws(s, k.1);
                if c1 < s.len() && s[c1] == ':' {
                    let vs = spec_skip_ws(s, c1 + 1);
                    if k.0 == "input_tokens"@ {
                        if fin is Some {
                            Option::None
                        } else {
                            match spec_u64_value(s, vs) {
                                Option::None => Option::None,
                                Option::Some(p) => spec_usage_obj(
                                    s,
                                    spec_skip_ws(s, p.1),
                                    depth,
                                    false,
                                    (fuel - 1) as nat,
                                    Option::Some(p.0),
                                    fout,
                                    fcc,
                                    fcr,
                                ),
                            }
                        }
                    } else if k.0 == "output_tokens"@ {
                        if fout is Some {
                            Option::None
                        } else {
                            match spec_u64_value(s, vs) {
                                Option::None => Option::None,
                                Option::Some(p) => spec_usage_obj(
                                    s,
                                    spec_skip_ws(s, p.1),
                                    depth,
                                    false,
                                    (fuel - 1) as nat,
                                    fin,
                                    Option::Some(p.0),
                                    fcc,
                                    fcr,
                                ),
                            }
                        }
                    } else if k.0 == "cache_creation_input_tokens"@ {
                        if fcc is Some {
                            Option::None
                        } else {
                            match spec_u64_or_null(s, vs) {
                                Option::None => Option::None,
                                Option::Some(p) => spec_usage_obj(
                                    s,
                                    spec_skip_ws(s, p.1),
                                    depth,
                                    false,
                                    (fuel - 1) as nat,
                                    fin,
                                    fout,
                                    Option::Some(p.0),
                                    fcr,
                                ),
                            }
                        }
                    } else if k.0 == "cache_read_input_tokens"@ {
                        if fcr is Some {
                            Option::None
                        } else {
                            match spec_u64_or_null(s, vs) {
                                Option::None => Option::None,
                                Option::Some(p) => spec_usage_obj(
                                    s,
                                    spec_skip_ws(s, p.1),
                                    depth,
                                    false,
                                    (fuel - 1) as nat,
                                    fin,
                                    fout,
                                    fcc,
                                    Option::Some(p.0),
                                ),
                            }
                        }
                    } else {
                        match spec_sk_value(s, vs, depth, (fuel - 1) as nat) {
                            Option::None => Option::None,
                            Option::Some(ve) => spec_usage_obj(
                                s,
                                spec_skip_ws(s, ve),
                                depth,
                                false,
                                (fuel - 1) as nat,
                                fin,
                                fout,
                                fcc,
                                fcr,
                            ),
                        }
                    }
                } else {
                    Option::None
                }
            },
        }
    }
}

fn p_usage_obj(
    s: &Vec<char>,
    i: usize,
    depth: u32,
    first: bool,
    fuel: u64,
    fin: Option<u64>,
    fout: Option<u64>,
    fcc: Option<Option<u64>>,
    fcr: Option<Option<u64>>,
) -> (r: Option<(TokenUsage, usize)>)
    requires
        i <= s@.len(),
        s@.len() <= MAX_LINE_CHARS,
    ensures
        (match r {
            Option::None => spec_usage_obj(s@, i as int, depth, first, fuel as nat, fin, fout,
                fcc, fcr) is None,
            Option::Some(p) => spec_usage_obj(s@, i as int, depth, first, fuel as nat, fin, fout,
                fcc, fcr) matches Option::Some(q) && p.0 == q.0 && p.1 as int == q.1
                && p.1 <= s@.len(),
        }),
    decreases fuel,
{
    if fuel == 0 {
        return Option::None;
    }
    if !(i < s.len()) {
        return Option::None;
    }
    if s[i] == '}' {
        let tu = TokenUsage {
            input_tokens: match fin {
                Option::None => 0,
                Option::Some(v) => v,
            },
            output_tokens: match fout {
                Option::None => 0,
                Option::Some(v) => v,
            },
            cache_creation_input_tokens: match fcc {
                Option::None => Option::None,
                Option::Some(y) => y,
            },
            cache_read_input_tokens: match fcr {
                Option::None => Option::None,
                Option::Some(y) => y,
            },
        };
        return Option::Some((tu, i + 1));
    }
    if !first && s[i] != ',' {
        return Option::None;
    }
    let ms = if first {
        i
    } else {
        skip_ws(s, i + 1)
    };
    match p_string(s, ms) {
        Option::None => Option::None,
        Option::Some(k) => {
            let c1 = skip_ws(s, k.1);
            if c1 < s.len() && s[c1] == ':' {
                let vs = skip_ws(s, c1 + 1);
                if crate::text::chars_eq_str(&k.0, "input_tokens") {
                    if fin.is_some() {
                        Option::None
                    } else {
                        match p_u64_value(s, vs) {
                            Option::None => Option::None,
                            Option::Some(p) => p_usage_obj(
                                s,
                                skip_ws(s, p.1),
                                depth,
                                false,
                                fuel - 1,
                                Option::Some(p.0),
                                fout,
                                fcc,
                                fcr,
                            ),
                        }
                    }
                } else if crate::text::chars_eq_str(&k.0, "output_tokens") {
                    if fout.is_some() {
                        Option::None
                    } else {
                        match p_u64_value(s, vs) {
                            Option::None => Option::None,
                            Option::Some(p) => p_usage_obj(
                                s,
                                skip_ws(s, p.1),
                                depth,
                                false,
                                fuel - 1,
                                fin,
                                Option::Some(p.0),
                                fcc,
                                fcr,
                            ),
                        }
                    }
                } else if crate::text::chars_eq_str(&k.0, "cache_creation_input_tokens") {
                    if fcc.is_some() {
                        Option::None
                    } else {
                        match p_u64_or_null(s, vs) {
                            Option::None => Option::None,
                            Option::Some(p) => p_usage_obj(
                                s,
                                skip_ws(s, p.1),
                                depth,
                                false,
                                fuel - 1,
                                fin,
                                fout,
                                Option::Some(p.0),
                                fcr,
                            ),
                        }
                    }
                } else if crate::text::chars_eq_str(&k.0, "cache_read_input_tokens") {
                    if fcr.is_some() {
                        Option::None
                    } else {
                        match p_u64_or_null(s, vs) {
                            Option::None => Option::None,
                            Option::Some(p) => p_usage_obj(
                                s,
                                skip_ws(s, p.1),
                                depth,
                                false,
                                fuel - 1,
                                fin,
                                fout,
                                fcc,
                                Option::Some(p.0),
                            ),
                        }
                    }
                } else {
                    match p_sk_value(s, vs, depth, fuel - 1) {
                        Option::None => Option::None,
                        Option::Some(ve) => p_usage_obj(
                            s,
                            skip_ws(s, ve),
                            depth,
                            false,
                            fuel - 1,
                            fin,
                            fout,
                            fcc,
                            fcr,
                        ),
                    }
                }
            } else {
                Option::None
            }
        },
    }
}

/// The members of a `message` object: `role` and `model` are strings or
/// null, `usage` is an object or null, anything else is skipped.
pub open spec fn spec_message_obj(
    s: Seq<char>,
    i: int,
    depth: u32,
    first: bool,
    fuel: nat,
    frole: Option<Option<Seq<char>>>,
    fmodel: Option<Option<Seq<char>>>,
    fusage: Option<Option<TokenUsage>>,
) -> Option<(MessageModel, int)>
    decreases fuel,
{
    if fuel == 0 {
        Option::None
    } else if !(0 <= i && i < s.len()) {
        Option::None
    } else if s[i] == '}' {
        Option::Some(
            (
                MessageModel {
                    role: flat_opt(frole),
                    model: flat_opt(fmodel),
                    usage: flat_opt(fusage),
                },
                i + 1,
            ),
        )
    } else if !first && s[i] != ',' {
        Option::None
    } else {
        let ms = if first {
            i
        } else {
            spec_skip_ws(s, i + 1)
        };
        match spec_string(s, ms) {
            Option::None => Option::None,
            Option::Some(k) => {
                let c1 = spec_skip_ws(s, k.1);
                if c1 < s.len() && s[c1] == ':' {
                    let vs = spec_skip_ws(s, c1 + 1);
                    if k.0 == "role"@ {
                        if frole is Some {
                            Option::None
                        } else {
                            match spec_string_or_null(s, vs) {
                                Option::None => Option::None,
                                Option::Some(p) => spec_message_obj(
                                    s,
                                    spec_skip_ws(s, p.1),
                                    depth,
                                    false,
                                    (fuel - 1) as nat,
                                    Option::Some(p.0),
                                    fmodel,
                                    fusage,
                                ),
                            }
                        }
                    } else if k.0 == "model"@ {
                        if fmodel is Some {
                            Option::None
                        } else {
                            match spec_string_or_null(s, vs) {
                                Option::None => Option::None,
                                Option::Some(p) => spec_message_obj(
                                    s,
                                    spec_skip_ws(s, p.1),
                                    depth,
                                    false,
                                    (fuel - 1) as nat,
                                    frole,
                                    Option::Some(p.0),
                                    fusage,
                                ),
                            }
                        }
                    } else if k.0 == "usage"@ {
                        if fusage is Some {
                            Option::None
                        } else if vs < s.len() && s[vs] == 'n' {
                            match spec_lit(s, vs, "null"@) {
                                Option::None => Option::None,
                                Option::Some(j) => spec_message_obj(
                                    s,
                                    spec_skip_ws(s, j),
                                    depth,
                                    false,
                                    (fuel - 1) as nat,
                                    frole,
                                    fmodel,
                                    Option::Some(Option::None),
                                ),
                            }
                        } else if vs < s.len() && s[vs] == '{' && depth > 0 {
                            match spec_usage_obj(
                                s,
                                spec_skip_ws(s, vs + 1),
                                (depth - 1) as u32,
                                true,
                                (fuel - 1) as nat,
                                Option::None,
                                Option::None,
                                Option::None,
                                Option::None,
                            ) {
                                Option::None => Option::None,
                                Option::Some(p) => spec_message_obj(
                                    s,
                                    spec_skip_ws(s, p.1),
                                    depth,
                                    false,
                                    (fuel - 1) as nat,
                                    frole,
                                    fmodel,
                                    Option::Some(Option::Some(p.0)),
                                ),
                            }
                        } else {
                            Option::None
                        }
                    } else {
                        match spec_sk_value(s, vs, depth, (fuel - 1) as nat) {
                            Option::None => Option::None,
                            Option::Some(ve) => spec_message_obj(
                                s,
                                spec_skip_ws(s, ve),
                                depth,
                                false,
                                (fuel - 1) as nat,
                                frole,
                                fmodel,
                                fusage,
                            ),
                        }
                    }
                } else {
                    Option::None
                }
            },
        }
    }
}

fn p_message_obj(
    s: &Vec<char>,
    i: usize,
    depth: u32,
    first: bool,
    fuel: u64,
    frole: Option<Option<String>>,
    fmodel: Option<Option<String>>,
    fusage: Option<Option<TokenUsage>>,
) -> (r: Option<(Message, usize)>)
    requires
        i <= s@.len(),
        s@.len() <= MAX_LINE_CHARS,
    ensures
        (match r {
            Option::None => spec_message_obj(s@, i as int, depth, first, fuel as nat,
                v_oos(frole), v_oos(fmodel), fusage) is None,
            Option::Some(p) => spec_message_obj(s@, i as int, depth, first, fuel as nat,
                v_oos(frole), v_oos(fmodel), fusage) matches Option::Some(q) && p.0@ == q.0
                && p.1 as int == q.1 && p.1 <= s@.len(),
        }),
    decreases fuel,
{
    if fuel == 0 {
        return Option::None;
    }
    if !(i < s.len()) {
        return Option::None;
    }
    if s[i] == '}' {
        let msg = Message {
            role: match frole {
                Option::None => Option::None,
                Option::Some(y) => y,
            },
            model: match fmodel {
                Option::None => Option::None,
                Option::Some(y) => y,
            },
            usage: match fusage {
                Option::None => Option::None,
                Option::Some(y) => y,
            },
        };
        return Option::Some((msg, i + 1));
    }
    if !first && s[i] != ',' {
        return Option::None;
    }
    let ms = if first {
        i
    } else {
        skip_ws(s, i + 1)
    };
    match p_string(s, ms) {
        Option::None => Option::None,
        Option::Some(k) => {
            let c1 = skip_ws(s, k.1);
            if c1 < s.len() && s[c1] == ':' {
                let vs = skip_ws(s, c1 + 1);
                if crate::text::chars_eq_str(&k.0, "role") {
                    if frole.is_some() {
                        Option::None
                    } else {
                        match p_string_or_null(s, vs) {
                            Option::None => Option::None,
                            Option::Some(p) => {
                                let sv: Option<String> = match p.0 {
                                    Option::None => Option::None,
                                    Option::Some(v) => Option::Some(
                                        crate::text::chars_to_string(&v),
                                    ),
                                };
                                p_message_obj(
                                    s,
                                    skip_ws(s, p.1),
                                    depth,
                                    false,
                                    fuel - 1,
                                    Option::Some(sv),
                                    fmodel,
                                    fusage,
                                )
                            },
                        }
                    }
                } else if crate::text::chars_eq_str(&k.0, "model") {
                    if fmodel.is_some() {
                        Option::None
                    } else {
                        match p_string_or_null(s, vs) {
                            Option::None => Option::None,
                            Option::Some(p) => {
                                let sv: Option<String> = match p.0 {
                                    Option::None => Option::None,
                                    Option::Some(v) => Option::Some(
                                        crate::text::chars_to_string(&v),
                                    ),
                                };
                                p_message_obj(
                                    s,
                                    skip_ws(s, p.1),
                                    depth,
                                    false,
                                    fuel - 1,
                                    frole,
                                    Option::Some(sv),
                                    fusage,
                                )
                            },
                        }
                    }
                } else if crate::text::chars_eq_str(&k.0, "usage") {
                    if fusage.is_some() {
                        Option::None
                    } else if vs < s.len() && s[vs] == 'n' {
                        match p_lit(s, vs, "null") {
                            Option::None => Option::None,
                            Option::Some(j) => p_message_obj(
                                s,
                                skip_ws(s, j),
                                depth,
                                false,
                                fuel - 1,
                                frole,
                                fmodel,
                                Option::Some(Option::None),
                            ),
                        }
                    } else if vs < s.len() && s[vs] == '{' && depth > 0 {
                        match p_usage_obj(
                            s,
                            skip_ws(s, vs + 1),
                            depth - 1,
                            true,
                            fuel - 1,
                            Option::None,
                            Option::None,
                            Option::None,
                            Option::None,
                        ) {
                            Option::None => Option::None,
                            Option::Some(p) => p_message_obj(
                                s,
                                skip_ws(s, p.1),
                                depth,
                                false,
                                fuel - 1,
                                frole,
                                fmodel,
                                Option::Some(Option::Some(p.0)),
                            ),
                        }
                    } else {
                        Option::None
                    }
                } else {
                    match p_sk_value(s, vs, depth, fuel - 1) {
                        Option::None => Option::None,
                        Option::Some(ve) => p_message_obj(
                            s,
                            skip_ws(s, ve),
                            depth,
                            false,
                            fuel - 1,
                            frole,
                            fmodel,
                            fusage,
                        ),
                    }
                }
            } else {
                Option::None
            }
        },
    }
}

/// The members of the record object itself: `timestamp` (string, required),
/// `sessionId` and `cwd` (string or null), `message` (object, required),
/// `costUSD` (number or null); anything else is skipped.
pub open spec fn spec_top_obj(
    s: Seq<char>,
    i: int,
    depth: u32,
    first: bool,
    fuel: nat,
    fts: Option<Seq<char>>,
    fsid: Option<Option<Seq<char>>>,
    fcwd: Option<Option<Seq<char>>>,
    fmsg: Option<MessageModel>,
    fcost: Option<Option<u128>>,
) -> Option<(LogEntryModel, int)>
    decreases fuel,
{
    if fuel == 0 {
        Option::None
    } else if !(0 <= i && i < s.len()) {
        Option::None
    } else if s[i] == '}' {
        if fts is Some && fmsg is Some {
            Option::Some(
                (
                    LogEntryModel {
                        timestamp: fts->0,
                        session_id: flat_opt(fsid),
                        cwd: flat_opt(fcwd),
                        message: fmsg->0,
                        cost_microcents: flat_opt(fcost),
                    },
                    i + 1,
                ),
            )
        } else {
            Option::None
        }
    } else if !first && s[i] != ',' {
        Option::None
    } else {
        let ms = if first {
            i
        } else {
            spec_skip_ws(s, i + 1)
        };
        match spec_string(s, ms) {
            Option::None => Option::None,
            Option::Some(k) => {
                let c1 = spec_skip_ws(s, k.1);
                if c1 < s.len() && s[c1] == ':' {
                    let vs = spec_skip_ws(s, c1 + 1);
                    if k.0 == "timestamp"@ {
                        if fts is Some {
                            Option::None
                        } else {
                            match spec_string(s, vs) {
                                Option::None => Option::None,
                                Option::Some(p) => spec_top_obj(
                                    s,
                                    spec_skip_ws(s, p.1),
                                    depth,
                                    false,
                                    (fuel - 1) as nat,
                                    Option::Some(p.0),
                                    fsid,
                                    fcwd,
                                    fmsg,
                                    fcost,
                                ),
                            }
                        }
                    } else if k.0 == "sessionId"@ {
                        if fsid is Some {
                            Option::None
                        } else {
                            match spec_string_or_null(s, vs) {
                                Option::None => Option::None,
                                Option::Some(p) => spec_top_obj(
                                    s,
                                    spec_skip_ws(s, p.1),
                                    depth,
                                    false,
                                    (fuel - 1) as nat,
                                    fts,
                                    Option::Some(p.0),
                                    fcwd,
                                    fmsg,
                                    fcost,
                                ),
                            }
                        }
                    } else if k.0 == "cwd"@ {
                        if fcwd is Some {
                            Option::None
                        } else {
                            match spec_string_or_null(s, vs) {
                                Option::None => Option::None,
                                Option::Some(p) => spec_top_obj(
                                    s,
                                    spec_skip_ws(s, p.1),
                                    depth,
                                    false,
                                    (fuel - 1) as nat,
                                    fts,
                                    fsid,
                                    Option::Some(p.0),
                                    fmsg,
                                    fcost,
                                ),
                            }
                        }
                    } else if k.0 == "message"@ {
                        if fmsg is Some {
                            Option::None
                        } else if vs < s.len() && s[vs] == '{' && depth > 0 {
                            match spec_message_obj(
                                s,
                                spec_skip_ws(s, vs + 1),
                                (depth - 1) as u32,
                                true,
                                (fuel - 1) as nat,
                                Option::None,
                                Option::None,
                                Option::None,
                            ) {
                                Option::None => Option::None,
                                Option::Some(p) => spec_top_obj(
                                    s,
                                    spec_skip_ws(s, p.1),
                                    depth,
                                    false,
                                    (fuel - 1) as nat,
                                    fts,
                                    fsid,
                                    fcwd,
                                    Option::Some(p.0),
                                    fcost,
                                ),
                            }
                        } else {
                            Option::None
                        }
                    } else if k.0 == "costUSD"@ {
                        if fcost is Some {
                            Option::None
                        } else {
                            match spec_cost_or_null(s, vs) {
                                Option::None => Option::None,
                                Option::Some(p) => spec_top_obj(
                                    s,
                                    spec_skip_ws(s, p.1),
                                    depth,
                                    false,
                                    (fuel - 1) as nat,
                                    fts,
                                    fsid,
                                    fcwd,
                                    fmsg,
                                    Option::Some(p.0),
                                ),
                            }
                        }
                    } else {
                        match spec_sk_value(s, vs, depth, (fuel - 1) as nat) {
                            Option::None => Option::None,
                            Option::Some(ve) => spec_top_obj(
                                s,
                                spec_skip_ws(s, ve),
                                depth,
                                false,
                                (fuel - 1) as nat,
                                fts,
                                fsid,
                                fcwd,
                                fmsg,
                                fcost,
                            ),
                        }
                    }
                } else {
                    Option::None
                }
            },
        }
    }
}

fn p_top_obj(
    s: &Vec<char>,
    i: usize,
    depth: u32,
    first: bool,
    fuel: u64,
    fts: Option<String>,
    fsid: Option<Option<String>>,
    fcwd: Option<Option<String>>,
    fmsg: Option<Message>,
    fcost: Option<Option<u128>>,
) -> (r: Option<(LogEntry, usize)>)
    requires
        i <= s@.len(),
        s@.len() <= MAX_LINE_CHARS,
    ensures
        (match r {
            Option::None => spec_top_obj(s@, i as int, depth, first, fuel as nat,
                crate::types::view_opt_string(fts), v_oos(fsid), v_oos(fcwd), v_om(fmsg),
                fcost) is None,
            Option::Some(p) => spec_top_obj(s@, i as int, depth, first, fuel as nat,
                crate::types::view_opt_string(fts), v_oos(fsid), v_oos(fcwd), v_om(fmsg), fcost)
                matches Option::Some(q) && p.0@ == q.0 && p.1 as int == q.1 && p.1 <= s@.len(),
        }),
    decreases fuel,
{
    if fuel == 0 {
        return Option::None;
    }
    if !(i < s.len()) {
        return Option::None;
    }
    if s[i] == '}' {
        return match (fts, fmsg) {
            (Option::Some(ts), Option::Some(msg)) => {
                let e = LogEntry {
                    timestamp: ts,
                    session_id: match fsid {
                        Option::None => Option::None,
                        Option::Some(y) => y,
                    },
                    cwd: match fcwd {
                        Option::None => Option::None,
                        Option::Some(y) => y,
                    },
                    message: msg,
                    cost_microcents: match fcost {
                        Option::None => Option::None,
                        Option::Some(y) => y,
                    },
                };
                Option::Some((e, i + 1))
            },
            _ => Option::None,
        };
    }
    if !first && s[i] != ',' {
        return Option::None;
    }
    let ms = if first {
        i
    } else {
        skip_ws(s, i + 1)
    };
    match p_string(s, ms) {
        Option::None => Option::None,
        Option::Some(k) => {
            let c1 = skip_ws(s, k.1);
            if c1 < s.len() && s[c1] == ':' {
                let vs = skip_ws(s, c1 + 1);
                if crate::text::chars_eq_str(&k.0, "timestamp") {
                    if fts.is_some() {
                        Option::None
                    } else {
                        match p_string(s, vs) {
                            Option::None => Option::None,
                            Option::Some(p) => {
                                let ts = crate::text::chars_to_string(&p.0);
                                p_top_obj(
                                    s,
                                    skip_ws(s, p.1),
                                    depth,
                                    false,
                                    fuel - 1,
                                    Option::Some(ts),
                                    fsid,
                                    fcwd,
                                    fmsg,
                                    fcost,
                                )
                            },
                        }
                    }
                } else if crate::text::chars_eq_str(&k.0, "sessionId") {
                    if fsid.is_some() {
                        Option::None
                    } else {
                        match p_string_or_null(s, vs) {
                            Option::None => Option::None,
                            Option::Some(p) => {
                                let sv: Option<String> = match p.0 {
                                    Option::None => Option::None,
                                    Option::Some(v) => Option::Some(
                                        crate::text::chars_to_string(&v),
                                    ),
                                };
                                p_top_obj(
                                    s,
                                    skip_ws(s, p.1),
                                    depth,
                                    false,
                                    fuel - 1,
                                    fts,
                                    Option::Some(sv),
                                    fcwd,
                                    fmsg,
                                    fcost,
                                )
                            },
                        }
                    }
                } else if crate::text::chars_eq_str(&k.0, "cwd") {
                    if fcwd.is_some() {
                        Option::None
                    } else {
                        match p_string_or_null(s, vs) {
                            Option::None => Option::None,
                            Option::Some(p) => {
                                let sv: Option<String> = match p.0 {
                                    Option::None => Option::None,
                                    Option::Some(v) => Option::Some(
                                        crate::text::chars_to_string(&v),
                                    ),
                                };
                                p_top_obj(
                                    s,
                                    skip_ws(s, p.1),
                                    depth,
                                    false,
                                    fuel - 1,
                                    fts,
                                    fsid,
                                    Option::Some(sv),
                                    fmsg,
                                    fcost,
                                )
                            },
                        }
                    }
                } else if crate::text::chars_eq_str(&k.0, "message") {
                    if fmsg.is_some() {
                        Option::None
                    } else if vs < s.len() && s[vs] == '{' && depth > 0 {
                        match p_message_obj(
                            s,
                            skip_ws(s, vs + 1),
                            depth - 1,
                            true,
                            fuel - 1,
                            Option::None,
                            Option::None,
                            Option::None,
                        ) {
                            Option::None => Option::None,
                            Option::Some(p) => p_top_obj(
                                s,
                                skip_ws(s, p.1),
                                depth,
                                false,
                                fuel - 1,
                                fts,
                                fsid,
                                fcwd,
                                Option::Some(p.0),
                                fcost,
                            ),
                        }
                    } else {
                        Option::None
                    }
                } else if crate::text::chars_eq_str(&k.0, "costUSD") {
                    if fcost.is_some() {
                        Option::None
                    } else {
                        match p_cost_or_null(s, vs) {
                            Option::None => Option::None,
                            Option::Some(p) => p_top_obj(
                                s,
                                skip_ws(s, p.1),
                                depth,
                                false,
                                fuel - 1,
                                fts,
                                fsid,
                                fcwd,
                                fmsg,
                                Option::Some(p.0),
                            ),
                        }
                    }
                } else {
                    match p_sk_value(s, vs, depth, fuel - 1) {
                        Option::None => Option::None,
                        Option::Some(ve) => p_top_obj(
                            s,
                            skip_ws(s, ve),
                            depth,
                            false,
                            fuel - 1,
                            fts,
                            fsid,
                            fcwd,
                            fmsg,
                            fcost,
                        ),
                    }
                }
            } else {
                Option::None
            }
        },
    }
}

/// One line read as a record: optional whitespace, the record object,
/// optional whitespace, and nothing else.
pub open spec fn spec_parse_line(line: Seq<char>) -> Option<LogEntryModel> {
    if line.len() > MAX_LINE_CHARS {
        Option::None
    } else {
        let fuel = (8 * line.len() + 64) as nat;
        let i = spec_skip_ws(line, 0);
        if i < line.len() && line[i] == '{' {
            match spec_top_obj(
                line,
                spec_skip_ws(line, i + 1),
                (MAX_NESTING - 1) as u32,
                true,
                fuel,
                Option::None,
                Option::None,
                Option::None,
                Option::None,
                Option::None,
            ) {
                Option::None => Option::None,
                Option::Some(p) => if spec_skip_ws(line, p.1) == line.len() {
                    Option::Some(p.0)
                } else {
                    Option::None
                },
            }
        } else {
            Option::None
        }
    }
}

/// Parses one line; `None` for a line the grammar or schema rejects.
pub fn parse_line(line: &Vec<char>) -> (r: Option<LogEntry>)
    ensures
        (match r {
            Option::None => spec_parse_line(line@) is None,
            Option::Some(e) => spec_parse_line(line@) == Option::Some(e@),
        }),
{
    if line.len() > MAX_LINE_CHARS {
        return Option::None;
    }
    let fuel: u64 = 8 * (line.len() as u64) + 64;
    let i = skip_ws(line, 0);
    if i < line.len() && line[i] == '{' {
        match p_top_obj(
            line,
            skip_ws(line, i + 1),
            MAX_NESTING - 1,
            true,
            fuel,
            Option::None,
            Option::None,
            Option::None,
            Option::None,
            Option::None,
        ) {
            Option::None => Option::None,
            Option::Some(p) => {
                if skip_ws(line, p.1) == line.len() {
                    Option::Some(p.0)
                } else {
                    Option::None
                }
            },
        }
    } else {
        Option::None
    }
}

/// Position of the first newline at or after `i`, or the end.
pub open spec fn spec_find_nl(s: Seq<char>, i: int) -> int
    decreases s.len() - i,
    when 0 <= i <= s.len()
{
    if i < s.len() {
        if s[i] == '\n' {
            i
        } else {
            spec_find_nl(s, i + 1)
        }
    } else {
        i
    }
}

fn find_nl(s: &Vec<char>, i: usize) -> (r: usize)
    requires
        i <= s@.len(),
    ensures
        r as int == spec_find_nl(s@, i as int),
        i <= r <= s@.len(),
    decreases s@.len() - i,
{
    if i < s.len() {
        if s[i] == '\n' {
            i
        } else {
            find_nl(s, i + 1)
        }
    } else {
        i
    }
}

/// A line with a trailing carriage return stripped (only lines that ended in
/// a newline get this treatment, matching how text lines are usually read).
pub open spec fn spec_strip_cr(line: Seq<char>) -> Seq<char> {
    if line.len() > 0 && line[line.len() - 1] == '\r' {
        line.drop_last()
    } else {
        line
    }
}

fn subvec(s: &Vec<char>, a: usize, b: usize) -> (r: Vec<char>)
    requires
        a <= b <= s@.len(),
    ensures
        r@ == s@.subrange(a as int, b as int),
{
    let mut r: Vec<char> = Vec::new();
    let mut i: usize = a;
    while i < b
        invariant
            a <= i <= b <= s@.len(),
            r@ == s@.subrange(a as int, i as int),
        decreases b - i,
    {
        r.push(s[i]);
        i = i + 1;
        proof {
            assert(r@ =~= s@.subrange(a as int, i as int));
        }
    }
    r
}

/// The records of the text from `start` on: one candidate per line, keeping
/// exactly the lines that parse to a record carrying a usage block.
pub open spec fn spec_parse_jsonl_from(s: Seq<char>, start: int) -> Seq<LogEntryModel>
    decreases s.len() - start,
    when 0 <= start <= s.len()
    via spec_parse_jsonl_from_dec
{
    if start == s.len() {
        Seq::empty()
    } else {
        let k = spec_find_nl(s, start);
        let rawline = s.subrange(start, k);
        let line = if k < s.len() {
            spec_strip_cr(rawline)
        } else {
            rawline
        };
        let tail = if k < s.len() {
            spec_parse_jsonl_from(s, k + 1)
        } else {
            Seq::empty()
        };
        match spec_parse_line(line) {
            Option::Some(e) => if e.message.usage is Some {
                seq![e] + tail
            } else {
                tail
            },
            Option::None => tail,
        }
    }
}

#[via_fn]
proof fn spec_parse_jsonl_from_dec(s: Seq<char>, start: int) {
    if 0 <= start && start < s.len() {
        lemma_find_nl_bounds(s, start);
    }
}

/// The records of a whole file's text.
pub open spec fn spec_parse_jsonl(s: Seq<char>) -> Seq<LogEntryModel> {
    spec_parse_jsonl_from(s, 0)
}

/// Every record the file-level parse keeps carries a usage block.
pub proof fn lemma_parsed_have_usage(s: Seq<char>, start: int)
    requires
        0 <= start <= s.len(),
    ensures
        forall|k: int|
            0 <= k < spec_parse_jsonl_from(s, start).len()
                ==> (#[trigger] spec_parse_jsonl_from(s, start)[k]).message.usage is Some,
    decreases s.len() - start,
{
    if start < s.len() {
        let nl = spec_find_nl(s, start);
        lemma_find_nl_bounds(s, start);
        if nl < s.len() {
            lemma_parsed_have_usage(s, nl + 1);
        }
    }
}

pub proof fn lemma_find_nl_bounds(s: Seq<char>, i: int)
    requires
        0 <= i <= s.len(),
    ensures
        i <= spec_find_nl(s, i) <= s.len(),
    decreases s.len() - i,
{
    if i < s.len() && s[i] != '\n' {
        lemma_find_nl_bounds(s, i + 1);
    }
}

fn parse_lines(v: &Vec<char>, start: usize) -> (out: Vec<LogEntry>)
    requires
        start <= v@.len(),
    ensures
        out@.map_values(|e: LogEntry| e@) == spec_parse_jsonl_from(v@, start as int),
        forall|k: int| 0 <= k < out@.len() ==> (#[trigger] out@[k]).message.usage is Some,
    decreases v@.len() - start,
{
    if start == v.len() {
        let out: Vec<LogEntry> = Vec::new();
        proof {
            assert(out@.map_values(|e: LogEntry| e@) =~= spec_parse_jsonl_from(v@, start as int));
        }
        return out;
    }
    let k = find_nl(v, start);
    let mut line = subvec(v, start, k);
    let is_last = k == v.len();
    if !is_last {
        if line.len() > 0 && line[line.len() - 1] == '\r' {
            line.pop();
            proof {
                assert(line@ =~= spec_strip_cr(v@.subrange(start as int, k as int)));
            }
        }
        proof {
            assert(line@ == spec_strip_cr(v@.subrange(start as int, k as int)));
        }
    }
    let e = parse_line(&line);
    let mut out: Vec<LogEntry> = Vec::new();
    match e {
        Option::Some(entry) => {
            if entry.message.usage.is_some() {
                out.push(entry);
            }
        },
        Option::None => {},
    }
    if !is_last {
        let mut tail = parse_lines(v, k + 1);
        let ghost out_pre = out@;
        let ghost tail_pre = tail@;
        out.append(&mut tail);
        proof {
            assert(out@ == out_pre + tail_pre);
            assert(out@.map_values(|e2: LogEntry| e2@) =~= out_pre.map_values(
                |e2: LogEntry| e2@,
            ) + tail_pre.map_values(|e2: LogEntry| e2@));
            assert(spec_parse_jsonl_from(v@, start as int) =~= out@.map_values(
                |e2: LogEntry| e2@,
            ));
        }
    } else {
        proof {
            assert(spec_parse_jsonl_from(v@, start as int) =~= out@.map_values(
                |e2: LogEntry| e2@,
            ));
        }
    }
    out
}

/// Parses a whole file's text: one record per line that parses and carries a
/// usage block, in file order. Lines that fail to parse are skipped, so no
/// input text is an error. Two deliberate bounds of this reader: a single
/// line longer than `MAX_LINE_CHARS` parses as nothing, and a recorded
/// `costUSD` is quantized to microcents — digits beyond that precision
/// truncate, and a negative cost clamps to zero, since the cost model is
/// unsigned.
pub fn parse_jsonl_file(content: &str) -> (out: Vec<LogEntry>)
    ensures
        out@.map_values(|e: LogEntry| e@) == spec_parse_jsonl(content@),
        forall|k: int| 0 <= k < out@.len() ==> (#[trigger] out@[k]).message.usage is Some,
{
    let v = crate::text::to_chars(content);
    parse_lines(&v, 0)
}

} // verus!
