//! Decimal numbers of the markup, read into thousandths.
//!
//! A number is an optional sign, then digits with an optional fraction
//! (`12`, `12.5`, `12.`, `.5`, `-3.25`). Its value is counted in thousandths;
//! digits of the fraction behind the third are dropped. A number whose
//! thousandths exceed the range of `i32` is no number.

use super::scan::characters;
use vstd::prelude::*;

verus! {

/// The largest count of thousandths that a number may have.
pub const MAX_THOUSANDTHS: u64 = 0x7fff_ffff;

pub open spec fn is_digit(c: char) -> bool {
    '0' <= c <= '9'
}

pub open spec fn digit_value(c: char) -> nat {
    (c as u32 - '0' as u32) as nat
}

/// The number that the digits `s` write.
pub open spec fn digits_value(s: Seq<char>) -> nat
    decreases s.len(),
{
    if s.len() == 0 {
        0
    } else {
        digits_value(s.drop_last()) * 10 + digit_value(s.last())
    }
}

/// The first position from `i` on that holds no digit.
pub open spec fn digits_end(s: Seq<char>, i: int) -> int
    decreases s.len() - i,
{
    if 0 <= i < s.len() && is_digit(s[i]) {
        digits_end(s, i + 1)
    } else {
        i
    }
}

/// The thousandths that the fraction digits `s` stand for: the first three
/// count, as tenths, hundredths and thousandths.
pub open spec fn fraction_value(s: Seq<char>) -> nat {
    (if s.len() > 0 {
        digit_value(s[0]) * 100
    } else {
        0
    }) + (if s.len() > 1 {
        digit_value(s[1]) * 10
    } else {
        0
    }) + (if s.len() > 2 {
        digit_value(s[2])
    } else {
        0
    })
}

/// Whether `s` starts with a sign.
pub open spec fn has_sign(s: Seq<char>) -> bool {
    s.len() > 0 && (s[0] == '+' || s[0] == '-')
}

/// The value of the number `s` in thousandths, where `s` is one.
pub open spec fn decimal_value(s: Seq<char>) -> Option<int> {
    let from = if has_sign(s) {
        1int
    } else {
        0int
    };
    let dot = digits_end(s, from);
    let whole = s.subrange(from, dot);
    let has_dot = dot < s.len() && s[dot] == '.';
    let end = if has_dot {
        digits_end(s, dot + 1)
    } else {
        dot
    };
    let fraction = if has_dot {
        s.subrange(dot + 1, end)
    } else {
        Seq::empty()
    };
    let magnitude = digits_value(whole) * 1000 + fraction_value(fraction);
    if end == s.len() && whole.len() + fraction.len() > 0 && magnitude <= MAX_THOUSANDTHS {
        if s[0] == '-' {
            Some(-(magnitude as int))
        } else {
            Some(magnitude as int)
        }
    } else {
        None
    }
}

/// The value of a number, or `fallback` where `s` is no number.
pub open spec fn number_or(s: Seq<char>, fallback: i32) -> i32 {
    match decimal_value(s) {
        Some(v) => v as i32,
        None => fallback,
    }
}

fn digit_of(c: char) -> (r: Option<u64>)
    ensures
        match r {
            Some(d) => is_digit(c) && d == digit_value(c),
            None => !is_digit(c),
        },
{
    if '0' <= c && c <= '9' {
        Some((c as u32 - '0' as u32) as u64)
    } else {
        None
    }
}

/// Reads digits from `from` on. Gives the position behind them and their
/// value, which is capped: a value over the largest count of thousandths
/// comes back as that count plus one.
fn read_digits(chars: &Vec<char>, from: usize) -> (r: (usize, u64))
    requires
        from <= chars.len(),
    ensures
        r.0 == digits_end(chars@, from as int),
        from <= r.0 <= chars.len(),
        r.1 == if digits_value(chars@.subrange(from as int, r.0 as int)) <= MAX_THOUSANDTHS {
            digits_value(chars@.subrange(from as int, r.0 as int))
        } else {
            (MAX_THOUSANDTHS + 1) as nat
        },
{
    let mut i = from;
    let mut value: u64 = 0;
    assert(chars@.subrange(from as int, from as int) =~= Seq::<char>::empty());
    loop
        invariant
            from <= i <= chars.len(),
            digits_end(chars@, from as int) == digits_end(chars@, i as int),
            value == if digits_value(chars@.subrange(from as int, i as int)) <= MAX_THOUSANDTHS {
                digits_value(chars@.subrange(from as int, i as int))
            } else {
                (MAX_THOUSANDTHS + 1) as nat
            },
        ensures
            i == digits_end(chars@, from as int),
            from <= i <= chars.len(),
            value == if digits_value(chars@.subrange(from as int, i as int)) <= MAX_THOUSANDTHS {
                digits_value(chars@.subrange(from as int, i as int))
            } else {
                (MAX_THOUSANDTHS + 1) as nat
            },
        decreases chars.len() - i,
    {
        if i >= chars.len() {
            break;
        }
        let d = match digit_of(chars[i]) {
            Some(d) => d,
            None => {
                break;
            },
        };
        proof {
            let longer = chars@.subrange(from as int, i + 1);
            assert(longer.drop_last() =~= chars@.subrange(from as int, i as int));
            assert(longer.last() == chars@[i as int]);
        }
        value = value * 10 + d;
        if value > MAX_THOUSANDTHS {
            value = MAX_THOUSANDTHS + 1;
        }
        i += 1;
    }
    (i, value)
}

/// Reads a number in thousandths.
pub fn parse_number(text: &str) -> (r: Option<i32>)
    ensures
        match decimal_value(text@) {
            Some(v) => r == Some(v as i32) && v == r.unwrap(),
            None => r is None,
        },
{
    let chars = characters(text);
    let negative = chars.len() > 0 && chars[0] == '-';
    let from: usize = if chars.len() > 0 && (chars[0] == '+' || chars[0] == '-') {
        1
    } else {
        0
    };
    let (dot, whole) = read_digits(&chars, from);
    let has_dot = dot < chars.len() && chars[dot] == '.';
    let mut end = dot;
    let mut fraction: u64 = 0;
    let ghost digits = Seq::<char>::empty();
    if has_dot {
        let mut k: usize = dot + 1;
        let mut scale: u64 = 100;
        while k < chars.len() && digit_of(chars[k]).is_some()
            invariant
                dot + 1 <= k <= chars.len(),
                digits_end(chars@, dot + 1) == digits_end(chars@, k as int),
                fraction == fraction_value(chars@.subrange(dot + 1, k as int)),
                scale == (if k == dot + 1 {
                    100nat
                } else if k == dot + 2 {
                    10nat
                } else if k == dot + 3 {
                    1nat
                } else {
                    0nat
                }),
                fraction <= 999,
            decreases chars.len() - k,
        {
            let d = digit_of(chars[k]).unwrap();
            fraction = fraction + d * scale;
            scale = scale / 10;
            k += 1;
        }
        end = k;
    }
    let count = if has_dot {
        end - dot - 1
    } else {
        0
    };
    if end != chars.len() || (dot - from) + count == 0 {
        return None;
    }
    let magnitude: u64 = whole * 1000 + fraction;
    if whole > MAX_THOUSANDTHS || magnitude > MAX_THOUSANDTHS {
        proof {
            let w = digits_value(chars@.subrange(from as int, dot as int));
            assert(w * 1000 >= w) by (nonlinear_arith)
                requires
                    w >= 0,
            ;
        }
        return None;
    }
    if negative {
        Some(-(magnitude as i32))
    } else {
        Some(magnitude as i32)
    }
}

/// Reads a number in thousandths, or gives `fallback` where `text` is none.
pub fn parse_str(text: &str, fallback: i32) -> (r: i32)
    ensures
        r == number_or(text@, fallback),
{
    match parse_number(text) {
        Some(v) => v,
        None => fallback,
    }
}

/// Reads a number in thousandths, or gives `fallback` where `text` is none.
pub fn parse_str_optional(text: &str, fallback: Option<i32>) -> (r: Option<i32>)
    ensures
        r == match decimal_value(text@) {
            Some(v) => Some(v as i32),
            None => fallback,
        },
{
    match parse_number(text) {
        Some(v) => Some(v),
        None => fallback,
    }
}

} // verus!
