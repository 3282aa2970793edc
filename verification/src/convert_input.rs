//! Parsing of a user-supplied amount of seconds: either a plain signed
//! integer, or a compound form such as `2h30m5s`, `-1m30s` or `45s`, with
//! hours and minutes optional and the seconds part required.

use vstd::prelude::*;
use vstd::string::{StrSliceExecFns, StringExecFns};

verus! {

pub open spec fn is_digit_char(c: char) -> bool {
    48 <= c as int <= 57
}

pub open spec fn digit_val(c: char) -> int {
    c as int - 48
}

pub open spec fn all_digits(s: Seq<char>) -> bool {
    forall|i: int| 0 <= i < s.len() ==> is_digit_char(#[trigger] s[i])
}

/// The number written by a digit string, most significant digit first.
pub open spec fn digits_val(s: Seq<char>) -> int
    decreases s.len(),
{
    if s.len() == 0 {
        0
    } else {
        digits_val(s.drop_last()) * 10 + digit_val(s.last())
    }
}

/// How many digits the string starts with.
pub open spec fn digit_count(s: Seq<char>) -> int
    decreases s.len(),
{
    if s.len() == 0 || !is_digit_char(s[0]) {
        0
    } else {
        1 + digit_count(s.skip(1))
    }
}

/// The unit letters compare case-insensitively.
pub open spec fn lower_char(c: char) -> char {
    if c == 'H' {
        'h'
    } else if c == 'M' {
        'm'
    } else if c == 'S' {
        's'
    } else {
        c
    }
}

/// A plain signed integer: an optional sign, then one or more digits.
pub open spec fn spec_parse_plain(s: Seq<char>) -> Option<int> {
    if s.len() == 0 {
        None
    } else {
        let rest = if s[0] == '-' || s[0] == '+' {
            s.skip(1)
        } else {
            s
        };
        if rest.len() >= 1 && all_digits(rest) {
            if s[0] == '-' {
                Some(-digits_val(rest))
            } else {
                Some(digits_val(rest))
            }
        } else {
            None
        }
    }
}

/// One `<digits><unit>` component at the head of the string: its value and
/// what follows it, or nothing when the head is not that component.
pub open spec fn component(s: Seq<char>, unit: char) -> Option<(int, Seq<char>)> {
    let k = digit_count(s);
    if k >= 1 && k < s.len() && lower_char(s[k]) == unit {
        Some((digits_val(s.take(k)), s.skip(k + 1)))
    } else {
        None
    }
}

/// The compound form: an optional minus sign, then an optional hours
/// component, an optional minutes component, and a required seconds
/// component which must end the string.
pub open spec fn spec_parse_duration(s: Seq<char>) -> Option<int> {
    let neg = s.len() > 0 && s[0] == '-';
    let r0 = if neg {
        s.skip(1)
    } else {
        s
    };
    let (h, r1) = match component(r0, 'h') {
        Some(p) => p,
        None => (0int, r0),
    };
    let (m, r2) = match component(r1, 'm') {
        Some(p) => p,
        None => (0int, r1),
    };
    match component(r2, 's') {
        Some((sec, r3)) => if r3.len() == 0 {
            if neg {
                Some(-(h * 3600 + m * 60 + sec))
            } else {
                Some(h * 3600 + m * 60 + sec)
            }
        } else {
            None
        },
        None => None,
    }
}

/// What a user-supplied amount of seconds means: a plain integer if it
/// reads as one and fits, else the compound form if it reads as one.
pub open spec fn spec_convert_input(s: Seq<char>) -> Option<int> {
    match spec_parse_plain(s) {
        Some(v) => if i64::MIN <= v <= i64::MAX {
            Some(v)
        } else {
            spec_parse_duration(s)
        },
        None => spec_parse_duration(s),
    }
}

proof fn lemma_digits_val_nonneg(s: Seq<char>)
    requires
        all_digits(s),
    ensures
        digits_val(s) >= 0,
    decreases s.len(),
{
    if s.len() > 0 {
        assert(forall|i: int| 0 <= i < s.len() - 1 ==> is_digit_char(#[trigger] s.drop_last()[i]));
        lemma_digits_val_nonneg(s.drop_last());
    }
}

/// A digit string's value never shrinks as more digits are appended.
proof fn lemma_digits_val_mono(s: Seq<char>, i: int)
    requires
        all_digits(s),
        0 <= i <= s.len(),
    ensures
        digits_val(s.take(i)) <= digits_val(s),
    decreases s.len() - i,
{
    if i < s.len() {
        assert(s.take(i + 1).drop_last() =~= s.take(i));
        assert(s.take(i + 1).last() == s[i]);
        assert(forall|j: int| 0 <= j < i ==> is_digit_char(#[trigger] s.take(i)[j]));
        lemma_digits_val_nonneg(s.take(i));
        lemma_digits_val_mono(s, i + 1);
    } else {
        assert(s.take(i) =~= s);
    }
}

/// Reads the characters of a string out as a vector.
fn str_chars(s: &str) -> (v: Vec<char>)
    ensures
        v@ == s@,
{
    let n: usize = s.unicode_len();
    let mut v: Vec<char> = Vec::new();
    let mut i: usize = 0;
    while i < n
        invariant
            n == s@.len(),
            0 <= i <= n,
            v@ =~= s@.take(i as int),
        decreases n - i,
    {
        v.push(s.get_char(i));
        proof {
            assert(v@ =~= s@.take(i + 1));
        }
        i += 1;
    }
    proof {
        assert(s@.take(n as int) =~= s@);
    }
    v
}

fn is_digit(c: char) -> (r: bool)
    ensures
        r == is_digit_char(c),
{
    c >= '0' && c <= '9'
}

/// Scans the digit run starting at `pos`: how many digits, their value, and
/// whether that value went past `u64::MAX`.
fn scan_digits(chars: &Vec<char>, pos: usize) -> (r: (usize, u64, bool))
    requires
        pos <= chars@.len(),
    ensures
        r.0 == digit_count(chars@.skip(pos as int)),
        pos + r.0 <= chars@.len(),
        !r.2 ==> r.1 == digits_val(chars@.skip(pos as int).take(r.0 as int)),
        r.2 ==> digits_val(chars@.skip(pos as int).take(r.0 as int)) > u64::MAX,
{
    let n: usize = chars.len();
    let mut j: usize = pos;
    let mut val: u64 = 0;
    let mut over: bool = false;
    while j < n && is_digit(chars[j])
        invariant
            n == chars@.len(),
            pos <= j <= n,
            forall|i: int| pos <= i < j ==> is_digit_char(#[trigger] chars@[i]),
            digit_count(chars@.skip(pos as int)) == (j - pos) + digit_count(
                chars@.skip(j as int),
            ),
            !over ==> val == digits_val(chars@.skip(pos as int).take(j - pos)),
            over ==> digits_val(chars@.skip(pos as int).take(j - pos)) > u64::MAX,
        decreases n - j,
    {
        let d: u64 = (chars[j] as u8 - 48) as u64;
        proof {
            let s = chars@.skip(pos as int);
            let i = j - pos;
            assert(s.take(i + 1).drop_last() =~= s.take(i as int));
            assert(s.take(i + 1).last() == s[i as int]);
            assert(s[i as int] == chars@[j as int]);
            assert(chars@.skip(j as int)[0] == chars@[j as int]);
            assert(chars@.skip(j as int).skip(1) =~= chars@.skip(j + 1));
            assert(forall|i2: int|
                0 <= i2 < s.take(i as int).len() ==> is_digit_char(
                    #[trigger] s.take(i as int)[i2],
                ));
            lemma_digits_val_nonneg(s.take(i as int));
            assert(digit_val(chars@[j as int]) == d);
        }
        if !over {
            let wide: u128 = (val as u128) * 10 + (d as u128);
            if wide > u64::MAX as u128 {
                over = true;
            } else {
                val = wide as u64;
            }
        } else {
            proof {
                let s = chars@.skip(pos as int);
                let i = j - pos;
                assert(forall|i2: int|
                    0 <= i2 < s.take(i as int).len() ==> is_digit_char(
                        #[trigger] s.take(i as int)[i2],
                    ));
                lemma_digits_val_nonneg(s.take(i as int));
            }
        }
        j += 1;
    }
    proof {
        if j == n {
            assert(chars@.skip(j as int).len() == 0);
        } else {
            assert(chars@.skip(j as int)[0] == chars@[j as int]);
        }
        assert(digit_count(chars@.skip(j as int)) == 0);
    }
    (j - pos, val, over)
}

fn lower_unit(c: char) -> (r: char)
    ensures
        r == lower_char(c),
{
    if c == 'H' {
        'h'
    } else if c == 'M' {
        'm'
    } else if c == 'S' {
        's'
    } else {
        c
    }
}

/// Parses one `<digits><unit>` component at `pos`: its value, the position
/// after it and an overflow mark, or `None` when the head is not that
/// component.
fn parse_component(chars: &Vec<char>, pos: usize, unit: char) -> (r: Option<(u64, usize, bool)>)
    requires
        pos <= chars@.len(),
    ensures
        match r {
            Some(t) => {
                &&& component(chars@.skip(pos as int), unit) matches Some(p)
                &&& t.1 <= chars@.len()
                &&& chars@.skip(t.1 as int) == p.1
                &&& (!t.2 ==> t.0 == p.0)
                &&& (t.2 ==> p.0 > u64::MAX)
            },
            None => component(chars@.skip(pos as int), unit) is None,
        },
{
    let n: usize = chars.len();
    let scanned = scan_digits(chars, pos);
    let k: usize = scanned.0;
    let val: u64 = scanned.1;
    let over: bool = scanned.2;
    proof {
        assert(pos + k <= chars@.len());
    }
    let end: usize = pos + k;
    if k >= 1 && end < n && lower_unit(chars[end]) == unit {
        proof {
            let s = chars@.skip(pos as int);
            assert(s[k as int] == chars@[end as int]);
            assert(s.skip(k + 1) =~= chars@.skip(end + 1));
        }
        Some((val, end + 1, over))
    } else {
        proof {
            let s = chars@.skip(pos as int);
            if k < chars@.len() - pos {
                assert(s[k as int] == chars@[pos + k]);
            }
        }
        None
    }
}

/// Parses a plain signed integer, `None` when the text is not one or its
/// value does not fit `i64`.
fn parse_plain(chars: &Vec<char>) -> (r: Option<i64>)
    ensures
        match spec_parse_plain(chars@) {
            Some(v) => {
                if i64::MIN <= v <= i64::MAX {
                    r == Some(v as i64)
                } else {
                    r is None
                }
            },
            None => r is None,
        },
{
    let n: usize = chars.len();
    if n == 0 {
        return None;
    }
    let signed: bool = chars[0] == '-' || chars[0] == '+';
    let neg: bool = chars[0] == '-';
    let start: usize = if signed {
        1
    } else {
        0
    };
    let ghost rest = if signed {
        chars@.skip(1)
    } else {
        chars@
    };
    if start >= n {
        return None;
    }
    let mut acc: i64 = 0;
    let mut i: usize = start;
    while i < n
        invariant
            n == chars@.len(),
            start <= i <= n,
            start < n,
            0 < n,
            signed == (chars@[0] == '-' || chars@[0] == '+'),
            neg == (chars@[0] == '-'),
            start == (if signed {
                1int
            } else {
                0int
            }),
            rest == (if signed {
                chars@.skip(1)
            } else {
                chars@
            }),
            rest.len() == n - start,
            forall|j: int| start <= j < i ==> is_digit_char(#[trigger] chars@[j]),
            forall|j: int| 0 <= j < rest.len() ==> rest[j] == chars@[start + j],
            acc == -digits_val(rest.take(i - start)),
            acc <= 0,
        decreases n - i,
    {
        let c: char = chars[i];
        if !is_digit(c) {
            proof {
                let idx = i - start;
                assert(rest[idx] == chars@[i as int]);
                if all_digits(rest) {
                    assert(is_digit_char(rest[idx]));
                }
            }
            return None;
        }
        let d: i64 = ((c as u8) - 48) as i64;
        proof {
            let idx = i - start;
            assert(rest.take(idx + 1).drop_last() =~= rest.take(idx as int));
            assert(rest.take(idx + 1).last() == rest[idx as int]);
            assert(rest[idx as int] == chars@[i as int]);
            assert(digit_val(chars@[i as int]) == d);
        }
        let m10 = acc.checked_mul(10);
        let next: Option<i64> = match m10 {
            Some(a) => a.checked_sub(d),
            None => None,
        };
        match next {
            Some(a) => {
                acc = a;
            },
            None => {
                proof {
                    let idx = i - start;
                    assert(digits_val(rest.take(idx + 1)) == digits_val(rest.take(idx)) * 10
                        + digit_val(chars@[i as int]));
                    assert(digits_val(rest.take(idx + 1)) > 0x8000_0000_0000_0000int);
                    if all_digits(rest) {
                        lemma_digits_val_mono(rest, idx + 1);
                        assert(digits_val(rest) > 0x8000_0000_0000_0000int);
                    }
                }
                return None;
            },
        }
        i += 1;
    }
    proof {
        assert(rest.take(n - start) =~= rest);
        assert(all_digits(rest)) by {
            assert(forall|j: int|
                0 <= j < rest.len() ==> is_digit_char(#[trigger] chars@[start + j]));
        };
    }
    if neg {
        Some(acc)
    } else {
        if acc == i64::MIN {
            None
        } else {
            Some(-acc)
        }
    }
}

/// The first `digit_count` characters are digits, so their value is a
/// nonnegative number.
proof fn lemma_digit_count_digits(s: Seq<char>)
    ensures
        0 <= digit_count(s) <= s.len(),
        forall|i: int| 0 <= i < digit_count(s) ==> is_digit_char(#[trigger] s[i]),
        all_digits(s.take(digit_count(s))),
        digits_val(s.take(digit_count(s))) >= 0,
    decreases s.len(),
{
    if s.len() > 0 && is_digit_char(s[0]) {
        lemma_digit_count_digits(s.skip(1));
        assert(forall|i: int|
            0 <= i < digit_count(s.skip(1)) ==> is_digit_char(#[trigger] s.skip(1)[i]));
        assert(forall|i: int| 1 <= i < digit_count(s) ==> is_digit_char(#[trigger] s[i])) by {
            assert(forall|i: int| 1 <= i < digit_count(s) ==> s[i] == s.skip(1)[i - 1]);
        };
    }
    assert(forall|i: int|
        0 <= i < s.take(digit_count(s)).len() ==> is_digit_char(
            #[trigger] s.take(digit_count(s))[i],
        ));
    lemma_digits_val_nonneg(s.take(digit_count(s)));
}

/// The error for input that reads as neither form.
fn malformed_err(input_str: &str) -> (r: String) {
    let mut m = String::from_str(
        "Malformed number of seconds. Should be either an integer or of the form: [zh][ym]xs. Got ",
    );
    m.append(input_str);
    m
}

/// Converts user input to a signed number of seconds: a plain integer, or
/// the compound `[Nh][Nm]Ns` form with an optional leading minus sign.
/// Returns the malformed-input error exactly when the text reads as neither,
/// or its value does not fit a signed 64-bit count.
pub fn convert_input_to_seconds(input_str: &str) -> (r: Result<i64, String>)
    ensures
        match spec_convert_input(input_str@) {
            Some(v) => {
                if i64::MIN <= v <= i64::MAX {
                    r matches Ok(o) && o == v
                } else {
                    r is Err
                }
            },
            None => r is Err,
        },
{
    let chars = str_chars(input_str);
    if let Some(v) = parse_plain(&chars) {
        return Ok(v);
    }
    let n: usize = chars.len();
    let neg: bool = n > 0 && chars[0] == '-';
    let p0: usize = if neg {
        1
    } else {
        0
    };
    proof {
        if neg {
            assert(chars@.skip(p0 as int) == chars@.skip(1));
        } else {
            assert(chars@.skip(0) =~= chars@);
        }
    }
    let (h, p1, h_over): (u64, usize, bool) = match parse_component(&chars, p0, 'h') {
        Some(t) => t,
        None => (0, p0, false),
    };
    let (m, p2, m_over): (u64, usize, bool) = match parse_component(&chars, p1, 'm') {
        Some(t) => t,
        None => (0, p1, false),
    };
    match parse_component(&chars, p2, 's') {
        Some((sec, p3, s_over)) => {
            if p3 < n {
                return Err(malformed_err(input_str));
            }
            proof {
                assert(chars@.skip(p3 as int).len() == 0);
            }
            if h_over || m_over || s_over {
                return Err(malformed_err(input_str));
            }
            let magnitude: u128 = (h as u128) * 3600 + (m as u128) * 60 + (sec as u128);
            if !neg {
                if magnitude <= i64::MAX as u128 {
                    Ok(magnitude as i64)
                } else {
                    Err(malformed_err(input_str))
                }
            } else {
                if magnitude <= i64::MAX as u128 {
                    Ok(-(magnitude as i64))
                } else if magnitude == (i64::MAX as u128) + 1 {
                    Ok(i64::MIN)
                } else {
                    Err(malformed_err(input_str))
                }
            }
        },
        None => Err(malformed_err(input_str)),
    }
}

} // verus!
