//! Duration strings of the form `<digits><unit>` — `10m`, `2h`, `1d` —
//! parsed to a number of seconds; anything else is an explicit non-result.

use vstd::prelude::*;
use crate::text::chars_of;

verus! {

/// A decimal digit.
pub open spec fn is_digit(c: char) -> bool {
    '0' <= c && c <= '9'
}

/// The numeric value of a decimal digit.
pub open spec fn digit_val(c: char) -> int {
    c as int - '0' as int
}

/// The number a string of decimal digits denotes, most significant first.
pub open spec fn digits_val(s: Seq<char>) -> int
    decreases s.len(),
{
    if s.len() == 0 {
        0
    } else {
        digits_val(s.drop_last()) * 10 + digit_val(s.last())
    }
}

/// Whether every character of the string is a decimal digit.
pub open spec fn all_digits(s: Seq<char>) -> bool {
    forall|i: int| 0 <= i < s.len() ==> is_digit(#[trigger] s[i])
}

/// How many seconds one of a duration's units stands for; zero marks a
/// character that is no unit.
pub open spec fn unit_multiplier(c: char) -> int {
    if c == 's' {
        1
    } else if c == 'm' {
        60
    } else if c == 'h' {
        3600
    } else if c == 'd' {
        86400
    } else if c == 'w' {
        604800
    } else {
        0
    }
}

/// Whether a string is a well-formed duration: at least one digit followed
/// by exactly one unit character.
pub open spec fn duration_format_ok(s: Seq<char>) -> bool {
    s.len() >= 2 && all_digits(s.subrange(0, s.len() - 1)) && unit_multiplier(s.last()) > 0
}

/// The number of seconds a well-formed duration string denotes.
pub open spec fn duration_secs_value(s: Seq<char>) -> int {
    digits_val(s.subrange(0, s.len() - 1)) * unit_multiplier(s.last())
}

/// A string of digits denotes a nonnegative number.
proof fn lemma_digits_val_nonneg(s: Seq<char>)
    requires
        all_digits(s),
    ensures
        digits_val(s) >= 0,
    decreases s.len(),
{
    if s.len() > 0 {
        assert(all_digits(s.drop_last()));
        lemma_digits_val_nonneg(s.drop_last());
    }
}

/// Extending a digit string can only grow the number it denotes.
proof fn lemma_digits_val_prefix(s: Seq<char>, i: int, j: int)
    requires
        0 <= i <= j <= s.len(),
        all_digits(s.subrange(0, j)),
    ensures
        digits_val(s.subrange(0, i)) <= digits_val(s.subrange(0, j)),
    decreases j - i,
{
    if i < j {
        let shorter = s.subrange(0, j - 1);
        assert(shorter =~= s.subrange(0, j).drop_last());
        assert(all_digits(shorter));
        lemma_digits_val_prefix(s, i, j - 1);
        lemma_digits_val_nonneg(shorter);
        assert(digits_val(s.subrange(0, j)) == digits_val(shorter) * 10 + digit_val(
            s.subrange(0, j).last(),
        ));
        assert(digits_val(shorter) * 10 >= digits_val(shorter)) by (nonlinear_arith)
            requires
                digits_val(shorter) >= 0,
        ;
    }
}

/// Parse a duration string such as `10m`, `2h` or `1d` into seconds:
/// `s`, `m`, `h`, `d` and `w` stand for seconds, minutes, hours, days and
/// weeks. Returns the denoted number of seconds exactly when the string is
/// well formed and the value fits in a `u64`, and nothing otherwise.
pub fn parse_duration_secs(duration: &str) -> (r: Option<u64>)
    ensures
        r is Some <==> duration_format_ok(duration@) && duration_secs_value(duration@)
            <= u64::MAX,
        r matches Some(v) ==> v == duration_secs_value(duration@),
{
    let chars = chars_of(duration);
    if chars.len() < 2 {
        return None;
    }
    let n: usize = chars.len() - 1;
    let ghost digits = duration@.subrange(0, n as int);
    let mut value: u64 = 0;
    let mut i: usize = 0;
    while i < n
        invariant
            i <= n,
            n == chars.len() - 1,
            chars@ == duration@,
            n < duration@.len(),
            digits == duration@.subrange(0, n as int),
            all_digits(duration@.subrange(0, i as int)),
            value == digits_val(duration@.subrange(0, i as int)),
        decreases n - i,
    {
        let c = chars[i];
        if c < '0' || c > '9' {
            proof {
                assert(digits[i as int] == duration@[i as int]);
                assert(!is_digit(digits[i as int]));
                assert(!duration_format_ok(duration@));
            }
            return None;
        }
        let d: u64 = (c as u32 - '0' as u32) as u64;
        proof {
            assert(d == digit_val(c));
            assert(duration@.subrange(0, i as int + 1).drop_last() =~= duration@.subrange(
                0,
                i as int,
            ));
            assert(duration@.subrange(0, i as int + 1).last() == c);
        }
        let stepped = match value.checked_mul(10) {
            Some(v10) => v10.checked_add(d),
            None => None,
        };
        match stepped {
            Some(next) => {
                value = next;
            },
            None => {
                proof {
                    assert(digits_val(duration@.subrange(0, i as int + 1)) > u64::MAX);
                    assert(all_digits(duration@.subrange(0, i as int + 1)));
                    if duration_format_ok(duration@) {
                        lemma_digits_val_prefix(duration@, i as int + 1, n as int);
                        lemma_digits_val_nonneg(digits);
                        assert(unit_multiplier(duration@.last()) >= 1);
                        assert(duration_secs_value(duration@) >= digits_val(digits)) by (
                        nonlinear_arith)
                            requires
                                digits_val(digits) >= 0,
                                unit_multiplier(duration@.last()) >= 1,
                                duration_secs_value(duration@) == digits_val(digits)
                                    * unit_multiplier(duration@.last()),
                        ;
                    }
                }
                return None;
            },
        }
        i += 1;
    }
    proof {
        assert(duration@.subrange(0, n as int) =~= digits);
    }
    let unit = chars[n];
    let multiplier: u64 = if unit == 's' {
        1
    } else if unit == 'm' {
        60
    } else if unit == 'h' {
        3600
    } else if unit == 'd' {
        86400
    } else if unit == 'w' {
        604800
    } else {
        proof {
            assert(duration@.last() == unit);
            assert(!duration_format_ok(duration@));
        }
        return None;
    };
    proof {
        assert(duration@.last() == unit);
        assert(multiplier == unit_multiplier(duration@.last()));
        assert(duration_format_ok(duration@));
    }
    match value.checked_mul(multiplier) {
        Some(total) => Some(total),
        None => {
            proof {
                assert(duration_secs_value(duration@) > u64::MAX);
            }
            None
        },
    }
}

} // verus!
