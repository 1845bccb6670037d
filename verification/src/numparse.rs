//! Strict parsing of decimal integer values.
//!
//! A retrieved setting is a string; the typed getters accept exactly the
//! strings that denote an integer of the requested width: an optional sign
//! followed by at least one decimal digit, nothing else, and a value inside
//! the width's range.
use vstd::prelude::*;
use vstd::string::StrSliceExecFns;

verus! {

/// A decimal digit.
pub open spec fn is_digit_char(c: char) -> bool {
    '0' as int <= c as int && c as int <= '9' as int
}

/// The value of one digit.
pub open spec fn digit_val(c: char) -> int {
    c as int - '0' as int
}

/// Every character is a decimal digit.
pub open spec fn all_digits(s: Seq<char>) -> bool {
    forall|i: int| 0 <= i < s.len() ==> is_digit_char(s[i])
}

/// The value denoted by a digit string, most significant digit first.
pub open spec fn digits_value(s: Seq<char>) -> int
    decreases s.len(),
{
    if s.len() == 0 {
        0
    } else {
        digits_value(s.drop_last()) * 10 + digit_val(s.last())
    }
}

/// The unsigned integer a string denotes: an optional leading `+`, then at
/// least one decimal digit and nothing else.  A leading `-` is not accepted.
pub open spec fn spec_parse_unsigned(s: Seq<char>) -> Option<int> {
    let body = if s.len() > 0 && s[0] == '+' {
        s.skip(1)
    } else {
        s
    };
    if body.len() > 0 && all_digits(body) {
        Some(digits_value(body))
    } else {
        None
    }
}

/// The signed integer a string denotes: an optional leading `+` or `-`, then
/// at least one decimal digit and nothing else.
pub open spec fn spec_parse_signed(s: Seq<char>) -> Option<int> {
    if s.len() > 0 && s[0] == '-' {
        let body = s.skip(1);
        if body.len() > 0 && all_digits(body) {
            Some(-digits_value(body))
        } else {
            None
        }
    } else {
        spec_parse_unsigned(s)
    }
}

proof fn lemma_digits_value_nonneg(s: Seq<char>)
    requires
        all_digits(s),
    ensures
        digits_value(s) >= 0,
    decreases s.len(),
{
    if s.len() > 0 {
        assert(all_digits(s.drop_last())) by {
            assert forall|i: int| 0 <= i < s.drop_last().len() implies is_digit_char(
                s.drop_last()[i],
            ) by {
                assert(s.drop_last()[i] == s[i]);
            }
        }
        lemma_digits_value_nonneg(s.drop_last());
        assert(is_digit_char(s.last()));
    }
}

proof fn lemma_digits_value_step(s: Seq<char>, i: int)
    requires
        0 <= i < s.len(),
    ensures
        digits_value(s.take(i + 1)) == digits_value(s.take(i)) * 10 + digit_val(s[i]),
{
    assert(s.take(i + 1).drop_last() =~= s.take(i));
    assert(s.take(i + 1).last() == s[i]);
}

proof fn lemma_all_digits_take(s: Seq<char>, i: int)
    requires
        all_digits(s),
        0 <= i <= s.len(),
    ensures
        all_digits(s.take(i)),
{
    assert forall|j: int| 0 <= j < s.take(i).len() implies is_digit_char(s.take(i)[j]) by {
        assert(s.take(i)[j] == s[j]);
    }
}

/// A digit string is worth at least any of its prefixes.
proof fn lemma_digits_value_prefix_le(s: Seq<char>, i: int)
    requires
        all_digits(s),
        0 <= i <= s.len(),
    ensures
        digits_value(s.take(i)) <= digits_value(s),
    decreases s.len() - i,
{
    if i == s.len() {
        assert(s.take(i) =~= s);
    } else {
        lemma_digits_value_step(s, i);
        lemma_all_digits_take(s, i);
        lemma_digits_value_nonneg(s.take(i));
        assert(is_digit_char(s[i]));
        assert(digits_value(s.take(i)) <= digits_value(s.take(i + 1)));
        lemma_digits_value_prefix_le(s, i + 1);
    }
}

/// Accumulate the digits of `s` from position `start` on.  Reports the value
/// exactly when the rest is one or more digits whose value fits in the
/// accumulator.
fn parse_digits(s: &str, start: usize) -> (r: Option<u128>)
    requires
        start as int <= s@.len(),
    ensures
        match r {
            Some(v) => {
                &&& s@.skip(start as int).len() > 0
                &&& all_digits(s@.skip(start as int))
                &&& v as int == digits_value(s@.skip(start as int))
            },
            None => {
                ||| s@.skip(start as int).len() == 0
                ||| !all_digits(s@.skip(start as int))
                ||| digits_value(s@.skip(start as int)) > u128::MAX as int
            },
        },
{
    let ghost body = s@.skip(start as int);
    let n = s.unicode_len();
    if start >= n {
        return None;
    }
    let mut acc: u128 = 0;
    let mut i: usize = start;
    while i < n
        invariant
            n == s@.len(),
            start <= i <= n,
            start < n,
            body == s@.skip(start as int),
            all_digits(body.take(i - start)),
            acc as int == digits_value(body.take(i - start)),
        decreases n - i,
    {
        let c = s.get_char(i);
        let cv: u32 = c as u32;
        proof {
            assert(body[i - start] == s@[i as int]);
        }
        if cv < '0' as u32 || cv > '9' as u32 {
            proof {
                assert(!is_digit_char(body[i - start]));
            }
            return None;
        }
        let d: u128 = (cv - '0' as u32) as u128;
        proof {
            assert(d as int == digit_val(body[i - start]));
            lemma_digits_value_step(body, i - start);
        }
        let next = match acc.checked_mul(10) {
            Some(x) => x.checked_add(d),
            None => None,
        };
        acc = match next {
            Some(y) => y,
            None => {
                proof {
                    if all_digits(body) {
                        lemma_digits_value_prefix_le(body, i - start + 1);
                    }
                }
                return None;
            },
        };
        proof {
            assert(all_digits(body.take(i - start + 1))) by {
                assert forall|j: int| 0 <= j < i - start + 1 implies #[trigger] is_digit_char(
                    body.take(i - start + 1)[j],
                ) by {
                    assert(body.take(i - start + 1)[j] == body[j]);
                    if j < i - start {
                        assert(body.take(i - start)[j] == body[j]);
                    }
                }
            }
        }
        i = i + 1;
    }
    proof {
        assert(body.take(n - start) =~= body);
    }
    Some(acc)
}

/// Parse an unsigned 128-bit integer, strictly.
pub fn parse_u128(s: &str) -> (r: Option<u128>)
    ensures
        match r {
            Some(v) => spec_parse_unsigned(s@) == Some(v as int),
            None => spec_parse_unsigned(s@) is None || spec_parse_unsigned(s@).unwrap()
                > u128::MAX as int,
        },
{
    let n = s.unicode_len();
    let start: usize = if n > 0 && s.get_char(0) == '+' {
        1
    } else {
        0
    };
    proof {
        if start == 0 {
            assert(s@.skip(0) =~= s@);
        }
    }
    parse_digits(s, start)
}

/// Parse a signed 128-bit integer, strictly.
pub fn parse_i128(s: &str) -> (r: Option<i128>)
    ensures
        match r {
            Some(v) => spec_parse_signed(s@) == Some(v as int),
            None => spec_parse_signed(s@) is None || spec_parse_signed(s@).unwrap()
                > i128::MAX as int || spec_parse_signed(s@).unwrap() < i128::MIN as int,
        },
{
    let n = s.unicode_len();
    if n > 0 && s.get_char(0) == '-' {
        match parse_digits(s, 1) {
            Some(mag) => {
                if mag <= i128::MAX as u128 {
                    Some(-(mag as i128))
                } else if mag == i128::MAX as u128 + 1 {
                    Some(i128::MIN)
                } else {
                    None
                }
            },
            None => {
                proof {
                    if spec_parse_signed(s@) is Some {
                        lemma_digits_value_nonneg(s@.skip(1));
                    }
                }
                None
            },
        }
    } else {
        proof {
            if n == 0 || s@[0] != '+' {
                assert(s@.skip(0) =~= s@);
            }
        }
        let start: usize = if n > 0 && s.get_char(0) == '+' {
            1
        } else {
            0
        };
        match parse_digits(s, start) {
            Some(mag) => {
                if mag <= i128::MAX as u128 {
                    Some(mag as i128)
                } else {
                    None
                }
            },
            None => None,
        }
    }
}

} // verus!

