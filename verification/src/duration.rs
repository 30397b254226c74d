//! The requeue interval, parsed from a command-line string: an integer
//! count of seconds, optionally suffixed with `s`, `m` or `h`.
use vstd::prelude::*;

verus! {

/// A duration in whole seconds.
#[derive(Debug, Clone, Copy, PartialEq, Eq, Structural)]
pub struct Duration {
    pub secs: u64,
}

/// The string was not a valid duration, or the count of seconds it names
/// does not fit in 64 bits.
#[derive(Debug, Clone, Copy, PartialEq, Eq, Structural)]
pub struct InvalidDuration;

pub open spec fn is_digit(c: char) -> bool {
    '0' <= c && c <= '9'
}

pub open spec fn digit_val(c: char) -> int {
    (c as u32) - ('0' as u32)
}

pub open spec fn all_digits(s: Seq<char>) -> bool {
    forall|i: int| 0 <= i < s.len() ==> is_digit(#[trigger] s[i])
}

/// The number a digit string denotes.
pub open spec fn digits_val(s: Seq<char>) -> int
    decreases s.len(),
{
    if s.len() == 0 {
        0
    } else {
        digits_val(s.drop_last()) * 10 + digit_val(s.last())
    }
}

/// Seconds per unit suffix; 0 marks an unknown suffix.
pub open spec fn unit_mult(c: char) -> int {
    if c == 's' {
        1
    } else if c == 'm' {
        60
    } else if c == 'h' {
        3600
    } else {
        0
    }
}

/// The count of seconds a duration string denotes: one or more digits,
/// optionally followed by a single unit suffix. `None` for any other form.
pub open spec fn duration_secs_of(s: Seq<char>) -> Option<int> {
    if s.len() == 0 {
        None
    } else if is_digit(s.last()) {
        if all_digits(s) {
            Some(digits_val(s))
        } else {
            None
        }
    } else if unit_mult(s.last()) > 0 && s.len() > 1 && all_digits(s.drop_last()) {
        Some(digits_val(s.drop_last()) * unit_mult(s.last()))
    } else {
        None
    }
}

proof fn lemma_digits_val_nonneg(s: Seq<char>)
    requires
        all_digits(s),
    ensures
        digits_val(s) >= 0,
    decreases s.len(),
{
    if s.len() > 0 {
        lemma_digits_val_nonneg(s.drop_last());
    }
}

/// Extending a digit string never shrinks its value.
proof fn lemma_digits_val_prefix(s: Seq<char>, k: int)
    requires
        all_digits(s),
        0 <= k <= s.len(),
    ensures
        digits_val(s.take(k)) <= digits_val(s),
    decreases s.len() - k,
{
    if k < s.len() {
        lemma_digits_val_prefix(s, k + 1);
        assert(s.take(k + 1).drop_last() =~= s.take(k));
        assert(s.take(k + 1).last() == s[k]);
        lemma_digits_val_nonneg(s.take(k));
        assert(digits_val(s.take(k)) <= digits_val(s.take(k + 1)));
    } else {
        assert(s.take(k) =~= s);
    }
}

impl Duration {
    /// A duration of a whole number of seconds.
    pub fn from_secs(secs: u64) -> (r: Duration)
        ensures
            r.secs == secs,
    {
        Duration { secs }
    }

    /// The duration in whole seconds.
    pub fn as_secs(&self) -> (r: u64)
        ensures
            r == self.secs,
    {
        self.secs
    }

    /// Parse a duration string: digits with an optional trailing `s`, `m`
    /// or `h` unit. Rejects every other form, and any count of seconds
    /// beyond 64 bits.
    pub fn from_str(s: &str) -> (r: Result<Duration, InvalidDuration>)
        ensures
            match r {
                Ok(d) => duration_secs_of(s@) == Some(d.secs as int),
                Err(_) => (match duration_secs_of(s@) {
                    Some(v) => v > u64::MAX,
                    None => true,
                }),
            },
    {
        let n = s.unicode_len();
        if n == 0 {
            return Err(InvalidDuration);
        }
        let last = s.get_char(n - 1);
        let digits_end: usize;
        let mult: u64;
        if '0' <= last && last <= '9' {
            digits_end = n;
            mult = 1;
        } else if last == 's' {
            digits_end = n - 1;
            mult = 1;
        } else if last == 'm' {
            digits_end = n - 1;
            mult = 60;
        } else if last == 'h' {
            digits_end = n - 1;
            mult = 3600;
        } else {
            return Err(InvalidDuration);
        }
        proof {
            if digits_end < n {
                assert(s@.drop_last() =~= s@.take(digits_end as int));
            } else {
                assert(s@ =~= s@.take(digits_end as int));
            }
        }
        if digits_end == 0 {
            return Err(InvalidDuration);
        }
        let ghost digits = s@.take(digits_end as int);
        proof {
            assert(match duration_secs_of(s@) {
                Some(v) => all_digits(digits) && v == digits_val(digits) * mult,
                None => true,
            });
        }
        let mut val: u64 = 0;
        let mut i: usize = 0;
        while i < digits_end
            invariant
                0 <= i <= digits_end <= n,
                n == s@.len(),
                digits == s@.take(digits_end as int),
                mult >= 1,
                (match duration_secs_of(s@) {
                    Some(v) => all_digits(digits) && v == digits_val(digits) * mult,
                    None => true,
                }),
                all_digits(digits.take(i as int)),
                val == digits_val(digits.take(i as int)),
            decreases digits_end - i,
        {
            let c = s.get_char(i);
            if !('0' <= c && c <= '9') {
                assert(!all_digits(digits)) by {
                    assert(digits[i as int] == c);
                }
                return Err(InvalidDuration);
            }
            let d = (c as u32 - '0' as u32) as u64;
            proof {
                assert(digits.take(i + 1).drop_last() =~= digits.take(i as int));
                assert(digits.take(i + 1).last() == digits[i as int]);
                assert(digits[i as int] == c);
            }
            let stepped = match val.checked_mul(10) {
                Some(v) => v.checked_add(d),
                None => None,
            };
            match stepped {
                Some(v) => {
                    val = v;
                },
                None => {
                    proof {
                        assert(digits_val(digits.take(i + 1)) > u64::MAX);
                        if all_digits(digits) {
                            lemma_digits_val_prefix(digits, i + 1);
                            assert(digits_val(digits) * mult > u64::MAX) by (nonlinear_arith)
                                requires
                                    digits_val(digits) > u64::MAX,
                                    mult >= 1,
                            ;
                        }
                    }
                    return Err(InvalidDuration);
                },
            }
            proof {
                assert forall|j: int| 0 <= j < i + 1 implies is_digit(
                    #[trigger] digits.take(i + 1)[j],
                ) by {
                    if j < i {
                        assert(digits.take(i + 1)[j] == digits.take(i as int)[j]);
                    } else {
                        assert(digits.take(i + 1)[j] == c);
                    }
                }
            }
            i += 1;
        }
        proof {
            assert(digits.take(digits_end as int) =~= digits);
        }
        match val.checked_mul(mult) {
            Some(total) => {
                proof {
                    if digits_end < n {
                        assert(duration_secs_of(s@) == Some(digits_val(digits) * mult as int));
                    } else {
                        assert(s@ =~= digits);
                        assert(duration_secs_of(s@) == Some(digits_val(digits)));
                    }
                }
                Ok(Duration { secs: total })
            },
            None => Err(InvalidDuration),
        }
    }
}

} // verus!
