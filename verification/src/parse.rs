//! Parsing of command-line mode arguments of the shape `WIDTHxHEIGHT@RATE`:
//! exactly one `@` splits size from rate, exactly one `x` splits width from
//! height, and each part is a decimal integer. A malformed argument is
//! reported as a parse failure rather than a crash.

use crate::model::HeadModeInput;
use vstd::prelude::*;

verus! {

pub open spec fn is_digit(c: char) -> bool {
    '0' as u32 <= c as u32 && c as u32 <= '9' as u32
}

pub open spec fn digit_val(c: char) -> int {
    c as u32 - '0' as u32
}

pub open spec fn all_digits(s: Seq<char>) -> bool {
    forall|i: int| 0 <= i < s.len() ==> is_digit(#[trigger] s[i])
}

/// The number a digit string denotes, most significant digit first.
pub open spec fn dec_val(s: Seq<char>) -> int
    decreases s.len(),
{
    if s.len() == 0 {
        0
    } else {
        dec_val(s.drop_last()) * 10 + digit_val(s.last())
    }
}

/// A decimal integer literal: digits, optionally preceded by one sign.
pub open spec fn is_int_literal(s: Seq<char>) -> bool {
    if s.len() == 0 {
        false
    } else if s[0] == '+' || s[0] == '-' {
        s.len() > 1 && all_digits(s.skip(1))
    } else {
        all_digits(s)
    }
}

pub open spec fn int_literal_val(s: Seq<char>) -> int {
    if s.len() > 0 && s[0] == '-' {
        -dec_val(s.skip(1))
    } else if s.len() > 0 && s[0] == '+' {
        dec_val(s.skip(1))
    } else {
        dec_val(s)
    }
}

/// The strings `i32::from_str` accepts.
pub open spec fn parses_to_i32(s: Seq<char>) -> bool {
    is_int_literal(s) && i32::MIN <= int_literal_val(s) <= i32::MAX
}

proof fn lemma_dec_val_nonneg(s: Seq<char>)
    requires
        all_digits(s),
    ensures
        dec_val(s) >= 0,
    decreases s.len(),
{
    if s.len() > 0 {
        assert(all_digits(s.drop_last())) by {
            assert(forall|i: int| 0 <= i < s.len() - 1 ==> s.drop_last()[i] == s[i]);
        }
        lemma_dec_val_nonneg(s.drop_last());
    }
}

/// A digit string is worth at least any of its prefixes.
proof fn lemma_dec_val_prefix(s: Seq<char>, k: int)
    requires
        all_digits(s),
        0 <= k <= s.len(),
    ensures
        dec_val(s.take(k)) <= dec_val(s),
    decreases s.len() - k,
{
    if k < s.len() {
        let t = s.take(k + 1);
        assert(t.drop_last() =~= s.take(k));
        assert(all_digits(t)) by {
            assert(forall|i: int| 0 <= i < t.len() ==> t[i] == s[i]);
        }
        assert(dec_val(t) == dec_val(s.take(k)) * 10 + digit_val(s[k]));
        assert(all_digits(s.take(k))) by {
            assert(forall|i: int| 0 <= i < k ==> s.take(k)[i] == s[i]);
        }
        lemma_dec_val_nonneg(s.take(k));
        assert(dec_val(s.take(k)) <= dec_val(t));
        lemma_dec_val_prefix(s, k + 1);
        assert(s.take(s.len() as int) =~= s);
    } else {
        assert(s.take(k) =~= s);
    }
}

/// Parse a decimal i32, exactly as the specification functions describe.
pub fn parse_i32(s: &str) -> (r: Option<i32>)
    ensures
        r == (if parses_to_i32(s@) {
            Some(int_literal_val(s@) as i32)
        } else {
            None::<i32>
        }),
{
    let n = s.unicode_len();
    if n == 0 {
        return None;
    }
    let first = s.get_char(0);
    let neg = first == '-';
    let has_sign = neg || first == '+';
    let start: usize = if has_sign {
        1
    } else {
        0
    };
    if n == start {
        return None;
    }
    let limit: u64 = if neg {
        2147483648
    } else {
        2147483647
    };
    let ghost digits = s@.skip(start as int);
    let mut acc: u64 = 0;
    let mut i: usize = start;
    while i < n
        invariant
            digits == s@.skip(start as int),
            n == s@.len(),
            start <= i <= n,
            start <= 1,
            n > start,
            has_sign == (s@[0] == '+' || s@[0] == '-'),
            neg == (s@[0] == '-'),
            start == if has_sign {
                1usize
            } else {
                0usize
            },
            limit == if neg {
                2147483648u64
            } else {
                2147483647u64
            },
            acc <= limit,
            all_digits(s@.subrange(start as int, i as int)),
            acc == dec_val(s@.subrange(start as int, i as int)),
        decreases n - i,
    {
        let c = s.get_char(i);
        let d = c as u32;
        if d < 48 || d > 57 {
            proof {
                assert(!is_digit(s@[i as int]));
                if is_int_literal(s@) {
                    if !has_sign {
                        assert(digits =~= s@);
                    }
                    assert(all_digits(digits));
                    assert(digits[i - start] == s@[i as int]);
                    assert(is_digit(digits[i - start]));
                }
            }
            return None;
        }
        proof {
            assert(s@.subrange(start as int, i as int + 1).drop_last() =~= s@.subrange(
                start as int,
                i as int,
            ));
            assert(s@.subrange(start as int, i as int + 1).last() == s@[i as int]);
            assert forall|t: int|
                0 <= t < i as int + 1 - start implies is_digit(
                #[trigger] s@.subrange(start as int, i as int + 1)[t],
            ) by {
                if t < i as int - start {
                    assert(s@.subrange(start as int, i as int + 1)[t] == s@.subrange(
                        start as int,
                        i as int,
                    )[t]);
                }
            }
        }
        acc = acc * 10 + (d - 48) as u64;
        i += 1;
        if acc > limit {
            proof {
                let done = s@.subrange(start as int, i as int);
                if is_int_literal(s@) {
                    if !has_sign {
                        assert(digits =~= s@);
                    }
                    assert(all_digits(digits));
                    assert(done =~= digits.take(i as int - start));
                    lemma_dec_val_prefix(digits, i as int - start);
                    assert(dec_val(digits) >= acc > limit);
                    if neg {
                        assert(int_literal_val(s@) == -dec_val(digits));
                        assert(int_literal_val(s@) < i32::MIN);
                    } else {
                        assert(int_literal_val(s@) == dec_val(digits));
                        assert(int_literal_val(s@) > i32::MAX);
                    }
                }
            }
            return None;
        }
    }
    proof {
        assert(s@.subrange(start as int, n as int) =~= digits);
        assert(all_digits(digits));
        assert(acc == dec_val(digits));
        if has_sign {
            assert(s@[0] == '+' || s@[0] == '-');
            assert(is_int_literal(s@));
        } else {
            assert(!(s@[0] == '+' || s@[0] == '-'));
            assert(digits =~= s@);
            assert(is_int_literal(s@));
        }
    }
    if neg {
        let v: i64 = -(acc as i64);
        proof {
            assert(int_literal_val(s@) == -dec_val(digits));
            assert(i32::MIN <= v <= i32::MAX);
        }
        Some(v as i32)
    } else {
        proof {
            assert(int_literal_val(s@) == dec_val(digits));
        }
        Some(acc as i32)
    }
}

/// `c` occurs in `s` exactly once, at index `i`.
pub open spec fn sep_at(s: Seq<char>, c: char, i: int) -> bool {
    &&& 0 <= i < s.len()
    &&& s[i] == c
    &&& forall|j: int| 0 <= j < s.len() && j != i ==> s[j] != c
}

/// Splitting `s` on a separator yields exactly two parts iff the separator
/// occurs exactly once; the parts are what stands before and after it.
pub open spec fn split2(s: Seq<char>, c: char) -> Option<(Seq<char>, Seq<char>)> {
    if exists|i: int| sep_at(s, c, i) {
        let i = choose|i: int| sep_at(s, c, i);
        Some((s.take(i), s.skip(i + 1)))
    } else {
        None
    }
}

/// The mode a `WIDTHxHEIGHT@RATE` argument denotes, if it is well-formed.
pub open spec fn parse_mode_spec(s: Seq<char>) -> Option<HeadModeInput> {
    match split2(s, '@') {
        None => None,
        Some((size, rate)) => match split2(size, 'x') {
            None => None,
            Some((width, height)) => if parses_to_i32(width) && parses_to_i32(height)
                && parses_to_i32(rate) {
                Some(
                    HeadModeInput {
                        width: int_literal_val(width) as i32,
                        height: int_literal_val(height) as i32,
                        rate: int_literal_val(rate) as i32,
                    },
                )
            } else {
                None
            },
        },
    }
}

/// Index of the single occurrence of `c` in `s[from..to]`, if there is
/// exactly one.
fn unique_char_in(s: &str, from: usize, to: usize, c: char) -> (r: Option<usize>)
    requires
        from <= to <= s@.len(),
    ensures
        match r {
            Some(i) => from <= i < to && sep_at(s@.subrange(from as int, to as int), c, i - from),
            None => !exists|i: int| sep_at(s@.subrange(from as int, to as int), c, i),
        },
{
    let ghost u = s@.subrange(from as int, to as int);
    let mut found: Option<usize> = None;
    let mut j: usize = from;
    while j < to
        invariant
            u == s@.subrange(from as int, to as int),
            from <= j <= to <= s@.len(),
            match found {
                Some(i) => from <= i < j && u[i - from] == c && (forall|t: int|
                    0 <= t < j - from && t != i - from ==> u[t] != c),
                None => forall|t: int| 0 <= t < j - from ==> u[t] != c,
            },
        decreases to - j,
    {
        if s.get_char(j) == c {
            proof {
                assert(u[j - from] == s@[j as int]);
            }
            match found {
                Some(i) => {
                    proof {
                        let gi = i - from;
                        let gj = j - from;
                        assert(u[gi] == c && u[gj] == c && gi != gj);
                        assert forall|t: int| !sep_at(u, c, t) by {
                            if sep_at(u, c, t) {
                                if t != gi {
                                    assert(u[gi] != c);
                                } else {
                                    assert(u[gj] != c);
                                }
                            }
                        }
                    }
                    return None;
                },
                None => {
                    found = Some(j);
                },
            }
        }
        j += 1;
    }
    match found {
        Some(i) => {
            proof {
                assert(sep_at(u, c, i - from));
            }
            Some(i)
        },
        None => {
            proof {
                assert forall|t: int| !sep_at(u, c, t) by {
                    if sep_at(u, c, t) {
                        assert(u[t] == c);
                    }
                }
            }
            None
        },
    }
}

proof fn lemma_sep_at_unique(s: Seq<char>, c: char, i: int, j: int)
    requires
        sep_at(s, c, i),
        sep_at(s, c, j),
    ensures
        i == j,
{
    if i != j {
        assert(s[j] != c);
    }
}

/// Parser for mode arguments on the command line.
#[derive(Clone, Copy, Debug)]
pub struct DisplayModeParser {}

impl DisplayModeParser {
    /// Parse `WIDTHxHEIGHT@RATE`. Exactly the well-formed arguments produce
    /// a value; anything else — a missing or repeated separator, a part that
    /// is not an integer or does not fit — is rejected.
    pub fn parse_ref(&self, value: &str) -> (r: Option<HeadModeInput>)
        ensures
            r == parse_mode_spec(value@),
    {
        let n = value.unicode_len();
        proof {
            assert(value@.subrange(0, n as int) =~= value@);
        }
        let at = match unique_char_in(value, 0, n, '@') {
            None => {
                proof {
                    assert(!exists|i: int| sep_at(value@, '@', i));
                }
                return None;
            },
            Some(i) => i,
        };
        proof {
            assert(sep_at(value@, '@', at as int));
            let ci = choose|i: int| sep_at(value@, '@', i);
            lemma_sep_at_unique(value@, '@', ci, at as int);
        }
        let ghost size = value@.take(at as int);
        let ghost rate = value@.skip(at as int + 1);
        proof {
            assert(size =~= value@.subrange(0, at as int));
        }
        let x = match unique_char_in(value, 0, at, 'x') {
            None => {
                proof {
                    assert(!exists|i: int| sep_at(size, 'x', i));
                }
                return None;
            },
            Some(i) => i,
        };
        proof {
            assert(sep_at(size, 'x', x as int));
            let cj = choose|j: int| sep_at(size, 'x', j);
            lemma_sep_at_unique(size, 'x', cj, x as int);
            assert(size.take(x as int) =~= value@.subrange(0, x as int));
            assert(size.skip(x as int + 1) =~= value@.subrange(x as int + 1, at as int));
            assert(rate =~= value@.subrange(at as int + 1, n as int));
        }
        let width_part = value.substring_char(0, x);
        let height_part = value.substring_char(x + 1, at);
        let rate_part = value.substring_char(at + 1, n);
        let width = match parse_i32(width_part) {
            None => {
                return None;
            },
            Some(v) => v,
        };
        let height = match parse_i32(height_part) {
            None => {
                return None;
            },
            Some(v) => v,
        };
        let rate_v = match parse_i32(rate_part) {
            None => {
                return None;
            },
            Some(v) => v,
        };
        Some(HeadModeInput { width: width, height: height, rate: rate_v })
    }
}

} // verus!
