use vstd::prelude::*;
use vstd::string::StrSliceExecFns;

verus! {

/// An ASCII whitespace character; the duration fields of the schedule
/// export separate their number from the unit with one of these.
pub open spec fn is_space(c: char) -> bool {
    c == ' ' || c == '\t' || c == '\n' || c == '\u{c}' || c == '\r'
}

/// An ASCII decimal digit.
pub open spec fn is_digit(c: char) -> bool {
    '0' <= c && c <= '9'
}

/// The numeric value of a decimal digit.
pub open spec fn digit_val(c: char) -> int {
    c as int - '0' as int
}

/// The number of leading whitespace characters.
pub open spec fn space_prefix_len(cs: Seq<char>) -> int
    decreases cs.len(),
{
    if cs.len() == 0 {
        0
    } else if is_space(cs[0]) {
        1 + space_prefix_len(cs.drop_first())
    } else {
        0
    }
}

/// The length of the leading run of non-whitespace characters.
pub open spec fn token_prefix_len(cs: Seq<char>) -> int
    decreases cs.len(),
{
    if cs.len() == 0 {
        0
    } else if !is_space(cs[0]) {
        1 + token_prefix_len(cs.drop_first())
    } else {
        0
    }
}

/// The first whitespace-separated token of a field, possibly empty.
pub open spec fn first_token(cs: Seq<char>) -> Seq<char> {
    let rest = cs.skip(space_prefix_len(cs));
    rest.take(token_prefix_len(rest))
}

/// The value of a run of decimal digits, or nothing if the run is empty
/// or holds any other character.
pub open spec fn parse_digits(ds: Seq<char>) -> Option<int>
    decreases ds.len(),
{
    if ds.len() == 0 {
        None
    } else if ds.len() == 1 {
        if is_digit(ds[0]) {
            Some(digit_val(ds[0]))
        } else {
            None
        }
    } else {
        match parse_digits(ds.drop_last()) {
            Some(v) => if is_digit(ds.last()) {
                Some(v * 10 + digit_val(ds.last()))
            } else {
                None
            },
            None => None,
        }
    }
}

/// The signed 32-bit value of a token, read the way `str::parse::<i32>`
/// reads it: an optional sign, then decimal digits, nothing else, and the
/// value in range.
pub open spec fn parse_i32(tok: Seq<char>) -> Option<i32> {
    let negative = tok.len() > 0 && tok[0] == '-';
    let digits = if tok.len() > 0 && (tok[0] == '-' || tok[0] == '+') {
        tok.drop_first()
    } else {
        tok
    };
    match parse_digits(digits) {
        Some(v) => {
            let sv = if negative {
                -v
            } else {
                v
            };
            if i32::MIN <= sv <= i32::MAX {
                Some(sv as i32)
            } else {
                None
            }
        },
        None => None,
    }
}

/// The number of days a duration field holds: the value of its first
/// whitespace-separated token ("30 days" holds 30), or nothing when the
/// field has no token or its first token is not a plain integer.
pub open spec fn days_of_field(cs: Seq<char>) -> Option<i32> {
    parse_i32(first_token(cs))
}

pub(crate) proof fn lemma_parse_digits_bad(ds: Seq<char>, j: int)
    requires
        0 <= j < ds.len(),
        !is_digit(ds[j]),
    ensures
        parse_digits(ds) is None,
    decreases ds.len(),
{
    if ds.len() > 1 && j < ds.len() - 1 {
        assert(ds.drop_last()[j] == ds[j]);
        lemma_parse_digits_bad(ds.drop_last(), j);
    }
}

pub(crate) proof fn lemma_parse_digits_some(ds: Seq<char>, k: int)
    requires
        1 <= k <= ds.len(),
        forall|j: int| 0 <= j < ds.len() ==> is_digit(#[trigger] ds[j]),
    ensures
        parse_digits(ds.take(k)) is Some,
        parse_digits(ds.take(k))->0 >= 0,
    decreases k,
{
    if k == 1 {
        assert(ds.take(1)[0] == ds[0]);
    } else {
        lemma_parse_digits_some(ds, k - 1);
        assert(ds.take(k).drop_last() =~= ds.take(k - 1));
        assert(ds.take(k).last() == ds[k - 1]);
    }
}

pub(crate) proof fn lemma_parse_digits_grow(ds: Seq<char>, k: int)
    requires
        1 <= k <= ds.len(),
        forall|j: int| 0 <= j < ds.len() ==> is_digit(#[trigger] ds[j]),
    ensures
        parse_digits(ds) is Some,
        parse_digits(ds)->0 >= parse_digits(ds.take(k))->0,
    decreases ds.len() - k,
{
    lemma_parse_digits_some(ds, k);
    if k == ds.len() {
        assert(ds.take(k) =~= ds);
    } else {
        lemma_parse_digits_grow(ds, k + 1);
        lemma_parse_digits_some(ds, k + 1);
        assert(ds.take(k + 1).drop_last() =~= ds.take(k));
        assert(ds.take(k + 1).last() == ds[k]);
    }
}

fn is_space_char(c: char) -> (r: bool)
    ensures
        r == is_space(c),
{
    c == ' ' || c == '\t' || c == '\n' || c == '\u{c}' || c == '\r'
}

fn digit_value(c: char) -> (d: i64)
    requires
        is_digit(c),
    ensures
        0 <= d <= 9,
        d as int == digit_val(c),
{
    ((c as u32) - 48) as i64
}

/// Reads the number of days from a duration field such as "30 days": the
/// first whitespace-separated token, parsed as a signed 32-bit integer.
/// Nothing is returned when the field has no token or the token is not a
/// plain integer; the import layer turns that into its own record error.
#[verifier::loop_isolation(false)]
#[verifier::rlimit(100)]
pub fn parse_days(s: &str) -> (r: Option<i32>)
    ensures
        r == days_of_field(s@),
{
    let ghost cs = s@;
    let len = s.unicode_len();
    proof {
        assert(cs.skip(0) =~= cs);
    }

    // skip the leading whitespace
    let mut w: usize = 0;
    while w < len && is_space_char(s.get_char(w))
        invariant
            len == cs.len(),
            cs == s@,
            w <= len,
            space_prefix_len(cs) == w + space_prefix_len(cs.skip(w as int)),
        decreases len - w,
    {
        proof {
            assert(cs.skip(w as int)[0] == cs[w as int]);
            assert(cs.skip(w as int).drop_first() =~= cs.skip(w as int + 1));
        }
        w += 1;
    }
    proof {
        if w < len {
            assert(cs.skip(w as int)[0] == cs[w as int]);
        }
        assert(space_prefix_len(cs) == w as int);
    }

    // measure the token
    let mut t: usize = w;
    while t < len && !is_space_char(s.get_char(t))
        invariant
            len == cs.len(),
            cs == s@,
            w <= t <= len,
            token_prefix_len(cs.skip(w as int)) == (t - w) + token_prefix_len(cs.skip(t as int)),
        decreases len - t,
    {
        proof {
            assert(cs.skip(t as int)[0] == cs[t as int]);
            assert(cs.skip(t as int).drop_first() =~= cs.skip(t as int + 1));
        }
        t += 1;
    }
    proof {
        if t < len {
            assert(cs.skip(t as int)[0] == cs[t as int]);
        }
        assert(token_prefix_len(cs.skip(w as int)) == t - w);
        assert(first_token(cs) =~= cs.subrange(w as int, t as int));
    }
    let ghost tok = first_token(cs);

    if t == w {
        return None;
    }

    // the sign, if any
    let first_c = s.get_char(w);
    proof {
        assert(tok[0] == cs[w as int]);
    }
    let negative = first_c == '-';
    let j: usize = if first_c == '-' || first_c == '+' {
        w + 1
    } else {
        w
    };
    let ghost digits = if first_c == '-' || first_c == '+' {
        tok.drop_first()
    } else {
        tok
    };
    proof {
        assert(digits =~= cs.subrange(j as int, t as int));
    }
    if j == t {
        return None;
    }

    // the digits, left to right
    let mut acc: i64 = 0;
    let mut k: usize = j;
    while k < t
        invariant
            len == cs.len(),
            cs == s@,
            j < t <= len,
            j <= k <= t,
            digits == cs.subrange(j as int, t as int),
            forall|m: int| 0 <= m < k - j ==> is_digit(#[trigger] digits[m]),
            k > j ==> parse_digits(digits.take(k as int - j as int)) == Some(acc as int),
            k == j ==> acc == 0,
            0 <= acc,
            k < t ==> acc <= 2147483648i64,
        decreases t - k,
    {
        let c = s.get_char(k);
        proof {
            assert(digits[k as int - j as int] == cs[k as int]);
        }
        if !(c >= '0' && c <= '9') {
            proof {
                assert(!is_digit(digits[k as int - j as int]));
                lemma_parse_digits_bad(digits, k as int - j as int);
                assert(parse_digits(digits) is None);
                assert(tok.len() > 0);
                assert(tok[0] == first_c);
                assert(parse_i32(tok) is None);
            }
            return None;
        }
        let d = digit_value(c);
        acc = acc * 10 + d;
        proof {
            let m = k as int - j as int;
            assert(digits.take(m + 1).drop_last() =~= digits.take(m));
            assert(digits.take(m + 1).last() == digits[m]);
            if m == 0 {
                assert(digits.take(1)[0] == digits[0]);
            }
        }
        k += 1;
        proof {
            assert(parse_digits(digits.take(k as int - j as int)) == Some(acc as int));
        }
        if acc > 2147483648i64 {
            if k < t {
                proof {
                    assert(tok.len() > 0);
                    assert(tok[0] == first_c);
                    if forall|m: int| 0 <= m < digits.len() ==> is_digit(#[trigger] digits[m]) {
                        lemma_parse_digits_grow(digits, k as int - j as int);
                        assert(parse_digits(digits)->0 >= acc as int);
                        assert(parse_i32(tok) is None);
                    } else {
                        let m = choose|m: int|
                            0 <= m < digits.len() && !is_digit(#[trigger] digits[m]);
                        lemma_parse_digits_bad(digits, m);
                        assert(parse_i32(tok) is None);
                    }
                }
                return None;
            }
        }
    }
    proof {
        assert(digits.take(t as int - j as int) =~= digits);
    }

    // the range check, with the sign applied
    let sv: i64 = if negative {
        -acc
    } else {
        acc
    };
    if sv >= -2147483648i64 && sv <= 2147483647i64 {
        Some(sv as i32)
    } else {
        None
    }
}

} // verus!
