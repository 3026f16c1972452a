use vstd::prelude::*;

verus! {

pub open spec fn is_digit(c: char) -> bool {
    '0' <= c && c <= '9'
}

pub open spec fn all_digits(d: Seq<char>) -> bool {
    forall|k: int| 0 <= k < d.len() ==> is_digit(#[trigger] d[k])
}

/// The decimal value of a sequence of digits.
pub open spec fn digits_value(d: Seq<char>) -> nat
    decreases d.len(),
{
    if d.len() == 0 {
        0
    } else {
        digits_value(d.drop_last()) * 10 + ((d.last() as u32) - 48) as nat
    }
}

/// An optional leading `+` or `-`, and the rest.
pub open spec fn sign_split(s: Seq<char>) -> (bool, Seq<char>) {
    if s.len() > 0 && s[0] == '-' {
        (true, s.drop_first())
    } else if s.len() > 0 && s[0] == '+' {
        (false, s.drop_first())
    } else {
        (false, s)
    }
}

/// What `str::parse::<i64>` gives: an optional sign, then at least one digit, in range.
pub open spec fn parsed_i64(s: Seq<char>) -> Option<i64> {
    let (neg, d) = sign_split(s);
    if d.len() == 0 || !all_digits(d) {
        None
    } else {
        let v: int = if neg {
            -(digits_value(d) as int)
        } else {
            digits_value(d) as int
        };
        if i64::MIN <= v && v <= i64::MAX {
            Some(v as i64)
        } else {
            None
        }
    }
}

/// What `str::parse::<u32>` gives: an optional `+`, then at least one digit, in range.
pub open spec fn parsed_u32(s: Seq<char>) -> Option<u32> {
    let (neg, d) = sign_split(s);
    if neg || d.len() == 0 || !all_digits(d) {
        None
    } else if digits_value(d) <= u32::MAX {
        Some(digits_value(d) as u32)
    } else {
        None
    }
}

/// What `str::parse::<bool>` gives: only `true` and `false` are booleans.
pub open spec fn parsed_bool(s: Seq<char>) -> Option<bool> {
    if s == "true"@ {
        Some(true)
    } else if s == "false"@ {
        Some(false)
    } else {
        None
    }
}

pub proof fn lemma_digits_value_prefix(d: Seq<char>, i: int)
    requires
        0 <= i <= d.len(),
    ensures
        digits_value(d) >= digits_value(d.take(i)),
    decreases d.len(),
{
    if i < d.len() {
        lemma_digits_value_prefix(d.drop_last(), i);
        assert(d.drop_last().take(i) =~= d.take(i));
    } else {
        assert(d.take(i) =~= d);
    }
}

/// The value of the digits of `s` from `start` on, if all are digits and the value fits in
/// a `u64`; `None` otherwise, and then the digits are not all digits or their value exceeds
/// `u64::MAX`.
fn digits_u64(s: &Vec<char>, start: usize) -> (r: Option<u64>)
    requires
        start <= s@.len(),
    ensures
        r matches Some(v) ==> all_digits(s@.subrange(start as int, s@.len() as int)) && v
            == digits_value(s@.subrange(start as int, s@.len() as int)),
        r is None ==> !all_digits(s@.subrange(start as int, s@.len() as int)) || digits_value(
            s@.subrange(start as int, s@.len() as int),
        ) > u64::MAX,
{
    let mut acc: u64 = 0;
    let mut i: usize = start;
    while i < s.len()
        invariant
            start <= i <= s@.len(),
            all_digits(s@.subrange(start as int, i as int)),
            acc == digits_value(s@.subrange(start as int, i as int)),
        decreases s@.len() - i,
    {
        let c = s[i];
        let ghost whole = s@.subrange(start as int, s@.len() as int);
        if !('0' <= c && c <= '9') {
            proof {
                assert(whole[i - start] == c);
            }
            return None;
        }
        let d: u64 = (c as u32 - 48) as u64;
        proof {
            assert(s@.subrange(start as int, i + 1).drop_last() =~= s@.subrange(
                start as int,
                i as int,
            ));
        }
        if acc > (u64::MAX - d) / 10 {
            proof {
                if all_digits(whole) {
                    assert(whole.take(i + 1 - start) =~= s@.subrange(start as int, i + 1));
                    lemma_digits_value_prefix(whole, i + 1 - start);
                    assert(acc * 10 + d > u64::MAX) by (nonlinear_arith)
                        requires
                            acc > (u64::MAX - d) / 10,
                            d <= 9,
                    ;
                }
            }
            return None;
        }
        assert(acc * 10 + d <= u64::MAX) by (nonlinear_arith)
            requires
                acc <= (u64::MAX - d) / 10,
                d <= 9,
        ;
        acc = acc * 10 + d;
        i = i + 1;
    }
    Some(acc)
}

/// `str::parse::<i64>` on the characters of a string.
pub fn parse_i64(s: &Vec<char>) -> (r: Option<i64>)
    ensures
        r == parsed_i64(s@),
{
    let mut neg = false;
    let mut start: usize = 0;
    if s.len() > 0 && s[0] == '-' {
        neg = true;
        start = 1;
    } else if s.len() > 0 && s[0] == '+' {
        start = 1;
    }
    proof {
        assert(s@.subrange(start as int, s@.len() as int) =~= sign_split(s@).1);
    }
    if start == s.len() {
        return None;
    }
    match digits_u64(s, start) {
        None => None,
        Some(v) => {
            if neg {
                if v <= 9223372036854775808 {
                    if v == 9223372036854775808 {
                        Some(i64::MIN)
                    } else {
                        Some(-(v as i64))
                    }
                } else {
                    None
                }
            } else if v <= 9223372036854775807 {
                Some(v as i64)
            } else {
                None
            }
        },
    }
}

/// `str::parse::<u32>` on the characters of a string.
pub fn parse_u32(s: &Vec<char>) -> (r: Option<u32>)
    ensures
        r == parsed_u32(s@),
{
    let mut start: usize = 0;
    if s.len() > 0 && s[0] == '-' {
        return None;
    } else if s.len() > 0 && s[0] == '+' {
        start = 1;
    }
    proof {
        assert(s@.subrange(start as int, s@.len() as int) =~= sign_split(s@).1);
    }
    if start == s.len() {
        return None;
    }
    match digits_u64(s, start) {
        None => None,
        Some(v) => {
            if v <= 4294967295 {
                Some(v as u32)
            } else {
                None
            }
        },
    }
}

/// `str::parse::<bool>` on the characters of a string.
pub fn parse_bool(s: &Vec<char>) -> (r: Option<bool>)
    ensures
        r == parsed_bool(s@),
{
    proof {
        reveal_strlit("true");
        reveal_strlit("false");
    }
    let t = crate::strutil::str_chars("true");
    let f = crate::strutil::str_chars("false");
    if crate::strutil::chars_eq(s, &t) {
        Some(true)
    } else if crate::strutil::chars_eq(s, &f) {
        Some(false)
    } else {
        None
    }
}


/// What `str::parse::<u64>` gives: an optional `+`, then at least one digit, in range.
pub open spec fn parsed_u64(s: Seq<char>) -> Option<u64> {
    let (neg, d) = sign_split(s);
    if neg || d.len() == 0 || !all_digits(d) {
        None
    } else if digits_value(d) <= u64::MAX {
        Some(digits_value(d) as u64)
    } else {
        None
    }
}

/// `str::parse::<u64>` on the characters of a string.
pub fn parse_u64(s: &Vec<char>) -> (r: Option<u64>)
    ensures
        r == parsed_u64(s@),
{
    let mut start: usize = 0;
    if s.len() > 0 && s[0] == '-' {
        return None;
    } else if s.len() > 0 && s[0] == '+' {
        start = 1;
    }
    proof {
        assert(s@.subrange(start as int, s@.len() as int) =~= sign_split(s@).1);
    }
    if start == s.len() {
        return None;
    }
    digits_u64(s, start)
}

} // verus!
