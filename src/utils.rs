use vstd::prelude::*;

verus! {

/// Whether `c` is an ASCII decimal digit.
pub open spec fn is_digit(c: char) -> bool {
    '0' <= c && c <= '9'
}

/// The numeric value of the decimal digits in `s` (most significant first).
pub open spec fn digits_value(s: Seq<char>) -> int
    decreases s.len(),
{
    if s.len() == 0 {
        0
    } else {
        digits_value(s.drop_last()) * 10 + (s.last() as int - '0' as int)
    }
}

/// The digits of an unsigned decimal literal: an optional leading `+` is dropped.
pub open spec fn unsigned_body(s: Seq<char>) -> Seq<char> {
    if s.len() > 0 && s[0] == '+' {
        s.drop_first()
    } else {
        s
    }
}

/// The value of `s` read as an unsigned decimal integer that fits in a `u64`:
/// an optional `+`, then one or more digits.
pub open spec fn parse_u64_spec(s: Seq<char>) -> Option<int> {
    let b = unsigned_body(s);
    if b.len() > 0 && (forall|i: int| 0 <= i < b.len() ==> is_digit(#[trigger] b[i]))
        && digits_value(b) <= u64::MAX {
        Some(digits_value(b))
    } else {
        None
    }
}

/// Seconds in one unit of a duration suffix (`s`, `m`, `h`, `d`, `w`).
pub open spec fn unit_seconds(c: char) -> Option<int> {
    if c == 's' {
        Some(1)
    } else if c == 'm' {
        Some(60)
    } else if c == 'h' {
        Some(3600)
    } else if c == 'd' {
        Some(86400)
    } else if c == 'w' {
        Some(604800)
    } else {
        None
    }
}

/// The number of seconds a duration string such as `"30m"` or `"7d"` denotes:
/// an unsigned integer followed by one unit character; `None` when malformed
/// or when the total does not fit in a `u64`.
pub open spec fn duration_secs(s: Seq<char>) -> Option<int> {
    if s.len() < 2 {
        None
    } else {
        match (parse_u64_spec(s.drop_last()), unit_seconds(s.last())) {
            (Some(n), Some(f)) => if n * f <= u64::MAX {
                Some(n * f)
            } else {
                None
            },
            _ => None,
        }
    }
}

proof fn lemma_digits_value_nonneg(s: Seq<char>)
    requires
        forall|i: int| 0 <= i < s.len() ==> is_digit(#[trigger] s[i]),
    ensures
        digits_value(s) >= 0,
    decreases s.len(),
{
    if s.len() > 0 {
        lemma_digits_value_nonneg(s.drop_last());
    }
}

/// Once a prefix of digits exceeds the `u64` range, every longer run of
/// digits does too.
proof fn lemma_digits_value_grows(s: Seq<char>, k: int)
    requires
        0 <= k <= s.len(),
        forall|i: int| 0 <= i < s.len() ==> is_digit(#[trigger] s[i]),
    ensures
        digits_value(s.subrange(0, k)) <= digits_value(s),
    decreases s.len() - k,
{
    if k < s.len() {
        lemma_digits_value_grows(s, k + 1);
        let t = s.subrange(0, k + 1);
        assert(t.drop_last() =~= s.subrange(0, k));
        assert(t.last() == s[k]);
        lemma_digits_value_nonneg(s.subrange(0, k));
    } else {
        assert(s.subrange(0, k) =~= s);
    }
}

/// The error reported when the digits `b` are read from position `i` on,
/// with `acc` the value of those before it: the first character that is not a
/// digit, or the first digit that takes the value past `u64::MAX`.
pub open spec fn scan_error(b: Seq<char>, i: int, acc: int) -> Option<Seq<char>>
    decreases b.len() - i,
{
    if i < 0 || i >= b.len() {
        None
    } else if !is_digit(b[i]) {
        Some("invalid digit found in string"@)
    } else if acc * 10 + (b[i] as int - '0' as int) > u64::MAX {
        Some("number too large to fit in target type"@)
    } else {
        scan_error(b, i + 1, acc * 10 + (b[i] as int - '0' as int))
    }
}

/// The message with which reading `s` as a `u64` fails.
pub open spec fn u64_error(s: Seq<char>) -> Seq<char> {
    let b = unsigned_body(s);
    if b.len() == 0 {
        "cannot parse integer from empty string"@
    } else {
        match scan_error(b, 0, 0) {
            Some(m) => m,
            None => Seq::empty(),
        }
    }
}

/// Reads `s` as an unsigned decimal integer in the way `u64::from_str` does:
/// an optional `+`, then digits only.
pub fn parse_u64(s: &str) -> (r: Result<u64, String>)
    ensures
        parse_u64_spec(s@) is Some <==> r is Ok,
        r is Ok ==> r->Ok_0 as int == parse_u64_spec(s@)->Some_0,
        r matches Err(m) ==> m@ == u64_error(s@),
{
    let len = s.unicode_len();
    let mut start: usize = 0;
    if len > 0 && s.get_char(0) == '+' {
        start = 1;
    }
    let ghost body = unsigned_body(s@);
    assert(body =~= s@.subrange(start as int, len as int));
    if start == len {
        return Err(String::from_str("cannot parse integer from empty string"));
    }
    let mut acc: u64 = 0;
    let mut i: usize = start;
    while i < len
        invariant
            start <= i <= len,
            len == s@.len(),
            body =~= s@.subrange(start as int, len as int),
            body == unsigned_body(s@),
            forall|j: int| 0 <= j < i - start ==> is_digit(#[trigger] body[j]),
            acc as int == digits_value(body.subrange(0, i - start)),
            body.len() > 0 ==> scan_error(body, 0, 0) == scan_error(body, i - start, acc as int),
        decreases len - i,
    {
        let c = s.get_char(i);
        if !('0' <= c && c <= '9') {
            assert(body[i - start] == c);
            assert(!is_digit(body[i - start]));
            assert(!(forall|j: int| 0 <= j < body.len() ==> is_digit(#[trigger] body[j])));
            return Err(String::from_str("invalid digit found in string"));
        }
        let d = (c as u32 - '0' as u32) as u64;
        let ghost pre = body.subrange(0, i - start);
        let ghost next = body.subrange(0, i + 1 - start);
        assert(next.drop_last() =~= pre);
        assert(next.last() == c);
        if acc > (u64::MAX - d) / 10 {
            proof {
                let m = (u64::MAX - d) as int;
                assert(acc as int * 10 + d as int > u64::MAX) by (nonlinear_arith)
                    requires
                        acc as int > m / 10,
                        m == u64::MAX - d,
                        0 <= d <= 9,
                ;
                assert(digits_value(next) == acc as int * 10 + d as int);
                if forall|j: int| 0 <= j < body.len() ==> is_digit(#[trigger] body[j]) {
                    lemma_digits_value_grows(body, i + 1 - start);
                }
            }
            return Err(String::from_str("number too large to fit in target type"));
        }
        acc = acc * 10 + d;
        i = i + 1;
    }
    proof {
        if scan_error(body, 0, 0) is Some {
            assert(scan_error(body, (len - start) as int, acc as int) is None);
        }
    }
    assert(body.subrange(0, len - start) =~= body);
    Ok(acc)
}

/// The message with which reading the duration `s` fails.
pub open spec fn duration_error(s: Seq<char>) -> Seq<char> {
    if s.len() < 2 {
        "Invalid duration format"@
    } else if parse_u64_spec(s.drop_last()) is None {
        u64_error(s.drop_last())
    } else if unit_seconds(s.last()) is None {
        "Invalid duration unit"@
    } else {
        "Duration is too large"@
    }
}

/// Parses a duration such as `"90s"`, `"30m"`, `"12h"`, `"7d"` or `"2w"` into
/// seconds. Fails on a string shorter than two characters, on a count that is
/// not an unsigned integer, on an unknown unit, and on a total that does not
/// fit in a `u64`.
pub fn parse_duration(s: &str) -> (r: Result<u64, String>)
    ensures
        duration_secs(s@) is Some <==> r is Ok,
        r is Ok ==> r->Ok_0 as int == duration_secs(s@)->Some_0,
        r matches Err(m) ==> m@ == duration_error(s@),
{
    let len = s.unicode_len();
    if len < 2 {
        return Err(String::from_str("Invalid duration format"));
    }
    let num_str = s.substring_char(0, len - 1);
    let unit = s.get_char(len - 1);
    assert(num_str@ =~= s@.drop_last());
    let num = match parse_u64(num_str) {
        Ok(n) => n,
        Err(e) => return Err(e),
    };
    let factor: u64 = if unit == 's' {
        1
    } else if unit == 'm' {
        60
    } else if unit == 'h' {
        3600
    } else if unit == 'd' {
        86400
    } else if unit == 'w' {
        604800
    } else {
        return Err(String::from_str("Invalid duration unit"));
    };
    match num.checked_mul(factor) {
        Some(total) => Ok(total),
        None => Err(String::from_str("Duration is too large")),
    }
}

} // verus!
