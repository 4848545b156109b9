//! Slack timestamps (`"<seconds>.<micros>"`) and the integer parsing they need.
use vstd::prelude::*;
use crate::text::{chars_of, trim};

verus! {

pub open spec fn is_digit(c: char) -> bool {
    '0' <= c <= '9'
}

pub open spec fn digit_value(c: char) -> int {
    c as int - '0' as int
}

pub open spec fn all_digits(s: Seq<char>) -> bool {
    forall|i: int| 0 <= i < s.len() ==> is_digit(#[trigger] s[i])
}

/// The number that a string of decimal digits denotes.
pub open spec fn decimal(s: Seq<char>) -> int
    decreases s.len(),
{
    if s.len() == 0 {
        0
    } else {
        decimal(s.drop_last()) * 10 + digit_value(s.last())
    }
}

pub(crate) proof fn lemma_decimal_nonneg(s: Seq<char>)
    requires
        all_digits(s),
    ensures
        decimal(s) >= 0,
    decreases s.len(),
{
    if s.len() > 0 {
        assert(all_digits(s.drop_last()));
        lemma_decimal_nonneg(s.drop_last());
        assert(is_digit(s[s.len() - 1]));
    }
}

/// What `str::parse::<i64>` gives back: an optional sign followed by at least one
/// decimal digit and nothing else, whose value fits in an `i64`.
pub open spec fn parse_i64(s: Seq<char>) -> Option<i64> {
    let neg = s.len() > 0 && s[0] == '-';
    let body = if s.len() > 0 && (s[0] == '-' || s[0] == '+') { s.skip(1) } else { s };
    if body.len() == 0 || !all_digits(body) {
        None
    } else {
        let v = if neg { -decimal(body) } else { decimal(body) };
        if i64::MIN <= v <= i64::MAX {
            Some(v as i64)
        } else {
            None
        }
    }
}

/// `str::parse::<i64>` on `cs[from..to]`.
pub fn parse_i64_range(cs: &Vec<char>, from: usize, to: usize) -> (r: Option<i64>)
    requires
        from <= to <= cs.len(),
    ensures
        r == parse_i64(cs@.subrange(from as int, to as int)),
{
    let ghost s = cs@.subrange(from as int, to as int);
    let mut start = from;
    let mut neg = false;
    if from < to && (cs[from] == '-' || cs[from] == '+') {
        neg = cs[from] == '-';
        start = from + 1;
    }
    let ghost body = cs@.subrange(start as int, to as int);
    proof {
        if from < to && (cs@[from as int] == '-' || cs@[from as int] == '+') {
            assert(body =~= s.skip(1));
        } else {
            assert(body =~= s);
        }
    }
    if start == to {
        return None;
    }
    let mut acc: i128 = 0;
    let mut over = false;
    let mut k = start;
    proof {
        assert(cs@.subrange(start as int, k as int) =~= Seq::<char>::empty());
    }
    while k < to
        invariant
            from <= start <= k <= to <= cs.len(),
            body == cs@.subrange(start as int, to as int),
            s == cs@.subrange(from as int, to as int),
            body == (if s.len() > 0 && (s[0] == '-' || s[0] == '+') { s.skip(1) } else { s }),
            neg == (s.len() > 0 && s[0] == '-'),
            body.len() > 0,
            all_digits(cs@.subrange(start as int, k as int)),
            !over ==> acc == decimal(cs@.subrange(start as int, k as int)) && 0 <= acc <= 9223372036854775808,
            over ==> decimal(cs@.subrange(start as int, k as int)) > 9223372036854775808,
        decreases to - k,
    {
        let c = cs[k];
        if !('0' <= c && c <= '9') {
            proof {
                assert(body[k - start] == c);
                assert(!is_digit(body[k - start]));
                assert(!all_digits(body));
                assert(parse_i64(s) is None);
            }
            return None;
        }
        let ghost pre = cs@.subrange(start as int, k as int);
        let ghost next = cs@.subrange(start as int, k + 1);
        proof {
            assert(next.drop_last() =~= pre);
            assert(all_digits(next));
            lemma_decimal_nonneg(pre);
        }
        if !over {
            let d = (c as u32 - '0' as u32) as i128;
            acc = acc * 10 + d;
            if acc > 9223372036854775808 {
                over = true;
            }
        }
        k = k + 1;
    }
    proof {
        assert(cs@.subrange(start as int, k as int) =~= body);
    }
    if over {
        return None;
    }
    if neg {
        let v = -acc;
        if v < -9223372036854775808 {
            return None;
        }
        Some(v as i64)
    } else {
        if acc > 9223372036854775807 {
            return None;
        }
        Some(acc as i64)
    }
}

/// The index of the first `c` in `s`, if any.
pub open spec fn first_index(s: Seq<char>, c: char) -> Option<int>
    decreases s.len(),
{
    if s.len() == 0 {
        None
    } else {
        match first_index(s.drop_last(), c) {
            Some(i) => Some(i),
            None => if s.last() == c { Some(s.len() - 1) } else { None },
        }
    }
}

pub fn find_char(cs: &Vec<char>, c: char) -> (r: Option<usize>)
    ensures
        r matches Some(i) ==> first_index(cs@, c) == Some(i as int) && i < cs@.len() && cs@[i as int] == c,
        r is None ==> first_index(cs@, c) is None,
{
    let mut i: usize = 0;
    proof {
        assert(cs@.take(0) =~= Seq::<char>::empty());
    }
    while i < cs.len()
        invariant
            i <= cs.len(),
            first_index(cs@.take(i as int), c) is None,
        decreases cs.len() - i,
    {
        proof {
            assert(cs@.take(i + 1).drop_last() =~= cs@.take(i as int));
        }
        if cs[i] == c {
            proof {
                lemma_first_index_prefix(cs@, c, i as int + 1);
            }
            return Some(i);
        }
        i = i + 1;
    }
    proof {
        assert(cs@.take(cs@.len() as int) =~= cs@);
    }
    None
}

proof fn lemma_first_index_prefix(s: Seq<char>, c: char, n: int)
    requires
        0 <= n <= s.len(),
        first_index(s.take(n), c) is Some,
    ensures
        first_index(s, c) == first_index(s.take(n), c),
    decreases s.len() - n,
{
    if n < s.len() {
        assert(s.take(n + 1).drop_last() =~= s.take(n));
        lemma_first_index_prefix(s, c, n + 1);
    } else {
        assert(s.take(n) =~= s);
    }
}

/// The part of `s` before its first `.` (all of `s` without one).
pub open spec fn before_dot(s: Seq<char>) -> Seq<char> {
    match first_index(s, '.') {
        Some(i) => s.take(i),
        None => s,
    }
}

/// What `parse_event_time` reads: the seconds before the first `.`, or 0.
pub open spec fn event_time(ts: Seq<char>) -> i64 {
    match parse_i64(before_dot(ts)) {
        Some(v) => v,
        None => 0,
    }
}

/// The whole seconds of a Slack timestamp, 0 where they do not parse.
pub fn parse_event_time(ts: &str) -> (r: i64)
    ensures
        r == event_time(ts@),
{
    let cs = chars_of(ts);
    let found = find_char(&cs, '.');
    let end = match found {
        Some(i) => i,
        None => cs.len(),
    };
    proof {
        match found {
            Some(i) => {
                assert(cs@.subrange(0, end as int) =~= cs@.take(i as int));
            },
            None => {
                assert(cs@.subrange(0, end as int) =~= cs@);
            },
        }
    }
    match parse_i64_range(&cs, 0, end) {
        Some(v) => v,
        None => 0,
    }
}

/// The characters of `s` that are decimal digits, in order.
pub open spec fn digits_of(s: Seq<char>) -> Seq<char>
    decreases s.len(),
{
    if s.len() == 0 {
        Seq::empty()
    } else if is_digit(s.last()) {
        digits_of(s.drop_last()).push(s.last())
    } else {
        digits_of(s.drop_last())
    }
}

/// The first six characters of the fraction that are digits, right-padded with `0`.
pub open spec fn micro_digits(fraction: Seq<char>) -> Seq<char> {
    let d = digits_of(fraction.take(if fraction.len() < 6 { fraction.len() as int } else { 6 }));
    d + Seq::new((6 - d.len()) as nat, |i: int| '0')
}

pub open spec fn clamp_i64(v: int) -> i64 {
    if v > i64::MAX {
        i64::MAX
    } else if v < i64::MIN {
        i64::MIN
    } else {
        v as i64
    }
}

/// A Slack timestamp in microseconds: the trimmed text split at its first `.`;
/// seconds that do not parse count as 0; the fraction keeps its first six
/// characters that are digits, padded to six; the sum saturates at the `i64` bounds.
pub open spec fn ts_micros(value: Seq<char>) -> i64 {
    let t = trim(value);
    let (secs, frac) = match first_index(t, '.') {
        Some(i) => (t.take(i), t.skip(i + 1)),
        None => (t, "0"@),
    };
    let seconds = match parse_i64(secs) {
        Some(v) => v as int,
        None => 0,
    };
    clamp_i64(clamp_i64(seconds * 1000000) + decimal(micro_digits(frac)))
}

proof fn lemma_digits_of(s: Seq<char>)
    ensures
        digits_of(s).len() <= s.len(),
        all_digits(digits_of(s)),
    decreases s.len(),
{
    if s.len() > 0 {
        lemma_digits_of(s.drop_last());
    }
}

/// The micro-digits of `fraction` and their value.
fn micros_of(fraction: &Vec<char>) -> (r: i128)
    ensures
        r == decimal(micro_digits(fraction@)),
        0 <= r < 1000000,
{
    let n: usize = if fraction.len() < 6 { fraction.len() } else { 6 };
    let ghost head = fraction@.take(n as int);
    let mut digits: Vec<char> = Vec::new();
    let mut i: usize = 0;
    proof {
        assert(head.take(0) =~= Seq::<char>::empty());
    }
    while i < n
        invariant
            n <= fraction.len(),
            n <= 6,
            head == fraction@.take(n as int),
            i <= n,
            digits@ == digits_of(head.take(i as int)),
        decreases n - i,
    {
        proof {
            assert(head.take(i + 1).drop_last() =~= head.take(i as int));
        }
        let c = fraction[i];
        if '0' <= c && c <= '9' {
            digits.push(c);
        }
        i = i + 1;
    }
    proof {
        assert(head.take(n as int) =~= head);
        lemma_digits_of(head);
    }
    while digits.len() < 6
        invariant
            digits@.len() <= 6,
            all_digits(digits@),
            digits@ == digits_of(head) + Seq::new((digits@.len() - digits_of(head).len()) as nat, |k: int| '0'),
        decreases 6 - digits.len(),
    {
        let ghost before = digits@;
        digits.push('0');
        proof {
            assert(digits@ =~= digits_of(head) + Seq::new((digits@.len() - digits_of(head).len()) as nat, |k: int| '0'));
        }
    }
    proof {
        assert(digits@ =~= micro_digits(fraction@));
    }
    let mut acc: i128 = 0;
    let mut k: usize = 0;
    proof {
        assert(digits@.take(0) =~= Seq::<char>::empty());
    }
    while k < 6
        invariant
            digits@.len() == 6,
            all_digits(digits@),
            k <= 6,
            acc == decimal(digits@.take(k as int)),
            0 <= acc < small_pow10(k as int),
        decreases 6 - k,
    {
        proof {
            assert(digits@.take(k + 1).drop_last() =~= digits@.take(k as int));
            assert(is_digit(digits@[k as int]));
        }
        let d = (digits[k] as u32 - '0' as u32) as i128;
        acc = acc * 10 + d;
        k = k + 1;
    }
    proof {
        assert(digits@.take(6) =~= digits@);
    }
    acc
}

spec fn small_pow10(k: int) -> int {
    if k <= 0 {
        1
    } else if k == 1 {
        10
    } else if k == 2 {
        100
    } else if k == 3 {
        1000
    } else if k == 4 {
        10000
    } else if k == 5 {
        100000
    } else {
        1000000
    }
}

fn clamp(v: i128) -> (r: i64)
    ensures
        r == clamp_i64(v as int),
{
    if v > 9223372036854775807 {
        9223372036854775807
    } else if v < -9223372036854775808 {
        -9223372036854775808
    } else {
        v as i64
    }
}

/// A Slack timestamp in microseconds (see `ts_micros`).
pub fn parse_ts_micros(value: &str) -> (r: i64)
    ensures
        r == ts_micros(value@),
{
    let t = crate::text::trimmed(value);
    let found = find_char(&t, '.');
    let (seconds, fraction) = match found {
        Some(i) => {
            proof {
                assert(t@.subrange(0, i as int) =~= t@.take(i as int));
                assert(t@.subrange(i + 1, t@.len() as int) =~= t@.skip(i + 1));
            }
            (parse_i64_range(&t, 0, i), crate::text::slice_chars(&t, i + 1, t.len()))
        },
        None => {
            proof {
                assert(t@.subrange(0, t@.len() as int) =~= t@);
            }
            (parse_i64_range(&t, 0, t.len()), chars_of("0"))
        },
    };
    let secs: i128 = match seconds {
        Some(v) => v as i128,
        None => 0,
    };
    let micros = micros_of(&fraction);
    let scaled = clamp(secs * 1000000);
    clamp(scaled as i128 + micros)
}

} // verus!
