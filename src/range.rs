use vstd::prelude::*;

verus! {

/// An ASCII decimal digit.
pub open spec fn is_digit(c: char) -> bool {
    '0' <= c <= '9'
}

/// The value of a run of decimal digits.
pub open spec fn digits_value(s: Seq<char>) -> int
    decreases s.len(),
{
    if s.len() == 0 {
        0
    } else {
        digits_value(s.drop_last()) * 10 + (s.last() as int - '0' as int)
    }
}

/// `s` is one or more decimal digits whose value fits in a `u32`.
pub open spec fn is_number(s: Seq<char>) -> bool {
    s.len() > 0 && (forall|i: int| 0 <= i < s.len() ==> is_digit(#[trigger] s[i]))
        && digits_value(s) <= u32::MAX
}

/// A page number as a `u32` is read: an optional `+`, then the digits.
pub open spec fn page_number(s: Seq<char>) -> Option<u32> {
    let d = if s.len() > 0 && s[0] == '+' {
        s.drop_first()
    } else {
        s
    };
    if is_number(d) {
        Some(digits_value(d) as u32)
    } else {
        None
    }
}

/// The index of the first `-` at or after `i`, or the length where there is none.
pub open spec fn first_dash(s: Seq<char>, i: int) -> int
    decreases s.len() - i,
{
    if i < 0 || i >= s.len() {
        s.len() as int
    } else if s[i] == '-' {
        i
    } else {
        first_dash(s, i + 1)
    }
}

/// A page range: one page number, or two runs of digits joined by `-`.
pub open spec fn range_of(s: Seq<char>) -> Option<(u32, u32)> {
    let k = first_dash(s, 0);
    let (a, b) = (s.subrange(0, k), s.subrange(k + 1, s.len() as int));
    if let Some(n) = page_number(s) {
        Some((n, n))
    } else if k < s.len() && is_number(a) && is_number(b) {
        Some((digits_value(a) as u32, digits_value(b) as u32))
    } else {
        None
    }
}

/// Reads the digits of `s` from `from` up to `to`, where they form a number.
pub fn read_number(s: &str, from: usize, to: usize) -> (r: Option<u32>)
    requires
        from <= to <= s@.len(),
    ensures
        r is Some <==> is_number(s@.subrange(from as int, to as int)),
        r matches Some(n) ==> n == digits_value(s@.subrange(from as int, to as int)),
{
    if from == to {
        return None;
    }
    let mut value: u64 = 0;
    let mut i: usize = from;
    while i < to
        invariant
            from <= i <= to <= s@.len(),
            value == digits_value(s@.subrange(from as int, i as int)),
            value <= u32::MAX,
            forall|k: int| from <= k < i ==> is_digit(#[trigger] s@[k]),
        decreases to - i,
    {
        let c = s.get_char(i);
        let ghost run = s@.subrange(from as int, i + 1);
        assert(run.drop_last() =~= s@.subrange(from as int, i as int));
        if !('0' <= c && c <= '9') {
            proof {
                let whole = s@.subrange(from as int, to as int);
                assert(whole[i - from] == c);
            }
            return None;
        }
        value = value * 10 + (c as u64 - '0' as u64);
        if value > u32::MAX as u64 {
            proof {
                let whole = s@.subrange(from as int, to as int);
                if forall|k: int| 0 <= k < whole.len() ==> is_digit(#[trigger] whole[k]) {
                    lemma_digits_value_grows(whole, i + 1 - from);
                    assert(whole.subrange(0, i + 1 - from) =~= run);
                }
            }
            return None;
        }
        i = i + 1;
    }
    proof {
        let whole = s@.subrange(from as int, to as int);
        assert forall|k: int| 0 <= k < whole.len() implies is_digit(#[trigger] whole[k]) by {
            assert(whole[k] == s@[from + k]);
        }
    }
    Some(value as u32)
}

proof fn lemma_digits_value_grows(s: Seq<char>, n: int)
    requires
        0 <= n <= s.len(),
        forall|i: int| 0 <= i < s.len() ==> is_digit(#[trigger] s[i]),
    ensures
        digits_value(s) >= digits_value(s.subrange(0, n)),
    decreases s.len(),
{
    if n < s.len() {
        assert(s.drop_last().subrange(0, n) =~= s.subrange(0, n));
        assert(s.drop_last()[0] == s[0] || s.drop_last().len() == 0);
        assert forall|i: int| 0 <= i < s.drop_last().len() implies is_digit(#[trigger] s.drop_last()[i]) by {
            assert(s.drop_last()[i] == s[i]);
        }
        lemma_digits_value_nonneg(s.drop_last());
        lemma_digits_value_grows(s.drop_last(), n);
        assert(is_digit(s[s.len() - 1]));
    } else {
        assert(s.subrange(0, n) =~= s);
    }
}

proof fn lemma_digits_value_nonneg(s: Seq<char>)
    requires
        forall|i: int| 0 <= i < s.len() ==> is_digit(#[trigger] s[i]),
    ensures
        digits_value(s) >= 0,
    decreases s.len(),
{
    if s.len() > 0 {
        assert forall|i: int| 0 <= i < s.drop_last().len() implies is_digit(#[trigger] s.drop_last()[i]) by {
            assert(s.drop_last()[i] == s[i]);
        }
        lemma_digits_value_nonneg(s.drop_last());
        assert(is_digit(s[s.len() - 1]));
    }
}

/// Reads a page number: an optional `+`, then decimal digits.
pub fn parse_page_number(s: &str) -> (r: Option<u32>)
    ensures
        r == page_number(s@),
{
    let n = s.unicode_len();
    let signed = n > 0 && s.get_char(0) == '+';
    let start: usize = if signed {
        1
    } else {
        0
    };
    proof {
        if signed {
            assert(s@.drop_first() =~= s@.subrange(1, n as int));
        } else {
            assert(s@ =~= s@.subrange(0, n as int));
        }
    }
    read_number(s, start, n)
}

/// Reads a page range: `"42"` is the range of page 42 alone, `"3-15"` the
/// pages 3 to 15. Anything else gives `None`.
pub fn extract_range(range_string: &str) -> (r: Option<(u32, u32)>)
    ensures
        r == range_of(range_string@),
{
    let s = range_string;
    let n = s.unicode_len();
    if let Some(page) = parse_page_number(s) {
        return Some((page, page));
    }
    let mut k: usize = 0;
    while k < n && s.get_char(k) != '-'
        invariant
            k <= n,
            n == s@.len(),
            first_dash(s@, 0) == first_dash(s@, k as int),
        decreases n - k,
    {
        k = k + 1;
    }
    if k == n {
        return None;
    }
    match (read_number(s, 0, k), read_number(s, k + 1, n)) {
        (Some(lower), Some(upper)) => Some((lower, upper)),
        _ => None,
    }
}

} // verus!
