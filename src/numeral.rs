use vstd::prelude::*;

verus! {

pub open spec fn is_digit(c: char) -> bool {
    '0' <= c && c <= '9'
}

/// A non-empty run of decimal digits.
pub open spec fn is_decimal(s: Seq<char>) -> bool {
    s.len() > 0 && forall|i: int| 0 <= i < s.len() ==> is_digit(#[trigger] s[i])
}

/// The number that the decimal digits `s` spell.
pub open spec fn decimal_value(s: Seq<char>) -> int
    decreases s.len(),
{
    if s.len() == 0 {
        0
    } else {
        decimal_value(s.drop_last()) * 10 + (s.last() as int - '0' as int)
    }
}

/// The value of an integer numeral: decimal digits whose number fits in an `i64`.
pub open spec fn int_value(s: Seq<char>) -> Option<i64> {
    if is_decimal(s) && decimal_value(s) <= i64::MAX {
        Some(decimal_value(s) as i64)
    } else {
        None
    }
}

/// A float numeral: digits with at most one point, and at least one digit.
pub open spec fn is_float_text(s: Seq<char>) -> bool {
    &&& forall|i: int| 0 <= i < s.len() ==> is_digit(#[trigger] s[i]) || s[i] == '.'
    &&& forall|i: int, j: int| 0 <= i < j < s.len() ==> !(s[i] == '.' && s[j] == '.')
    &&& exists|i: int| 0 <= i < s.len() && is_digit(#[trigger] s[i])
}

proof fn lemma_decimal_value_nonneg(s: Seq<char>)
    requires
        forall|i: int| 0 <= i < s.len() ==> is_digit(#[trigger] s[i]),
    ensures
        decimal_value(s) >= 0,
    decreases s.len(),
{
    if s.len() > 0 {
        assert(is_digit(s[s.len() - 1]));
        lemma_decimal_value_nonneg(s.drop_last());
    }
}

/// Reads an integer numeral.
pub fn parse_int(s: &str) -> (r: Option<i64>)
    ensures
        r == int_value(s@),
{
    let n = s.unicode_len();
    if n == 0 {
        return None;
    }
    let mut value: i64 = 0;
    let mut i: usize = 0;
    while i < n
        invariant
            n == s@.len(),
            i <= n,
            forall|j: int| 0 <= j < i ==> is_digit(#[trigger] s@[j]),
            value as int == decimal_value(s@.take(i as int)),
            0 <= value,
        decreases n - i,
    {
        let c = s.get_char(i);
        assert(s@.take(i + 1).drop_last() =~= s@.take(i as int));
        if !('0' <= c && c <= '9') {
            return None;
        }
        let d = (c as u32 - '0' as u32) as i64;
        if value > (i64::MAX - d) / 10 {
            proof {
                assert forall|j: int| 0 <= j < i + 1 implies is_digit(#[trigger] s@.take(i + 1)[j]) by {}
                assert(decimal_value(s@.take(i + 1)) > i64::MAX);
                lemma_value_grows(s@, i + 1);
            }
            return None;
        }
        value = value * 10 + d;
        i = i + 1;
    }
    assert(s@.take(n as int) =~= s@);
    Some(value)
}

/// Appending digits never makes a decimal value smaller.
proof fn lemma_value_grows(s: Seq<char>, k: int)
    requires
        0 <= k <= s.len(),
        forall|i: int| 0 <= i < k ==> is_digit(#[trigger] s[i]),
    ensures
        is_decimal(s) ==> decimal_value(s) >= decimal_value(s.take(k)),
    decreases s.len() - k,
{
    if k < s.len() && is_decimal(s) {
        assert(is_digit(s[k]));
        lemma_value_grows(s, k + 1);
        assert(s.take(k + 1).drop_last() =~= s.take(k));
        assert forall|i: int| 0 <= i < k implies is_digit(#[trigger] s.take(k)[i]) by {}
        lemma_decimal_value_nonneg(s.take(k));
    } else if k == s.len() {
        assert(s.take(k) =~= s);
    }
}

/// Whether `s` is a float numeral.
pub fn check_float_text(s: &str) -> (r: bool)
    ensures
        r == is_float_text(s@),
{
    let n = s.unicode_len();
    let mut seen_point = false;
    let mut seen_digit = false;
    let mut i: usize = 0;
    while i < n
        invariant
            n == s@.len(),
            i <= n,
            forall|j: int| 0 <= j < i ==> is_digit(#[trigger] s@[j]) || s@[j] == '.',
            forall|j: int, k: int| 0 <= j < k < i ==> !(s@[j] == '.' && s@[k] == '.'),
            seen_point == exists|j: int| 0 <= j < i && s@[j] == '.',
            seen_digit == exists|j: int| 0 <= j < i && is_digit(#[trigger] s@[j]),
        decreases n - i,
    {
        let c = s.get_char(i);
        if c == '.' {
            if seen_point {
                return false;
            }
            seen_point = true;
        } else if '0' <= c && c <= '9' {
            seen_digit = true;
        } else {
            return false;
        }
        i = i + 1;
    }
    seen_digit
}

} // verus!
