use vstd::prelude::*;

use crate::text::chars_of;

verus! {

/// An ASCII decimal digit.
pub open spec fn is_digit(c: char) -> bool {
    '0' <= c && c <= '9'
}

/// One or more ASCII decimal digits.
pub open spec fn all_digits(s: Seq<char>) -> bool {
    s.len() > 0 && forall|i: int| 0 <= i < s.len() ==> is_digit(#[trigger] s[i])
}

/// The number the decimal digits `s` spell.
pub open spec fn digits_value(s: Seq<char>) -> nat
    decreases s.len(),
{
    if s.len() == 0 {
        0
    } else {
        digits_value(s.drop_last()) * 10 + (s.last() as nat - '0' as nat) as nat
    }
}

/// What `i64::from_str` reads: an optional `+` or `-`, then decimal digits,
/// within the range of `i64`.
pub open spec fn parse_i64_spec(s: Seq<char>) -> Option<int> {
    if s.len() > 0 && s[0] == '-' {
        if all_digits(s.drop_first()) && digits_value(s.drop_first()) <= 9223372036854775808 {
            Some(-(digits_value(s.drop_first()) as int))
        } else {
            None
        }
    } else if s.len() > 0 && s[0] == '+' {
        if all_digits(s.drop_first()) && digits_value(s.drop_first()) <= 9223372036854775807 {
            Some(digits_value(s.drop_first()) as int)
        } else {
            None
        }
    } else if all_digits(s) && digits_value(s) <= 9223372036854775807 {
        Some(digits_value(s) as int)
    } else {
        None
    }
}

/// What `u32::from_str` reads: an optional `+`, then decimal digits, within
/// the range of `u32`.
pub open spec fn parse_u32_spec(s: Seq<char>) -> Option<nat> {
    if s.len() > 0 && s[0] == '+' {
        if all_digits(s.drop_first()) && digits_value(s.drop_first()) <= 4294967295 {
            Some(digits_value(s.drop_first()))
        } else {
            None
        }
    } else if all_digits(s) && digits_value(s) <= 4294967295 {
        Some(digits_value(s))
    } else {
        None
    }
}

proof fn lemma_digits_value_prefix(s: Seq<char>, i: int)
    requires
        0 <= i <= s.len(),
    ensures
        digits_value(s.take(i)) <= digits_value(s),
    decreases s.len() - i,
{
    if i < s.len() {
        lemma_digits_value_prefix(s, i + 1);
        assert(s.take(i + 1).drop_last() =~= s.take(i));
    } else {
        assert(s.take(i) =~= s);
    }
}

/// Reads `cs[from..]` as decimal digits, giving `None` unless there is at
/// least one, all are digits, and the value is at most `bound`.
pub(crate) fn digits_from(cs: &[char], from: usize, bound: u64) -> (r: Option<u64>)
    requires
        from <= cs@.len(),
        10 <= bound,
    ensures
        r matches Some(v) ==> all_digits(cs@.skip(from as int)) && v == digits_value(cs@.skip(from as int))
            && v <= bound,
        r is None ==> !(all_digits(cs@.skip(from as int)) && digits_value(cs@.skip(from as int)) <= bound),
{
    let ghost rest = cs@.skip(from as int);
    if from == cs.len() {
        return None;
    }
    let mut acc: u64 = 0;
    let mut i = from;
    proof {
        assert(rest.take(0) =~= Seq::<char>::empty());
    }
    while i < cs.len()
        invariant
            from <= i <= cs@.len(),
            from < cs@.len(),
            rest == cs@.skip(from as int),
            10 <= bound,
            forall|j: int| 0 <= j < i - from ==> is_digit(#[trigger] rest[j]),
            acc == digits_value(rest.take(i - from)),
            acc <= bound,
        decreases cs@.len() - i,
    {
        let c = cs[i];
        if !('0' <= c && c <= '9') {
            proof {
                assert(rest[i - from] == c);
            }
            return None;
        }
        let d = (c as u32 - '0' as u32) as u64;
        proof {
            assert(rest.take(i - from + 1).drop_last() =~= rest.take(i - from));
            assert(rest.take(i - from + 1).last() == c);
        }
        if acc > (bound - d) / 10 {
            proof {
                lemma_digits_value_prefix(rest, i - from + 1);
                assert(acc * 10 + d > bound) by (nonlinear_arith)
                    requires
                        acc > (bound - d) / 10,
                        d <= 9,
                        d <= bound || acc >= 0,
                ;
            }
            return None;
        }
        proof {
            assert(acc * 10 + d <= bound) by (nonlinear_arith)
                requires
                    acc <= (bound - d) / 10,
                    d <= bound,
            ;
        }
        acc = acc * 10 + d;
        i = i + 1;
    }
    proof {
        assert(rest.take(i - from) =~= rest);
    }
    Some(acc)
}

/// Reads `s` as `i64::from_str` does.
pub fn parse_i64(s: &str) -> (r: Option<i64>)
    ensures
        r matches Some(v) ==> parse_i64_spec(s@) == Some(v as int),
        r is None ==> parse_i64_spec(s@) is None,
{
    let cs = chars_of(s);
    if cs.len() > 0 && cs[0] == '-' {
        proof {
            assert(cs@.skip(1) =~= cs@.drop_first());
        }
        match digits_from(cs.as_slice(), 1, 0x8000_0000_0000_0000) {
            Some(v) => {
                if v == 0x8000_0000_0000_0000 {
                    Some(-9223372036854775807i64 - 1)
                } else {
                    Some(-(v as i64))
                }
            },
            None => None,
        }
    } else if cs.len() > 0 && cs[0] == '+' {
        proof {
            assert(cs@.skip(1) =~= cs@.drop_first());
        }
        match digits_from(cs.as_slice(), 1, 0x7fff_ffff_ffff_ffff) {
            Some(v) => Some(v as i64),
            None => None,
        }
    } else {
        proof {
            assert(cs@.skip(0) =~= cs@);
        }
        match digits_from(cs.as_slice(), 0, 0x7fff_ffff_ffff_ffff) {
            Some(v) => Some(v as i64),
            None => None,
        }
    }
}

/// Reads `s` as `u32::from_str` does.
pub fn parse_u32(s: &str) -> (r: Option<u32>)
    ensures
        r matches Some(v) ==> parse_u32_spec(s@) == Some(v as nat),
        r is None ==> parse_u32_spec(s@) is None,
{
    let cs = chars_of(s);
    if cs.len() > 0 && cs[0] == '+' {
        proof {
            assert(cs@.skip(1) =~= cs@.drop_first());
        }
        match digits_from(cs.as_slice(), 1, 0xffff_ffff) {
            Some(v) => Some(v as u32),
            None => None,
        }
    } else {
        proof {
            assert(cs@.skip(0) =~= cs@);
            if cs@.len() > 0 && cs@[0] == '-' {
                assert(!is_digit(cs@[0]));
            }
        }
        match digits_from(cs.as_slice(), 0, 0xffff_ffff) {
            Some(v) => Some(v as u32),
            None => None,
        }
    }
}

} // verus!
