use vstd::prelude::*;

use crate::error::Error;
use crate::text::{chars_of, string_from_chars};

verus! {

/// The value of a hexadecimal digit (either case).
pub open spec fn hex_digit_value(c: char) -> Option<nat> {
    if '0' <= c && c <= '9' {
        Some((c as nat - '0' as nat) as nat)
    } else if 'a' <= c && c <= 'f' {
        Some((c as nat - 'a' as nat + 10) as nat)
    } else if 'A' <= c && c <= 'F' {
        Some((c as nat - 'A' as nat + 10) as nat)
    } else {
        None
    }
}

/// Every character is a hexadecimal digit.
pub open spec fn all_hex_digits(s: Seq<char>) -> bool {
    forall|i: int| 0 <= i < s.len() ==> (#[trigger] hex_digit_value(s[i])) is Some
}

/// The number the hexadecimal digits `s` spell, most significant first.
pub open spec fn hex_value(s: Seq<char>) -> nat
    decreases s.len(),
{
    if s.len() == 0 {
        0
    } else {
        hex_value(s.drop_last()) * 16 + match hex_digit_value(s.last()) {
            Some(d) => d,
            None => 0,
        }
    }
}

/// What a 16-character hash text reads as: exactly 16 characters that are
/// hexadecimal digits, optionally led by `+` in place of the first digit.
pub open spec fn parse_hash_text(s: Seq<char>) -> Option<nat> {
    if s.len() != 16 {
        None
    } else if all_hex_digits(s) {
        Some(hex_value(s))
    } else if s[0] == '+' && all_hex_digits(s.drop_first()) {
        Some(hex_value(s.drop_first()))
    } else {
        None
    }
}

/// The lowercase hexadecimal digit of `d`.
pub open spec fn hex_char(d: nat) -> char {
    if d < 10 {
        (('0' as nat) + d) as char
    } else {
        (('a' as nat) + d - 10) as char
    }
}

/// The `n` lowest hexadecimal digits of `v`, most significant first.
pub open spec fn hex_digits(v: nat, n: nat) -> Seq<char>
    decreases n,
{
    if n == 0 {
        Seq::empty()
    } else {
        hex_digits(v / 16, (n - 1) as nat).push(hex_char(v % 16))
    }
}

/// The 64-bit XXH3 hash of `data`, as the `xxhash_rust` crate computes it.
pub uninterp spec fn xxh3_64_of(data: Seq<u8>) -> u64;

/// `xxhash_rust::xxh3::xxh3_64`: the one-shot 64-bit XXH3 of the input, a
/// function of the bytes alone.
#[verifier::external_body]
fn xxh3_64(data: &[u8]) -> (h: u64)
    ensures
        h == xxh3_64_of(data@),
{
    xxhash_rust::xxh3::xxh3_64(data)
}

/// A 64-bit content hash, shown as 16 lowercase hexadecimal digits.
#[derive(Copy, Clone, PartialEq, Eq, Hash, Debug)]
pub struct ContentHash(u64);

impl View for ContentHash {
    type V = u64;

    closed spec fn view(&self) -> u64 {
        self.0
    }
}

impl ContentHash {
    /// Reads a hash back from its text: an error naming the text unless
    /// `parse_hash_text` accepts it.
    pub fn from_hex(s: &str) -> (r: Result<ContentHash, Error>)
        ensures
            r matches Ok(h) ==> parse_hash_text(s@) == Some(h@ as nat),
            r matches Err(e) ==> parse_hash_text(s@) is None && (e matches Error::InvalidContentHash {
                value,
            } && value@ == s@),
    {
        let cs = chars_of(s);
        if cs.len() != 16 {
            return Err(Error::InvalidContentHash { value: String::from_str(s) });
        }
        let start: usize = if cs[0] == '+' {
            1
        } else {
            0
        };
        proof {
            if start == 1 {
                assert(!all_hex_digits(cs@)) by {
                    assert(hex_digit_value(cs@[0]) is None);
                }
            }
            assert(cs@.skip(start as int) =~= if start == 1 { cs@.drop_first() } else { cs@ });
            assert(cs@.skip(start as int).take(0) =~= Seq::<char>::empty());
        }
        let ghost digits = cs@.skip(start as int);
        let mut acc: u64 = 0;
        let mut i = start;
        while i < 16
            invariant
                cs@ == s@,
                cs@.len() == 16,
                start <= i <= 16,
                digits == cs@.skip(start as int),
                (start == 1) == (cs@[0] == '+'),
                start == 1 ==> !all_hex_digits(cs@) && digits == cs@.drop_first(),
                start == 0 ==> digits == cs@,
                all_hex_digits(digits.take(i - start)),
                acc as nat == hex_value(digits.take(i - start)),
                (acc as nat) < pow16((i - start) as nat),
            decreases 16 - i,
        {
            let c = cs[i];
            let d: u64 = if '0' <= c && c <= '9' {
                (c as u32 - '0' as u32) as u64
            } else if 'a' <= c && c <= 'f' {
                (c as u32 - 'a' as u32 + 10) as u64
            } else if 'A' <= c && c <= 'F' {
                (c as u32 - 'A' as u32 + 10) as u64
            } else {
                proof {
                    assert(!all_hex_digits(digits)) by {
                        assert(digits[i - start] == c);
                        assert(hex_digit_value(digits[i - start]) is None);
                    }
                }
                return Err(Error::InvalidContentHash { value: String::from_str(s) });
            };
            proof {
                let t = digits.take(i - start + 1);
                assert(t.drop_last() =~= digits.take(i - start));
                assert(t.last() == c);
                assert(hex_digit_value(c) == Some(d as nat));
                lemma_pow16_step((i - start) as nat);
                lemma_pow16_max(15);
                lemma_pow16_monotone((i - start) as nat, 15);
                assert(acc * 16 + d < pow16((i - start + 1) as nat)) by (nonlinear_arith)
                    requires
                        acc < pow16((i - start) as nat),
                        d < 16,
                        pow16((i - start + 1) as nat) == pow16((i - start) as nat) * 16,
                ;
                assert(all_hex_digits(t)) by {
                    assert forall|k: int| 0 <= k < t.len() implies (#[trigger] hex_digit_value(t[k])) is Some by {
                        if k < t.len() - 1 {
                            assert(t[k] == digits.take(i - start)[k]);
                        }
                    }
                }
            }
            acc = acc * 16 + d;
            i = i + 1;
        }
        proof {
            assert(digits.take(16 - start) =~= digits);
        }
        Ok(ContentHash(acc))
    }

    /// The 16 lowercase hexadecimal digits of the hash (what `Display` prints).
    pub fn to_hex(&self) -> (s: String)
        ensures
            s@ == hex_digits(self@ as nat, 16),
    {
        let digits = hex_digits_exec(self.0, 16);
        string_from_chars(digits.as_slice())
    }

    /// Same as `to_hex`.
    pub fn to_string(&self) -> (s: String)
        ensures
            s@ == hex_digits(self@ as nat, 16),
    {
        self.to_hex()
    }
}

fn hex_digits_exec(v: u64, n: u64) -> (out: Vec<char>)
    ensures
        out@ == hex_digits(v as nat, n as nat),
    decreases n,
{
    if n == 0 {
        Vec::new()
    } else {
        let mut out = hex_digits_exec(v / 16, n - 1);
        let d = v % 16;
        let c = if d < 10 {
            char_of(('0' as u32) + d as u32)
        } else {
            char_of(('a' as u32) + d as u32 - 10)
        };
        out.push(c);
        out
    }
}

/// The character with code point `code`, for an ASCII code point.
fn char_of(code: u32) -> (c: char)
    requires
        code < 128,
    ensures
        c as nat == code,
{
    let b = code as u8;
    b as char
}

/// `16^n`.
pub open spec fn pow16(n: nat) -> nat
    decreases n,
{
    if n == 0 {
        1
    } else {
        16 * pow16((n - 1) as nat)
    }
}

proof fn lemma_pow16_step(n: nat)
    ensures
        pow16(n + 1) == pow16(n) * 16,
{
}

proof fn lemma_pow16_max(n: nat)
    requires
        n == 15,
    ensures
        pow16(n) * 16 == 0x1_0000_0000_0000_0000,
{
    reveal_with_fuel(pow16, 16);
}

proof fn lemma_pow16_monotone(a: nat, b: nat)
    requires
        a <= b,
    ensures
        pow16(a) <= pow16(b),
    decreases b,
{
    if a < b {
        lemma_pow16_monotone(a, (b - 1) as nat);
    }
}

/// The hash of `data`.
pub fn hash_bytes(data: &[u8]) -> (h: ContentHash)
    ensures
        h@ == xxh3_64_of(data@),
{
    ContentHash(xxh3_64(data))
}

proof fn lemma_hex_char_value(d: nat)
    requires
        d < 16,
    ensures
        hex_digit_value(hex_char(d)) == Some(d),
{
}

proof fn lemma_pow16_positive(n: nat)
    ensures
        pow16(n) > 0,
    decreases n,
{
    if n > 0 {
        lemma_pow16_positive((n - 1) as nat);
    }
}

/// The `n` digits of `v` are `n` hexadecimal digits spelling `v mod 16^n`.
proof fn lemma_hex_digits_value(v: nat, n: nat)
    ensures
        hex_digits(v, n).len() == n,
        all_hex_digits(hex_digits(v, n)),
        hex_value(hex_digits(v, n)) == v % pow16(n),
    decreases n,
{
    if n > 0 {
        let m = (n - 1) as nat;
        lemma_hex_digits_value(v / 16, m);
        let prev = hex_digits(v / 16, m);
        let all = hex_digits(v, n);
        assert(all.drop_last() =~= prev);
        lemma_hex_char_value(v % 16);
        assert forall|i: int| 0 <= i < all.len() implies (#[trigger] hex_digit_value(all[i])) is Some by {
            if i < all.len() - 1 {
                assert(all[i] == prev[i]);
            }
        }
        lemma_pow16_positive(m);
        vstd::arithmetic::div_mod::lemma_breakdown(v as int, 16, pow16(m) as int);
    } else {
        assert(v % 1 == 0);
    }
}

/// Reading back the text of a hash gives the same hash.
pub proof fn lemma_hash_text_round_trip(h: ContentHash)
    ensures
        parse_hash_text(hex_digits(h@ as nat, 16)) == Some(h@ as nat),
{
    lemma_hex_digits_value(h@ as nat, 16);
    lemma_pow16_max(15);
    lemma_pow16_step(15);
    assert(pow16(16) == 0x1_0000_0000_0000_0000);
    vstd::arithmetic::div_mod::lemma_small_mod(h@ as nat, pow16(16));
}

proof fn lemma_hex_char_of_digit(c: char)
    requires
        hex_digit_value(c) is Some,
    ensures
        hex_digit_value(c)->0 < 16,
        hex_char(hex_digit_value(c)->0) == crate::lang::registry::ascii_lower_char(c),
{
}

proof fn lemma_hex_value_digits(s: Seq<char>)
    requires
        all_hex_digits(s),
    ensures
        hex_digits(hex_value(s), s.len()) == crate::lang::registry::ascii_lower(s),
    decreases s.len(),
{
    if s.len() > 0 {
        let init = s.drop_last();
        assert(all_hex_digits(init)) by {
            assert forall|i: int| 0 <= i < init.len() implies (#[trigger] hex_digit_value(init[i])) is Some by {
                assert(init[i] == s[i]);
            }
        }
        lemma_hex_value_digits(init);
        assert(hex_digit_value(s[s.len() - 1]) is Some);
        lemma_hex_char_of_digit(s.last());
        let d = hex_digit_value(s.last())->0;
        let v = hex_value(s);
        assert(v == hex_value(init) * 16 + d);
        assert(v / 16 == hex_value(init) && v % 16 == d) by (nonlinear_arith)
            requires
                v == hex_value(init) * 16 + d,
                d < 16,
        ;
        assert(hex_digits(v, s.len()) == hex_digits(hex_value(init), init.len()).push(hex_char(d)));
        assert(crate::lang::registry::ascii_lower(s) =~= crate::lang::registry::ascii_lower(init).push(
            crate::lang::registry::ascii_lower_char(s.last()),
        ));
    } else {
        assert(crate::lang::registry::ascii_lower(s) =~= Seq::<char>::empty());
    }
}

/// Reading a hash from 16 hexadecimal digits and printing it again gives
/// the same digits in lower case.
pub proof fn lemma_hex_text_prints_lower(s: Seq<char>)
    requires
        s.len() == 16,
        all_hex_digits(s),
    ensures
        parse_hash_text(s) == Some(hex_value(s)),
        hex_digits(hex_value(s), 16) == crate::lang::registry::ascii_lower(s),
{
    lemma_hex_value_digits(s);
}

} // verus!
