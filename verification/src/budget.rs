use vstd::prelude::*;
use vstd::string::*;

verus! {

/// Default token budget for a `get_symbol` query.
pub const DEFAULT_GET_SYMBOL_TOKEN_BUDGET: usize = 8000;

/// Default token budget for an `impact` query.
pub const DEFAULT_IMPACT_TOKEN_BUDGET: usize = 8000;

/// Default token budget for a `find` query.
pub const DEFAULT_FIND_TOKEN_BUDGET: usize = 8000;

/// A running allowance of estimated tokens: `limit` is fixed at creation and
/// `used` grows only through accepted `try_consume` calls.
pub struct TokenBudget {
    limit: usize,
    used: usize,
}

impl TokenBudget {
    #[verifier::type_invariant]
    spec fn wf(self) -> bool {
        self.used <= self.limit
    }

    /// The limit the budget was created with.
    pub closed spec fn limit(self) -> nat {
        self.limit as nat
    }

    /// The tokens accepted so far.
    pub closed spec fn used(self) -> nat {
        self.used as nat
    }

    /// What is still available: the limit minus what was used, never negative.
    pub open spec fn spec_remaining(self) -> nat {
        if self.used() <= self.limit() {
            (self.limit() - self.used()) as nat
        } else {
            0
        }
    }

    pub fn new(limit: usize) -> (budget: Self)
        ensures
            budget.limit() == limit,
            budget.used() == 0,
            budget.spec_remaining() == limit,
    {
        TokenBudget { limit, used: 0 }
    }

    pub fn remaining(&self) -> (r: usize)
        ensures
            r == self.spec_remaining(),
    {
        proof {
            use_type_invariant(self);
        }
        self.limit - self.used
    }

    /// Accepts `text_len_estimate` tokens exactly when they fit in what remains.
    pub fn try_consume(&mut self, text_len_estimate: usize) -> (accepted: bool)
        ensures
            accepted == (text_len_estimate <= old(self).spec_remaining()),
            final(self).limit() == old(self).limit(),
            accepted ==> final(self).used() == old(self).used() + text_len_estimate,
            !accepted ==> final(self).used() == old(self).used(),
            accepted ==> final(self).spec_remaining() == old(self).spec_remaining()
                - text_len_estimate,
            !accepted ==> final(self).spec_remaining() == old(self).spec_remaining(),
    {
        proof {
            use_type_invariant(&*self);
        }
        if text_len_estimate > self.remaining() {
            return false;
        }
        self.used = self.used + text_len_estimate;
        true
    }

    pub fn is_exhausted(&self) -> (exhausted: bool)
        ensures
            exhausted == (self.spec_remaining() == 0),
    {
        self.remaining() == 0
    }
}

/// The token estimate for a text of `char_count` characters: a third of the
/// characters, rounded down, and never less than one.
pub open spec fn token_estimate(char_count: nat) -> nat {
    if char_count / 3 == 0 {
        1
    } else {
        char_count / 3
    }
}

/// Number of decimal digits of `n`.
pub open spec fn decimal_len(n: nat) -> nat
    decreases n,
{
    if n < 10 {
        1
    } else {
        1 + decimal_len(n / 10)
    }
}

/// Characters of the JSON-like rendering of a graph node:
/// `{"name":"N","file":"F","line":L,"resolution":"R"}`.
pub open spec fn node_render_len(name: Seq<char>, file: Seq<char>, line: u32, resolution: Seq<char>) -> nat {
    45 + name.len() + file.len() + decimal_len(line as nat) + resolution.len()
}

/// Characters of the JSON-like rendering of a symbol:
/// `{"name":"N","file":"F","line":L,"kind":"K","signature":"S","is_public":B}`.
pub open spec fn symbol_render_len(
    name: Seq<char>,
    file: Seq<char>,
    line: u32,
    kind: Seq<char>,
    signature: Seq<char>,
    is_public: bool,
) -> nat {
    67 + name.len() + file.len() + decimal_len(line as nat) + kind.len() + signature.len() + if is_public {
        4nat
    } else {
        5nat
    }
}

/// The signature text a symbol renders with: the signature, or nothing.
pub open spec fn signature_text(signature: Option<Seq<char>>) -> Seq<char> {
    match signature {
        Some(s) => s,
        None => Seq::empty(),
    }
}

pub fn estimate_tokens(text: &str) -> (tokens: usize)
    ensures
        tokens == token_estimate(text@.len()),
{
    let n = text.unicode_len();
    let third = n / 3;
    if third > 1 {
        third
    } else if third == 1 {
        1
    } else {
        1
    }
}

fn decimal_digits(n: u32) -> (d: usize)
    ensures
        d == decimal_len(n as nat),
        d <= 10,
    decreases n,
{
    proof {
        reveal_with_fuel(pow10, 11);
        assert(pow10(10) == 10000000000);
        lemma_decimal_len_below(n as nat, 10);
    }
    if n < 10 {
        1
    } else {
        1 + decimal_digits(n / 10)
    }
}

spec fn pow10(k: nat) -> nat
    decreases k,
{
    if k == 0 {
        1
    } else {
        10 * pow10((k - 1) as nat)
    }
}

proof fn lemma_decimal_len_below(n: nat, k: nat)
    requires
        k >= 1,
        n < pow10(k),
    ensures
        decimal_len(n) <= k,
    decreases k,
{
    if n >= 10 {
        reveal_with_fuel(pow10, 2);
        assert(k >= 2);
        lemma_decimal_len_below(n / 10, (k - 1) as nat);
    }
}

pub fn estimate_node_tokens(name: &str, file: &str, line: u32, resolution: &str) -> (tokens: usize)
    requires
        name@.len() + file@.len() + resolution@.len() + 55 <= usize::MAX,
    ensures
        tokens == token_estimate(node_render_len(name@, file@, line, resolution@)),
{
    let total = 45 + name.unicode_len() + file.unicode_len() + decimal_digits(line)
        + resolution.unicode_len();
    let third = total / 3;
    if third == 0 {
        1
    } else {
        third
    }
}

pub fn estimate_symbol_tokens(
    name: &str,
    file: &str,
    line: u32,
    kind: &str,
    signature: Option<&str>,
    is_public: bool,
) -> (tokens: usize)
    requires
        name@.len() + file@.len() + kind@.len() + signature_text(
            match signature {
                Some(s) => Some(s@),
                None => None,
            },
        ).len() + 82 <= usize::MAX,
    ensures
        tokens == token_estimate(
            symbol_render_len(
                name@,
                file@,
                line,
                kind@,
                signature_text(
                    match signature {
                        Some(s) => Some(s@),
                        None => None,
                    },
                ),
                is_public,
            ),
        ),
{
    let signature_len = match signature {
        Some(s) => s.unicode_len(),
        None => 0,
    };
    let flag_len: usize = if is_public {
        4
    } else {
        5
    };
    let total = 67 + name.unicode_len() + file.unicode_len() + decimal_digits(line)
        + kind.unicode_len() + signature_len + flag_len;
    let third = total / 3;
    if third == 0 {
        1
    } else {
        third
    }
}

} // verus!
