use vstd::prelude::*;

use crate::text::chars_eq;
use vstd::set_lib::{lemma_int_range, lemma_len_subset, lemma_subset_equality, set_int_range};

verus! {

/// Lexicographic order on character sequences, by code point (for UTF-8 text
/// this is also the byte order `str::cmp` uses).
pub open spec fn lex_le(a: Seq<char>, b: Seq<char>) -> bool
    decreases a.len(),
{
    if a.len() == 0 {
        true
    } else if b.len() == 0 {
        false
    } else if a[0] != b[0] {
        a[0] < b[0]
    } else {
        lex_le(a.drop_first(), b.drop_first())
    }
}

pub proof fn lemma_lex_total(a: Seq<char>, b: Seq<char>)
    ensures
        lex_le(a, b) || lex_le(b, a),
    decreases a.len(),
{
    if a.len() > 0 && b.len() > 0 && a[0] == b[0] {
        lemma_lex_total(a.drop_first(), b.drop_first());
    }
}

pub proof fn lemma_lex_antisym(a: Seq<char>, b: Seq<char>)
    requires
        lex_le(a, b),
        lex_le(b, a),
    ensures
        a == b,
    decreases a.len(),
{
    if a.len() > 0 && b.len() > 0 {
        lemma_lex_antisym(a.drop_first(), b.drop_first());
        assert(a =~= seq![a[0]] + a.drop_first());
        assert(b =~= seq![b[0]] + b.drop_first());
    } else {
        assert(a.len() == 0 && b.len() == 0);
        assert(a =~= b);
    }
}

pub proof fn lemma_lex_trans(a: Seq<char>, b: Seq<char>, c: Seq<char>)
    requires
        lex_le(a, b),
        lex_le(b, c),
    ensures
        lex_le(a, c),
    decreases a.len(),
{
    if a.len() > 0 && b.len() > 0 && c.len() > 0 && a[0] == b[0] && b[0] == c[0] {
        lemma_lex_trans(a.drop_first(), b.drop_first(), c.drop_first());
    }
}

/// Whether `a` comes before or with `b` in the lexicographic order.
pub fn chars_lex_le(a: &[char], b: &[char]) -> (le: bool)
    ensures
        le == lex_le(a@, b@),
{
    let mut i: usize = 0;
    proof {
        assert(a@.skip(0) =~= a@);
        assert(b@.skip(0) =~= b@);
    }
    while i < a.len() && i < b.len() && a[i] == b[i]
        invariant
            i <= a@.len(),
            i <= b@.len(),
            lex_le(a@, b@) == lex_le(a@.skip(i as int), b@.skip(i as int)),
        decreases a@.len() - i,
    {
        proof {
            assert(a@.skip(i as int).drop_first() =~= a@.skip(i + 1));
            assert(b@.skip(i as int).drop_first() =~= b@.skip(i + 1));
        }
        i = i + 1;
    }
    if i == a.len() {
        true
    } else if i == b.len() {
        false
    } else {
        a[i] < b[i]
    }
}

/// `perm` lists each index below `n` once.
pub open spec fn is_permutation(perm: Seq<int>, n: nat) -> bool {
    &&& perm.len() == n
    &&& forall|i: int| 0 <= i < n ==> 0 <= #[trigger] perm[i] < n
    &&& forall|i: int, j: int| 0 <= i < j < n ==> #[trigger] perm[i] != #[trigger] perm[j]
}

/// Taking the items at `perm` puts `keys` in order, and items with equal keys
/// keep their input order.
pub open spec fn stably_orders(perm: Seq<int>, keys: Seq<Seq<char>>) -> bool {
    &&& is_permutation(perm, keys.len())
    &&& forall|i: int, j: int|
        0 <= i < j < perm.len() ==> lex_le(keys[#[trigger] perm[i]], keys[#[trigger] perm[j]]) && (
        keys[perm[i]] == keys[perm[j]] ==> perm[i] < perm[j])
}

/// `out` is the stable sort of `input` by `keys` (one key per input item).
pub open spec fn is_stable_sort<T>(out: Seq<T>, input: Seq<T>, keys: Seq<Seq<char>>) -> bool {
    &&& out.len() == input.len()
    &&& keys.len() == input.len()
    &&& exists|perm: Seq<int>|
        stably_orders(perm, keys) && forall|i: int| 0 <= i < out.len() ==> #[trigger] out[i] == input[perm[i]]
}

/// Two stable orderings by the same texts agree on their first `i` positions.
proof fn lemma_stable_text_prefix_agrees(p1: Seq<int>, p2: Seq<int>, keys: Seq<Seq<char>>, i: int)
    requires
        stably_orders(p1, keys),
        stably_orders(p2, keys),
        0 <= i <= keys.len(),
    ensures
        forall|k: int| 0 <= k < i ==> p1[k] == p2[k],
    decreases i,
{
    if i > 0 {
        lemma_stable_text_prefix_agrees(p1, p2, keys, i - 1);
        let m = i - 1;
        let a = p1[m];
        let b = p2[m];
        if a != b {
            let n = keys.len();
            lemma_permutation_onto(p2, n, a);
            lemma_permutation_onto(p1, n, b);
            let j2 = choose|j: int| 0 <= j < n && p2[j] == a;
            let j1 = choose|j: int| 0 <= j < n && p1[j] == b;
            if j2 < m {
                assert(p1[j2] == p2[j2]);
                assert(p1[j2] != p1[m]);
            }
            if j1 < m {
                assert(p2[j1] == p1[j1]);
                assert(p2[j1] != p2[m]);
            }
            assert(j2 > m && j1 > m);
            assert(lex_le(keys[p2[m]], keys[p2[j2]]));
            assert(lex_le(keys[p1[m]], keys[p1[j1]]));
            lemma_lex_antisym(keys[a], keys[b]);
            assert(b < a);
            assert(a < b);
        }
    }
}

/// The stable sort by texts is unique: two stable sorts of the same items by
/// the same texts are equal.
pub proof fn lemma_stable_sort_unique<T>(a: Seq<T>, b: Seq<T>, input: Seq<T>, keys: Seq<Seq<char>>)
    requires
        is_stable_sort(a, input, keys),
        is_stable_sort(b, input, keys),
    ensures
        a == b,
{
    let p1 = choose|perm: Seq<int>| stably_orders(perm, keys) && forall|i: int| 0 <= i < a.len() ==> #[trigger] a[i] == input[perm[i]];
    let p2 = choose|perm: Seq<int>| stably_orders(perm, keys) && forall|i: int| 0 <= i < b.len() ==> #[trigger] b[i] == input[perm[i]];
    lemma_stable_text_prefix_agrees(p1, p2, keys, keys.len() as int);
    assert forall|i: int| 0 <= i < a.len() implies a[i] == b[i] by {
        assert(a[i] == input[p1[i]]);
        assert(b[i] == input[p2[i]]);
    }
    assert(a =~= b);
}

/// Sorts `items` stably by `keys`, the key of each item given at its index.
pub fn stable_sort_by_keys<T>(items: Vec<T>, keys: Vec<Vec<char>>) -> (out: Vec<T>)
    requires
        items@.len() == keys@.len(),
    ensures
        is_stable_sort(out@, items@, keys@.map_values(|k: Vec<char>| k@)),
{
    let ghost input = items@;
    let ghost ks = keys@.map_values(|k: Vec<char>| k@);
    let total = keys.len();
    let mut rest = items;
    let mut out: Vec<T> = Vec::new();
    // `order` holds, for each placed item, the index of its key.
    let mut order: Vec<usize> = Vec::new();
    let mut n: usize = 0;
    while rest.len() > 0
        invariant
            input.len() == keys@.len(),
            total == keys@.len(),
            ks == keys@.map_values(|k: Vec<char>| k@),
            n + rest@.len() == input.len(),
            rest@ == input.skip(n as int),
            out@.len() == n,
            order@.len() == n,
            forall|i: int| 0 <= i < n ==> 0 <= #[trigger] order@[i] < n,
            forall|i: int, j: int| 0 <= i < j < n ==> #[trigger] order@[i] != #[trigger] order@[j],
            forall|i: int| 0 <= i < n ==> #[trigger] out@[i] == input[order@[i] as int],
            forall|i: int, j: int|
                0 <= i < j < n ==> lex_le(ks[#[trigger] order@[i] as int], ks[#[trigger] order@[j] as int])
                    && (ks[order@[i] as int] == ks[order@[j] as int] ==> order@[i] < order@[j]),
        decreases rest@.len(),
    {
        let item = rest.remove(0);
        proof {
            assert(item == input[n as int]);
            assert(rest@ =~= input.skip(n + 1));
        }
        let key = &keys[n];
        // Place the item after every placed item whose key is not above its own.
        let mut pos: usize = n;
        let mut settled = false;
        while pos > 0 && !settled
            invariant
                0 <= pos <= n,
                order@.len() == n,
                n < keys@.len(),
                key@ == keys@[n as int]@,
                ks == keys@.map_values(|k: Vec<char>| k@),
                forall|i: int| 0 <= i < n ==> 0 <= #[trigger] order@[i] < n,
                forall|i: int| pos <= i < n ==> !lex_le(ks[#[trigger] order@[i] as int], ks[n as int]),
                settled ==> pos > 0 && lex_le(ks[order@[pos - 1] as int], ks[n as int]),
            decreases pos, if settled { 0int } else { 1int },
        {
            let le = chars_lex_le(keys[order[pos - 1]].as_slice(), key.as_slice());
            proof {
                assert(ks[order@[pos - 1] as int] == keys@[order@[pos - 1] as int]@);
                assert(ks[n as int] == keys@[n as int]@);
            }
            if le {
                settled = true;
            } else {
                pos = pos - 1;
            }
        }
        let ghost old_order = order@;
        proof {
            // Items before `pos` have keys at or below the new key.
            assert forall|i: int| 0 <= i < pos implies lex_le(ks[#[trigger] old_order[i] as int], ks[n as int]) by {
                if pos > 0 {
                    assert(lex_le(ks[old_order[pos - 1] as int], ks[n as int]));
                    if i < pos - 1 {
                        lemma_lex_trans(ks[old_order[i] as int], ks[old_order[pos - 1] as int], ks[n as int]);
                    }
                }
            }
            assert forall|i: int| pos <= i < n implies lex_le(ks[n as int], ks[#[trigger] old_order[i] as int])
                && ks[n as int] != ks[old_order[i] as int] by {
                lemma_lex_total(ks[n as int], ks[old_order[i] as int]);
            }
        }
        out.insert(pos, item);
        order.insert(pos, n);
        proof {
            let o = order@;
            assert forall|i: int| 0 <= i < n + 1 implies 0 <= #[trigger] o[i] < n + 1 by {
                if i < pos {
                    assert(o[i] == old_order[i]);
                } else if i > pos {
                    assert(o[i] == old_order[i - 1]);
                }
            }
            assert forall|i: int, j: int| 0 <= i < j < n + 1 implies #[trigger] o[i] != #[trigger] o[j] by {
                if i < pos {
                    assert(o[i] == old_order[i]);
                } else if i > pos {
                    assert(o[i] == old_order[i - 1]);
                }
                if j < pos {
                    assert(o[j] == old_order[j]);
                } else if j > pos {
                    assert(o[j] == old_order[j - 1]);
                }
            }
            assert forall|i: int| 0 <= i < n + 1 implies #[trigger] out@[i] == input[o[i] as int] by {
                if i < pos {
                    assert(o[i] == old_order[i]);
                } else if i > pos {
                    assert(o[i] == old_order[i - 1]);
                }
            }
            assert forall|i: int, j: int|
                0 <= i < j < n + 1 implies lex_le(ks[#[trigger] o[i] as int], ks[#[trigger] o[j] as int]) && (
                ks[o[i] as int] == ks[o[j] as int] ==> o[i] < o[j]) by {
                if i < pos {
                    assert(o[i] == old_order[i]);
                } else if i > pos {
                    assert(o[i] == old_order[i - 1]);
                }
                if j < pos {
                    assert(o[j] == old_order[j]);
                } else if j > pos {
                    assert(o[j] == old_order[j - 1]);
                }
                if i < pos && j > pos {
                    lemma_lex_trans(ks[o[i] as int], ks[n as int], ks[o[j] as int]);
                }
            }
        }
        n = n + 1;
    }
    proof {
        let perm = Seq::new(n as nat, |i: int| order@[i] as int);
        assert(stably_orders(perm, ks));
        assert forall|i: int| 0 <= i < out@.len() implies #[trigger] out@[i] == input[perm[i]] by {}
    }
    out
}

/// Taking the items at `perm` puts `keys` in ascending order, and items with
/// equal keys keep their input order.
pub open spec fn stably_orders_u32(perm: Seq<int>, keys: Seq<u32>) -> bool {
    &&& is_permutation(perm, keys.len())
    &&& forall|i: int, j: int|
        0 <= i < j < perm.len() ==> keys[#[trigger] perm[i]] <= keys[#[trigger] perm[j]] && (keys[perm[i]]
            == keys[perm[j]] ==> perm[i] < perm[j])
}

/// `out` is the stable sort of `input` by the number `keys[i]` of each item.
pub open spec fn is_stable_sort_u32<T>(out: Seq<T>, input: Seq<T>, keys: Seq<u32>) -> bool {
    &&& out.len() == input.len()
    &&& keys.len() == input.len()
    &&& exists|perm: Seq<int>|
        stably_orders_u32(perm, keys) && forall|i: int| 0 <= i < out.len() ==> #[trigger] out[i] == input[perm[i]]
}

/// A permutation of the indices below `n` takes each of them.
pub proof fn lemma_permutation_onto(perm: Seq<int>, n: nat, v: int)
    requires
        is_permutation(perm, n),
        0 <= v < n,
    ensures
        exists|i: int| 0 <= i < n && perm[i] == v,
{
    assert(perm.no_duplicates()) by {
        assert forall|i: int, j: int| 0 <= i < perm.len() && 0 <= j < perm.len() && i != j implies perm[i] != perm[j] by {
            if i < j {
                assert(perm[i] != perm[j]);
            } else {
                assert(perm[j] != perm[i]);
            }
        }
    }
    perm.unique_seq_to_set();
    let s = perm.to_set();
    let r = set_int_range(0, n as int);
    lemma_int_range(0, n as int);
    assert(s.subset_of(r)) by {
        assert forall|x: int| s.contains(x) implies r.contains(x) by {
            let i = choose|i: int| 0 <= i < perm.len() && perm[i] == x;
            assert(0 <= perm[i] < n);
        }
    }
    lemma_len_subset(s, r);
    lemma_subset_equality(s, r);
    assert(r.contains(v));
    assert(s.contains(v));
}

/// Two stable orderings by the same numbers agree on their first `i`
/// positions.
proof fn lemma_stable_prefix_agrees(p1: Seq<int>, p2: Seq<int>, keys: Seq<u32>, i: int)
    requires
        stably_orders_u32(p1, keys),
        stably_orders_u32(p2, keys),
        0 <= i <= keys.len(),
    ensures
        forall|k: int| 0 <= k < i ==> p1[k] == p2[k],
    decreases i,
{
    if i > 0 {
        lemma_stable_prefix_agrees(p1, p2, keys, i - 1);
        let m = i - 1;
        let a = p1[m];
        let b = p2[m];
        if a != b {
            let n = keys.len();
            lemma_permutation_onto(p2, n, a);
            lemma_permutation_onto(p1, n, b);
            let j2 = choose|j: int| 0 <= j < n && p2[j] == a;
            let j1 = choose|j: int| 0 <= j < n && p1[j] == b;
            if j2 < m {
                assert(p1[j2] == p2[j2]);
                assert(p1[j2] != p1[m]);
            }
            if j1 < m {
                assert(p2[j1] == p1[j1]);
                assert(p2[j1] != p2[m]);
            }
            assert(j2 > m);
            assert(j1 > m);
            assert(keys[p2[m]] <= keys[p2[j2]]);
            assert(keys[p1[m]] <= keys[p1[j1]]);
            assert(keys[b] == keys[a]);
            assert(b < a);
            assert(a < b);
        }
    }
}

/// The stable sort by numbers is unique: two stable sorts of the same items
/// by the same numbers are equal.
pub proof fn lemma_stable_sort_u32_unique<T>(a: Seq<T>, b: Seq<T>, input: Seq<T>, keys: Seq<u32>)
    requires
        is_stable_sort_u32(a, input, keys),
        is_stable_sort_u32(b, input, keys),
    ensures
        a == b,
{
    let p1 = choose|perm: Seq<int>| stably_orders_u32(perm, keys) && forall|i: int| 0 <= i < a.len() ==> #[trigger] a[i] == input[perm[i]];
    let p2 = choose|perm: Seq<int>| stably_orders_u32(perm, keys) && forall|i: int| 0 <= i < b.len() ==> #[trigger] b[i] == input[perm[i]];
    lemma_stable_prefix_agrees(p1, p2, keys, keys.len() as int);
    assert forall|i: int| 0 <= i < a.len() implies a[i] == b[i] by {
        assert(a[i] == input[p1[i]]);
        assert(b[i] == input[p2[i]]);
    }
    assert(a =~= b);
}

/// Sorts `items` stably by the numbers `keys`, one per item.
pub fn stable_sort_by_u32_keys<T>(items: Vec<T>, keys: Vec<u32>) -> (out: Vec<T>)
    requires
        items@.len() == keys@.len(),
    ensures
        is_stable_sort_u32(out@, items@, keys@),
{
    let ghost input = items@;
    let ghost ks = keys@;
    let total = keys.len();
    let mut rest = items;
    let mut out: Vec<T> = Vec::new();
    let mut order: Vec<usize> = Vec::new();
    let mut n: usize = 0;
    while rest.len() > 0
        invariant
            input.len() == keys@.len(),
            total == keys@.len(),
            ks == keys@,
            n + rest@.len() == input.len(),
            rest@ == input.skip(n as int),
            out@.len() == n,
            order@.len() == n,
            forall|i: int| 0 <= i < n ==> 0 <= #[trigger] order@[i] < n,
            forall|i: int, j: int| 0 <= i < j < n ==> #[trigger] order@[i] != #[trigger] order@[j],
            forall|i: int| 0 <= i < n ==> #[trigger] out@[i] == input[order@[i] as int],
            forall|i: int, j: int|
                0 <= i < j < n ==> ks[#[trigger] order@[i] as int] <= ks[#[trigger] order@[j] as int] && (
                ks[order@[i] as int] == ks[order@[j] as int] ==> order@[i] < order@[j]),
        decreases rest@.len(),
    {
        let item = rest.remove(0);
        proof {
            assert(item == input[n as int]);
            assert(rest@ =~= input.skip(n + 1));
        }
        let key = keys[n];
        let mut pos: usize = n;
        while pos > 0 && keys[order[pos - 1]] > key
            invariant
                0 <= pos <= n,
                order@.len() == n,
                n < keys@.len(),
                key == ks[n as int],
                ks == keys@,
                forall|i: int| 0 <= i < n ==> 0 <= #[trigger] order@[i] < n,
                forall|i: int| pos <= i < n ==> ks[#[trigger] order@[i] as int] > ks[n as int],
            decreases pos,
        {
            pos = pos - 1;
        }
        let ghost old_order = order@;
        proof {
            assert forall|i: int| 0 <= i < pos implies ks[#[trigger] old_order[i] as int] <= ks[n as int] by {
                if pos > 0 {
                    assert(ks[old_order[pos - 1] as int] <= ks[n as int]);
                }
            }
        }
        out.insert(pos, item);
        order.insert(pos, n);
        proof {
            let o = order@;
            assert forall|i: int| 0 <= i < n + 1 implies 0 <= #[trigger] o[i] < n + 1 by {
                if i < pos {
                    assert(o[i] == old_order[i]);
                } else if i > pos {
                    assert(o[i] == old_order[i - 1]);
                }
            }
            assert forall|i: int, j: int| 0 <= i < j < n + 1 implies #[trigger] o[i] != #[trigger] o[j] by {
                if i < pos {
                    assert(o[i] == old_order[i]);
                } else if i > pos {
                    assert(o[i] == old_order[i - 1]);
                }
                if j < pos {
                    assert(o[j] == old_order[j]);
                } else if j > pos {
                    assert(o[j] == old_order[j - 1]);
                }
            }
            assert forall|i: int| 0 <= i < n + 1 implies #[trigger] out@[i] == input[o[i] as int] by {
                if i < pos {
                    assert(o[i] == old_order[i]);
                } else if i > pos {
                    assert(o[i] == old_order[i - 1]);
                }
            }
            assert forall|i: int, j: int|
                0 <= i < j < n + 1 implies ks[#[trigger] o[i] as int] <= ks[#[trigger] o[j] as int] && (
                ks[o[i] as int] == ks[o[j] as int] ==> o[i] < o[j]) by {
                if i < pos {
                    assert(o[i] == old_order[i]);
                } else if i > pos {
                    assert(o[i] == old_order[i - 1]);
                }
                if j < pos {
                    assert(o[j] == old_order[j]);
                } else if j > pos {
                    assert(o[j] == old_order[j - 1]);
                }
            }
        }
        n = n + 1;
    }
    proof {
        let perm = Seq::new(n as nat, |i: int| order@[i] as int);
        assert(stably_orders_u32(perm, ks));
        assert forall|i: int| 0 <= i < out@.len() implies #[trigger] out@[i] == input[perm[i]] by {}
    }
    out
}

/// A sort key of four parts, compared in turn: a rank, two texts and a
/// number.
pub type RankKey = (u32, Vec<char>, Vec<char>, u32);

/// A rank key as plain values.
pub open spec fn rank_key_view(k: RankKey) -> (u32, Seq<char>, Seq<char>, u32) {
    (k.0, k.1@, k.2@, k.3)
}

/// `a` strictly before `b` in the lexicographic order.
pub open spec fn lex_lt(a: Seq<char>, b: Seq<char>) -> bool {
    lex_le(a, b) && a != b
}

/// Rank keys compared part by part: rank, then first text, then second
/// text, then number.
pub open spec fn rank_le(a: (u32, Seq<char>, Seq<char>, u32), b: (u32, Seq<char>, Seq<char>, u32)) -> bool {
    a.0 < b.0 || (a.0 == b.0 && (lex_lt(a.1, b.1) || (a.1 == b.1 && (lex_lt(a.2, b.2) || (a.2 == b.2 && a.3
        <= b.3)))))
}

pub proof fn lemma_rank_total(a: (u32, Seq<char>, Seq<char>, u32), b: (u32, Seq<char>, Seq<char>, u32))
    ensures
        rank_le(a, b) || rank_le(b, a),
        rank_le(a, b) && rank_le(b, a) ==> a == b,
{
    lemma_lex_total(a.1, b.1);
    lemma_lex_total(a.2, b.2);
    if lex_le(a.1, b.1) && lex_le(b.1, a.1) {
        lemma_lex_antisym(a.1, b.1);
    }
    if lex_le(a.2, b.2) && lex_le(b.2, a.2) {
        lemma_lex_antisym(a.2, b.2);
    }
}

pub proof fn lemma_rank_trans(
    a: (u32, Seq<char>, Seq<char>, u32),
    b: (u32, Seq<char>, Seq<char>, u32),
    c: (u32, Seq<char>, Seq<char>, u32),
)
    requires
        rank_le(a, b),
        rank_le(b, c),
    ensures
        rank_le(a, c),
{
    if a.0 == b.0 && b.0 == c.0 {
        if lex_lt(a.1, b.1) && lex_lt(b.1, c.1) {
            lemma_lex_trans(a.1, b.1, c.1);
            if a.1 == c.1 {
                lemma_lex_antisym(a.1, b.1);
            }
        }
        if a.1 == b.1 && b.1 == c.1 && lex_lt(a.2, b.2) && lex_lt(b.2, c.2) {
            lemma_lex_trans(a.2, b.2, c.2);
            if a.2 == c.2 {
                lemma_lex_antisym(a.2, b.2);
            }
        }
    }
}

/// Whether rank key `a` comes before or with `b`.
pub fn rank_key_le(a: &RankKey, b: &RankKey) -> (le: bool)
    ensures
        le == rank_le(rank_key_view(*a), rank_key_view(*b)),
{
    if a.0 != b.0 {
        return a.0 < b.0;
    }
    let name_eq = chars_eq(a.1.as_slice(), b.1.as_slice());
    if !name_eq {
        return chars_lex_le(a.1.as_slice(), b.1.as_slice());
    }
    let file_eq = chars_eq(a.2.as_slice(), b.2.as_slice());
    if !file_eq {
        return chars_lex_le(a.2.as_slice(), b.2.as_slice());
    }
    a.3 <= b.3
}

/// Taking the items at `perm` puts `keys` in rank order, and items with
/// equal keys keep their input order.
pub open spec fn stably_ranks(perm: Seq<int>, keys: Seq<(u32, Seq<char>, Seq<char>, u32)>) -> bool {
    &&& is_permutation(perm, keys.len())
    &&& forall|i: int, j: int|
        0 <= i < j < perm.len() ==> rank_le(keys[#[trigger] perm[i]], keys[#[trigger] perm[j]]) && (keys[perm[i]]
            == keys[perm[j]] ==> perm[i] < perm[j])
}

/// `out` is the stable sort of `input` by the rank keys `keys`.
pub open spec fn is_rank_sort<T>(out: Seq<T>, input: Seq<T>, keys: Seq<(u32, Seq<char>, Seq<char>, u32)>) -> bool {
    &&& out.len() == input.len()
    &&& keys.len() == input.len()
    &&& exists|perm: Seq<int>|
        stably_ranks(perm, keys) && forall|i: int| 0 <= i < out.len() ==> #[trigger] out[i] == input[perm[i]]
}

/// Sorts `items` stably by their rank keys, one per item.
pub fn stable_sort_by_rank<T>(items: Vec<T>, keys: Vec<RankKey>) -> (out: Vec<T>)
    requires
        items@.len() == keys@.len(),
    ensures
        is_rank_sort(out@, items@, keys@.map_values(|k: RankKey| rank_key_view(k))),
{
    let ghost input = items@;
    let ghost ks = keys@.map_values(|k: RankKey| rank_key_view(k));
    let total = keys.len();
    let mut rest = items;
    let mut out: Vec<T> = Vec::new();
    let mut order: Vec<usize> = Vec::new();
    let mut n: usize = 0;
    while rest.len() > 0
        invariant
            input.len() == keys@.len(),
            total == keys@.len(),
            ks == keys@.map_values(|k: RankKey| rank_key_view(k)),
            n + rest@.len() == input.len(),
            rest@ == input.skip(n as int),
            out@.len() == n,
            order@.len() == n,
            forall|i: int| 0 <= i < n ==> 0 <= #[trigger] order@[i] < n,
            forall|i: int, j: int| 0 <= i < j < n ==> #[trigger] order@[i] != #[trigger] order@[j],
            forall|i: int| 0 <= i < n ==> #[trigger] out@[i] == input[order@[i] as int],
            forall|i: int, j: int|
                0 <= i < j < n ==> rank_le(ks[#[trigger] order@[i] as int], ks[#[trigger] order@[j] as int])
                    && (ks[order@[i] as int] == ks[order@[j] as int] ==> order@[i] < order@[j]),
        decreases rest@.len(),
    {
        let item = rest.remove(0);
        proof {
            assert(item == input[n as int]);
            assert(rest@ =~= input.skip(n + 1));
        }
        let key = &keys[n];
        let mut pos: usize = n;
        let mut settled = false;
        while pos > 0 && !settled
            invariant
                0 <= pos <= n,
                order@.len() == n,
                n < keys@.len(),
                rank_key_view(*key) == ks[n as int],
                ks == keys@.map_values(|k: RankKey| rank_key_view(k)),
                forall|i: int| 0 <= i < n ==> 0 <= #[trigger] order@[i] < n,
                forall|i: int| pos <= i < n ==> !rank_le(ks[#[trigger] order@[i] as int], ks[n as int]),
                settled ==> pos > 0 && rank_le(ks[order@[pos - 1] as int], ks[n as int]),
            decreases pos, if settled { 0int } else { 1int },
        {
            let le = rank_key_le(&keys[order[pos - 1]], key);
            proof {
                assert(ks[order@[pos - 1] as int] == rank_key_view(keys@[order@[pos - 1] as int]));
            }
            if le {
                settled = true;
            } else {
                pos = pos - 1;
            }
        }
        let ghost old_order = order@;
        proof {
            assert forall|i: int| 0 <= i < pos implies rank_le(ks[#[trigger] old_order[i] as int], ks[n as int]) by {
                if pos > 0 {
                    assert(rank_le(ks[old_order[pos - 1] as int], ks[n as int]));
                    if i < pos - 1 {
                        lemma_rank_trans(ks[old_order[i] as int], ks[old_order[pos - 1] as int], ks[n as int]);
                    }
                }
            }
            assert forall|i: int| pos <= i < n implies rank_le(ks[n as int], ks[#[trigger] old_order[i] as int])
                && ks[n as int] != ks[old_order[i] as int] by {
                lemma_rank_total(ks[n as int], ks[old_order[i] as int]);
                if ks[n as int] == ks[old_order[i] as int] {
                    lemma_rank_total(ks[n as int], ks[n as int]);
                }
            }
        }
        out.insert(pos, item);
        order.insert(pos, n);
        proof {
            let o = order@;
            assert forall|i: int| 0 <= i < n + 1 implies 0 <= #[trigger] o[i] < n + 1 by {
                if i < pos {
                    assert(o[i] == old_order[i]);
                } else if i > pos {
                    assert(o[i] == old_order[i - 1]);
                }
            }
            assert forall|i: int, j: int| 0 <= i < j < n + 1 implies #[trigger] o[i] != #[trigger] o[j] by {
                if i < pos {
                    assert(o[i] == old_order[i]);
                } else if i > pos {
                    assert(o[i] == old_order[i - 1]);
                }
                if j < pos {
                    assert(o[j] == old_order[j]);
                } else if j > pos {
                    assert(o[j] == old_order[j - 1]);
                }
            }
            assert forall|i: int| 0 <= i < n + 1 implies #[trigger] out@[i] == input[o[i] as int] by {
                if i < pos {
                    assert(o[i] == old_order[i]);
                } else if i > pos {
                    assert(o[i] == old_order[i - 1]);
                }
            }
            assert forall|i: int, j: int|
                0 <= i < j < n + 1 implies rank_le(ks[#[trigger] o[i] as int], ks[#[trigger] o[j] as int]) && (
                ks[o[i] as int] == ks[o[j] as int] ==> o[i] < o[j]) by {
                if i < pos {
                    assert(o[i] == old_order[i]);
                } else if i > pos {
                    assert(o[i] == old_order[i - 1]);
                }
                if j < pos {
                    assert(o[j] == old_order[j]);
                } else if j > pos {
                    assert(o[j] == old_order[j - 1]);
                }
                if i < pos && j > pos {
                    lemma_rank_trans(ks[o[i] as int], ks[n as int], ks[o[j] as int]);
                }
            }
        }
        n = n + 1;
    }
    proof {
        let perm = Seq::new(n as nat, |i: int| order@[i] as int);
        assert(stably_ranks(perm, ks));
        assert forall|i: int| 0 <= i < out@.len() implies #[trigger] out@[i] == input[perm[i]] by {}
    }
    out
}

} // verus!
