//! Sums over stake ledgers: a ledger is a sequence of (key, amount) entries,
//! and what a key holds is the sum of the amounts of its entries.
use vstd::prelude::*;

verus! {

/// The sum of the amounts of the entries whose key satisfies `f`.
pub open spec fn sum_where<K>(s: Seq<(K, nat)>, f: spec_fn(K) -> bool) -> nat
    decreases s.len(),
{
    if s.len() == 0 {
        0
    } else {
        sum_where(s.drop_last(), f) + if f(s.last().0) {
            s.last().1
        } else {
            0nat
        }
    }
}

/// Selects the entries of key `k`.
pub open spec fn key_is<K>(k: K) -> spec_fn(K) -> bool {
    |x: K| x == k
}

/// The amount recorded for exactly the key `k`.
pub open spec fn amount_of<K>(s: Seq<(K, nat)>, k: K) -> nat {
    sum_where(s, key_is(k))
}

/// No key occurs twice.
pub open spec fn keys_unique<K>(s: Seq<(K, nat)>) -> bool {
    forall|i: int, j: int| 0 <= i < s.len() && 0 <= j < s.len() && i != j ==> s[i].0 != s[j].0
}

pub proof fn lemma_sum_push<K>(s: Seq<(K, nat)>, f: spec_fn(K) -> bool, e: (K, nat))
    ensures
        sum_where(s.push(e), f) == sum_where(s, f) + if f(e.0) {
            e.1
        } else {
            0nat
        },
{
    assert(s.push(e).drop_last() =~= s);
}

pub proof fn lemma_sum_update<K>(s: Seq<(K, nat)>, f: spec_fn(K) -> bool, i: int, v: nat)
    requires
        0 <= i < s.len(),
    ensures
        sum_where(s.update(i, (s[i].0, v)), f) + (if f(s[i].0) {
            s[i].1
        } else {
            0nat
        }) == sum_where(s, f) + (if f(s[i].0) {
            v
        } else {
            0nat
        }),
    decreases s.len(),
{
    let t = s.update(i, (s[i].0, v));
    if i == s.len() - 1 {
        assert(t.drop_last() =~= s.drop_last());
    } else {
        assert(t.drop_last() =~= s.drop_last().update(i, (s[i].0, v)));
        lemma_sum_update(s.drop_last(), f, i, v);
    }
}

pub proof fn lemma_sum_none<K>(s: Seq<(K, nat)>, f: spec_fn(K) -> bool)
    requires
        forall|j: int| 0 <= j < s.len() ==> !f(#[trigger] s[j].0),
    ensures
        sum_where(s, f) == 0,
    decreases s.len(),
{
    if s.len() > 0 {
        lemma_sum_none(s.drop_last(), f);
    }
}

pub proof fn lemma_sum_only<K>(s: Seq<(K, nat)>, f: spec_fn(K) -> bool, i: int)
    requires
        0 <= i < s.len(),
        f(s[i].0),
        forall|j: int| 0 <= j < s.len() && j != i ==> !f(#[trigger] s[j].0),
    ensures
        sum_where(s, f) == s[i].1,
    decreases s.len(),
{
    if i == s.len() - 1 {
        lemma_sum_none(s.drop_last(), f);
    } else {
        lemma_sum_only(s.drop_last(), f, i);
    }
}

pub proof fn lemma_sum_mono<K>(s: Seq<(K, nat)>, f: spec_fn(K) -> bool, g: spec_fn(K) -> bool)
    requires
        forall|k: K| #[trigger] f(k) ==> g(k),
    ensures
        sum_where(s, f) <= sum_where(s, g),
    decreases s.len(),
{
    if s.len() > 0 {
        lemma_sum_mono(s.drop_last(), f, g);
    }
}

/// In a ledger with unique keys, a key holds the amount of its entry.
pub proof fn lemma_unique_amount<K>(s: Seq<(K, nat)>, i: int)
    requires
        0 <= i < s.len(),
        keys_unique(s),
    ensures
        amount_of(s, s[i].0) == s[i].1,
{
    assert forall|j: int| 0 <= j < s.len() && j != i implies !key_is(s[i].0)(#[trigger] s[j].0) by {
        assert(s[i].0 != s[j].0);
    }
    lemma_sum_only(s, key_is(s[i].0), i);
}

/// A key without entries holds nothing.
pub proof fn lemma_absent_amount<K>(s: Seq<(K, nat)>, k: K)
    requires
        forall|j: int| 0 <= j < s.len() ==> s[j].0 != k,
    ensures
        amount_of(s, k) == 0,
{
    lemma_sum_none(s, key_is(k));
}

/// Setting the amount of an entry changes what its key holds and nothing else.
pub proof fn lemma_set_amount<K>(s: Seq<(K, nat)>, i: int, v: nat)
    requires
        0 <= i < s.len(),
        keys_unique(s),
    ensures
        keys_unique(s.update(i, (s[i].0, v))),
        amount_of(s, s[i].0) == s[i].1,
        forall|k: K|
            #[trigger] amount_of(s.update(i, (s[i].0, v)), k) == if k == s[i].0 {
                v
            } else {
                amount_of(s, k)
            },
{
    let t = s.update(i, (s[i].0, v));
    assert(keys_unique(t)) by {
        assert forall|a: int, b: int| 0 <= a < t.len() && 0 <= b < t.len() && a != b implies t[a].0
            != t[b].0 by {
            assert(s[a].0 != s[b].0);
        }
    }
    lemma_unique_amount(s, i);
    assert forall|k: K| #[trigger] amount_of(t, k) == if k == s[i].0 {
        v
    } else {
        amount_of(s, k)
    } by {
        lemma_sum_update(s, key_is(k), i, v);
    }
}

/// Adding an entry for a new key gives that key its amount and changes no other.
pub proof fn lemma_push_amount<K>(s: Seq<(K, nat)>, k0: K, v: nat)
    requires
        keys_unique(s),
        forall|j: int| 0 <= j < s.len() ==> s[j].0 != k0,
    ensures
        keys_unique(s.push((k0, v))),
        amount_of(s, k0) == 0,
        forall|k: K|
            #[trigger] amount_of(s.push((k0, v)), k) == if k == k0 {
                v
            } else {
                amount_of(s, k)
            },
{
    let t = s.push((k0, v));
    assert(keys_unique(t)) by {
        assert forall|a: int, b: int| 0 <= a < t.len() && 0 <= b < t.len() && a != b implies t[a].0
            != t[b].0 by {
            if a < s.len() && b < s.len() {
                assert(s[a].0 != s[b].0);
            }
        }
    }
    lemma_sum_none(s, key_is(k0));
    assert forall|k: K| #[trigger] amount_of(t, k) == if k == k0 {
        v
    } else {
        amount_of(s, k)
    } by {
        lemma_sum_push(s, key_is(k), (k0, v));
    }
}

/// Two selections that agree on every key select the same sum.
pub proof fn lemma_sum_ext<K>(s: Seq<(K, nat)>, f: spec_fn(K) -> bool, g: spec_fn(K) -> bool)
    requires
        forall|k: K| #[trigger] f(k) == g(k),
    ensures
        sum_where(s, f) == sum_where(s, g),
    decreases s.len(),
{
    if s.len() > 0 {
        lemma_sum_ext(s.drop_last(), f, g);
    }
}

/// A selection split into two disjoint parts sums to the sum of the parts.
pub proof fn lemma_sum_partition<K>(
    s: Seq<(K, nat)>,
    f: spec_fn(K) -> bool,
    g: spec_fn(K) -> bool,
    h: spec_fn(K) -> bool,
)
    requires
        forall|k: K| #[trigger] f(k) == (g(k) || h(k)),
        forall|k: K| !(#[trigger] g(k) && h(k)),
    ensures
        sum_where(s, f) == sum_where(s, g) + sum_where(s, h),
    decreases s.len(),
{
    if s.len() > 0 {
        lemma_sum_partition(s.drop_last(), f, g, h);
        assert(!(g(s.last().0) && h(s.last().0)));
    }
}

/// The sum of `g` over the accounts of `accts`.
pub open spec fn sum_over(accts: Seq<Seq<char>>, g: spec_fn(Seq<char>) -> int) -> int
    decreases accts.len(),
{
    if accts.len() == 0 {
        0
    } else {
        sum_over(accts.drop_last(), g) + g(accts.last())
    }
}

/// Sums over accounts add up pointwise.
pub proof fn lemma_sum_over_add(
    accts: Seq<Seq<char>>,
    h: spec_fn(Seq<char>) -> int,
    f: spec_fn(Seq<char>) -> int,
    g: spec_fn(Seq<char>) -> int,
)
    requires
        forall|a: Seq<char>| #[trigger] h(a) == f(a) + g(a),
    ensures
        sum_over(accts, h) == sum_over(accts, f) + sum_over(accts, g),
    decreases accts.len(),
{
    if accts.len() > 0 {
        lemma_sum_over_add(accts.drop_last(), h, f, g);
    }
}

/// Sums over accounts are monotone pointwise.
pub proof fn lemma_sum_over_le(accts: Seq<Seq<char>>, f: spec_fn(Seq<char>) -> int, g: spec_fn(Seq<char>) -> int)
    requires
        forall|a: Seq<char>| #[trigger] f(a) <= g(a),
    ensures
        sum_over(accts, f) <= sum_over(accts, g),
    decreases accts.len(),
{
    if accts.len() > 0 {
        lemma_sum_over_le(accts.drop_last(), f, g);
    }
}

/// A sum over accounts of terms that are all zero or more is zero or more.
pub proof fn lemma_sum_over_nonneg(accts: Seq<Seq<char>>, f: spec_fn(Seq<char>) -> int)
    requires
        forall|a: Seq<char>| #[trigger] f(a) >= 0,
    ensures
        sum_over(accts, f) >= 0,
    decreases accts.len(),
{
    if accts.len() > 0 {
        lemma_sum_over_nonneg(accts.drop_last(), f);
    }
}

proof fn lemma_floor_add(a: int, b: int, d: int)
    requires
        0 <= a,
        0 <= b,
        0 < d,
    ensures
        a / d + b / d <= (a + b) / d,
{
    vstd::arithmetic::div_mod::lemma_fundamental_div_mod(a, d);
    vstd::arithmetic::div_mod::lemma_fundamental_div_mod(b, d);
    let q = a / d + b / d;
    assert(q * d <= a + b) by (nonlinear_arith)
        requires
            a == d * (a / d) + a % d,
            b == d * (b / d) + b % d,
            a % d >= 0,
            b % d >= 0,
            q == a / d + b / d;
    vstd::arithmetic::div_mod::lemma_div_is_ordered(q * d, a + b, d);
    vstd::arithmetic::div_mod::lemma_div_multiples_vanish(q, d);
}

/// Rounding each share down pays out no more than rounding the total down.
pub proof fn lemma_sum_over_floor(
    accts: Seq<Seq<char>>,
    h: spec_fn(Seq<char>) -> int,
    x: spec_fn(Seq<char>) -> int,
    p: int,
    d: int,
)
    requires
        forall|a: Seq<char>| #[trigger] x(a) >= 0,
        forall|a: Seq<char>| #[trigger] h(a) == x(a) * p / d,
        p >= 0,
        d > 0,
    ensures
        sum_over(accts, h) <= sum_over(accts, x) * p / d,
    decreases accts.len(),
{
    if accts.len() > 0 {
        let pre = accts.drop_last();
        let a = accts.last();
        lemma_sum_over_floor(pre, h, x, p, d);
        lemma_sum_over_nonneg(pre, x);
        let sx = sum_over(pre, x);
        assert(sx * p >= 0) by (nonlinear_arith)
            requires sx >= 0, p >= 0;
        assert(x(a) * p >= 0) by (nonlinear_arith)
            requires x(a) >= 0, p >= 0;
        lemma_floor_add(sx * p, x(a) * p, d);
        assert(sx * p + x(a) * p == (sx + x(a)) * p) by (nonlinear_arith);
    }
}

/// A sum over accounts of zeros is zero.
pub proof fn lemma_sum_over_zero(accts: Seq<Seq<char>>, z: spec_fn(Seq<char>) -> int)
    requires
        forall|a: Seq<char>| #[trigger] z(a) == 0,
    ensures
        sum_over(accts, z) == 0,
    decreases accts.len(),
{
    if accts.len() > 0 {
        lemma_sum_over_zero(accts.drop_last(), z);
    }
}

/// Sums over accounts agree where the terms agree on every listed account.
pub proof fn lemma_sum_over_agree(accts: Seq<Seq<char>>, f: spec_fn(Seq<char>) -> int, g: spec_fn(Seq<char>) -> int)
    requires
        forall|i: int| 0 <= i < accts.len() ==> f(#[trigger] accts[i]) == g(accts[i]),
    ensures
        sum_over(accts, f) == sum_over(accts, g),
    decreases accts.len(),
{
    if accts.len() > 0 {
        let pre = accts.drop_last();
        assert forall|i: int| 0 <= i < pre.len() implies f(#[trigger] pre[i]) == g(pre[i]) by {
            assert(pre[i] == accts[i]);
        }
        lemma_sum_over_agree(pre, f, g);
        assert(f(accts[accts.len() - 1]) == g(accts[accts.len() - 1]));
    }
}

/// Where `f` is `g` with the term of the listed account `a` set to zero,
/// its sum lacks exactly that term.
pub proof fn lemma_sum_over_without(
    accts: Seq<Seq<char>>,
    f: spec_fn(Seq<char>) -> int,
    g: spec_fn(Seq<char>) -> int,
    a: Seq<char>,
)
    requires
        accts.no_duplicates(),
        accts.contains(a),
        f(a) == 0,
        forall|b: Seq<char>| b != a ==> #[trigger] f(b) == g(b),
    ensures
        sum_over(accts, f) == sum_over(accts, g) - g(a),
    decreases accts.len(),
{
    let pre = accts.drop_last();
    let last = accts[accts.len() - 1];
    assert(pre.no_duplicates()) by {
        assert forall|i: int, j: int| 0 <= i < pre.len() && 0 <= j < pre.len() && i != j implies pre[i] != pre[j] by {
            assert(pre[i] == accts[i] && pre[j] == accts[j]);
        }
    }
    if last == a {
        assert forall|i: int| 0 <= i < pre.len() implies f(#[trigger] pre[i]) == g(pre[i]) by {
            assert(pre[i] == accts[i]);
            assert(accts[i] != accts[accts.len() - 1]);
        }
        lemma_sum_over_agree(pre, f, g);
    } else {
        let i = choose|i: int| 0 <= i < accts.len() && accts[i] == a;
        assert(i != accts.len() - 1);
        assert(pre[i] == a);
        lemma_sum_over_without(pre, f, g, a);
    }
}

} // verus!