//! The balance store: a flat map from (token, account) to a held amount,
//! kept as a vector of entries with pairwise distinct keys. An absent key
//! holds amount zero. The module proves how lookup, update and insertion
//! move the per-token sum of amounts, which is what the supply-conservation
//! invariant of the ledger rests on.

use vstd::pervasive::VecAdditionalExecFns;
use vstd::prelude::*;

verus! {

/// One entry of the balance store: (token, account, amount held).
pub type Entry = (u32, u64, u64);

/// No two entries share a (token, account) key.
pub open spec fn distinct_keys(s: Seq<Entry>) -> bool {
    forall|i: int, j: int|
        #![trigger s[i], s[j]]
        0 <= i < s.len() && 0 <= j < s.len() && i != j ==> !(s[i].0 == s[j].0 && s[i].1 == s[j].1)
}

/// Every entry belongs to a token id below `n`.
pub open spec fn tokens_below(s: Seq<Entry>, n: int) -> bool {
    forall|i: int| #![trigger s[i]] 0 <= i < s.len() ==> (s[i].0 as int) < n
}

/// The amount held under (token, account): the amount of the last entry with
/// that key, and zero when no entry carries it.
pub open spec fn amount_of(s: Seq<Entry>, token: u32, account: u64) -> u64
    decreases s.len(),
{
    if s.len() == 0 {
        0u64
    } else if s.last().0 == token && s.last().1 == account {
        s.last().2
    } else {
        amount_of(s.drop_last(), token, account)
    }
}

/// The sum of all amounts held under `token`, over every account.
pub open spec fn sum_for(s: Seq<Entry>, token: u32) -> int
    decreases s.len(),
{
    if s.len() == 0 {
        0
    } else if s.last().0 == token {
        sum_for(s.drop_last(), token) + s.last().2
    } else {
        sum_for(s.drop_last(), token)
    }
}

/// A per-token sum of unsigned amounts is never negative.
pub proof fn lemma_sum_nonneg(s: Seq<Entry>, token: u32)
    ensures
        sum_for(s, token) >= 0,
    decreases s.len(),
{
    if s.len() > 0 {
        lemma_sum_nonneg(s.drop_last(), token);
    }
}

/// No single balance exceeds the per-token sum it contributes to.
pub proof fn lemma_amount_le_sum(s: Seq<Entry>, token: u32, account: u64)
    ensures
        amount_of(s, token, account) <= sum_for(s, token),
    decreases s.len(),
{
    if s.len() > 0 {
        lemma_amount_le_sum(s.drop_last(), token, account);
        lemma_sum_nonneg(s.drop_last(), token);
    }
}

/// Dropping the last entry keeps the keys distinct.
proof fn lemma_distinct_drop_last(s: Seq<Entry>)
    requires
        distinct_keys(s),
        s.len() > 0,
    ensures
        distinct_keys(s.drop_last()),
{
    let d = s.drop_last();
    assert forall|i: int, j: int|
        #![trigger d[i], d[j]]
        0 <= i < d.len() && 0 <= j < d.len() && i != j implies !(d[i].0 == d[j].0 && d[i].1
        == d[j].1) by {
        assert(d[i] == s[i]);
        assert(d[j] == s[j]);
    }
}

/// With distinct keys, the amount under an entry's key is that entry's amount.
pub proof fn lemma_amount_at(s: Seq<Entry>, i: int)
    requires
        distinct_keys(s),
        0 <= i < s.len(),
    ensures
        amount_of(s, s[i].0, s[i].1) == s[i].2,
    decreases s.len(),
{
    if i < s.len() - 1 {
        assert(!(s[s.len() - 1].0 == s[i].0 && s[s.len() - 1].1 == s[i].1));
        lemma_distinct_drop_last(s);
        lemma_amount_at(s.drop_last(), i);
        assert(s.drop_last()[i] == s[i]);
    }
}

/// A key carried by no entry holds amount zero.
pub proof fn lemma_amount_absent(s: Seq<Entry>, token: u32, account: u64)
    requires
        forall|i: int| #![trigger s[i]] 0 <= i < s.len() ==> !(s[i].0 == token && s[i].1 == account),
    ensures
        amount_of(s, token, account) == 0,
    decreases s.len(),
{
    if s.len() > 0 {
        let d = s.drop_last();
        assert(!(s[s.len() - 1].0 == token && s[s.len() - 1].1 == account));
        assert forall|i: int|
            #![trigger d[i]]
            0 <= i < d.len() implies !(d[i].0 == token && d[i].1 == account) by {
            assert(d[i] == s[i]);
        }
        lemma_amount_absent(d, token, account);
    }
}

/// Token ids at or beyond the bound hold no amount and sum to zero.
pub proof fn lemma_beyond_bound(s: Seq<Entry>, n: int, token: u32, account: u64)
    requires
        tokens_below(s, n),
        n <= token as int,
    ensures
        amount_of(s, token, account) == 0,
        sum_for(s, token) == 0,
    decreases s.len(),
{
    if s.len() > 0 {
        let d = s.drop_last();
        assert((s[s.len() - 1].0 as int) < n);
        assert forall|i: int| #![trigger d[i]] 0 <= i < d.len() implies (d[i].0 as int) < n by {
            assert(d[i] == s[i]);
        }
        lemma_beyond_bound(d, n, token, account);
    }
}

/// Overwriting the entry at `i` with one of the same key changes exactly
/// that key's amount.
proof fn lemma_amount_update(s: Seq<Entry>, i: int, e: Entry, token: u32, account: u64)
    requires
        distinct_keys(s),
        0 <= i < s.len(),
        e.0 == s[i].0,
        e.1 == s[i].1,
    ensures
        amount_of(s.update(i, e), token, account) == if token == e.0 && account == e.1 {
            e.2
        } else {
            amount_of(s, token, account)
        },
    decreases s.len(),
{
    let t = s.update(i, e);
    if i == s.len() - 1 {
        assert(t.drop_last() =~= s.drop_last());
        assert(t.last() == e);
    } else {
        assert(t.drop_last() =~= s.drop_last().update(i, e));
        assert(t.last() == s.last());
        assert(!(s[s.len() - 1].0 == s[i].0 && s[s.len() - 1].1 == s[i].1));
        lemma_distinct_drop_last(s);
        assert(s.drop_last()[i] == s[i]);
        lemma_amount_update(s.drop_last(), i, e, token, account);
    }
}

/// The per-token sums after overwriting entry `i` with one of the same key.
proof fn lemma_sum_update(s: Seq<Entry>, i: int, e: Entry, token: u32)
    requires
        0 <= i < s.len(),
        e.0 == s[i].0,
        e.1 == s[i].1,
    ensures
        sum_for(s.update(i, e), token) == sum_for(s, token) + if token == e.0 {
            e.2 - s[i].2
        } else {
            0
        },
    decreases s.len(),
{
    let t = s.update(i, e);
    if i == s.len() - 1 {
        assert(t.drop_last() =~= s.drop_last());
        assert(t.last() == e);
    } else {
        assert(t.drop_last() =~= s.drop_last().update(i, e));
        assert(t.last() == s.last());
        assert(s.drop_last()[i] == s[i]);
        lemma_sum_update(s.drop_last(), i, e, token);
    }
}

/// Appending an entry sets its key's amount and leaves every other key alone.
pub proof fn lemma_amount_push(s: Seq<Entry>, e: Entry, token: u32, account: u64)
    ensures
        amount_of(s.push(e), token, account) == if token == e.0 && account == e.1 {
            e.2
        } else {
            amount_of(s, token, account)
        },
{
    assert(s.push(e).drop_last() =~= s);
    assert(s.push(e).last() == e);
}

/// Appending an entry raises its token's sum by its amount.
pub proof fn lemma_sum_push(s: Seq<Entry>, e: Entry, token: u32)
    ensures
        sum_for(s.push(e), token) == sum_for(s, token) + if token == e.0 {
            e.2 as int
        } else {
            0
        },
{
    assert(s.push(e).drop_last() =~= s);
    assert(s.push(e).last() == e);
}

/// Finds the entry carrying (token, account), if any.
fn find_entry(bals: &Vec<Entry>, token: u32, account: u64) -> (r: Option<usize>)
    ensures
        match r {
            Some(i) => i < bals@.len() && bals@[i as int].0 == token && bals@[i as int].1
                == account,
            None => forall|j: int|
                #![trigger bals@[j]]
                0 <= j < bals@.len() ==> !(bals@[j].0 == token && bals@[j].1 == account),
        },
{
    let mut i: usize = 0;
    while i < bals.len()
        invariant
            i <= bals@.len(),
            forall|j: int|
                #![trigger bals@[j]]
                0 <= j < i ==> !(bals@[j].0 == token && bals@[j].1 == account),
        decreases bals@.len() - i,
    {
        let e = bals[i];
        if e.0 == token && e.1 == account {
            return Some(i);
        }
        i = i + 1;
    }
    None
}

/// Reads the amount held under (token, account); zero when no entry carries
/// that key.
pub fn amount_in(bals: &Vec<Entry>, token: u32, account: u64) -> (r: u64)
    requires
        distinct_keys(bals@),
    ensures
        r == amount_of(bals@, token, account),
{
    match find_entry(bals, token, account) {
        Some(i) => {
            proof {
                lemma_amount_at(bals@, i as int);
            }
            bals[i].2
        },
        None => {
            proof {
                lemma_amount_absent(bals@, token, account);
            }
            0
        },
    }
}

/// Sets the amount held under (token, account), overwriting the entry that
/// carries the key or appending a fresh one.
pub fn upsert(bals: &mut Vec<Entry>, token: u32, account: u64, amount: u64)
    requires
        distinct_keys(old(bals)@),
    ensures
        distinct_keys(final(bals)@),
        forall|t: u32, a: u64|
            #[trigger] amount_of(final(bals)@, t, a) == if t == token && a == account {
                amount
            } else {
                amount_of(old(bals)@, t, a)
            },
        forall|t: u32|
            #[trigger] sum_for(final(bals)@, t) == sum_for(old(bals)@, t) + if t == token {
                amount - amount_of(old(bals)@, token, account)
            } else {
                0
            },
        forall|n: int|
            tokens_below(old(bals)@, n) && (token as int) < n ==> #[trigger] tokens_below(
                final(bals)@,
                n,
            ),
{
    let e: Entry = (token, account, amount);
    let ghost s0 = bals@;
    match find_entry(bals, token, account) {
        Some(i) => {
            proof {
                lemma_amount_at(s0, i as int);
            }
            bals.set(i, e);
            proof {
                assert forall|t: u32, a: u64|
                    #[trigger] amount_of(bals@, t, a) == if t == token && a == account {
                        amount
                    } else {
                        amount_of(s0, t, a)
                    } by {
                    lemma_amount_update(s0, i as int, e, t, a);
                }
                assert forall|t: u32|
                    #[trigger] sum_for(bals@, t) == sum_for(s0, t) + if t == token {
                        amount - amount_of(s0, token, account)
                    } else {
                        0
                    } by {
                    lemma_sum_update(s0, i as int, e, t);
                }
                assert forall|x: int, y: int|
                    #![trigger bals@[x], bals@[y]]
                    0 <= x < bals@.len() && 0 <= y < bals@.len() && x != y implies !(bals@[x].0
                    == bals@[y].0 && bals@[x].1 == bals@[y].1) by {
                    assert(bals@[x].0 == s0[x].0 && bals@[x].1 == s0[x].1);
                    assert(bals@[y].0 == s0[y].0 && bals@[y].1 == s0[y].1);
                }
                assert forall|n: int|
                    tokens_below(s0, n) && (token as int) < n implies #[trigger] tokens_below(
                    bals@,
                    n,
                ) by {
                    assert forall|x: int| #![trigger bals@[x]] 0 <= x < bals@.len() implies (
                    bals@[x].0 as int) < n by {
                        assert((s0[x].0 as int) < n);
                    }
                }
            }
        },
        None => {
            proof {
                lemma_amount_absent(s0, token, account);
            }
            bals.push(e);
            proof {
                assert forall|t: u32, a: u64|
                    #[trigger] amount_of(bals@, t, a) == if t == token && a == account {
                        amount
                    } else {
                        amount_of(s0, t, a)
                    } by {
                    lemma_amount_push(s0, e, t, a);
                }
                assert forall|t: u32|
                    #[trigger] sum_for(bals@, t) == sum_for(s0, t) + if t == token {
                        amount - amount_of(s0, token, account)
                    } else {
                        0
                    } by {
                    lemma_sum_push(s0, e, t);
                }
                assert forall|x: int, y: int|
                    #![trigger bals@[x], bals@[y]]
                    0 <= x < bals@.len() && 0 <= y < bals@.len() && x != y implies !(bals@[x].0
                    == bals@[y].0 && bals@[x].1 == bals@[y].1) by {
                    if x < s0.len() && y < s0.len() {
                        assert(bals@[x] == s0[x]);
                        assert(bals@[y] == s0[y]);
                    } else if x == s0.len() {
                        assert(bals@[y] == s0[y]);
                        assert(!(s0[y].0 == token && s0[y].1 == account));
                    } else {
                        assert(bals@[x] == s0[x]);
                        assert(!(s0[x].0 == token && s0[x].1 == account));
                    }
                }
                assert forall|n: int|
                    tokens_below(s0, n) && (token as int) < n implies #[trigger] tokens_below(
                    bals@,
                    n,
                ) by {
                    assert forall|x: int| #![trigger bals@[x]] 0 <= x < bals@.len() implies (
                    bals@[x].0 as int) < n by {
                        if x < s0.len() {
                            assert(bals@[x] == s0[x]);
                            assert((s0[x].0 as int) < n);
                        }
                    }
                }
            }
        },
    }
}

} // verus!
