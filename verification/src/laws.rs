//! The ledger's global laws, stated over the operation effects and proved
//! once and for all. Owner-gating and the exact failure conditions are not
//! repeated here: they are the `ensures` of `mint`, `burn`, `pause`,
//! `transfer` and `transfer_from` themselves.

use crate::balances::{lemma_beyond_bound, sum_for};
use crate::ledger::{
    burn_effect, create_effect, mint_effect, pause_effect, same_balances, same_pauses,
    same_registry, same_supplies, transfer_effect, Ledger,
};
use vstd::prelude::*;

verus! {

/// Conservation: in a well-formed ledger the recorded supply of every token
/// — created or not — equals the sum of all balances of that token. Every
/// operation preserves well-formedness, so this holds after any sequence of
/// successful operations.
pub proof fn lemma_conservation(l: Ledger, token: u32)
    requires
        l.wf(),
    ensures
        sum_for(l.balances@, token) == l.spec_supply(token) as int,
{
    if !l.token_exists(token) {
        lemma_beyond_bound(l.balances@, l.spec_token_count(), token, 0);
    }
}

/// Non-negativity: balances and supplies are unsigned, so no state — and in
/// particular no state an operation leaves behind — holds a negative entry;
/// by conservation the per-token sums are non-negative too.
pub proof fn lemma_nonnegative(l: Ledger, token: u32, account: u64)
    requires
        l.wf(),
    ensures
        l.spec_balance(token, account) >= 0,
        l.spec_supply(token) >= 0,
        sum_for(l.balances@, token) >= 0,
{
    lemma_conservation(l, token);
}

/// Token ids are unique and monotone: each `create` hands out the pre-call
/// token counter, so two consecutive creations yield strictly increasing,
/// never-repeating ids.
pub proof fn lemma_create_ids_increase(
    l0: Ledger,
    l1: Ledger,
    l2: Ledger,
    caller1: u64,
    owner1: u64,
    name1: Seq<u8>,
    symbol1: Seq<u8>,
    supply1: u64,
    created1: u64,
    id1: u32,
    caller2: u64,
    owner2: u64,
    name2: Seq<u8>,
    symbol2: Seq<u8>,
    supply2: u64,
    created2: u64,
    id2: u32,
)
    requires
        create_effect(l0, l1, caller1, owner1, name1, symbol1, supply1, created1, id1),
        create_effect(l1, l2, caller2, owner2, name2, symbol2, supply2, created2, id2),
    ensures
        id2 as int == id1 as int + 1,
        id1 < id2,
{
}

/// Transfer conservation: a successful transfer between two distinct
/// accounts moves exactly `value` from one to the other, leaves their joint
/// holdings unchanged, and leaves every supply unchanged.
pub proof fn lemma_transfer_conserves_pair(
    pre: Ledger,
    post: Ledger,
    token: u32,
    from: u64,
    to: u64,
    value: u64,
)
    requires
        transfer_effect(pre, post, token, from, to, value),
        from != to,
    ensures
        post.spec_balance(token, from) == pre.spec_balance(token, from) - value,
        post.spec_balance(token, to) == pre.spec_balance(token, to) + value,
        post.spec_balance(token, from) + post.spec_balance(token, to) == pre.spec_balance(
            token,
            from,
        ) + pre.spec_balance(token, to),
        same_supplies(pre, post),
{
}

/// Pause toggling is idempotent: two successive `pause(token, status)`
/// commits leave the flag at `status` after each of them, and neither touches
/// a balance or a supply.
pub proof fn lemma_pause_idempotent(l0: Ledger, l1: Ledger, l2: Ledger, token: u32, status: bool)
    requires
        pause_effect(l0, l1, token, status),
        pause_effect(l1, l2, token, status),
    ensures
        l1.spec_paused(token) == status,
        l2.spec_paused(token) == status,
        same_balances(l0, l2),
        same_supplies(l0, l2),
        same_registry(l0, l2),
{
    assert forall|t: u32, a: u64| #[trigger] l2.spec_balance(t, a) == l0.spec_balance(t, a) by {
        assert(l1.spec_balance(t, a) == l0.spec_balance(t, a));
    }
    assert forall|t: u32| #[trigger] l2.spec_supply(t) == l0.spec_supply(t) by {
        assert(l1.spec_supply(t) == l0.spec_supply(t));
    }
    assert forall|t: u32| #[trigger] l2.spec_info(t) == l0.spec_info(t) by {
        assert(l1.spec_info(t) == l0.spec_info(t));
    }
    assert forall|t: u32| #[trigger] l2.spec_owner(t) == l0.spec_owner(t) by {
        assert(l1.spec_owner(t) == l0.spec_owner(t));
    }
}

/// Mint/burn round trip: minting `value` for an account and then burning the
/// same `value` from it restores every balance, every supply, every pause
/// flag and the registry to where they began.
pub proof fn lemma_mint_burn_round_trip(
    l0: Ledger,
    l1: Ledger,
    l2: Ledger,
    token: u32,
    who: u64,
    value: u64,
)
    requires
        mint_effect(l0, l1, token, who, value),
        burn_effect(l1, l2, token, who, value),
    ensures
        same_balances(l0, l2),
        same_supplies(l0, l2),
        same_pauses(l0, l2),
        same_registry(l0, l2),
{
    assert forall|t: u32, a: u64| #[trigger] l2.spec_balance(t, a) == l0.spec_balance(t, a) by {
        if t == token && a == who {
            assert(l1.spec_balance(token, who) == l0.spec_balance(token, who) + value);
            assert(l2.spec_balance(token, who) == l1.spec_balance(token, who) - value);
        } else {
            assert(l1.spec_balance(t, a) == l0.spec_balance(t, a));
        }
    }
    assert forall|t: u32| #[trigger] l2.spec_supply(t) == l0.spec_supply(t) by {
        if t == token {
            assert(l1.spec_supply(token) == l0.spec_supply(token) + value);
            assert(l2.spec_supply(token) == l1.spec_supply(token) - value);
        } else {
            assert(l1.spec_supply(t) == l0.spec_supply(t));
        }
    }
    assert forall|t: u32| #[trigger] l2.spec_paused(t) == l0.spec_paused(t) by {
        assert(l1.spec_paused(t) == l0.spec_paused(t));
    }
    assert forall|t: u32| #[trigger] l2.spec_info(t) == l0.spec_info(t) by {
        assert(l1.spec_info(t) == l0.spec_info(t));
    }
    assert forall|t: u32| #[trigger] l2.spec_owner(t) == l0.spec_owner(t) by {
        assert(l1.spec_owner(t) == l0.spec_owner(t));
    }
}

} // verus!
