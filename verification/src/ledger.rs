//! The ledger state machine: the token registry, the balance store, the
//! supply accounting, the pause flags and the (declared, never written)
//! allowance store, together with the six public operations.
//!
//! Token ids are dense: the id doubles as the index into the registry
//! vectors, and the token counter is their shared length. The
//! well-formedness predicate [`Ledger::wf`] carries the global accounting
//! invariant: for every token, the recorded supply equals the sum of all
//! balances of that token. Every operation preserves it.

use crate::balances::{
    amount_in, amount_of, distinct_keys, lemma_amount_le_sum, lemma_amount_push,
    lemma_beyond_bound, lemma_sum_push, sum_for, tokens_below, upsert, Entry,
};
use crate::events::{Error, Event};
use vstd::pervasive::VecAdditionalExecFns;
use vstd::prelude::*;

verus! {

/// Creation-time metadata of a token, immutable after `create`.
///
/// `owner` is a creation-time snapshot of the designated owner; the
/// authoritative record that authorization consults is the ledger's owner
/// column.
pub struct TokenInfo {
    pub name: Vec<u8>,
    pub symbol: Vec<u8>,
    pub owner: u64,
    pub created: u64,
}

/// The mathematical value of a [`TokenInfo`].
pub ghost struct TokenInfoV {
    pub name: Seq<u8>,
    pub symbol: Seq<u8>,
    pub owner: u64,
    pub created: u64,
}

impl View for TokenInfo {
    type V = TokenInfoV;

    open spec fn view(&self) -> TokenInfoV {
        TokenInfoV { name: self.name@, symbol: self.symbol@, owner: self.owner, created: self.created }
    }
}

/// One allowance entry: (token, account, spender, approved amount).
pub type Allowance = (u32, u64, u64, u64);

/// The approved amount under (token, account, spender): the amount of the
/// last entry with that key, zero when no entry carries it.
pub open spec fn allowance_of(s: Seq<Allowance>, token: u32, account: u64, spender: u64) -> u64
    decreases s.len(),
{
    if s.len() == 0 {
        0u64
    } else if s.last().0 == token && s.last().1 == account && s.last().2 == spender {
        s.last().3
    } else {
        allowance_of(s.drop_last(), token, account, spender)
    }
}

/// The whole ledger state. Index `t` of the four registry vectors holds
/// token `t`; their shared length is the token counter, so ids are assigned
/// densely and never reused.
pub struct Ledger {
    /// Creation-time metadata, one record per created token.
    pub infos: Vec<TokenInfo>,
    /// The account authorized for mint, burn and pause, per token.
    pub owners: Vec<u64>,
    /// Total supply in existence, per token.
    pub supplies: Vec<u64>,
    /// The observable pause flag, per token; nothing in this core consults it.
    pub pauseds: Vec<bool>,
    /// The balance store, keyed by (token, account).
    pub balances: Vec<Entry>,
    /// The allowance store: declared in the data model, written by no
    /// operation of this core.
    pub approvals: Vec<Allowance>,
}

impl Ledger {
    /// How many tokens have ever been created; the next id to assign.
    pub open spec fn spec_token_count(self) -> int {
        self.infos@.len() as int
    }

    /// Whether `token` has been created.
    pub open spec fn token_exists(self, token: u32) -> bool {
        (token as int) < self.spec_token_count()
    }

    /// The balance of `account` in `token`; zero for absent entries and for
    /// tokens never created.
    pub open spec fn spec_balance(self, token: u32, account: u64) -> u64 {
        amount_of(self.balances@, token, account)
    }

    /// The total supply of `token`; zero for tokens never created.
    pub open spec fn spec_supply(self, token: u32) -> u64 {
        if self.token_exists(token) {
            self.supplies@[token as int]
        } else {
            0u64
        }
    }

    /// The owner of `token`, when it exists.
    pub open spec fn spec_owner(self, token: u32) -> Option<u64> {
        if self.token_exists(token) {
            Some(self.owners@[token as int])
        } else {
            None
        }
    }

    /// Whether `caller` is the registered owner of `token`. A token never
    /// created has no owner, so no caller passes the check for it.
    pub open spec fn is_owner_spec(self, token: u32, caller: u64) -> bool {
        self.spec_owner(token) == Some(caller)
    }

    /// The pause flag of `token`; a token never created is not paused.
    pub open spec fn spec_paused(self, token: u32) -> bool {
        self.token_exists(token) && self.pauseds@[token as int]
    }

    /// The creation-time metadata of `token`, when it exists.
    pub open spec fn spec_info(self, token: u32) -> Option<TokenInfoV> {
        if self.token_exists(token) {
            Some(self.infos@[token as int]@)
        } else {
            None
        }
    }

    /// The approved allowance under (token, account, spender).
    pub open spec fn spec_approval(self, token: u32, account: u64, spender: u64) -> u64 {
        allowance_of(self.approvals@, token, account, spender)
    }

    /// Well-formedness: the registry columns agree on the set of created
    /// tokens, the counter fits its 32-bit width, balance keys are unique
    /// and belong to created tokens, and — conservation — every created
    /// token's recorded supply equals the sum of all balances of that token.
    pub open spec fn wf(self) -> bool {
        &&& self.owners@.len() == self.infos@.len()
        &&& self.supplies@.len() == self.infos@.len()
        &&& self.pauseds@.len() == self.infos@.len()
        &&& self.spec_token_count() <= u32::MAX as int
        &&& distinct_keys(self.balances@)
        &&& tokens_below(self.balances@, self.spec_token_count())
        &&& forall|t: u32|
            self.token_exists(t) ==> #[trigger] sum_for(self.balances@, t) == self.spec_supply(
                t,
            ) as int
    }

    /// An empty ledger: no tokens, no balances, no allowances.
    pub fn new() -> (l: Ledger)
        ensures
            l.wf(),
            l.spec_token_count() == 0,
            forall|t: u32, a: u64| #[trigger] l.spec_balance(t, a) == 0,
            forall|t: u32| #[trigger] l.spec_supply(t) == 0,
            forall|t: u32| #[trigger] l.spec_owner(t) is None,
            forall|t: u32| !#[trigger] l.spec_paused(t),
            forall|t: u32, a: u64, s: u64| #[trigger] l.spec_approval(t, a, s) == 0,
    {
        let l = Ledger {
            infos: Vec::new(),
            owners: Vec::new(),
            supplies: Vec::new(),
            pauseds: Vec::new(),
            balances: Vec::new(),
            approvals: Vec::new(),
        };
        proof {
            assert forall|t: u32, a: u64| #[trigger] l.spec_balance(t, a) == 0 by {
                lemma_beyond_bound(l.balances@, 0, t, a);
            }
        }
        l
    }
}

/// The registry (token count, metadata, owners) and the allowance store are
/// the same in both states.
pub open spec fn same_registry(pre: Ledger, post: Ledger) -> bool {
    &&& post.spec_token_count() == pre.spec_token_count()
    &&& forall|t: u32| #[trigger] post.spec_info(t) == pre.spec_info(t)
    &&& forall|t: u32| #[trigger] post.spec_owner(t) == pre.spec_owner(t)
    &&& post.approvals@ == pre.approvals@
}

/// Every pause flag is the same in both states.
pub open spec fn same_pauses(pre: Ledger, post: Ledger) -> bool {
    forall|t: u32| #[trigger] post.spec_paused(t) == pre.spec_paused(t)
}

/// Every supply is the same in both states.
pub open spec fn same_supplies(pre: Ledger, post: Ledger) -> bool {
    forall|t: u32| #[trigger] post.spec_supply(t) == pre.spec_supply(t)
}

/// Every balance is the same in both states.
pub open spec fn same_balances(pre: Ledger, post: Ledger) -> bool {
    forall|t: u32, a: u64| #[trigger] post.spec_balance(t, a) == pre.spec_balance(t, a)
}

/// What a successful `create` does: it assigns the pre-call token counter as
/// the fresh id, advances the counter by one, records the metadata and the
/// designated owner, opens the caller's balance at the initial supply, starts
/// unpaused, and touches nothing else.
pub open spec fn create_effect(
    pre: Ledger,
    post: Ledger,
    caller: u64,
    owner: u64,
    name: Seq<u8>,
    symbol: Seq<u8>,
    initial_supply: u64,
    created: u64,
    id: u32,
) -> bool {
    &&& id as int == pre.spec_token_count()
    &&& post.spec_token_count() == pre.spec_token_count() + 1
    &&& post.spec_info(id) == Some(TokenInfoV { name, symbol, owner, created })
    &&& post.spec_owner(id) == Some(owner)
    &&& post.spec_supply(id) == initial_supply
    &&& post.spec_balance(id, caller) == initial_supply
    &&& !post.spec_paused(id)
    &&& forall|t: u32|
        t != id ==> #[trigger] post.spec_info(t) == pre.spec_info(t) && post.spec_owner(t)
            == pre.spec_owner(t) && post.spec_supply(t) == pre.spec_supply(t) && post.spec_paused(
            t,
        ) == pre.spec_paused(t)
    &&& forall|t: u32, a: u64|
        !(t == id && a == caller) ==> #[trigger] post.spec_balance(t, a) == pre.spec_balance(t, a)
    &&& post.approvals@ == pre.approvals@
}

/// What a successful transfer does: `value` moves from `from` to `to` within
/// `token`; a self-transfer moves nothing; no supply, registry entry or pause
/// flag moves.
pub open spec fn transfer_effect(
    pre: Ledger,
    post: Ledger,
    token: u32,
    from: u64,
    to: u64,
    value: u64,
) -> bool {
    &&& same_registry(pre, post)
    &&& same_pauses(pre, post)
    &&& same_supplies(pre, post)
    &&& if from == to {
        same_balances(pre, post)
    } else {
        &&& post.spec_balance(token, from) == pre.spec_balance(token, from) - value
        &&& post.spec_balance(token, to) == pre.spec_balance(token, to) + value
        &&& forall|t: u32, a: u64|
            t != token || (a != from && a != to) ==> #[trigger] post.spec_balance(t, a)
                == pre.spec_balance(t, a)
    }
}

/// What a successful `mint` does: `value` fresh units appear on `who`'s
/// balance and on the supply of `token`, and nothing else moves.
pub open spec fn mint_effect(pre: Ledger, post: Ledger, token: u32, who: u64, value: u64) -> bool {
    &&& same_registry(pre, post)
    &&& same_pauses(pre, post)
    &&& post.spec_supply(token) == pre.spec_supply(token) + value
    &&& forall|t: u32| t != token ==> #[trigger] post.spec_supply(t) == pre.spec_supply(t)
    &&& post.spec_balance(token, who) == pre.spec_balance(token, who) + value
    &&& forall|t: u32, a: u64|
        !(t == token && a == who) ==> #[trigger] post.spec_balance(t, a) == pre.spec_balance(t, a)
}

/// What a successful `burn` does: `value` units leave `who`'s balance and
/// the supply of `token`, and nothing else moves.
pub open spec fn burn_effect(pre: Ledger, post: Ledger, token: u32, who: u64, value: u64) -> bool {
    &&& same_registry(pre, post)
    &&& same_pauses(pre, post)
    &&& post.spec_supply(token) == pre.spec_supply(token) - value
    &&& forall|t: u32| t != token ==> #[trigger] post.spec_supply(t) == pre.spec_supply(t)
    &&& post.spec_balance(token, who) == pre.spec_balance(token, who) - value
    &&& forall|t: u32, a: u64|
        !(t == token && a == who) ==> #[trigger] post.spec_balance(t, a) == pre.spec_balance(t, a)
}

/// What a successful `pause` does: the flag of `token` is set to `status` —
/// idempotently — and no balance, supply or registry entry moves.
pub open spec fn pause_effect(pre: Ledger, post: Ledger, token: u32, status: bool) -> bool {
    &&& same_registry(pre, post)
    &&& same_supplies(pre, post)
    &&& same_balances(pre, post)
    &&& post.spec_paused(token) == status
    &&& forall|t: u32| t != token ==> #[trigger] post.spec_paused(t) == pre.spec_paused(t)
}

impl Ledger {
    /// Creates a token: the caller (already authenticated outside) receives
    /// the whole initial supply, `owner` becomes the account gating mint,
    /// burn and pause, and `created` is the block time the clock supplied.
    /// Fails only when the token counter would outgrow its width.
    pub fn create(
        &mut self,
        caller: u64,
        owner: u64,
        name: Vec<u8>,
        symbol: Vec<u8>,
        initial_supply: u64,
        created: u64,
    ) -> (r: Result<(u32, Event), Error>)
        requires
            old(self).wf(),
        ensures
            final(self).wf(),
            r is Ok <==> old(self).spec_token_count() < u32::MAX as int,
            r is Err ==> *final(self) == *old(self) && r == Err::<(u32, Event), Error>(
                Error::ArithmeticOverflow,
            ),
            r matches Ok(p) ==> create_effect(
                *old(self),
                *final(self),
                caller,
                owner,
                name@,
                symbol@,
                initial_supply,
                created,
                p.0,
            ) && p.1 == Event::Created(p.0, caller),
    {
        if self.infos.len() >= u32::MAX as usize {
            return Err(Error::ArithmeticOverflow);
        }
        let id = self.infos.len() as u32;
        let ghost pre = *self;
        let info = TokenInfo { name, symbol, owner, created };
        let ghost ginfo = info@;
        self.infos.push(info);
        self.owners.push(owner);
        self.supplies.push(initial_supply);
        self.pauseds.push(false);
        let entry: Entry = (id, caller, initial_supply);
        self.balances.push(entry);
        proof {
            let s0 = pre.balances@;
            let s1 = self.balances@;
            assert(s1 == s0.push(entry));
            // the fresh token had no entries, so its sum starts at zero
            lemma_beyond_bound(s0, pre.spec_token_count(), id, caller);
            // keys stay distinct: the fresh entry's token id is new
            assert forall|x: int, y: int|
                #![trigger s1[x], s1[y]]
                0 <= x < s1.len() && 0 <= y < s1.len() && x != y implies !(s1[x].0 == s1[y].0
                && s1[x].1 == s1[y].1) by {
                if x < s0.len() && y < s0.len() {
                    assert(s1[x] == s0[x]);
                    assert(s1[y] == s0[y]);
                } else if x == s0.len() {
                    assert(s1[y] == s0[y]);
                    assert((s0[y].0 as int) < id as int);
                } else {
                    assert(s1[x] == s0[x]);
                    assert((s0[x].0 as int) < id as int);
                }
            }
            assert forall|x: int| #![trigger s1[x]] 0 <= x < s1.len() implies (s1[x].0 as int)
                < self.spec_token_count() by {
                if x < s0.len() {
                    assert(s1[x] == s0[x]);
                    assert((s0[x].0 as int) < pre.spec_token_count());
                }
            }
            assert forall|t: u32| self.token_exists(t) implies #[trigger] sum_for(s1, t)
                == self.spec_supply(t) as int by {
                lemma_sum_push(s0, entry, t);
                if t != id {
                    assert((t as int) < pre.spec_token_count());
                    assert(self.supplies@[t as int] == pre.supplies@[t as int]);
                }
            }
            assert forall|t: u32, a: u64|
                !(t == id && a == caller) implies #[trigger] self.spec_balance(t, a)
                == pre.spec_balance(t, a) by {
                lemma_amount_push(s0, entry, t, a);
            }
            assert(self.spec_balance(id, caller) == initial_supply) by {
                lemma_amount_push(s0, entry, id, caller);
            }
            assert(self.spec_info(id) == Some(ginfo));
        }
        Ok((id, Event::Created(id, caller)))
    }

    /// Moves `value` of `token` from `from` to `to`, unconditionally on the
    /// caller's identity: the authorization of the public entry points that
    /// call it is theirs to do. Fails, moving nothing, when `from`'s balance
    /// is short.
    pub fn transfer_(&mut self, token: u32, from: u64, to: u64, value: u64) -> (r: Result<
        Event,
        Error,
    >)
        requires
            old(self).wf(),
        ensures
            final(self).wf(),
            r is Ok <==> value <= old(self).spec_balance(token, from),
            r is Err ==> *final(self) == *old(self) && r == Err::<Event, Error>(
                Error::InsufficientAmount,
            ),
            r is Ok ==> transfer_effect(*old(self), *final(self), token, from, to, value) && r
                == Ok::<Event, Error>(Event::Transfer(token, from, to, value)),
            r is Ok && from != to ==> final(self).spec_balance(token, from)
                + final(self).spec_balance(token, to) == old(self).spec_balance(token, from)
                + old(self).spec_balance(token, to),
    {
        let from_bal = amount_in(&self.balances, token, from);
        if value > from_bal {
            return Err(Error::InsufficientAmount);
        }
        if (token as usize) < self.supplies.len() {
            let ghost pre = *self;
            upsert(&mut self.balances, token, from, from_bal - value);
            let ghost mid = self.balances@;
            let to_bal = amount_in(&self.balances, token, to);
            proof {
                lemma_amount_le_sum(mid, token, to);
                assert(sum_for(mid, token) == sum_for(pre.balances@, token) - value);
                assert(sum_for(pre.balances@, token) == pre.spec_supply(token) as int);
            }
            upsert(&mut self.balances, token, to, to_bal + value);
            proof {
                let s2 = self.balances@;
                assert forall|t: u32| self.token_exists(t) implies #[trigger] sum_for(s2, t)
                    == self.spec_supply(t) as int by {
                    assert(sum_for(mid, t) == sum_for(pre.balances@, t) + if t == token {
                        (from_bal - value) - from_bal
                    } else {
                        0
                    });
                }
                assert(tokens_below(s2, self.spec_token_count()));
                if from == to {
                    assert forall|t: u32, a: u64| #[trigger] self.spec_balance(t, a)
                        == pre.spec_balance(t, a) by {
                        assert(amount_of(mid, t, a) == if t == token && a == from {
                            (from_bal - value) as u64
                        } else {
                            amount_of(pre.balances@, t, a)
                        });
                    }
                } else {
                    assert(amount_of(mid, token, to) == amount_of(pre.balances@, token, to));
                    assert forall|t: u32, a: u64|
                        t != token || (a != from && a != to) implies #[trigger] self.spec_balance(
                        t,
                        a,
                    ) == pre.spec_balance(t, a) by {
                        assert(amount_of(mid, t, a) == amount_of(pre.balances@, t, a));
                    }
                    assert(self.spec_balance(token, from) == from_bal - value) by {
                        assert(amount_of(mid, token, from) == from_bal - value);
                    }
                }
            }
            Ok(Event::Transfer(token, from, to, value))
        } else {
            proof {
                lemma_beyond_bound(self.balances@, self.spec_token_count(), token, from);
            }
            Ok(Event::Transfer(token, from, to, value))
        }
    }

    /// Mints `value` of `token` onto `minter`'s balance and supply, without
    /// an ownership check: the public `mint` gates it. Fails, moving
    /// nothing, when the supply would outgrow its width.
    pub fn mint_(&mut self, minter: u64, token: u32, value: u64) -> (r: Result<Event, Error>)
        requires
            old(self).wf(),
            old(self).token_exists(token),
        ensures
            final(self).wf(),
            r is Ok <==> old(self).spec_supply(token) + value <= u64::MAX,
            r is Err ==> *final(self) == *old(self) && r == Err::<Event, Error>(
                Error::ArithmeticOverflow,
            ),
            r is Ok ==> mint_effect(*old(self), *final(self), token, minter, value) && r == Ok::<
                Event,
                Error,
            >(Event::Mint(token, minter, value)),
    {
        let supply = self.supplies[token as usize];
        if value > u64::MAX - supply {
            return Err(Error::ArithmeticOverflow);
        }
        let bal = amount_in(&self.balances, token, minter);
        proof {
            lemma_amount_le_sum(self.balances@, token, minter);
        }
        let ghost pre = *self;
        upsert(&mut self.balances, token, minter, bal + value);
        self.supplies.set(token as usize, supply + value);
        proof {
            let s1 = self.balances@;
            assert(tokens_below(s1, self.spec_token_count()));
            assert forall|t: u32| self.token_exists(t) implies #[trigger] sum_for(s1, t)
                == self.spec_supply(t) as int by {
                assert(sum_for(s1, t) == sum_for(pre.balances@, t) + if t == token {
                    (bal + value) - bal
                } else {
                    0
                });
            }
        }
        Ok(Event::Mint(token, minter, value))
    }

    /// Burns `value` of `token` from `burner`'s balance and the supply,
    /// without an ownership check: the public `burn` gates it. Fails, moving
    /// nothing, when the balance is short; the supply is then short too, by
    /// conservation, so a single check covers both.
    pub fn burn_(&mut self, burner: u64, token: u32, value: u64) -> (r: Result<Event, Error>)
        requires
            old(self).wf(),
            old(self).token_exists(token),
        ensures
            final(self).wf(),
            r is Ok <==> value <= old(self).spec_balance(token, burner),
            r is Err ==> *final(self) == *old(self) && r == Err::<Event, Error>(
                Error::InsufficientAmount,
            ),
            r is Ok ==> burn_effect(*old(self), *final(self), token, burner, value) && r == Ok::<
                Event,
                Error,
            >(Event::Burn(token, burner, value)),
    {
        let bal = amount_in(&self.balances, token, burner);
        if value > bal {
            return Err(Error::InsufficientAmount);
        }
        let supply = self.supplies[token as usize];
        proof {
            lemma_amount_le_sum(self.balances@, token, burner);
        }
        let ghost pre = *self;
        upsert(&mut self.balances, token, burner, bal - value);
        self.supplies.set(token as usize, supply - value);
        proof {
            let s1 = self.balances@;
            assert(tokens_below(s1, self.spec_token_count()));
            assert forall|t: u32| self.token_exists(t) implies #[trigger] sum_for(s1, t)
                == self.spec_supply(t) as int by {
                assert(sum_for(s1, t) == sum_for(pre.balances@, t) + if t == token {
                    (bal - value) - bal
                } else {
                    0
                });
            }
        }
        Ok(Event::Burn(token, burner, value))
    }

    /// The transfer entry point: the authenticated caller is the sender.
    pub fn transfer(&mut self, caller: u64, token: u32, to: u64, value: u64) -> (r: Result<
        Event,
        Error,
    >)
        requires
            old(self).wf(),
        ensures
            final(self).wf(),
            r is Ok <==> value <= old(self).spec_balance(token, caller),
            r is Err ==> *final(self) == *old(self) && r == Err::<Event, Error>(
                Error::InsufficientAmount,
            ),
            r is Ok ==> transfer_effect(*old(self), *final(self), token, caller, to, value) && r
                == Ok::<Event, Error>(Event::Transfer(token, caller, to, value)),
    {
        self.transfer_(token, caller, to, value)
    }

    /// The delegated-transfer entry point: the authenticated caller is the
    /// receiver, debiting `from`. No allowance is consulted: the allowance
    /// store of this core is declared but enforced nowhere.
    pub fn transfer_from(&mut self, caller: u64, token: u32, from: u64, value: u64) -> (r: Result<
        Event,
        Error,
    >)
        requires
            old(self).wf(),
        ensures
            final(self).wf(),
            r is Ok <==> value <= old(self).spec_balance(token, from),
            r is Err ==> *final(self) == *old(self) && r == Err::<Event, Error>(
                Error::InsufficientAmount,
            ),
            r is Ok ==> transfer_effect(*old(self), *final(self), token, from, caller, value) && r
                == Ok::<Event, Error>(Event::TransferFrom(token, from, caller, value)),
    {
        match self.transfer_(token, from, caller, value) {
            Ok(_) => Ok(Event::TransferFrom(token, from, caller, value)),
            Err(e) => Err(e),
        }
    }

    /// The mint entry point, gated on ownership of the token.
    pub fn mint(&mut self, caller: u64, token: u32, value: u64) -> (r: Result<Event, Error>)
        requires
            old(self).wf(),
        ensures
            final(self).wf(),
            r == Err::<Event, Error>(Error::NotTokenOwner) <==> !old(self).is_owner_spec(
                token,
                caller,
            ),
            old(self).is_owner_spec(token, caller) ==> (r is Ok <==> old(self).spec_supply(token)
                + value <= u64::MAX),
            r is Err ==> *final(self) == *old(self) && (r == Err::<Event, Error>(
                Error::NotTokenOwner,
            ) || r == Err::<Event, Error>(Error::ArithmeticOverflow)),
            r is Ok ==> mint_effect(*old(self), *final(self), token, caller, value) && r == Ok::<
                Event,
                Error,
            >(Event::Mint(token, caller, value)),
    {
        if !self.is_owner(token, caller) {
            return Err(Error::NotTokenOwner);
        }
        self.mint_(caller, token, value)
    }

    /// The burn entry point, gated on ownership of the token.
    pub fn burn(&mut self, caller: u64, token: u32, value: u64) -> (r: Result<Event, Error>)
        requires
            old(self).wf(),
        ensures
            final(self).wf(),
            r == Err::<Event, Error>(Error::NotTokenOwner) <==> !old(self).is_owner_spec(
                token,
                caller,
            ),
            old(self).is_owner_spec(token, caller) ==> (r is Ok <==> value <= old(
                self,
            ).spec_balance(token, caller)),
            r is Err ==> *final(self) == *old(self) && (r == Err::<Event, Error>(
                Error::NotTokenOwner,
            ) || r == Err::<Event, Error>(Error::InsufficientAmount)),
            r is Ok ==> burn_effect(*old(self), *final(self), token, caller, value) && r == Ok::<
                Event,
                Error,
            >(Event::Burn(token, caller, value)),
    {
        if !self.is_owner(token, caller) {
            return Err(Error::NotTokenOwner);
        }
        self.burn_(caller, token, value)
    }

    /// The pause entry point, gated on ownership: sets the observable pause
    /// flag to `status`. No operation of this core consults the flag; it is
    /// state for outside consumers to honor.
    pub fn pause(&mut self, caller: u64, token: u32, status: bool) -> (r: Result<Event, Error>)
        requires
            old(self).wf(),
        ensures
            final(self).wf(),
            r is Ok <==> old(self).is_owner_spec(token, caller),
            r is Err ==> *final(self) == *old(self) && r == Err::<Event, Error>(
                Error::NotTokenOwner,
            ),
            r is Ok ==> pause_effect(*old(self), *final(self), token, status) && r == Ok::<
                Event,
                Error,
            >(Event::PausedOperation(token, status)),
    {
        if !self.is_owner(token, caller) {
            return Err(Error::NotTokenOwner);
        }
        self.pauseds.set(token as usize, status);
        Ok(Event::PausedOperation(token, status))
    }

    /// Whether `caller` is the registered owner of `token`.
    pub fn is_owner(&self, token: u32, caller: u64) -> (r: bool)
        requires
            self.wf(),
        ensures
            r == self.is_owner_spec(token, caller),
    {
        if (token as usize) < self.owners.len() {
            self.owners[token as usize] == caller
        } else {
            false
        }
    }

    /// How many tokens have been created; the next id to assign.
    pub fn token_count(&self) -> (r: u32)
        requires
            self.wf(),
        ensures
            r as int == self.spec_token_count(),
    {
        self.infos.len() as u32
    }

    /// The balance of `who` in `token`; zero for absent entries.
    pub fn get_balance(&self, token: u32, who: u64) -> (r: u64)
        requires
            self.wf(),
        ensures
            r == self.spec_balance(token, who),
    {
        amount_in(&self.balances, token, who)
    }

    /// The total supply of `token`; zero for tokens never created.
    pub fn supply_of(&self, token: u32) -> (r: u64)
        requires
            self.wf(),
        ensures
            r == self.spec_supply(token),
    {
        if (token as usize) < self.supplies.len() {
            self.supplies[token as usize]
        } else {
            0
        }
    }

    /// The creation-time metadata of `token`, when it exists.
    pub fn lookup(&self, token: u32) -> (r: Option<&TokenInfo>)
        requires
            self.wf(),
        ensures
            match r {
                Some(info) => self.spec_info(token) == Some(info@),
                None => !self.token_exists(token),
            },
    {
        if (token as usize) < self.infos.len() {
            Some(&self.infos[token as usize])
        } else {
            None
        }
    }

    /// The owner of `token`, when it exists.
    pub fn owner_of(&self, token: u32) -> (r: Option<u64>)
        requires
            self.wf(),
        ensures
            r == self.spec_owner(token),
    {
        if (token as usize) < self.owners.len() {
            Some(self.owners[token as usize])
        } else {
            None
        }
    }

    /// The observable pause flag of `token`.
    pub fn paused(&self, token: u32) -> (r: bool)
        requires
            self.wf(),
        ensures
            r == self.spec_paused(token),
    {
        if (token as usize) < self.pauseds.len() {
            self.pauseds[token as usize]
        } else {
            false
        }
    }

    /// The approved allowance under (token, account, spender); zero always,
    /// in this core, since nothing writes the allowance store.
    #[verifier::loop_isolation(false)]
    pub fn approval(&self, token: u32, account: u64, spender: u64) -> (r: u64)
        ensures
            r == self.spec_approval(token, account, spender),
    {
        let s = &self.approvals;
        let mut i: usize = s.len();
        proof {
            assert(s@.take(i as int) =~= s@);
        }
        while i > 0
            invariant
                i <= s@.len(),
                allowance_of(s@, token, account, spender) == allowance_of(
                    s@.take(i as int),
                    token,
                    account,
                    spender,
                ),
            decreases i,
        {
            i = i - 1;
            let e = s[i];
            proof {
                assert(s@.take(i as int + 1).len() == i as int + 1);
                assert(s@.take(i as int + 1).last() == s@[i as int]);
                assert(s@.take(i as int + 1).drop_last() =~= s@.take(i as int));
            }
            if e.0 == token && e.1 == account && e.2 == spender {
                proof {
                    assert(allowance_of(s@.take(i as int + 1), token, account, spender) == e.3);
                }
                return e.3;
            }
        }
        proof {
            assert(s@.take(0) =~= Seq::<Allowance>::empty());
        }
        0
    }
}

} // verus!
