//! A fungible token ledger with balances, allowances and a fixed total supply.
//!
//! Accounts are identified by integers. Operations that the token's owner
//! environment would announce (transfers, approvals) hand the announcement
//! back as a value, to be emitted by the caller.
use vstd::prelude::*;
use std::collections::BTreeMap;
use crate::balances_sum::{map_sum, lemma_map_sum_insert, lemma_map_sum_entry_le};

verus! {

broadcast use {
    vstd::std_specs::btree::group_btree_axioms,
    vstd::laws_cmp::group_laws_cmp,
};

/// An account of the ledger.
pub type AccountId = u64;

/// An amount of tokens.
pub type Balance = u128;

/// Announces that `value` tokens moved from `from` to `to`; `from` is
/// absent when the tokens were minted.
#[derive(Debug, Clone, Copy, PartialEq, Eq, Structural)]
pub struct Transfer {
    pub from: Option<AccountId>,
    pub to: Option<AccountId>,
    pub value: Balance,
}

/// Announces that `owner` allows `spender` to move `value` of its tokens.
#[derive(Debug, Clone, Copy, PartialEq, Eq, Structural)]
pub struct Approval {
    pub owner: AccountId,
    pub spender: AccountId,
    pub value: Balance,
}

/// Why a token operation was refused.
#[derive(Debug, Clone, Copy, PartialEq, Eq, Structural)]
pub enum Error {
    /// The sender holds fewer tokens than it tried to move.
    InsufficientBalance,
    /// The spender was allowed fewer tokens than it tried to move.
    InsufficientApproval,
}

/// The balance that a map of balances gives an account: zero where it has no entry.
pub open spec fn balance_in(m: Map<AccountId, Balance>, who: AccountId) -> Balance {
    if m.contains_key(who) {
        m[who]
    } else {
        0
    }
}

/// The allowance that a map of allowances gives a pair: zero where it has no entry.
pub open spec fn allowance_in(
    m: Map<(AccountId, AccountId), Balance>,
    owner: AccountId,
    spender: AccountId,
) -> Balance {
    if m.contains_key((owner, spender)) {
        m[(owner, spender)]
    } else {
        0
    }
}

/// The balances after `value` tokens moved from `from` to `to`, written as the
/// two entries that a transfer stores: first the sender's, then the receiver's.
pub open spec fn moved(
    m: Map<AccountId, Balance>,
    from: AccountId,
    to: AccountId,
    value: Balance,
) -> Map<AccountId, Balance> {
    let debited = m.insert(from, (balance_in(m, from) - value) as Balance);
    debited.insert(to, (balance_in(debited, to) + value) as Balance)
}


/// Over one call, `spender` moved `spent` of `owner`'s tokens under its
/// allowance: no more than the allowance, which dropped by exactly that.
pub open spec fn spends(
    before: Map<(AccountId, AccountId), Balance>,
    after: Map<(AccountId, AccountId), Balance>,
    owner: AccountId,
    spender: AccountId,
    spent: nat,
) -> bool {
    &&& spent <= allowance_in(before, owner, spender)
    &&& allowance_in(after, owner, spender) == allowance_in(before, owner, spender) - spent
}

/// What a `transfer_from` of `value` from `from` by `caller` that succeeded
/// (`ok`) moved under the allowance of `(owner, spender)`.
pub open spec fn spent_in(
    ok: bool,
    from: AccountId,
    caller: AccountId,
    value: Balance,
    owner: AccountId,
    spender: AccountId,
) -> nat {
    if ok && owner == from && spender == caller {
        value as nat
    } else {
        0
    }
}

/// Over one call, an account that read zero still reads zero.
pub open spec fn stays_zero(before: Map<AccountId, Balance>, after: Map<AccountId, Balance>, who: AccountId) -> bool {
    balance_in(before, who) == 0 ==> balance_in(after, who) == 0
}

/// The sum of a sequence of amounts.
pub open spec fn total(amounts: Seq<nat>) -> nat
    decreases amounts.len(),
{
    if amounts.len() == 0 {
        0
    } else {
        total(amounts.drop_last()) + amounts.last()
    }
}

/// The abstract state of the ledger.
pub struct Erc20View {
    pub total_supply: Balance,
    pub balances: Map<AccountId, Balance>,
    pub allowances: Map<(AccountId, AccountId), Balance>,
}

/// The token ledger.
pub struct Erc20 {
    total_supply: Balance,
    balances: BTreeMap<AccountId, Balance>,
    allowances: BTreeMap<(AccountId, AccountId), Balance>,
}

impl View for Erc20 {
    type V = Erc20View;

    closed spec fn view(&self) -> Erc20View {
        Erc20View {
            total_supply: self.total_supply,
            balances: self.balances@,
            allowances: self.allowances@,
        }
    }
}

impl Erc20 {
    /// The ledger's invariant: the balances add up to the total supply.
    pub open spec fn wf(&self) -> bool {
        map_sum(self@.balances) == self@.total_supply
    }

    /// Creates a ledger in which `caller` holds the whole `supply`, and the
    /// announcement of that minting.
    pub fn new(caller: AccountId, supply: Balance) -> (res: (Erc20, Transfer))
        ensures
            res.0.wf(),
            res.0@.total_supply == supply,
            res.0@.balances == Map::<AccountId, Balance>::empty().insert(caller, supply),
            res.0@.allowances == Map::<(AccountId, AccountId), Balance>::empty(),
            res.1 == (Transfer { from: None, to: Some(caller), value: supply }),
    {
        let mut balances: BTreeMap<AccountId, Balance> = BTreeMap::new();
        balances.insert(caller, supply);
        proof {
            let e = Map::<AccountId, Balance>::empty();
            lemma_map_sum_insert(e, caller, supply);
            assert(e.dom() =~= Set::empty());
        }
        let ledger = Erc20 { total_supply: supply, balances, allowances: BTreeMap::new() };
        (ledger, Transfer { from: None, to: Some(caller), value: supply })
    }

    /// The total number of tokens.
    pub fn total_supply(&self) -> (res: Balance)
        ensures
            res == self@.total_supply,
    {
        self.total_supply
    }

    /// The tokens that `who` holds (zero for an account never credited).
    pub fn balance_of(&self, who: AccountId) -> (res: Balance)
        ensures
            res == balance_in(self@.balances, who),
    {
        match self.balances.get(&who) {
            Some(v) => *v,
            None => 0,
        }
    }

    /// The tokens that `spender` may still move out of `owner`'s balance.
    pub fn allowance(&self, owner: AccountId, spender: AccountId) -> (res: Balance)
        ensures
            res == allowance_in(self@.allowances, owner, spender),
    {
        match self.allowances.get(&(owner, spender)) {
            Some(v) => *v,
            None => 0,
        }
    }

    /// Moves `value` tokens from `from` to `to`, refusing when `from` holds
    /// fewer; on success returns the announcement of the move.
    pub fn inner_transfer(&mut self, from: AccountId, to: AccountId, value: Balance) -> (res: Result<Transfer, Error>)
        requires
            old(self).wf(),
        ensures
            final(self).wf(),
            final(self)@.total_supply == old(self)@.total_supply,
            forall|who: AccountId|
                (res is Err || who != to) ==> #[trigger] stays_zero(old(self)@.balances, final(self)@.balances, who),
            forall|o: AccountId, sp: AccountId|
                #[trigger] spends(old(self)@.allowances, final(self)@.allowances, o, sp, 0),
            final(self)@.allowances == old(self)@.allowances,
            balance_in(old(self)@.balances, from) < value ==> {
                &&& res == Err::<Transfer, Error>(Error::InsufficientBalance)
                &&& final(self)@ == old(self)@
            },
            balance_in(old(self)@.balances, from) >= value ==> {
                &&& res == Ok::<Transfer, Error>(Transfer { from: Some(from), to: Some(to), value })
                &&& final(self)@.balances == moved(old(self)@.balances, from, to, value)
                &&& forall|who: AccountId| #[trigger] balance_in(final(self)@.balances, who)
                    == balance_in(old(self)@.balances, who) - (if who == from { value as int } else { 0 })
                        + (if who == to { value as int } else { 0 })
            },
    {
        let from_balance = self.balance_of(from);
        if from_balance < value {
            return Err(Error::InsufficientBalance);
        }
        let ghost m0 = self.balances@;
        self.balances.insert(from, from_balance - value);
        proof {
            lemma_map_sum_insert(m0, from, (from_balance - value) as Balance);
        }
        let ghost m1 = self.balances@;
        let to_balance = self.balance_of(to);
        proof {
            if to != from && m1.contains_key(to) {
                lemma_map_sum_entry_le(m1, to);
            }
        }
        self.balances.insert(to, to_balance + value);
        proof {
            lemma_map_sum_insert(m1, to, (to_balance + value) as Balance);
            lemma_moved_balances(m0, from, to, value);
        }
        Ok(Transfer { from: Some(from), to: Some(to), value })
    }

    /// Moves `value` of the caller's tokens to `to`.
    pub fn transfer(&mut self, caller: AccountId, to: AccountId, value: Balance) -> (res: Result<Transfer, Error>)
        requires
            old(self).wf(),
        ensures
            final(self).wf(),
            final(self)@.total_supply == old(self)@.total_supply,
            forall|who: AccountId|
                (res is Err || who != to) ==> #[trigger] stays_zero(old(self)@.balances, final(self)@.balances, who),
            forall|o: AccountId, sp: AccountId|
                #[trigger] spends(old(self)@.allowances, final(self)@.allowances, o, sp, 0),
            final(self)@.allowances == old(self)@.allowances,
            balance_in(old(self)@.balances, caller) < value ==> {
                &&& res == Err::<Transfer, Error>(Error::InsufficientBalance)
                &&& final(self)@ == old(self)@
            },
            balance_in(old(self)@.balances, caller) >= value ==> {
                &&& res == Ok::<Transfer, Error>(Transfer { from: Some(caller), to: Some(to), value })
                &&& final(self)@.balances == moved(old(self)@.balances, caller, to, value)
                &&& forall|who: AccountId| #[trigger] balance_in(final(self)@.balances, who)
                    == balance_in(old(self)@.balances, who) - (if who == caller { value as int } else { 0 })
                        + (if who == to { value as int } else { 0 })
            },
    {
        self.inner_transfer(caller, to, value)
    }

    /// Lets `to` move up to `value` of the caller's tokens, replacing any
    /// earlier allowance; returns the announcement of the approval.
    pub fn approve(&mut self, caller: AccountId, to: AccountId, value: Balance) -> (res: Result<Approval, Error>)
        requires
            old(self).wf(),
        ensures
            final(self).wf(),
            final(self)@.total_supply == old(self)@.total_supply,
            forall|who: AccountId| #[trigger] stays_zero(old(self)@.balances, final(self)@.balances, who),
            forall|o: AccountId, sp: AccountId|
                (o, sp) != (caller, to) ==> #[trigger] spends(old(self)@.allowances, final(self)@.allowances, o, sp, 0),
            final(self)@.balances == old(self)@.balances,
            final(self)@.allowances == old(self)@.allowances.insert((caller, to), value),
            res == Ok::<Approval, Error>(Approval { owner: caller, spender: to, value }),
    {
        self.allowances.insert((caller, to), value);
        Ok(Approval { owner: caller, spender: to, value })
    }

    /// Moves `value` of `from`'s tokens to `to` on behalf of the caller, within
    /// the allowance that `from` gave the caller, and lowers that allowance.
    pub fn transfer_from(&mut self, caller: AccountId, from: AccountId, to: AccountId, value: Balance) -> (res: Result<Transfer, Error>)
        requires
            old(self).wf(),
        ensures
            final(self).wf(),
            final(self)@.total_supply == old(self)@.total_supply,
            forall|who: AccountId|
                (res is Err || who != to) ==> #[trigger] stays_zero(old(self)@.balances, final(self)@.balances, who),
            forall|o: AccountId, sp: AccountId|
                #[trigger] spends(
                    old(self)@.allowances,
                    final(self)@.allowances,
                    o,
                    sp,
                    spent_in(res is Ok, from, caller, value, o, sp),
                ),
            allowance_in(old(self)@.allowances, from, caller) < value ==> {
                &&& res == Err::<Transfer, Error>(Error::InsufficientApproval)
                &&& final(self)@ == old(self)@
            },
            allowance_in(old(self)@.allowances, from, caller) >= value
                && balance_in(old(self)@.balances, from) < value ==> {
                &&& res == Err::<Transfer, Error>(Error::InsufficientBalance)
                &&& final(self)@ == old(self)@
            },
            allowance_in(old(self)@.allowances, from, caller) >= value
                && balance_in(old(self)@.balances, from) >= value ==> {
                &&& res == Ok::<Transfer, Error>(Transfer { from: Some(from), to: Some(to), value })
                &&& final(self)@.balances == moved(old(self)@.balances, from, to, value)
                &&& forall|who: AccountId| #[trigger] balance_in(final(self)@.balances, who)
                    == balance_in(old(self)@.balances, who) - (if who == from { value as int } else { 0 })
                        + (if who == to { value as int } else { 0 })
                &&& final(self)@.allowances == old(self)@.allowances.insert(
                    (from, caller),
                    (allowance_in(old(self)@.allowances, from, caller) - value) as Balance,
                )
            },
    {
        let allowance = self.allowance(from, caller);
        if allowance < value {
            return Err(Error::InsufficientApproval);
        }
        let event = match self.inner_transfer(from, to, value) {
            Ok(event) => event,
            Err(e) => {
                return Err(e);
            },
        };
        self.allowances.insert((from, caller), allowance - value);
        Ok(event)
    }
}

/// No account of a ledger holds more than the total supply.
pub proof fn lemma_balance_within_supply(ledger: Erc20, who: AccountId)
    requires
        ledger.wf(),
    ensures
        balance_in(ledger@.balances, who) <= ledger@.total_supply,
{
    if ledger@.balances.contains_key(who) {
        lemma_map_sum_entry_le(ledger@.balances, who);
    }
}

/// A move of `value` tokens debits the sender by `value`, credits the
/// receiver by `value`, leaves every other account alone and keeps the sum
/// of all balances.
pub proof fn lemma_moved_balances(
    m: Map<AccountId, Balance>,
    from: AccountId,
    to: AccountId,
    value: Balance,
)
    requires
        m.dom().finite(),
        map_sum(m) <= Balance::MAX,
        balance_in(m, from) >= value,
    ensures
        map_sum(moved(m, from, to, value)) == map_sum(m),
        forall|who: AccountId|
            #[trigger] balance_in(moved(m, from, to, value), who) == balance_in(m, who)
                - (if who == from { value as int } else { 0 })
                + (if who == to { value as int } else { 0 }),
{
    let debited = m.insert(from, (balance_in(m, from) - value) as Balance);
    lemma_map_sum_insert(m, from, (balance_in(m, from) - value) as Balance);
    if to != from && debited.contains_key(to) {
        lemma_map_sum_entry_le(debited, to);
    }
    lemma_map_sum_insert(debited, to, (balance_in(debited, to) + value) as Balance);
}

/// Moving `value` tokens from `a` to `b` and then back from `b` to `a`
/// gives every account the balance it had before.
pub proof fn lemma_transfer_back_restores(
    m: Map<AccountId, Balance>,
    a: AccountId,
    b: AccountId,
    value: Balance,
)
    requires
        m.dom().finite(),
        map_sum(m) <= Balance::MAX,
        balance_in(m, a) >= value,
    ensures
        forall|who: AccountId|
            #[trigger] balance_in(moved(moved(m, a, b, value), b, a, value), who) == balance_in(m, who),
{
    lemma_moved_balances(m, a, b, value);
    let m1 = moved(m, a, b, value);
    assert(balance_in(m1, b) >= value) by {
        assert(balance_in(m1, b) == balance_in(m, b) - (if b == a { value as int } else { 0 }) + value);
    }
    lemma_moved_balances(m1, b, a, value);
    assert forall|who: AccountId| #[trigger]
        balance_in(moved(m1, b, a, value), who) == balance_in(m, who) by {
        assert(balance_in(m1, who) == balance_in(m, who) - (if who == a { value as int } else { 0 })
            + (if who == b { value as int } else { 0 }));
    }
}

/// After `owner` approves `spender` for `value`, the allowance of that pair
/// reads back `value`; every other pair keeps its allowance.
pub proof fn lemma_allowance_after_approve(
    m: Map<(AccountId, AccountId), Balance>,
    owner: AccountId,
    spender: AccountId,
    value: Balance,
)
    ensures
        allowance_in(m.insert((owner, spender), value), owner, spender) == value,
        forall|o: AccountId, s: AccountId|
            (o, s) != (owner, spender) ==> #[trigger] allowance_in(m.insert((owner, spender), value), o, s)
                == allowance_in(m, o, s),
{
}

/// An account that a move neither debits nor credits, and that had no entry,
/// still has none and reads zero: only the parties of a move get entries.
pub proof fn lemma_uncredited_reads_zero(
    m: Map<AccountId, Balance>,
    from: AccountId,
    to: AccountId,
    value: Balance,
    who: AccountId,
)
    requires
        !m.contains_key(who),
        who != from,
        who != to,
    ensures
        !moved(m, from, to, value).contains_key(who),
        balance_in(moved(m, from, to, value), who) == 0,
{
}

/// After `owner` approves `spender` for `value` and `spender` then moves
/// `spent` (which `transfer_from` allows only up to the allowance), the
/// allowance left is `value - spent`.
pub proof fn lemma_allowance_after_spend(
    m: Map<(AccountId, AccountId), Balance>,
    owner: AccountId,
    spender: AccountId,
    value: Balance,
    spent: Balance,
)
    requires
        spent <= allowance_in(m.insert((owner, spender), value), owner, spender),
    ensures
        spent <= value,
        allowance_in(
            m.insert((owner, spender), value).insert(
                (owner, spender),
                (allowance_in(m.insert((owner, spender), value), owner, spender) - spent) as Balance,
            ),
            owner,
            spender,
        ) == value - spent,
{
}

/// Over a run of calls in which `spender` moved `spent[i]` of `owner`'s
/// tokens in call `i` and `owner` approved nothing new for it, the spender
/// moved no more in all than it was allowed at the start, and the allowance
/// left is the starting one minus everything moved.
pub proof fn lemma_spends_across_calls(
    allowances: Seq<Map<(AccountId, AccountId), Balance>>,
    spent: Seq<nat>,
    owner: AccountId,
    spender: AccountId,
)
    requires
        allowances.len() == spent.len() + 1,
        forall|i: int|
            0 <= i < spent.len() ==> #[trigger] spends(allowances[i], allowances[i + 1], owner, spender, spent[i]),
    ensures
        total(spent) <= allowance_in(allowances[0], owner, spender),
        allowance_in(allowances.last(), owner, spender) == allowance_in(allowances[0], owner, spender) - total(spent),
    decreases spent.len(),
{
    if spent.len() > 0 {
        let earlier = allowances.drop_last();
        let m = spent.len() - 1;
        assert forall|i: int| 0 <= i < spent.drop_last().len() implies #[trigger] spends(
            earlier[i],
            earlier[i + 1],
            owner,
            spender,
            spent.drop_last()[i],
        ) by {
            assert(spends(allowances[i], allowances[i + 1], owner, spender, spent[i]));
        }
        lemma_spends_across_calls(earlier, spent.drop_last(), owner, spender);
        assert(spends(allowances[m], allowances[m + 1], owner, spender, spent[m]));
        assert(earlier.last() == allowances[m]);
    }
}

/// An account that reads zero keeps reading zero over a run of calls none of
/// which credited it; in particular, one that a new ledger did not mint to.
pub proof fn lemma_uncredited_across_calls(balances: Seq<Map<AccountId, Balance>>, who: AccountId)
    requires
        balances.len() >= 1,
        balance_in(balances[0], who) == 0,
        forall|i: int| 0 <= i < balances.len() - 1 ==> #[trigger] stays_zero(balances[i], balances[i + 1], who),
    ensures
        balance_in(balances.last(), who) == 0,
    decreases balances.len(),
{
    if balances.len() > 1 {
        let earlier = balances.drop_last();
        assert forall|i: int| 0 <= i < earlier.len() - 1 implies #[trigger] stays_zero(earlier[i], earlier[i + 1], who) by {
            assert(stays_zero(balances[i], balances[i + 1], who));
        }
        lemma_uncredited_across_calls(earlier, who);
        let m = balances.len() - 2;
        assert(earlier.last() == balances[m]);
        assert(stays_zero(balances[m], balances[m + 1], who));
    }
}

/// Over a run of calls each of which kept the total supply and the sum of
/// the balances equal to it, the supply is the one the run started with and
/// the balances still add up to it: no call mints or burns.
pub proof fn lemma_supply_across_calls(states: Seq<Erc20View>)
    requires
        states.len() >= 1,
        map_sum(states[0].balances) == states[0].total_supply,
        forall|i: int|
            0 <= i < states.len() - 1 ==> {
                &&& #[trigger] states[i + 1].total_supply == states[i].total_supply
                &&& map_sum(states[i + 1].balances) == states[i + 1].total_supply
            },
    ensures
        states.last().total_supply == states[0].total_supply,
        map_sum(states.last().balances) == states[0].total_supply,
    decreases states.len(),
{
    if states.len() > 1 {
        let earlier = states.drop_last();
        assert forall|i: int| 0 <= i < earlier.len() - 1 implies {
            &&& #[trigger] earlier[i + 1].total_supply == earlier[i].total_supply
            &&& map_sum(earlier[i + 1].balances) == earlier[i + 1].total_supply
        } by {
            assert(states[i + 1].total_supply == states[i].total_supply);
        }
        lemma_supply_across_calls(earlier);
        let m = states.len() - 2;
        assert(earlier.last() == states[m]);
        assert(states[m + 1].total_supply == states[m].total_supply);
    }
}

} // verus!
