use vstd::prelude::*;

use crate::error::{Error, ErrorKind, Result};
use crate::map_with_context::{
    AccountTokenBalancesMapContext, AccountsMapContext, MapWithContext, PoolsMapContext,
    PositionToPoolMapContext,
};
use crate::ordered_map::OrderedMap;
use crate::ordered_set::OrderedSet;
use crate::types::{AccountId, Amount, BasisPoints, PoolId, PositionId, TokenId};
use crate::{valid_protocol_fee_fraction, validate_protocol_fee_fraction};

verus! {

/// Balances of an account, by token.
pub type AccountTokenBalancesMap = MapWithContext<TokenId, Amount, AccountTokenBalancesMapContext>;

/// Withdrawal tracker of an account that never has a withdrawal in progress: tokens are sent
/// within the call that withdraws them.
#[derive(Clone, Copy, Debug, PartialEq, Eq, Structural)]
pub struct NoopTracker;

impl NoopTracker {
    /// Whether some withdrawal of the account is in progress: never, for this tracker.
    pub open spec fn in_progress(&self) -> bool {
        false
    }

    /// Whether some withdrawal of the account is still in progress.
    pub fn is_any_withdraw_in_progress(&self) -> (r: bool)
        ensures
            r == self.in_progress(),
    {
        false
    }
}

/// The balances of `balances` with every token of `tokens` registered: a token that was not
/// registered gets a zero balance, the others keep theirs.
pub open spec fn with_registered(balances: Map<TokenId, Amount>, tokens: Seq<TokenId>) -> Map<
    TokenId,
    Amount,
> {
    Map::new(
        |t: TokenId| balances.contains_key(t) || tokens.contains(t),
        |t: TokenId|
            if balances.contains_key(t) {
                balances[t]
            } else {
                0
            },
    )
}

/// Some token of `tokens` is registered with a nonzero balance.
pub open spec fn has_nonzero_balance(balances: Map<TokenId, Amount>, tokens: Seq<TokenId>) -> bool {
    exists|j: int|
        0 <= j < tokens.len() && #[trigger] balances.contains_key(tokens[j]) && balances[tokens[j]]
            != 0
}

/// What an account holds: its balances by token and its positions.
pub struct AccountState {
    pub balances: Map<TokenId, Amount>,
    pub positions: Set<PositionId>,
    /// Whether a withdrawal of the account is still in progress.
    pub withdraw_in_progress: bool,
}

/// First version of an account record.
pub struct AccountV0 {
    /// Amounts of the tokens deposited to this account.
    pub token_balances: AccountTokenBalancesMap,
    /// Positions which belong to this account.
    pub positions: OrderedSet<PositionId>,
    /// Tracks withdrawals which may take more than one step.
    pub withdraw_tracker: NoopTracker,
}

/// An account record, by version.
pub enum Account {
    V0(AccountV0),
}

/// The latest version of an account record.
pub type AccountLatest = AccountV0;

impl View for AccountV0 {
    type V = AccountState;

    open spec fn view(&self) -> AccountState {
        AccountState {
            balances: self.token_balances@,
            positions: self.positions@,
            withdraw_in_progress: self.withdraw_tracker.in_progress(),
        }
    }
}

impl View for Account {
    type V = AccountState;

    open spec fn view(&self) -> AccountState {
        match self {
            Account::V0(a) => a@,
        }
    }
}

impl AccountV0 {
    /// Internal consistency of the record.
    pub open spec fn well_formed(&self) -> bool {
        self.token_balances.well_formed() && self.positions.well_formed()
    }

    /// An account with no token registered and no position.
    pub fn new() -> (a: Self)
        ensures
            a.well_formed(),
            a@.balances == Map::<TokenId, Amount>::empty(),
            a@.positions == Set::<PositionId>::empty(),
    {
        AccountV0 {
            token_balances: MapWithContext::new(OrderedMap::new()),
            positions: OrderedSet::new(),
            withdraw_tracker: NoopTracker,
        }
    }

    /// A copy of the record.
    pub fn copied(&self) -> (r: Self)
        requires
            self.well_formed(),
        ensures
            r.well_formed(),
            r@ == self@,
    {
        AccountV0 {
            token_balances: self.token_balances.copied(),
            positions: self.positions.copied(),
            withdraw_tracker: self.withdraw_tracker,
        }
    }

    /// Registers `token_id` with a zero balance, unless it is registered already.
    pub fn register_token(&mut self, token_id: &TokenId)
        requires
            old(self).well_formed(),
        ensures
            final(self).well_formed(),
            final(self)@.balances == with_registered(old(self)@.balances, seq![*token_id]),
            final(self)@.positions == old(self)@.positions,
    {
        if !self.token_balances.contains_key(token_id) {
            self.token_balances.insert(*token_id, 0);
        }
        let ghost single = seq![*token_id];
        assert forall|t: TokenId| #[trigger] single.contains(t) <==> t == *token_id by {
            if t == *token_id {
                assert(single[0] == t);
            }
        }
        assert(self@.balances =~= with_registered(old(self)@.balances, single));
    }

    /// Registers each token of `tokens` that is not registered yet, with a zero balance.
    pub fn register_tokens(&mut self, tokens: &[TokenId])
        requires
            old(self).well_formed(),
        ensures
            final(self).well_formed(),
            final(self)@.balances == with_registered(old(self)@.balances, tokens@),
            final(self)@.positions == old(self)@.positions,
    {
        let ghost start = self@.balances;
        let mut i: usize = 0;
        while i < tokens.len()
            invariant
                i <= tokens.len(),
                self.well_formed(),
                self@.balances == with_registered(start, tokens@.take(i as int)),
                self@.positions == old(self)@.positions,
            decreases tokens.len() - i,
        {
            let token = tokens[i];
            let ghost before = self@.balances;
            if !self.token_balances.contains_key(&token) {
                self.token_balances.insert(token, 0);
            }
            proof {
                let next = tokens@.take(i + 1);
                assert forall|t: TokenId| #[trigger] next.contains(t) <==> (tokens@.take(
                    i as int,
                ).contains(t) || t == token) by {
                    if next.contains(t) {
                        let j = choose|j: int| 0 <= j < next.len() && next[j] == t;
                        if j < i {
                            assert(tokens@.take(i as int)[j] == t);
                        }
                    }
                    if t == token {
                        assert(next[i as int] == t);
                    }
                    if tokens@.take(i as int).contains(t) {
                        let j = choose|j: int| 0 <= j < i && tokens@.take(i as int)[j] == t;
                        assert(next[j] == t);
                    }
                }
                assert(self@.balances =~= with_registered(start, next));
            }
            i += 1;
        }
        assert(tokens@.take(tokens.len() as int) =~= tokens@);
    }

    /// Unregisters each token of `tokens`; fails with `NonZeroTokenBalance`, changing
    /// nothing, when one of them still has a nonzero balance. Tokens that are not registered
    /// are passed over.
    pub fn unregister_tokens(&mut self, tokens: &[TokenId]) -> (r: Result<()>)
        requires
            old(self).well_formed(),
        ensures
            final(self).well_formed(),
            final(self)@.positions == old(self)@.positions,
            has_nonzero_balance(old(self)@.balances, tokens@) ==> r == Err::<(), Error>(
                Error { kind: ErrorKind::NonZeroTokenBalance },
            ) && final(self)@.balances == old(self)@.balances,
            !has_nonzero_balance(old(self)@.balances, tokens@) ==> r is Ok
                && final(self)@.balances == old(self)@.balances.remove_keys(tokens@.to_set()),
    {
        let mut i: usize = 0;
        while i < tokens.len()
            invariant
                i <= tokens.len(),
                self.well_formed(),
                forall|j: int|
                    0 <= j < i ==> !(#[trigger] self@.balances.contains_key(tokens@[j])
                        && self@.balances[tokens@[j]] != 0),
            decreases tokens.len() - i,
        {
            match self.token_balances.get(&tokens[i]) {
                Some(balance) => {
                    if *balance != 0 {
                        return Err(Error::new(ErrorKind::NonZeroTokenBalance));
                    }
                },
                None => {},
            }
            i += 1;
        }
        let ghost start = self@.balances;
        let mut k: usize = 0;
        while k < tokens.len()
            invariant
                k <= tokens.len(),
                self.well_formed(),
                self@.positions == old(self)@.positions,
                self@.balances == start.remove_keys(tokens@.take(k as int).to_set()),
            decreases tokens.len() - k,
        {
            let _ = self.token_balances.remove(&tokens[k]);
            proof {
                let prev = tokens@.take(k as int);
                let next = tokens@.take(k + 1);
                assert forall|t: TokenId| #[trigger] next.to_set().contains(t) <==> (
                prev.to_set().contains(t) || t == tokens@[k as int]) by {
                    if next.contains(t) {
                        let j = choose|j: int| 0 <= j < next.len() && next[j] == t;
                        if j < k {
                            assert(prev[j] == t);
                        }
                    }
                    if t == tokens@[k as int] {
                        assert(next[k as int] == t);
                    }
                    if prev.contains(t) {
                        let j = choose|j: int| 0 <= j < k && prev[j] == t;
                        assert(next[j] == t);
                    }
                }
                assert(self@.balances =~= start.remove_keys(next.to_set()));
            }
            k += 1;
        }
        assert(tokens@.take(tokens.len() as int) =~= tokens@);
        Ok(())
    }

    /// Adds `amount` to the balance of `token_id` and returns the new balance.
    ///
    /// Fails with `TokenNotRegistered` when the token is not registered, and with
    /// `DepositWouldOverflow` when the new balance would not fit; either way nothing changes.
    pub fn deposit(&mut self, token_id: &TokenId, amount: Amount) -> (r: Result<Amount>)
        requires
            old(self).well_formed(),
        ensures
            final(self).well_formed(),
            final(self)@.positions == old(self)@.positions,
            !old(self)@.balances.contains_key(*token_id) ==> r == Err::<Amount, Error>(
                Error { kind: ErrorKind::TokenNotRegistered },
            ) && final(self)@ == old(self)@,
            old(self)@.balances.contains_key(*token_id) && old(self)@.balances[*token_id] + amount
                > u128::MAX ==> r == Err::<Amount, Error>(
                Error { kind: ErrorKind::DepositWouldOverflow },
            ) && final(self)@ == old(self)@,
            old(self)@.balances.contains_key(*token_id) && old(self)@.balances[*token_id] + amount
                <= u128::MAX ==> r == Ok::<Amount, Error>(
                (old(self)@.balances[*token_id] + amount) as Amount,
            ) && final(self)@.balances == old(self)@.balances.insert(
                *token_id,
                (old(self)@.balances[*token_id] + amount) as Amount,
            ),
    {
        let balance = match self.token_balances.get(token_id) {
            Some(balance) => *balance,
            None => return Err(Error::new(ErrorKind::TokenNotRegistered)),
        };
        match balance.checked_add(amount) {
            Some(new_balance) => {
                self.token_balances.insert(*token_id, new_balance);
                Ok(new_balance)
            },
            None => Err(Error::new(ErrorKind::DepositWouldOverflow)),
        }
    }

    /// Subtracts `amount` from the balance of `token_id` and returns the new balance.
    ///
    /// Fails with `TokenNotRegistered` when the token is not registered, and with
    /// `NotEnoughTokens` when the balance is below `amount`; either way nothing changes.
    pub fn withdraw(&mut self, token_id: &TokenId, amount: Amount) -> (r: Result<Amount>)
        requires
            old(self).well_formed(),
        ensures
            final(self).well_formed(),
            final(self)@.positions == old(self)@.positions,
            !old(self)@.balances.contains_key(*token_id) ==> r == Err::<Amount, Error>(
                Error { kind: ErrorKind::TokenNotRegistered },
            ) && final(self)@ == old(self)@,
            old(self)@.balances.contains_key(*token_id) && old(self)@.balances[*token_id] < amount
                ==> r == Err::<Amount, Error>(Error { kind: ErrorKind::NotEnoughTokens })
                && final(self)@ == old(self)@,
            old(self)@.balances.contains_key(*token_id) && old(self)@.balances[*token_id] >= amount
                ==> r == Ok::<Amount, Error>((old(self)@.balances[*token_id] - amount) as Amount)
                && final(self)@.balances == old(self)@.balances.insert(
                *token_id,
                (old(self)@.balances[*token_id] - amount) as Amount,
            ),
    {
        let balance = match self.token_balances.get(token_id) {
            Some(balance) => *balance,
            None => return Err(Error::new(ErrorKind::TokenNotRegistered)),
        };
        if balance < amount {
            return Err(Error::new(ErrorKind::NotEnoughTokens));
        }
        let new_balance = balance - amount;
        self.token_balances.insert(*token_id, new_balance);
        Ok(new_balance)
    }
}

/// Pools, by pair of tokens.
pub type PoolsMap<P> = MapWithContext<PoolId, P, PoolsMapContext>;

/// Accounts, by identifier.
pub type AccountsMap = MapWithContext<AccountId, Account, AccountsMapContext>;

/// The pool of each position.
pub type PositionToPoolMap = MapWithContext<PositionId, PoolId, PositionToPoolMapContext>;

/// A set of accounts.
pub type AccountIdSet = OrderedSet<AccountId>;

/// A set of tokens.
pub type VerifiedTokensSet = OrderedSet<TokenId>;

impl Account {
    /// Internal consistency of the record.
    pub open spec fn well_formed(&self) -> bool {
        match self {
            Account::V0(a) => a.well_formed(),
        }
    }
}

/// Every account of `accounts` is consistent.
pub open spec fn accounts_well_formed(accounts: Map<AccountId, Account>) -> bool {
    forall|id: AccountId| #[trigger] accounts.contains_key(id) ==> accounts[id].well_formed()
}

/// What the contract holds, whatever the version of its record.
pub struct ContractState<P> {
    pub owner_id: AccountId,
    pub guards: Set<AccountId>,
    pub suspended: bool,
    pub pools: Map<PoolId, P>,
    pub accounts: Map<AccountId, AccountState>,
    pub verified_tokens: Set<TokenId>,
    pub pool_count: u64,
    pub next_free_position_id: u64,
    pub position_to_pool_id: Map<PositionId, PoolId>,
    pub protocol_fee_fraction: BasisPoints,
}

/// The state of each account of `accounts`.
pub open spec fn accounts_state(accounts: Map<AccountId, Account>) -> Map<AccountId, AccountState> {
    accounts.map_values(|a: Account| a@)
}

/// Storing an account stores its state.
pub proof fn lemma_accounts_state_insert(accounts: Map<AccountId, Account>, id: AccountId, a: Account)
    ensures
        accounts_state(accounts.insert(id, a)) == accounts_state(accounts).insert(id, a@),
{
    assert(accounts_state(accounts.insert(id, a)) =~= accounts_state(accounts).insert(id, a@));
}

/// Dropping an account drops its state.
pub proof fn lemma_accounts_state_remove(accounts: Map<AccountId, Account>, id: AccountId)
    ensures
        accounts_state(accounts.remove(id)) == accounts_state(accounts).remove(id),
{
    assert(accounts_state(accounts.remove(id)) =~= accounts_state(accounts).remove(id));
}

/// Blockchain-specific part of the contract record added in its second version.
#[derive(Clone, Copy, Debug, PartialEq, Eq, Structural)]
pub struct ContractExtraV1;

impl Default for ContractExtraV1 {
    fn default() -> (r: Self)
        ensures
            r == ContractExtraV1,
    {
        ContractExtraV1
    }
}

/// First version of the contract record.
pub struct ContractV0<P> {
    /// Account of the owner.
    pub owner_id: AccountId,
    /// Accounts that may suspend and resume the payable methods.
    pub guards: AccountIdSet,
    /// Whether the payable methods are suspended.
    pub suspended: bool,
    /// Pools, by pair of tokens.
    pub pools: PoolsMap<P>,
    /// Registered accounts, with their deposits and positions.
    pub accounts: AccountsMap,
    /// Tokens allowed by the owner.
    pub verified_tokens: VerifiedTokensSet,
    /// Number of pools.
    pub pool_count: u64,
    /// Identifier of the next position to open.
    pub next_free_position_id: u64,
    /// The pool in which each position exists.
    pub position_to_pool_id: PositionToPoolMap,
    /// Part of the total fee of a swap that goes to the exchange, in basis points; the rest
    /// goes to the liquidity providers.
    pub protocol_fee_fraction: BasisPoints,
}

/// Second version of the contract record.
pub struct ContractV1<P> {
    /// Account of the owner.
    pub owner_id: AccountId,
    /// Accounts that may suspend and resume the payable methods.
    pub guards: AccountIdSet,
    /// Whether the payable methods are suspended.
    pub suspended: bool,
    /// Pools, by pair of tokens.
    pub pools: PoolsMap<P>,
    /// Registered accounts, with their deposits and positions.
    pub accounts: AccountsMap,
    /// Tokens allowed by the owner.
    pub verified_tokens: VerifiedTokensSet,
    /// Number of pools.
    pub pool_count: u64,
    /// Identifier of the next position to open.
    pub next_free_position_id: u64,
    /// The pool in which each position exists.
    pub position_to_pool_id: PositionToPoolMap,
    /// Part of the total fee of a swap that goes to the exchange, in basis points; the rest
    /// goes to the liquidity providers.
    pub protocol_fee_fraction: BasisPoints,
    /// Blockchain-specific extra data.
    pub extra: ContractExtraV1,
}

/// The contract record, by version.
pub enum Contract<P> {
    V0(ContractV0<P>),
    V1(ContractV1<P>),
}

/// The latest version of the contract record.
pub type ContractLatest<P> = ContractV1<P>;

/// Read-only view of the contract record, whatever its version.
pub struct ContractRef<'a, P> {
    pub owner_id: &'a AccountId,
    pub guards: &'a AccountIdSet,
    pub suspended: bool,
    pub pools: &'a PoolsMap<P>,
    pub accounts: &'a AccountsMap,
    pub verified_tokens: &'a VerifiedTokensSet,
    pub pool_count: u64,
    pub next_free_position_id: u64,
    pub position_to_pool_id: &'a PositionToPoolMap,
    pub protocol_fee_fraction: BasisPoints,
}

impl<P> View for ContractV0<P> {
    type V = ContractState<P>;

    open spec fn view(&self) -> ContractState<P> {
        ContractState {
            owner_id: self.owner_id,
            guards: self.guards@,
            suspended: self.suspended,
            pools: self.pools@,
            accounts: accounts_state(self.accounts@),
            verified_tokens: self.verified_tokens@,
            pool_count: self.pool_count,
            next_free_position_id: self.next_free_position_id,
            position_to_pool_id: self.position_to_pool_id@,
            protocol_fee_fraction: self.protocol_fee_fraction,
        }
    }
}

impl<P> View for ContractV1<P> {
    type V = ContractState<P>;

    open spec fn view(&self) -> ContractState<P> {
        ContractState {
            owner_id: self.owner_id,
            guards: self.guards@,
            suspended: self.suspended,
            pools: self.pools@,
            accounts: accounts_state(self.accounts@),
            verified_tokens: self.verified_tokens@,
            pool_count: self.pool_count,
            next_free_position_id: self.next_free_position_id,
            position_to_pool_id: self.position_to_pool_id@,
            protocol_fee_fraction: self.protocol_fee_fraction,
        }
    }
}

impl<P> View for Contract<P> {
    type V = ContractState<P>;

    open spec fn view(&self) -> ContractState<P> {
        match self {
            Contract::V0(c) => c@,
            Contract::V1(c) => c@,
        }
    }
}

impl<'a, P> View for ContractRef<'a, P> {
    type V = ContractState<P>;

    open spec fn view(&self) -> ContractState<P> {
        ContractState {
            owner_id: *self.owner_id,
            guards: self.guards@,
            suspended: self.suspended,
            pools: self.pools@,
            accounts: accounts_state(self.accounts@),
            verified_tokens: self.verified_tokens@,
            pool_count: self.pool_count,
            next_free_position_id: self.next_free_position_id,
            position_to_pool_id: self.position_to_pool_id@,
            protocol_fee_fraction: self.protocol_fee_fraction,
        }
    }
}

impl<P> ContractV0<P> {
    /// Internal consistency of the record.
    pub open spec fn well_formed(&self) -> bool {
        &&& self.guards.well_formed()
        &&& self.pools.well_formed()
        &&& self.accounts.well_formed()
        &&& accounts_well_formed(self.accounts@)
        &&& self.verified_tokens.well_formed()
        &&& self.position_to_pool_id.well_formed()
    }
}

impl<P> ContractV1<P> {
    /// Internal consistency of the record.
    pub open spec fn well_formed(&self) -> bool {
        &&& self.guards.well_formed()
        &&& self.pools.well_formed()
        &&& self.accounts.well_formed()
        &&& accounts_well_formed(self.accounts@)
        &&& self.verified_tokens.well_formed()
        &&& self.position_to_pool_id.well_formed()
    }

    /// A record with no guard, account, verified token, pool or position, and the payable
    /// methods running.
    ///
    /// Fails with `IllegalFee` when `protocol_fee_fraction` is not an allowed fraction.
    pub fn new(owner_id: AccountId, protocol_fee_fraction: BasisPoints) -> (r: Result<ContractV1<P>>)
        ensures
            !valid_protocol_fee_fraction(protocol_fee_fraction) ==> r == Err::<ContractV1<P>, Error>(
                Error { kind: ErrorKind::IllegalFee },
            ),
            valid_protocol_fee_fraction(protocol_fee_fraction) ==> r is Ok && r->Ok_0.well_formed()
                && r->Ok_0@ == (ContractState::<P> {
                owner_id,
                guards: Set::empty(),
                suspended: false,
                pools: Map::empty(),
                accounts: Map::empty(),
                verified_tokens: Set::empty(),
                pool_count: 0,
                next_free_position_id: 0,
                position_to_pool_id: Map::empty(),
                protocol_fee_fraction,
            }),
    {
        let protocol_fee_fraction = match validate_protocol_fee_fraction(protocol_fee_fraction) {
            Ok(fraction) => fraction,
            Err(kind) => return Err(Error::new(kind)),
        };
        let c = ContractV1 {
            owner_id,
            guards: OrderedSet::new(),
            suspended: false,
            pools: MapWithContext::new(OrderedMap::new()),
            accounts: MapWithContext::new(OrderedMap::new()),
            verified_tokens: OrderedSet::new(),
            pool_count: 0,
            next_free_position_id: 0,
            position_to_pool_id: MapWithContext::new(OrderedMap::new()),
            protocol_fee_fraction,
            extra: ContractExtraV1::default(),
        };
        assert(accounts_state(c.accounts@) =~= Map::empty());
        Ok(c)
    }
}

impl<P> ContractV0<P> {
    /// The same record in the second version, with default extra data.
    pub fn upgrade(self) -> (r: ContractV1<P>)
        ensures
            r == self.spec_upgrade(),
    {
        ContractV1 {
            owner_id: self.owner_id,
            guards: self.guards,
            suspended: self.suspended,
            pools: self.pools,
            accounts: self.accounts,
            verified_tokens: self.verified_tokens,
            pool_count: self.pool_count,
            next_free_position_id: self.next_free_position_id,
            position_to_pool_id: self.position_to_pool_id,
            protocol_fee_fraction: self.protocol_fee_fraction,
            extra: ContractExtraV1::default(),
        }
    }

    /// The same record in the second version, with default extra data.
    pub open spec fn spec_upgrade(self) -> ContractV1<P> {
        ContractV1 {
            owner_id: self.owner_id,
            guards: self.guards,
            suspended: self.suspended,
            pools: self.pools,
            accounts: self.accounts,
            verified_tokens: self.verified_tokens,
            pool_count: self.pool_count,
            next_free_position_id: self.next_free_position_id,
            position_to_pool_id: self.position_to_pool_id,
            protocol_fee_fraction: self.protocol_fee_fraction,
            extra: ContractExtraV1,
        }
    }
}

impl<P> Contract<P> {
    /// Internal consistency of the record.
    pub open spec fn well_formed(&self) -> bool {
        match self {
            Contract::V0(c) => c.well_formed(),
            Contract::V1(c) => c.well_formed(),
        }
    }

    /// The record in its latest version.
    pub open spec fn spec_latest(self) -> ContractV1<P> {
        match self {
            Contract::V0(c) => c.spec_upgrade(),
            Contract::V1(c) => c,
        }
    }

    /// Upgrades the record to its latest version in place, and gives mutable access to it.
    pub fn latest(&mut self) -> (r: &mut ContractV1<P>)
        ensures
            *r == old(self).spec_latest(),
            *final(self) == Contract::V1(*final(r)),
    {
        if let Contract::V0(_) = self {
            let mut record = Contract::V1(ContractV1 {
                owner_id: 0,
                guards: OrderedSet::new(),
                suspended: false,
                pools: MapWithContext::new(OrderedMap::new()),
                accounts: MapWithContext::new(OrderedMap::new()),
                verified_tokens: OrderedSet::new(),
                pool_count: 0,
                next_free_position_id: 0,
                position_to_pool_id: MapWithContext::new(OrderedMap::new()),
                protocol_fee_fraction: 0,
                extra: ContractExtraV1,
            });
            core::mem::swap(&mut record, self);
            *self = Contract::V1(
                match record {
                    Contract::V0(c) => c.upgrade(),
                    Contract::V1(c) => c,
                },
            );
        }
        self.as_latest_mut().unwrap()
    }

    /// Mutable access to the record when it is in its latest version.
    fn as_latest_mut(&mut self) -> (r: Option<&mut ContractV1<P>>)
        ensures
            *old(self) is V0 ==> r is None && *final(self) == *old(self),
            *old(self) is V1 ==> r is Some && *r->Some_0 == (*old(self))->V1_0 && *final(self)
                == Contract::V1(*final(r->Some_0)),
    {
        match self {
            Contract::V1(c) => Some(c),
            Contract::V0(_) => None,
        }
    }

    /// Read-only view of the record, whatever its version.
    pub fn as_ref(&self) -> (r: ContractRef<'_, P>)
        ensures
            r@ == self@,
            *r.guards == self.spec_latest().guards,
            *r.pools == self.spec_latest().pools,
            *r.accounts == self.spec_latest().accounts,
            *r.verified_tokens == self.spec_latest().verified_tokens,
            *r.position_to_pool_id == self.spec_latest().position_to_pool_id,
    {
        match self {
            Contract::V0(c) => ContractRef {
                owner_id: &c.owner_id,
                guards: &c.guards,
                suspended: c.suspended,
                pools: &c.pools,
                accounts: &c.accounts,
                verified_tokens: &c.verified_tokens,
                pool_count: c.pool_count,
                next_free_position_id: c.next_free_position_id,
                position_to_pool_id: &c.position_to_pool_id,
                protocol_fee_fraction: c.protocol_fee_fraction,
            },
            Contract::V1(c) => ContractRef {
                owner_id: &c.owner_id,
                guards: &c.guards,
                suspended: c.suspended,
                pools: &c.pools,
                accounts: &c.accounts,
                verified_tokens: &c.verified_tokens,
                pool_count: c.pool_count,
                next_free_position_id: c.next_free_position_id,
                position_to_pool_id: &c.position_to_pool_id,
                protocol_fee_fraction: c.protocol_fee_fraction,
            },
        }
    }
}

/// Upgrading the record to its latest version keeps what it holds.
pub proof fn lemma_upgrade_keeps_state<P>(c: Contract<P>)
    ensures
        c.spec_latest()@ == c@,
        c.well_formed() ==> c.spec_latest().well_formed(),
{
}

/// Registering the same tokens twice is the same as registering them once.
pub proof fn law_register_tokens_idempotent(balances: Map<TokenId, Amount>, tokens: Seq<TokenId>)
    ensures
        with_registered(with_registered(balances, tokens), tokens) == with_registered(
            balances,
            tokens,
        ),
{
    assert(with_registered(with_registered(balances, tokens), tokens) =~= with_registered(
        balances,
        tokens,
    ));
}

/// Registering tokens keeps every balance there was.
pub proof fn law_register_tokens_keeps_balances(
    balances: Map<TokenId, Amount>,
    tokens: Seq<TokenId>,
    t: TokenId,
)
    requires
        balances.contains_key(t),
    ensures
        with_registered(balances, tokens).contains_key(t),
        with_registered(balances, tokens)[t] == balances[t],
{
}

/// Unregistering tokens right after registering them, when none of them was registered
/// before, is allowed and gives the balances back as they were.
pub proof fn law_unregister_undoes_register_tokens(
    balances: Map<TokenId, Amount>,
    tokens: Seq<TokenId>,
)
    requires
        forall|j: int| 0 <= j < tokens.len() ==> !(#[trigger] balances.contains_key(tokens[j])),
    ensures
        !has_nonzero_balance(with_registered(balances, tokens), tokens),
        with_registered(balances, tokens).remove_keys(tokens.to_set()) == balances,
{
    let registered = with_registered(balances, tokens);
    assert forall|j: int| 0 <= j < tokens.len() implies !(#[trigger] registered.contains_key(
        tokens[j],
    ) && registered[tokens[j]] != 0) by {
        assert(!balances.contains_key(tokens[j]));
    }
    assert forall|t: TokenId| #[trigger] balances.contains_key(t) implies !tokens.to_set().contains(
        t,
    ) by {
        if tokens.contains(t) {
            let j = choose|j: int| 0 <= j < tokens.len() && tokens[j] == t;
            assert(!balances.contains_key(tokens[j]));
        }
    }
    assert(registered.remove_keys(tokens.to_set()) =~= balances);
}

} // verus!
