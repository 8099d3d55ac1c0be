use vstd::prelude::*;

use crate::error::{Error, ErrorKind, Result};
use crate::actions::{
    actions_fold, batch_state, execute_action, lemma_actions_failure, lemma_actions_fold_results,
    Action, ActionResult, BatchState,
};
use crate::account_view::{
    close_position_step, open_position_step, withdraw_fee_step, AccountViewMut, AccountViewState,
};
use crate::key::OrderedKey;
use crate::tick::{spec_tick_valid, Tick};
use crate::ordered_map::{lemma_key_index, seq_has_key, seq_key_index, seq_to_map, sorted_by_rank, KeyAt, OrderedMap};
use crate::pool::{
    fee_rate_ticks, fee_rates_ticks, limit_value, pool_swap_answer, Pool, PoolInfo, PositionClosedInfo,
    PoolStateReport, PositionInfo, PositionOpenedInfo,
    NUM_FEE_LEVELS,
};
use crate::ordered_set::{items_added, items_removed};
use crate::state::{
    has_nonzero_balance, lemma_accounts_state_insert, lemma_accounts_state_remove,
    lemma_upgrade_keeps_state, with_registered, Account, AccountState, AccountV0, Contract,
    ContractState, PositionToPoolMap,
};
use crate::types::{
    spec_swap_if, swap_if, AccountId, Amount, BasisPoints, FeeLevel, PoolId, PositionId, Side,
    DepositPayment, Path, PoolUpdateReason, PositionInit, Range, SwapKind, TokenId, VersionInfo,
};
use crate::{valid_protocol_fee_fraction, validate_protocol_fee_fraction};
use vstd::arithmetic::power2::pow2;

verus! {

/// Version of the exchange core.
pub const DEX_CORE_VERSION: &'static str = "0.1.0";

/// An event written to the chain's log by an operation that succeeded; `F` is the type of the
/// real numbers a pool reports, `L` that of its liquidities.
#[derive(Debug, PartialEq, Eq)]
pub enum Event<F, L> {
    Deposit { user: AccountId, token: TokenId, amount: Amount, balance: Amount },
    Withdraw { user: AccountId, token: TokenId, amount: Amount, balance: Amount },
    AddVerifiedTokens { tokens: Vec<TokenId> },
    RemoveVerifiedTokens { tokens: Vec<TokenId> },
    AddGuardAccounts { accounts: Vec<AccountId> },
    RemoveGuardAccounts { accounts: Vec<AccountId> },
    Swap {
        user: AccountId,
        token_in: TokenId,
        token_out: TokenId,
        amount_in: Amount,
        amount_out: Amount,
    },
    OpenPosition {
        user: AccountId,
        token_a: TokenId,
        token_b: TokenId,
        amount_a: Amount,
        amount_b: Amount,
        fee_rate: BasisPoints,
        position_id: PositionId,
        low_tick: i32,
        high_tick: i32,
    },
    HarvestFee { position_id: PositionId, amount_a: Amount, amount_b: Amount },
    ClosePosition { position_id: PositionId, amount_a: Amount, amount_b: Amount },
    SuspendPayableAPI { account: AccountId },
    ResumePayableAPI { account: AccountId },
    TickUpdate { pool: (TokenId, TokenId), fee_level: FeeLevel, tick: i32, liquidity_change: F },
    UpdatePoolState { reason: PoolUpdateReason, pool: (TokenId, TokenId), state: PoolStateReport<F, L> },
}

/// The events of an exchange whose pools are of type `P`.
pub type DexEvent<P> = Event<<P as Pool>::Price, <P as Pool>::Liquidity>;

/// A transfer of tokens out of the exchange, which the platform is to perform: `amount` of
/// `token_id` to `account_id`, then unregistering the token from the account when
/// `unregister` holds.
#[derive(Clone, Copy, Debug, PartialEq, Eq, Structural)]
pub struct SendTokens {
    pub account_id: AccountId,
    pub token_id: TokenId,
    pub amount: Amount,
    pub unregister: bool,
}

/// What the exchange holds and who calls it.
pub struct DexState<P: Pool> {
    pub contract: ContractState<P>,
    pub caller_id: AccountId,
    pub initiator_id: AccountId,
    pub events: Seq<DexEvent<P>>,
}

/// An account with no token registered and no position.
pub open spec fn new_account_state() -> AccountState {
    AccountState { balances: Map::empty(), positions: Set::empty(), withdraw_in_progress: false }
}

/// The account `id` of `accounts`, or a new one when there is none.
pub open spec fn account_or_new(accounts: Map<AccountId, AccountState>, id: AccountId) -> AccountState {
    if accounts.contains_key(id) {
        accounts[id]
    } else {
        new_account_state()
    }
}

/// The balance of `token` in `account`, zero when the token is not registered.
pub open spec fn balance_or_zero(account: AccountState, token: TokenId) -> Amount {
    if account.balances.contains_key(token) {
        account.balances[token]
    } else {
        0
    }
}

/// The balance of `token` in `account`; fails with `TokenNotRegistered` when the account has
/// not registered the token.
pub open spec fn token_deposit(account: AccountState, token: &TokenId) -> Result<Amount> {
    if account.balances.contains_key(*token) {
        Ok(account.balances[*token])
    } else {
        Err(Error { kind: ErrorKind::TokenNotRegistered })
    }
}

/// A copy of `amount`.
fn copy_amount(amount: &Amount) -> (r: Amount)
    ensures
        r == *amount,
{
    *amount
}

/// What `get_deposit` answers for `account` and `token`.
pub open spec fn deposit_of<P: Pool>(c: ContractState<P>, account: AccountId, token: TokenId) -> Result<Amount> {
    if !c.accounts.contains_key(account) {
        Err(Error { kind: ErrorKind::AccountNotRegistered })
    } else if !c.accounts[account].balances.contains_key(token) {
        Err(Error { kind: ErrorKind::TokenNotRegistered })
    } else {
        Ok(c.accounts[account].balances[token])
    }
}

/// The failure every payable method answers with while the payable methods are suspended.
pub open spec fn suspended_error() -> Error {
    Error { kind: ErrorKind::PayableAPISuspended }
}

/// The failure every owner-only method answers with when the caller is not the owner.
pub open spec fn permission_error() -> Error {
    Error { kind: ErrorKind::PermissionDenied }
}

/// The decentralized exchange: the contract record, who calls it, and the events of the
/// operations that succeeded.
pub struct Dex<P: Pool> {
    contract: Contract<P>,
    caller_id: AccountId,
    initiator_id: AccountId,
    events: Vec<DexEvent<P>>,
}

impl<P: Pool> View for Dex<P> {
    type V = DexState<P>;

    closed spec fn view(&self) -> DexState<P> {
        DexState {
            contract: self.contract@,
            caller_id: self.caller_id,
            initiator_id: self.initiator_id,
            events: self.events@,
        }
    }
}

impl<P: Pool> Dex<P> {
    /// Internal consistency of the exchange.
    pub closed spec fn well_formed(&self) -> bool {
        self.contract.well_formed()
    }

    /// An exchange over `contract`, called by `caller_id` in a transaction signed by
    /// `initiator_id`, with no event yet.
    pub fn new(contract: Contract<P>, caller_id: AccountId, initiator_id: AccountId) -> (d: Dex<P>)
        requires
            contract.well_formed(),
        ensures
            d.well_formed(),
            d@ == (DexState { contract: contract@, caller_id, initiator_id, events: Seq::empty() }),
    {
        Dex { contract, caller_id, initiator_id, events: Vec::new() }
    }

    /// The contract record.
    pub fn contract(&self) -> (r: &Contract<P>)
        ensures
            r@ == self@.contract,
            self.well_formed() ==> r.well_formed(),
    {
        &self.contract
    }

    /// Account that calls the exchange.
    pub fn get_caller_id(&self) -> (r: AccountId)
        ensures
            r == self@.caller_id,
    {
        self.caller_id
    }

    /// Account that signed the transaction.
    pub fn get_initiator_id(&self) -> (r: AccountId)
        ensures
            r == self@.initiator_id,
    {
        self.initiator_id
    }

    /// Sets the calling account; returns the previous one.
    pub fn set_caller_id(&mut self, caller_id: AccountId) -> (r: AccountId)
        requires
            old(self).well_formed(),
        ensures
            final(self).well_formed(),
            r == old(self)@.caller_id,
            final(self)@ == (DexState { caller_id, ..old(self)@ }),
    {
        let previous = self.caller_id;
        self.caller_id = caller_id;
        previous
    }

    /// Sets the signing account; returns the previous one.
    pub fn set_initiator_id(&mut self, initiator_id: AccountId) -> (r: AccountId)
        requires
            old(self).well_formed(),
        ensures
            final(self).well_formed(),
            r == old(self)@.initiator_id,
            final(self)@ == (DexState { initiator_id, ..old(self)@ }),
    {
        let previous = self.initiator_id;
        self.initiator_id = initiator_id;
        previous
    }

    /// Makes `account_id` both the calling and the signing account; returns the previous
    /// signing and calling accounts.
    pub fn set_initiator_caller_ids(&mut self, account_id: AccountId) -> (r: (AccountId, AccountId))
        requires
            old(self).well_formed(),
        ensures
            final(self).well_formed(),
            r == (old(self)@.initiator_id, old(self)@.caller_id),
            final(self)@ == (DexState {
                caller_id: account_id,
                initiator_id: account_id,
                ..old(self)@
            }),
    {
        let old_caller = self.set_caller_id(account_id);
        let old_initiator = self.set_initiator_id(account_id);
        (old_initiator, old_caller)
    }

    /// The events of the operations that succeeded, oldest first.
    pub fn logs(&self) -> (r: &Vec<DexEvent<P>>)
        ensures
            r@ == self@.events,
    {
        &self.events
    }

    /// Balance of `token` in `account`.
    ///
    /// Fails with `AccountNotRegistered` when there is no such account, and with
    /// `TokenNotRegistered` when the account has not registered the token.
    pub fn get_deposit(&self, account: &AccountId, token: &TokenId) -> (r: Result<Amount>)
        requires
            self.well_formed(),
        ensures
            r == deposit_of(self@.contract, *account, *token),
    {
        let contract = self.contract.as_ref();
        let found = contract.accounts.try_inspect(
            account,
            |a: &Account| -> (r: Result<Amount>)
                requires
                    a.well_formed(),
                ensures
                    r == token_deposit(a@, token)
                {
                    match a {
                        Account::V0(acc) => acc.token_balances.try_inspect(token, copy_amount),
                    }
                },
        );
        match found {
            Ok(r) => r,
            Err(e) => Err(e),
        }
    }

    /// Version of the exchange core.
    pub fn get_version(&self) -> (r: VersionInfo)
        ensures
            r.version@ == DEX_CORE_VERSION@,
    {
        VersionInfo { version: DEX_CORE_VERSION.to_owned() }
    }

    /// Fee rate of fee level `fee_level`, in ticks: two to the power of the level.
    pub fn fee_rate_ticks(&self, fee_level: FeeLevel) -> (r: BasisPoints)
        requires
            fee_level < 16,
        ensures
            r == pow2(fee_level as nat),
    {
        fee_rate_ticks(fee_level)
    }

    /// Fee rates of all fee levels, in ticks, by level.
    pub fn fee_rates_ticks(&self) -> (r: [BasisPoints; 8])
        ensures
            forall|i: int| 0 <= i < 8 ==> r@[i] == pow2(i as nat),
    {
        fee_rates_ticks()
    }

    /// Part of the fee of a swap that goes to the exchange, in basis points.
    pub fn protocol_fee_fraction(&self) -> (r: BasisPoints)
        ensures
            r == self@.contract.protocol_fee_fraction,
    {
        self.contract.as_ref().protocol_fee_fraction
    }

    /// The tokens verified by the owner, in increasing order.
    pub fn get_verified_tokens(&self) -> (r: Vec<TokenId>)
        requires
            self.well_formed(),
        ensures
            r@.to_set() == self@.contract.verified_tokens,
            r@.len() == self@.contract.verified_tokens.len(),
            forall|i: int, j: int| 0 <= i < j < r@.len() ==> r@[i] < r@[j],
    {
        self.contract.as_ref().verified_tokens.to_vec()
    }

    /// Fails with `PayableAPISuspended` while the payable methods are suspended.
    fn ensure_payable_api_resumed(&self) -> (r: Result<()>)
        ensures
            self@.contract.suspended ==> r == Err::<(), Error>(suspended_error()),
            !self@.contract.suspended ==> r is Ok,
    {
        if self.contract.as_ref().suspended {
            Err(Error::new(ErrorKind::PayableAPISuspended))
        } else {
            Ok(())
        }
    }

    /// Fails with `PermissionDenied` unless the caller is the owner.
    fn ensure_caller_is_owner(&self) -> (r: Result<()>)
        ensures
            self@.caller_id != self@.contract.owner_id ==> r == Err::<(), Error>(permission_error()),
            self@.caller_id == self@.contract.owner_id ==> r is Ok,
    {
        if *self.contract.as_ref().owner_id == self.caller_id {
            Ok(())
        } else {
            Err(Error::new(ErrorKind::PermissionDenied))
        }
    }

    /// Fails with `GuardChangeStateDenied` unless the payable methods are suspended.
    fn ensure_suspended(&self) -> (r: Result<()>)
        ensures
            !self@.contract.suspended ==> r == Err::<(), Error>(
                Error { kind: ErrorKind::GuardChangeStateDenied },
            ),
            self@.contract.suspended ==> r is Ok,
    {
        if self.contract.as_ref().suspended {
            Ok(())
        } else {
            Err(Error::new(ErrorKind::GuardChangeStateDenied))
        }
    }

    /// Fails with `GuardChangeStateDenied` while the payable methods are suspended.
    fn ensure_resumed(&self) -> (r: Result<()>)
        ensures
            self@.contract.suspended ==> r == Err::<(), Error>(
                Error { kind: ErrorKind::GuardChangeStateDenied },
            ),
            !self@.contract.suspended ==> r is Ok,
    {
        if self.contract.as_ref().suspended {
            Err(Error::new(ErrorKind::GuardChangeStateDenied))
        } else {
            Ok(())
        }
    }

    /// Fails with `PermissionDenied` unless the caller is the owner or a guard.
    fn ensure_caller_is_guard(&self) -> (r: Result<()>)
        requires
            self.well_formed(),
        ensures
            is_guard(self@.contract, self@.caller_id) ==> r is Ok,
            !is_guard(self@.contract, self@.caller_id) ==> r == Err::<(), Error>(
                permission_error(),
            ),
    {
        let caller = self.caller_id;
        let contract = self.contract.as_ref();
        if *contract.owner_id == caller || contract.guards.contains_item(&caller) {
            Ok(())
        } else {
            Err(Error::new(ErrorKind::PermissionDenied))
        }
    }

    /// Takes account `id` out of the contract; returns it, or a new account when there is
    /// none, with whether it was there.
    fn take_account(&mut self, id: &AccountId) -> (r: (AccountV0, bool))
        requires
            old(self).well_formed(),
        ensures
            final(self).well_formed(),
            final(self)@ == with_contract(
                old(self)@,
                ContractState {
                    accounts: old(self)@.contract.accounts.remove(*id),
                    ..old(self)@.contract
                },
            ),
            r.0.well_formed(),
            r.0@ == account_or_new(old(self)@.contract.accounts, *id),
            r.1 == old(self)@.contract.accounts.contains_key(*id),
    {
        proof {
            lemma_upgrade_keeps_state(self.contract);
        }
        let contract = self.contract.latest();
        let ghost before = contract.accounts@;
        let taken = contract.accounts.remove(id);
        proof {
            lemma_accounts_state_remove(before, *id);
        }
        match taken {
            Some(Account::V0(a)) => (a, true),
            None => (AccountV0::new(), false),
        }
    }

    /// Stores `account` as account `id`.
    fn put_account(&mut self, id: AccountId, account: Account)
        requires
            old(self).well_formed(),
            account.well_formed(),
        ensures
            final(self).well_formed(),
            final(self)@ == with_account(old(self)@, id, account@),
    {
        proof {
            lemma_upgrade_keeps_state(self.contract);
        }
        let contract = self.contract.latest();
        let ghost before = contract.accounts@;
        proof {
            lemma_accounts_state_insert(before, id, account);
        }
        contract.accounts.insert(id, account);
    }

    /// Whether account `id` is registered.
    fn has_account(&self, id: &AccountId) -> (r: bool)
        requires
            self.well_formed(),
        ensures
            r == self@.contract.accounts.contains_key(*id),
    {
        self.contract.as_ref().accounts.contains_key(id)
    }

    /// Balance of `token` in account `id`; zero when either is not registered.
    fn balance_or_zero(&self, id: &AccountId, token: &TokenId) -> (r: Amount)
        requires
            self.well_formed(),
        ensures
            r == balance_or_zero(account_or_new(self@.contract.accounts, *id), *token),
    {
        match self.contract.as_ref().accounts.get(id) {
            Some(Account::V0(a)) => match a.token_balances.get(token) {
                Some(b) => *b,
                None => 0,
            },
            None => 0,
        }
    }

    /// Sets the protocol fee fraction.
    ///
    /// Only the owner may call it, while the payable methods run; fails with `IllegalFee` when
    /// the fraction is not allowed.
    pub fn set_protocol_fee_fraction(&mut self, protocol_fee_fraction: BasisPoints) -> (r: Result<
        (),
    >)
        requires
            old(self).well_formed(),
        ensures
            final(self).well_formed(),
            (r, final(self)@) == fee_fraction_outcome(old(self)@, protocol_fee_fraction),
    {
        if let Err(e) = self.ensure_payable_api_resumed() {
            return Err(e);
        }
        if let Err(e) = self.ensure_caller_is_owner() {
            return Err(e);
        }
        let fraction = match validate_protocol_fee_fraction(protocol_fee_fraction) {
            Ok(fraction) => fraction,
            Err(kind) => return Err(Error::new(kind)),
        };
        proof {
            lemma_upgrade_keeps_state(self.contract);
        }
        let contract = self.contract.latest();
        contract.protocol_fee_fraction = fraction;
        Ok(())
    }

    /// Suspends the payable methods.
    ///
    /// Only the owner or a guard may call it (else `PermissionDenied`), and only while the
    /// payable methods run (else `GuardChangeStateDenied`).
    pub fn suspend_payable_api(&mut self) -> (r: Result<()>)
        requires
            old(self).well_formed(),
        ensures
            final(self).well_formed(),
            guard_call_refusal(old(self)@, true) matches Some(e) ==> r == Err::<(), Error>(e)
                && final(self)@ == old(self)@,
            guard_call_refusal(old(self)@, true) is None ==> r is Ok && final(self)@
                == after_set_suspended(old(self)@, true),
    {
        if let Err(e) = self.ensure_caller_is_guard() {
            return Err(e);
        }
        if let Err(e) = self.ensure_resumed() {
            return Err(e);
        }
        proof {
            lemma_upgrade_keeps_state(self.contract);
        }
        let contract = self.contract.latest();
        contract.suspended = true;
        let caller_id = self.caller_id;
        self.events.push(Event::SuspendPayableAPI { account: caller_id });
        Ok(())
    }

    /// Resumes the payable methods.
    ///
    /// Only the owner or a guard may call it (else `PermissionDenied`), and only while the
    /// payable methods are suspended (else `GuardChangeStateDenied`).
    pub fn resume_payable_api(&mut self) -> (r: Result<()>)
        requires
            old(self).well_formed(),
        ensures
            final(self).well_formed(),
            guard_call_refusal(old(self)@, false) matches Some(e) ==> r == Err::<(), Error>(e)
                && final(self)@ == old(self)@,
            guard_call_refusal(old(self)@, false) is None ==> r is Ok && final(self)@
                == after_set_suspended(old(self)@, false),
    {
        if let Err(e) = self.ensure_caller_is_guard() {
            return Err(e);
        }
        if let Err(e) = self.ensure_suspended() {
            return Err(e);
        }
        proof {
            lemma_upgrade_keeps_state(self.contract);
        }
        let contract = self.contract.latest();
        contract.suspended = false;
        let caller_id = self.caller_id;
        self.events.push(Event::ResumePayableAPI { account: caller_id });
        Ok(())
    }

    /// Adds `tokens` to the verified tokens, and logs those that were not verified yet.
    ///
    /// Only the owner may call it, while the payable methods run.
    pub fn add_verified_tokens(&mut self, tokens: &[TokenId]) -> (r: Result<()>)
        requires
            old(self).well_formed(),
        ensures
            final(self).well_formed(),
            owner_call_refusal(old(self)@) matches Some(e) ==> r == Err::<(), Error>(e) && final(self)@ == old(self)@,
            owner_call_refusal(old(self)@) is None ==> {
                &&& r is Ok
                &&& changed_and_logged(
                    old(self)@,
                    final(self)@,
                    ContractState {
                        verified_tokens: old(self)@.contract.verified_tokens.union(tokens@.to_set()),
                        ..old(self)@.contract
                    },
                )
                &&& final(self)@.events.last() matches Event::AddVerifiedTokens { tokens: added }
                    && added@ == items_added(old(self)@.contract.verified_tokens, tokens@)
            },
    {
        if let Err(e) = self.ensure_payable_api_resumed() {
            return Err(e);
        }
        if let Err(e) = self.ensure_caller_is_owner() {
            return Err(e);
        }
        proof {
            lemma_upgrade_keeps_state(self.contract);
        }
        let contract = self.contract.latest();
        let new_tokens = contract.verified_tokens.add_items(tokens);
        self.events.push(Event::AddVerifiedTokens { tokens: new_tokens });
        Ok(())
    }

    /// Removes `tokens` from the verified tokens, and logs those that were verified.
    ///
    /// Only the owner may call it, while the payable methods run.
    pub fn remove_verified_tokens(&mut self, tokens: &[TokenId]) -> (r: Result<()>)
        requires
            old(self).well_formed(),
        ensures
            final(self).well_formed(),
            owner_call_refusal(old(self)@) matches Some(e) ==> r == Err::<(), Error>(e) && final(self)@ == old(self)@,
            owner_call_refusal(old(self)@) is None ==> {
                &&& r is Ok
                &&& changed_and_logged(
                    old(self)@,
                    final(self)@,
                    ContractState {
                        verified_tokens: old(self)@.contract.verified_tokens.difference(
                            tokens@.to_set(),
                        ),
                        ..old(self)@.contract
                    },
                )
                &&& final(self)@.events.last() matches Event::RemoveVerifiedTokens {
                    tokens: removed,
                } && removed@ == items_removed(old(self)@.contract.verified_tokens, tokens@)
            },
    {
        if let Err(e) = self.ensure_payable_api_resumed() {
            return Err(e);
        }
        if let Err(e) = self.ensure_caller_is_owner() {
            return Err(e);
        }
        proof {
            lemma_upgrade_keeps_state(self.contract);
        }
        let contract = self.contract.latest();
        let removed_tokens = contract.verified_tokens.remove_items(tokens);
        self.events.push(Event::RemoveVerifiedTokens { tokens: removed_tokens });
        Ok(())
    }

    /// Adds `guard_accounts` to the guards, and logs those that were not guards yet.
    ///
    /// Only the owner may call it, while the payable methods run.
    pub fn add_guard_accounts(&mut self, guard_accounts: &[AccountId]) -> (r: Result<()>)
        requires
            old(self).well_formed(),
        ensures
            final(self).well_formed(),
            owner_call_refusal(old(self)@) matches Some(e) ==> r == Err::<(), Error>(e) && final(self)@ == old(self)@,
            owner_call_refusal(old(self)@) is None ==> {
                &&& r is Ok
                &&& changed_and_logged(
                    old(self)@,
                    final(self)@,
                    ContractState {
                        guards: old(self)@.contract.guards.union(guard_accounts@.to_set()),
                        ..old(self)@.contract
                    },
                )
                &&& final(self)@.events.last() matches Event::AddGuardAccounts { accounts: added }
                    && added@ == items_added(old(self)@.contract.guards, guard_accounts@)
            },
    {
        if let Err(e) = self.ensure_payable_api_resumed() {
            return Err(e);
        }
        if let Err(e) = self.ensure_caller_is_owner() {
            return Err(e);
        }
        proof {
            lemma_upgrade_keeps_state(self.contract);
        }
        let contract = self.contract.latest();
        let new_guards = contract.guards.add_items(guard_accounts);
        self.events.push(Event::AddGuardAccounts { accounts: new_guards });
        Ok(())
    }

    /// Removes `guard_accounts` from the guards, and logs those that were guards.
    ///
    /// Only the owner may call it, while the payable methods run.
    pub fn remove_guard_accounts(&mut self, guard_accounts: &[AccountId]) -> (r: Result<()>)
        requires
            old(self).well_formed(),
        ensures
            final(self).well_formed(),
            owner_call_refusal(old(self)@) matches Some(e) ==> r == Err::<(), Error>(e) && final(self)@ == old(self)@,
            owner_call_refusal(old(self)@) is None ==> {
                &&& r is Ok
                &&& changed_and_logged(
                    old(self)@,
                    final(self)@,
                    ContractState {
                        guards: old(self)@.contract.guards.difference(guard_accounts@.to_set()),
                        ..old(self)@.contract
                    },
                )
                &&& final(self)@.events.last() matches Event::RemoveGuardAccounts {
                    accounts: removed,
                } && removed@ == items_removed(old(self)@.contract.guards, guard_accounts@)
            },
    {
        if let Err(e) = self.ensure_payable_api_resumed() {
            return Err(e);
        }
        if let Err(e) = self.ensure_caller_is_owner() {
            return Err(e);
        }
        proof {
            lemma_upgrade_keeps_state(self.contract);
        }
        let contract = self.contract.latest();
        let removed_guards = contract.guards.remove_items(guard_accounts);
        self.events.push(Event::RemoveGuardAccounts { accounts: removed_guards });
        Ok(())
    }

    /// Registers the caller's account, unless it is registered already.
    ///
    /// Fails, changing nothing, with `PayableAPISuspended` while the payable methods are
    /// suspended.
    pub fn register_account(&mut self) -> (r: Result<()>)
        requires
            old(self).well_formed(),
        ensures
            final(self).well_formed(),
            old(self)@.contract.suspended ==> r == Err::<(), Error>(suspended_error()) && final(self)@
                == old(self)@,
            !old(self)@.contract.suspended ==> r is Ok && final(self)@ == with_account(
                old(self)@,
                old(self)@.caller_id,
                account_or_new(old(self)@.contract.accounts, old(self)@.caller_id),
            ),
    {
        self.register_account_and_then(
            None,
            |_id: &AccountId, account: &mut Account, _exists: bool| -> (r: Result<()>)
                ensures
                    r is Ok && *final(account) == *old(account)
                { Ok(()) },
        )
    }

    /// Registers account `account_id`, or the caller's account when it is `None`, unless it
    /// is registered already, and passes it to `register_cb` with whether it was registered.
    /// The account, with the changes `register_cb` made to it, is stored when `register_cb`
    /// succeeds; otherwise nothing changes and its failure is returned.
    ///
    /// Fails, changing nothing, with `PayableAPISuspended` while the payable methods are
    /// suspended.
    pub fn register_account_and_then<R, F>(&mut self, account_id: Option<AccountId>, register_cb: F) -> (r:
        Result<R>) where F: FnOnce(&AccountId, &mut Account, bool) -> Result<R>
        requires
            old(self).well_formed(),
            forall|id: &AccountId, a: &mut Account, found: bool| #[trigger]
                call_requires(register_cb, (id, a, found)),
            forall|id: &AccountId, a: &mut Account, found: bool, res: Result<R>|
                #[trigger] call_ensures(register_cb, (id, a, found), res) && (*a).well_formed()
                    ==> (*final(a)).well_formed(),
        ensures
            final(self).well_formed(),
            old(self)@.contract.suspended ==> r == Err::<R, Error>(suspended_error()) && final(self)@
                == old(self)@,
            !old(self)@.contract.suspended ==> exists|a: &mut Account|
                #![trigger call_ensures(
                    register_cb,
                    (&target_account(old(self)@, account_id), a, old(self)@.contract.accounts.contains_key(target_account(old(self)@, account_id))),
                    r,
                )]
                {
                    &&& (*a)@ == account_or_new(old(self)@.contract.accounts, target_account(old(self)@, account_id))
                    &&& call_ensures(
                        register_cb,
                        (&target_account(old(self)@, account_id), a, old(self)@.contract.accounts.contains_key(target_account(old(self)@, account_id))),
                        r,
                    )
                    &&& r is Ok ==> final(self)@ == with_account(old(self)@, target_account(old(self)@, account_id), (*final(a))@)
                    &&& r is Err ==> final(self)@ == old(self)@
                },
    {
        if let Err(e) = self.ensure_payable_api_resumed() {
            return Err(e);
        }
        let id = match account_id {
            Some(id) => id,
            None => self.caller_id,
        };
        let ghost s = self@;
        let (account, present) = self.take_account(&id);
        let backup = account.copied();
        let mut account = Account::V0(account);
        let ghost initial = account;
        let result = register_cb(&id, &mut account, present);
        let ghost w = choose|a: &mut Account|
            *a == initial && *final(a) == account && call_ensures(register_cb, (&id, a, present), result);
        assert((*w)@ == account_or_new(s.contract.accounts, id));
        assert(call_ensures(register_cb, (&id, w, present), result));
        match result {
            Ok(_) => {
                let ghost stored = account;
                self.put_account(id, account);
                proof {
                    assert(self@.contract.accounts =~= s.contract.accounts.insert(id, stored@));
                }
            },
            Err(_) => {
                if present {
                    self.put_account(id, Account::V0(backup));
                    proof {
                        assert(self@.contract.accounts =~= s.contract.accounts);
                    }
                } else {
                    proof {
                        assert(self@.contract.accounts =~= s.contract.accounts);
                    }
                }
            },
        }
        assert(result is Ok ==> self@ == with_account(s, id, (*final(w))@));
        assert(result is Err ==> self@ == s);
        assert(exists|a: &mut Account|
            #![trigger call_ensures(register_cb, (&id, a, present), result)]
            {
                &&& (*a)@ == account_or_new(s.contract.accounts, id)
                &&& call_ensures(register_cb, (&id, a, present), result)
                &&& result is Ok ==> self@ == with_account(s, id, (*final(a))@)
                &&& result is Err ==> self@ == s
            });
        assert(id == target_account(old(self)@, account_id));
        assert(s == old(self)@);
        assert(present == old(self)@.contract.accounts.contains_key(target_account(old(self)@, account_id)));
        result
    }

    /// Unregisters the caller's account; see `unregister_account_with_cb`.
    pub fn unregister_account(&mut self) -> (r: Result<Option<()>>)
        requires
            old(self).well_formed(),
        ensures
            final(self).well_formed(),
            ({
                let s = old(self)@;
                let id = s.caller_id;
                let account = s.contract.accounts[id];
                &&& s.contract.suspended ==> r == Err::<Option<()>, Error>(suspended_error())
                    && final(self)@ == s
                &&& !s.contract.suspended && !s.contract.accounts.contains_key(id) ==> r == Ok::<
                    Option<()>,
                    Error,
                >(None) && final(self)@ == s
                &&& !s.contract.suspended && s.contract.accounts.contains_key(id) ==> (
                account_unregister_refusal(account) matches Some(e) ==> r == Err::<Option<()>, Error>(
                    e,
                ) && final(self)@ == s)
                &&& !s.contract.suspended && s.contract.accounts.contains_key(id)
                    && account_unregister_refusal(account) is None ==> r == Ok::<Option<()>, Error>(
                    Some(()),
                ) && final(self)@ == with_contract(
                    s,
                    ContractState { accounts: s.contract.accounts.remove(id), ..s.contract },
                )
            }),
    {
        let r = self.unregister_account_with_cb(
            None,
            |_id: &AccountId, _account: &Account| -> (r: Result<()>)
                ensures
                    r is Ok
                { Ok(()) },
        );
        r
    }

    /// Unregisters account `account_id`, or the caller's account when it is `None`.
    ///
    /// Answers `None` when there is no such account. The account must hold no token, even
    /// with a zero balance (else `TokensStorageNotEmpty`), and no position (else
    /// `UserHasPositions`); `unregister_cb` then makes the last check, and the account is
    /// removed only when it succeeds, with its result returned.
    ///
    /// Fails, changing nothing, with `PayableAPISuspended` while the payable methods are
    /// suspended.
    pub fn unregister_account_with_cb<R, F>(&mut self, account_id: Option<AccountId>, unregister_cb: F) -> (r:
        Result<Option<R>>) where F: FnOnce(&AccountId, &Account) -> Result<R>
        requires
            old(self).well_formed(),
            forall|id: &AccountId, a: &Account| #[trigger] call_requires(unregister_cb, (id, a)),
        ensures
            final(self).well_formed(),
            ({
                let s = old(self)@;
                let id = target_account(s, account_id);
                let account = s.contract.accounts[id];
                &&& s.contract.suspended ==> r == Err::<Option<R>, Error>(suspended_error())
                    && final(self)@ == s
                &&& !s.contract.suspended && !s.contract.accounts.contains_key(id) ==> r == Ok::<
                    Option<R>,
                    Error,
                >(None) && final(self)@ == s
                &&& !s.contract.suspended && s.contract.accounts.contains_key(id) ==> (
                account_unregister_refusal(account) matches Some(e) ==> r == Err::<Option<R>, Error>(
                    e,
                ) && final(self)@ == s)
                &&& !s.contract.suspended && s.contract.accounts.contains_key(id)
                    && account_unregister_refusal(account) is None ==> exists|a: &Account|
                    #![trigger call_ensures(unregister_cb, (&id, a), map_ok_none(r))]
                    {
                        &&& a@ == account
                        &&& call_ensures(unregister_cb, (&id, a), map_ok_none(r))
                        &&& r is Ok ==> r->Ok_0 is Some && final(self)@ == with_contract(
                            s,
                            ContractState { accounts: s.contract.accounts.remove(id), ..s.contract },
                        )
                        &&& r is Err ==> final(self)@ == s
                    }
            }),
    {
        if let Err(e) = self.ensure_payable_api_resumed() {
            return Err(e);
        }
        let id = match account_id {
            Some(id) => id,
            None => self.caller_id,
        };
        let ghost s = self@;
        proof {
            lemma_upgrade_keeps_state(self.contract);
        }
        let contract = self.contract.latest();
        let account = match contract.accounts.get(&id) {
            None => return Ok(None),
            Some(account) => account,
        };
        let Account::V0(acc) = account;
        if !acc.token_balances.is_empty() {
            return Err(Error::new(ErrorKind::TokensStorageNotEmpty));
        }
        if !acc.positions.is_empty() {
            return Err(Error::new(ErrorKind::UserHasPositions));
        }
        if acc.withdraw_tracker.is_any_withdraw_in_progress() {
            return Err(Error::new(ErrorKind::WithdrawInProgress));
        }
        let result = unregister_cb(&id, account);
        proof {
            assert(call_ensures(unregister_cb, (&id, account), result));
            assert(account@ == s.contract.accounts[id]);
            assert(id == target_account(old(self)@, account_id));
            assert(s == old(self)@);
        }
        match result {
            Ok(x) => {
                let ghost before = contract.accounts@;
                let _ = contract.accounts.remove(&id);
                proof {
                    lemma_accounts_state_remove(before, id);
                    assert(map_ok_none(Ok::<Option<R>, Error>(Some(x))) == result);
                }
                Ok(Some(x))
            },
            Err(e) => {
                assert(map_ok_none(Err::<Option<R>, Error>(e)) == result);
                Err(e)
            },
        }
    }

    /// Registers the tokens of `tokens` that account `account_id` has not registered yet,
    /// each with a zero balance.
    ///
    /// Fails, changing nothing, with `PayableAPISuspended` while the payable methods are
    /// suspended and with `AccountNotRegistered` when there is no such account.
    pub fn register_tokens(&mut self, account_id: &AccountId, tokens: &[TokenId]) -> (r: Result<
        (),
    >)
        requires
            old(self).well_formed(),
        ensures
            final(self).well_formed(),
            old(self)@.contract.suspended ==> r == Err::<(), Error>(suspended_error()) && final(self)@ == old(self)@,
            !old(self)@.contract.suspended && !old(self)@.contract.accounts.contains_key(
                *account_id,
            ) ==> r == Err::<(), Error>(Error { kind: ErrorKind::AccountNotRegistered })
                && final(self)@ == old(self)@,
            !old(self)@.contract.suspended && old(self)@.contract.accounts.contains_key(*account_id)
                ==> r is Ok && final(self)@ == with_balances(
                old(self)@,
                *account_id,
                with_registered(old(self)@.contract.accounts[*account_id].balances, tokens@),
            ),
    {
        if let Err(e) = self.ensure_payable_api_resumed() {
            return Err(e);
        }
        if !self.has_account(account_id) {
            return Err(Error::new(ErrorKind::AccountNotRegistered));
        }
        let (mut account, _) = self.take_account(account_id);
        account.register_tokens(tokens);
        self.put_account(*account_id, Account::V0(account));
        proof {
            assert(self@.contract.accounts =~= with_balances(
                old(self)@,
                *account_id,
                with_registered(old(self)@.contract.accounts[*account_id].balances, tokens@),
            ).contract.accounts);
        }
        Ok(())
    }

    /// Unregisters the tokens of `tokens` from account `account_id`.
    ///
    /// Fails, changing nothing, with `PayableAPISuspended` while the payable methods are
    /// suspended, with `AccountNotRegistered` when there is no such account, and with
    /// `NonZeroTokenBalance` when one of the tokens still has a nonzero balance.
    pub fn unregister_tokens(&mut self, account_id: &AccountId, tokens: &[TokenId]) -> (r: Result<
        (),
    >)
        requires
            old(self).well_formed(),
        ensures
            final(self).well_formed(),
            old(self)@.contract.suspended ==> r == Err::<(), Error>(suspended_error()) && final(self)@ == old(self)@,
            !old(self)@.contract.suspended && !old(self)@.contract.accounts.contains_key(
                *account_id,
            ) ==> r == Err::<(), Error>(Error { kind: ErrorKind::AccountNotRegistered })
                && final(self)@ == old(self)@,
            !old(self)@.contract.suspended && old(self)@.contract.accounts.contains_key(*account_id)
                && has_nonzero_balance(old(self)@.contract.accounts[*account_id].balances, tokens@)
                ==> r == Err::<(), Error>(Error { kind: ErrorKind::NonZeroTokenBalance })
                && final(self)@ == old(self)@,
            !old(self)@.contract.suspended && old(self)@.contract.accounts.contains_key(*account_id)
                && !has_nonzero_balance(old(self)@.contract.accounts[*account_id].balances, tokens@)
                ==> r is Ok && final(self)@ == with_balances(
                old(self)@,
                *account_id,
                old(self)@.contract.accounts[*account_id].balances.remove_keys(tokens@.to_set()),
            ),
    {
        if let Err(e) = self.ensure_payable_api_resumed() {
            return Err(e);
        }
        if !self.has_account(account_id) {
            return Err(Error::new(ErrorKind::AccountNotRegistered));
        }
        let (mut account, _) = self.take_account(account_id);
        let r = account.unregister_tokens(tokens);
        self.put_account(*account_id, Account::V0(account));
        proof {
            let before = old(self)@.contract.accounts;
            if r is Err {
                assert(self@.contract.accounts =~= before);
            } else {
                assert(self@.contract.accounts =~= with_balances(
                    old(self)@,
                    *account_id,
                    before[*account_id].balances.remove_keys(tokens@.to_set()),
                ).contract.accounts);
            }
        }
        r
    }

    /// Deposits `amount` of `token_id` to account `account_id`, registering the account and
    /// the token first where needed; returns the new balance and logs the deposit.
    ///
    /// Fails, changing nothing, with `PayableAPISuspended` while the payable methods are
    /// suspended, and with `DepositWouldOverflow` when the new balance would not fit.
    pub fn deposit(&mut self, account_id: &AccountId, token_id: &TokenId, amount: Amount) -> (r:
        Result<Amount>)
        requires
            old(self).well_formed(),
        ensures
            final(self).well_formed(),
            old(self)@.contract.suspended ==> r == Err::<Amount, Error>(suspended_error())
                && final(self)@ == old(self)@,
            !old(self)@.contract.suspended && deposit_balance(old(self)@, *account_id, *token_id, amount)
                > u128::MAX ==> r == Err::<Amount, Error>(
                Error { kind: ErrorKind::DepositWouldOverflow },
            ) && final(self)@ == old(self)@,
            !old(self)@.contract.suspended && deposit_balance(old(self)@, *account_id, *token_id, amount)
                <= u128::MAX ==> r == Ok::<Amount, Error>(
                deposit_balance(old(self)@, *account_id, *token_id, amount) as Amount,
            ) && final(self)@ == after_deposit(old(self)@, *account_id, *token_id, amount),
    {
        if let Err(e) = self.ensure_payable_api_resumed() {
            return Err(e);
        }
        let balance = self.balance_or_zero(account_id, token_id);
        if balance.checked_add(amount).is_none() {
            return Err(Error::new(ErrorKind::DepositWouldOverflow));
        }
        let (mut account, _) = self.take_account(account_id);
        account.register_token(token_id);
        proof {
            let single = seq![*token_id];
            assert forall|t: TokenId| #[trigger] single.contains(t) <==> t == *token_id by {
                if t == *token_id {
                    assert(single[0] == t);
                }
            }
        }
        let new_balance = match account.deposit(token_id, amount) {
            Ok(new_balance) => new_balance,
            Err(e) => {
                self.put_account(*account_id, Account::V0(account));
                return Err(e);
            },
        };
        proof {
            let acc = account_or_new(old(self)@.contract.accounts, *account_id);
            assert(account@.balances =~= acc.balances.insert(*token_id, new_balance));
        }
        self.put_account(*account_id, Account::V0(account));
        self.events.push(
            Event::Deposit { user: *account_id, token: *token_id, amount, balance: new_balance },
        );
        proof {
            let acc = account_or_new(old(self)@.contract.accounts, *account_id);
            assert(self@.contract.accounts =~= with_balances(
                old(self)@,
                *account_id,
                acc.balances.insert(*token_id, new_balance),
            ).contract.accounts);
        }
        Ok(new_balance)
    }

    /// Withdraws `amount` of `token_id` from account `account_id`, or its whole balance when
    /// `amount` is zero; logs the withdrawal and returns the transfer the platform is to
    /// perform.
    ///
    /// With a zero `amount`, answers `None` when the token is not registered or its balance
    /// is zero, unregistering it in the latter case when `unregister` holds.
    ///
    /// Fails, changing nothing, with `PayableAPISuspended` while the payable methods are
    /// suspended, with `AccountNotRegistered` when there is no such account, with
    /// `TokenNotRegistered` when the account has not registered the token, and with
    /// `NotEnoughTokens` when the balance is below `amount`.
    pub fn withdraw(
        &mut self,
        account_id: &AccountId,
        token_id: &TokenId,
        amount: Amount,
        unregister: bool,
    ) -> (r: Result<Option<SendTokens>>)
        requires
            old(self).well_formed(),
        ensures
            final(self).well_formed(),
            old(self)@.contract.suspended ==> r == Err::<Option<SendTokens>, Error>(
                suspended_error(),
            ) && final(self)@ == old(self)@,
            !old(self)@.contract.suspended && !old(self)@.contract.accounts.contains_key(
                *account_id,
            ) ==> r == Err::<Option<SendTokens>, Error>(
                Error { kind: ErrorKind::AccountNotRegistered },
            ) && final(self)@ == old(self)@,
            ({
                let s = old(self)@;
                let account = s.contract.accounts[*account_id];
                let registered = account.balances.contains_key(*token_id);
                let balance = balance_or_zero(account, *token_id);
                let taken = withdraw_amount(account, *token_id, amount);
                let open = !s.contract.suspended && s.contract.accounts.contains_key(*account_id);
                &&& open && amount == 0 && !registered ==> r == Ok::<Option<SendTokens>, Error>(
                    None,
                ) && final(self)@ == s
                &&& open && amount == 0 && registered && balance == 0 && !unregister ==> r == Ok::<
                    Option<SendTokens>,
                    Error,
                >(None) && final(self)@ == s
                &&& open && amount == 0 && registered && balance == 0 && unregister ==> r == Ok::<
                    Option<SendTokens>,
                    Error,
                >(None) && final(self)@ == with_balances(
                    s,
                    *account_id,
                    account.balances.remove(*token_id),
                )
                &&& open && amount != 0 && !registered ==> r == Err::<Option<SendTokens>, Error>(
                    Error { kind: ErrorKind::TokenNotRegistered },
                ) && final(self)@ == s
                &&& open && amount != 0 && registered && balance < amount ==> r == Err::<
                    Option<SendTokens>,
                    Error,
                >(Error { kind: ErrorKind::NotEnoughTokens }) && final(self)@ == s
                &&& open && registered && balance >= taken && taken != 0 ==> r == Ok::<
                    Option<SendTokens>,
                    Error,
                >(
                    Some(
                        SendTokens {
                            account_id: *account_id,
                            token_id: *token_id,
                            amount: taken,
                            unregister,
                        },
                    ),
                ) && final(self)@ == after_withdraw(s, *account_id, *token_id, taken)
            }),
    {
        if let Err(e) = self.ensure_payable_api_resumed() {
            return Err(e);
        }
        if !self.has_account(account_id) {
            return Err(Error::new(ErrorKind::AccountNotRegistered));
        }
        let ghost s = self@;
        let (mut account, _) = self.take_account(account_id);
        let amount = if amount == 0 {
            match account.token_balances.get(token_id) {
                None => {
                    self.put_account(*account_id, Account::V0(account));
                    proof {
                        assert(self@.contract.accounts =~= s.contract.accounts);
                    }
                    return Ok(None);
                },
                Some(balance) => {
                    if *balance == 0 {
                        if unregister {
                            let _ = account.token_balances.remove(token_id);
                        }
                        self.put_account(*account_id, Account::V0(account));
                        proof {
                            let before = s.contract.accounts[*account_id];
                            if unregister {
                                assert(self@.contract.accounts =~= with_balances(
                                    s,
                                    *account_id,
                                    before.balances.remove(*token_id),
                                ).contract.accounts);
                            } else {
                                assert(self@.contract.accounts =~= s.contract.accounts);
                            }
                        }
                        return Ok(None);
                    }
                    *balance
                },
            }
        } else {
            amount
        };
        let new_balance = match account.withdraw(token_id, amount) {
            Ok(new_balance) => new_balance,
            Err(e) => {
                self.put_account(*account_id, Account::V0(account));
                proof {
                    assert(self@.contract.accounts =~= s.contract.accounts);
                }
                return Err(e);
            },
        };
        self.put_account(*account_id, Account::V0(account));
        self.events.push(
            Event::Withdraw { user: *account_id, token: *token_id, amount, balance: new_balance },
        );
        proof {
            let before = s.contract.accounts[*account_id];
            assert(self@.contract.accounts =~= with_balances(
                s,
                *account_id,
                before.balances.insert(*token_id, new_balance),
            ).contract.accounts);
        }
        Ok(Some(SendTokens { account_id: *account_id, token_id: *token_id, amount, unregister }))
    }

    /// Withdraws `amount` of `token_id` from the owner's account; returns the transfer to the
    /// owner the platform is to perform.
    ///
    /// Only the owner may call it, while the payable methods run. Fails, changing nothing,
    /// with `IllegalWithdrawAmount` when `amount` is zero, with `AccountNotRegistered` when
    /// the owner has no account, with `TokenNotRegistered` when the owner has not registered
    /// the token, and with `NotEnoughTokens` when the balance is below `amount`.
    pub fn owner_withdraw(&mut self, token_id: &TokenId, amount: Amount) -> (r: Result<SendTokens>)
        requires
            old(self).well_formed(),
        ensures
            final(self).well_formed(),
            owner_call_refusal(old(self)@) matches Some(e) ==> r == Err::<SendTokens, Error>(e)
                && final(self)@ == old(self)@,
            ({
                let s = old(self)@;
                let owner = s.contract.owner_id;
                let account = s.contract.accounts[owner];
                let balance = balance_or_zero(account, *token_id);
                let open = owner_call_refusal(s) is None;
                &&& open && amount == 0 ==> r == Err::<SendTokens, Error>(
                    Error { kind: ErrorKind::IllegalWithdrawAmount },
                ) && final(self)@ == s
                &&& open && amount != 0 && !s.contract.accounts.contains_key(owner) ==> r == Err::<
                    SendTokens,
                    Error,
                >(Error { kind: ErrorKind::AccountNotRegistered }) && final(self)@ == s
                &&& open && amount != 0 && s.contract.accounts.contains_key(owner)
                    && !account.balances.contains_key(*token_id) ==> r == Err::<SendTokens, Error>(
                    Error { kind: ErrorKind::TokenNotRegistered },
                ) && final(self)@ == s
                &&& open && amount != 0 && s.contract.accounts.contains_key(owner)
                    && account.balances.contains_key(*token_id) && balance < amount ==> r == Err::<
                    SendTokens,
                    Error,
                >(Error { kind: ErrorKind::NotEnoughTokens }) && final(self)@ == s
                &&& open && amount != 0 && s.contract.accounts.contains_key(owner)
                    && account.balances.contains_key(*token_id) && balance >= amount ==> r == Ok::<
                    SendTokens,
                    Error,
                >(SendTokens { account_id: owner, token_id: *token_id, amount, unregister: false })
                    && final(self)@ == with_balances(
                    s,
                    owner,
                    account.balances.insert(*token_id, (balance - amount) as Amount),
                )
            }),
    {
        if let Err(e) = self.ensure_payable_api_resumed() {
            return Err(e);
        }
        if let Err(e) = self.ensure_caller_is_owner() {
            return Err(e);
        }
        if amount == 0 {
            return Err(Error::new(ErrorKind::IllegalWithdrawAmount));
        }
        let owner_id = *self.contract.as_ref().owner_id;
        if !self.has_account(&owner_id) {
            return Err(Error::new(ErrorKind::AccountNotRegistered));
        }
        let ghost s = self@;
        let (mut account, _) = self.take_account(&owner_id);
        let r = account.withdraw(token_id, amount);
        self.put_account(owner_id, Account::V0(account));
        match r {
            Ok(new_balance) => {
                proof {
                    let before = s.contract.accounts[owner_id];
                    assert(self@.contract.accounts =~= with_balances(
                        s,
                        owner_id,
                        before.balances.insert(*token_id, new_balance),
                    ).contract.accounts);
                }
                Ok(SendTokens { account_id: owner_id, token_id: *token_id, amount, unregister: false })
            },
            Err(e) => {
                proof {
                    assert(self@.contract.accounts =~= s.contract.accounts);
                }
                Err(e)
            },
        }
    }
}

/// `s` with its contract replaced by `c`.
pub open spec fn with_contract<P: Pool>(s: DexState<P>, c: ContractState<P>) -> DexState<P> {
    DexState { contract: c, ..s }
}

/// `s` with account `id` set to `a`.
pub open spec fn with_account<P: Pool>(s: DexState<P>, id: AccountId, a: AccountState) -> DexState<P> {
    with_contract(s, ContractState { accounts: s.contract.accounts.insert(id, a), ..s.contract })
}

/// `s` with `e` appended to its events.
pub open spec fn logged<P: Pool>(s: DexState<P>, e: DexEvent<P>) -> DexState<P> {
    DexState { events: s.events.push(e), ..s }
}

/// The event of the change of liquidity `change.1` at tick `change.0` on fee level
/// `fee_level` of pool `id`.
pub open spec fn tick_update_event<F, L>(id: PoolId, fee_level: FeeLevel, change: (Tick, F)) -> Event<F, L> {
    Event::TickUpdate {
        pool: id.spec_pair(),
        fee_level,
        tick: change.0.spec_index(),
        liquidity_change: change.1,
    }
}

/// What `log_ticks_liquidity_change` answers for the pool of tokens `pool`, fee level
/// `fee_level`, and up to `number` ticks from index `start_tick` on, and the exchange it
/// leaves: the pool is asked for the changes of liquidity at its ticks, seen from `Side::Left`;
/// each is logged as a tick update, and the index of the last tick is answered.
///
/// Fails, changing nothing, with `AccountNotRegistered` when the caller has no account, with
/// `TokenDuplicates` when both tokens are the same, with `PriceTickOutOfBounds` when the start
/// index is no tick, with `PoolNotRegistered` when there is no such pool, and with
/// `InternalTickNotFound` when the pool reports no tick.
pub open spec fn ticks_log_outcome<P: Pool>(
    s: DexState<P>,
    pool: (TokenId, TokenId),
    fee_level: FeeLevel,
    start_tick: i32,
    number: u8,
) -> (Result<i32>, DexState<P>) {
    let id = PoolId::of_tokens(pool);
    if !s.contract.accounts.contains_key(s.caller_id) {
        (Err(Error { kind: ErrorKind::AccountNotRegistered }), s)
    } else if pool.0 == pool.1 {
        (Err(Error { kind: ErrorKind::TokenDuplicates }), s)
    } else if !spec_tick_valid(start_tick as int) {
        (Err(Error { kind: ErrorKind::PriceTickOutOfBounds }), s)
    } else if !s.contract.pools.contains_key(id) {
        (Err(Error { kind: ErrorKind::PoolNotRegistered }), s)
    } else {
        let changes = s.contract.pools[id].ticks_liquidity_change_answer(
            fee_level,
            Side::Left,
            Tick::tick_of(start_tick),
            number,
        )@;
        if changes.len() == 0 {
            (Err(Error { kind: ErrorKind::InternalTickNotFound }), s)
        } else {
            (
                Ok(changes.last().0.spec_index()),
                logged_all(
                    s,
                    changes.map_values(
                        |c: (Tick, P::Price)| tick_update_event::<P::Price, P::Liquidity>(id, fee_level, c),
                    ),
                ),
            )
        }
    }
}

/// `s` with `es` appended to its events.
pub open spec fn logged_all<P: Pool>(s: DexState<P>, es: Seq<DexEvent<P>>) -> DexState<P> {
    DexState { events: s.events + es, ..s }
}

/// The event of pool `id` left as `pool` by a change for `reason`: the state it reports.
pub open spec fn pool_state_event<P: Pool>(reason: PoolUpdateReason, id: PoolId, pool: P) -> DexEvent<P> {
    Event::UpdatePoolState { reason, pool: id.spec_pair(), state: pool.state_answer() }
}

/// The event of the pool of `token_in` and `token_out` after a swap between them, as `pools`
/// hold it.
pub open spec fn swap_state_event<P: Pool>(pools: Map<PoolId, P>, token_in: TokenId, token_out: TokenId) -> DexEvent<P> {
    let id = PoolId::of_tokens((token_in, token_out));
    pool_state_event(PoolUpdateReason::Swap, id, pools[id])
}

/// `s` with account `id` holding `balances` in place of its balances.
pub open spec fn with_balances<P: Pool>(s: DexState<P>, id: AccountId, balances: Map<TokenId, Amount>) -> DexState<P> {
    with_account(
        s,
        id,
        AccountState { balances, ..account_or_new(s.contract.accounts, id) },
    )
}

/// The failure an owner-only payable method answers with, if any: `PayableAPISuspended` while
/// the payable methods are suspended, else `PermissionDenied` when the caller is not the owner.
pub open spec fn owner_call_refusal<P: Pool>(s: DexState<P>) -> Option<Error> {
    if s.contract.suspended {
        Some(suspended_error())
    } else if s.caller_id != s.contract.owner_id {
        Some(permission_error())
    } else {
        None
    }
}

/// The failure a guard method answers with, if any: `PermissionDenied` when the caller is
/// neither the owner nor a guard, else `GuardChangeStateDenied` when the payable methods are
/// already in the state `suspend` asks for.
pub open spec fn guard_call_refusal<P: Pool>(s: DexState<P>, suspend: bool) -> Option<Error> {
    if !is_guard(s.contract, s.caller_id) {
        Some(permission_error())
    } else if s.contract.suspended == suspend {
        Some(Error { kind: ErrorKind::GuardChangeStateDenied })
    } else {
        None
    }
}

/// Balance of `token` in account `id` once `amount` is deposited to it, counted as an integer.
pub open spec fn deposit_balance<P: Pool>(s: DexState<P>, id: AccountId, token: TokenId, amount: Amount) -> int {
    balance_or_zero(account_or_new(s.contract.accounts, id), token) + amount
}

/// The exchange once a deposit of `amount` of `token` to account `id` has succeeded: the
/// account and the token registered, the balance grown by `amount`, the deposit logged.
pub open spec fn after_deposit<P: Pool>(s: DexState<P>, id: AccountId, token: TokenId, amount: Amount) -> DexState<P> {
    let balance = deposit_balance(s, id, token, amount) as Amount;
    logged(
        with_balances(s, id, account_or_new(s.contract.accounts, id).balances.insert(token, balance)),
        Event::Deposit { user: id, token, amount, balance },
    )
}

/// The exchange once `taken` of `token` has been withdrawn from account `id`: the balance
/// lowered by `taken`, the withdrawal logged.
pub open spec fn after_withdraw<P: Pool>(s: DexState<P>, id: AccountId, token: TokenId, taken: Amount) -> DexState<P> {
    let account = s.contract.accounts[id];
    let balance = (balance_or_zero(account, token) - taken) as Amount;
    logged(
        with_balances(s, id, account.balances.insert(token, balance)),
        Event::Withdraw { user: id, token, amount: taken, balance },
    )
}

/// The exchange once the payable methods have been suspended (`suspended`) or resumed by the
/// caller, and that logged.
pub open spec fn after_set_suspended<P: Pool>(s: DexState<P>, suspended: bool) -> DexState<P> {
    logged(
        with_contract(s, ContractState { suspended, ..s.contract }),
        if suspended {
            Event::SuspendPayableAPI { account: s.caller_id }
        } else {
            Event::ResumePayableAPI { account: s.caller_id }
        },
    )
}

/// `new` is `old` with the contract `c` and one more event.
pub open spec fn changed_and_logged<P: Pool>(old: DexState<P>, new: DexState<P>, c: ContractState<P>) -> bool {
    new == DexState { contract: c, events: old.events.push(new.events.last()), ..old }
}

/// Amount that a withdrawal of `amount` of `token` takes: the whole balance when `amount` is
/// zero.
pub open spec fn withdraw_amount(account: AccountState, token: TokenId, amount: Amount) -> Amount {
    if amount == 0 {
        balance_or_zero(account, token)
    } else {
        amount
    }
}

/// Why an account may not be unregistered, if it may not: it holds a token, even with a zero
/// balance (`TokensStorageNotEmpty`), or a position (`UserHasPositions`), or a withdrawal of
/// it is still in progress (`WithdrawInProgress`).
pub open spec fn account_unregister_refusal(account: AccountState) -> Option<Error> {
    if account.balances.dom().len() != 0 {
        Some(Error { kind: ErrorKind::TokensStorageNotEmpty })
    } else if account.positions.len() != 0 {
        Some(Error { kind: ErrorKind::UserHasPositions })
    } else if account.withdraw_in_progress {
        Some(Error { kind: ErrorKind::WithdrawInProgress })
    } else {
        None
    }
}

/// The result of a callback that `r` carries: its success without the `Some`, or its failure.
pub open spec fn map_ok_none<R>(r: Result<Option<R>>) -> Result<R> {
    match r {
        Ok(Some(x)) => Ok(x),
        Ok(None) => Err(Error { kind: ErrorKind::InternalLogicError }),
        Err(e) => Err(e),
    }
}

/// The account a registration or unregistration is for: `account_id`, or the caller's when it
/// is `None`.
pub open spec fn target_account<P: Pool>(s: DexState<P>, account_id: Option<AccountId>) -> AccountId {
    match account_id {
        Some(id) => id,
        None => s.caller_id,
    }
}

/// Account `id` of `accounts`; fails with `AccountNotRegistered` when there is none.
pub open spec fn registered_account(accounts: Map<AccountId, AccountState>, id: AccountId) -> Result<
    AccountState,
> {
    if accounts.contains_key(id) {
        Ok(accounts[id])
    } else {
        Err(Error { kind: ErrorKind::AccountNotRegistered })
    }
}

/// The account of `account` with `amount` of `token` added to its balance; fails with
/// `TokenNotRegistered` when the token is not registered and with `DepositWouldOverflow` when
/// the balance would not fit.
pub open spec fn credit(account: Result<AccountState>, token: TokenId, amount: Amount) -> Result<
    AccountState,
> {
    match account {
        Err(e) => Err(e),
        Ok(a) => if !a.balances.contains_key(token) {
            Err(Error { kind: ErrorKind::TokenNotRegistered })
        } else if a.balances[token] + amount > u128::MAX {
            Err(Error { kind: ErrorKind::DepositWouldOverflow })
        } else {
            Ok(
                AccountState {
                    balances: a.balances.insert(token, (a.balances[token] + amount) as Amount),
                    ..a
                },
            )
        },
    }
}

/// The account of `account` with `amount` of `token` taken from its balance; fails with
/// `TokenNotRegistered` when the token is not registered and with `NotEnoughTokens` when the
/// balance is below `amount`.
pub open spec fn debit(account: Result<AccountState>, token: TokenId, amount: Amount) -> Result<
    AccountState,
> {
    match account {
        Err(e) => Err(e),
        Ok(a) => if !a.balances.contains_key(token) {
            Err(Error { kind: ErrorKind::TokenNotRegistered })
        } else if a.balances[token] < amount {
            Err(Error { kind: ErrorKind::NotEnoughTokens })
        } else {
            Ok(
                AccountState {
                    balances: a.balances.insert(token, (a.balances[token] - amount) as Amount),
                    ..a
                },
            )
        },
    }
}

/// `s` with its pools replaced by `pools`.
pub open spec fn with_pools<P: Pool>(s: DexState<P>, pools: Map<PoolId, P>) -> DexState<P> {
    with_contract(s, ContractState { pools, ..s.contract })
}

/// What `withdraw_protocol_fee` answers for tokens `pair`, and the exchange it leaves: the
/// pool of the pair is asked to pay out its protocol fees, which go to the owner's account.
pub open spec fn protocol_fee_outcome<P: Pool>(s: DexState<P>, pair: (TokenId, TokenId)) -> (
    Result<(Amount, Amount)>,
    DexState<P>,
) {
    let id = PoolId::of_tokens(pair);
    let tokens = id.spec_pair();
    if owner_call_refusal(s) is Some {
        (Err(owner_call_refusal(s)->Some_0), s)
    } else if pair.0 == pair.1 {
        (Err(Error { kind: ErrorKind::TokenDuplicates }), s)
    } else if !s.contract.pools.contains_key(id) {
        (Err(Error { kind: ErrorKind::PoolNotRegistered }), s)
    } else {
        let (answer, pool) = s.contract.pools[id].protocol_fee_answer();
        match answer {
            Err(e) => (Err(e), s),
            Ok(fees) => {
                let credited = credit(
                    credit(registered_account(s.contract.accounts, s.contract.owner_id), tokens.0, fees.0),
                    tokens.1,
                    fees.1,
                );
                match credited {
                    Err(e) => (Err(e), s),
                    Ok(a) => (
                        Ok(spec_swap_if(pair.0 < pair.1, fees)),
                        with_account(
                            with_pools(s, s.contract.pools.insert(id, pool)),
                            s.contract.owner_id,
                            a,
                        ),
                    ),
                }
            },
        }
    }
}

/// The side of the pool of `token_in` and `token_out` that a swap from `token_in` to
/// `token_out` takes: `Left` when `token_in` is the pool's first token, the larger one.
pub open spec fn side_of(token_in: TokenId, token_out: TokenId) -> Side {
    if token_in < token_out {
        Side::Right
    } else {
        Side::Left
    }
}

/// One swap from `token_in` to `token_out` on `pools`: the pool of the two tokens is asked, on
/// the side their order gives, for a swap of `amount` the way `kind` tells with protocol fee
/// fraction `fee` and price limit `limit` (see `pool_swap_answer`). Answers the amounts taken
/// in and given out, and the pools it leaves, that pool replaced by the one the swap left.
/// Fails with `TokenDuplicates` when both tokens are the same, with `PoolNotRegistered` when
/// there is no such pool, and with the pool's failure.
pub open spec fn hop<P: Pool>(
    pools: Map<PoolId, P>,
    token_in: TokenId,
    token_out: TokenId,
    kind: SwapKind,
    amount: Amount,
    fee: BasisPoints,
    limit: Option<P::PriceLimit>,
) -> (Result<(Amount, Amount)>, Map<PoolId, P>) {
    let id = PoolId::of_tokens((token_in, token_out));
    if token_in == token_out {
        (Err(Error { kind: ErrorKind::TokenDuplicates }), pools)
    } else if !pools.contains_key(id) {
        (Err(Error { kind: ErrorKind::PoolNotRegistered }), pools)
    } else {
        let answer = pool_swap_answer(pools[id], side_of(token_in, token_out), kind, amount, fee, limit);
        match answer.0 {
            Err(e) => (Err(e), pools),
            Ok(t) => (Ok((t.0, t.1)), pools.insert(id, answer.1)),
        }
    }
}

/// The first `k` swaps along `tokens`, the way `kind` tells, with protocol fee fraction `fee`:
/// the first one asks its pool for `amount`, each later one for the amount the one before took
/// in (`ExactOut`) or gave out (otherwise). Answers the last amount, and the pools they leave.
pub open spec fn chain<P: Pool>(
    pools: Map<PoolId, P>,
    tokens: Seq<TokenId>,
    kind: SwapKind,
    amount: Amount,
    fee: BasisPoints,
    k: nat,
) -> (Result<Amount>, Map<PoolId, P>)
    decreases k,
{
    if k == 0 {
        (Ok(amount), pools)
    } else {
        let prev = chain(pools, tokens, kind, amount, fee, (k - 1) as nat);
        match prev.0 {
            Err(e) => (Err(e), prev.1),
            Ok(current) => {
                let h = hop(prev.1, tokens[k - 1], tokens[k as int], kind, current, fee, None);
                match h.0 {
                    Err(e) => (Err(e), h.1),
                    Ok(t) => (
                        Ok(
                            if kind == SwapKind::ExactOut {
                                t.0
                            } else {
                                t.1
                            },
                        ),
                        h.1,
                    ),
                }
            },
        }
    }
}

/// The events the first `k` swaps of `chain` log: for each swap that succeeds, the state of
/// its pool right after it.
pub open spec fn chain_events<P: Pool>(
    pools: Map<PoolId, P>,
    tokens: Seq<TokenId>,
    kind: SwapKind,
    amount: Amount,
    fee: BasisPoints,
    k: nat,
) -> Seq<DexEvent<P>>
    decreases k,
{
    if k == 0 {
        Seq::empty()
    } else {
        let earlier = chain_events(pools, tokens, kind, amount, fee, (k - 1) as nat);
        let prev = chain(pools, tokens, kind, amount, fee, (k - 1) as nat);
        match prev.0 {
            Err(_) => earlier,
            Ok(current) => {
                let h = hop(prev.1, tokens[k - 1], tokens[k as int], kind, current, fee, None);
                match h.0 {
                    Err(_) => earlier,
                    Ok(_) => earlier.push(swap_state_event(h.1, tokens[k - 1], tokens[k as int])),
                }
            },
        }
    }
}

/// The caller's account, registered if it was not, with the tokens of `tokens` registered.
pub open spec fn registered_caller<P: Pool>(s: DexState<P>, tokens: Seq<TokenId>) -> AccountState {
    let a = account_or_new(s.contract.accounts, s.caller_id);
    AccountState { balances: with_registered(a.balances, tokens), ..a }
}

/// What `swap` answers for a swap from `token_in` to `token_out` of `amount` the way `kind`
/// tells, with price limit `limit`, and the exchange it leaves: the swap asked of the pool
/// with the exchange's protocol fee fraction (see `hop`), the caller's account and both tokens
/// registered, the pool updated and its state logged; the balances are left to the caller of
/// `swap`.
pub open spec fn swap_outcome<P: Pool>(
    s: DexState<P>,
    token_in: TokenId,
    token_out: TokenId,
    kind: SwapKind,
    amount: Amount,
    limit: Option<P::PriceLimit>,
) -> (Result<(Amount, Amount)>, DexState<P>) {
    if s.contract.suspended {
        (Err(suspended_error()), s)
    } else {
        let h = hop(s.contract.pools, token_in, token_out, kind, amount, s.contract.protocol_fee_fraction, limit);
        match h.0 {
            Err(e) => (Err(e), s),
            Ok(t) => (
                Ok(t),
                logged(
                    with_pools(
                        with_account(s, s.caller_id, registered_caller(s, seq![token_in, token_out])),
                        h.1,
                    ),
                    swap_state_event(h.1, token_in, token_out),
                ),
            ),
        }
    }
}

/// What a swap along `tokens` answers, and the exchange it leaves: the swaps of `chain`, with
/// the exchange's protocol fee fraction; the amounts taken from and given to the caller, who
/// gets the first token debited and the last one credited; logged are the state of the pool
/// after each swap (`chain_events`) and then the swap.
///
/// For `ExactIn`, `amount` is the amount in and `limit` the least amount out; for `ExactOut`,
/// `amount` is the amount out and `limit` the most amount in (else `Slippage`). Fails with
/// `AtLeastOneSwap` for fewer than two tokens, with `PayableAPISuspended` while the payable
/// methods are suspended, with the failure of a swap, and with the failure of booking the
/// amounts.
pub open spec fn swap_path_outcome<P: Pool>(
    s: DexState<P>,
    tokens: Seq<TokenId>,
    kind: SwapKind,
    amount: Amount,
    limit: Amount,
) -> (Result<(Amount, Amount)>, DexState<P>) {
    if tokens.len() < 2 {
        (Err(Error { kind: ErrorKind::AtLeastOneSwap }), s)
    } else if s.contract.suspended {
        (Err(suspended_error()), s)
    } else {
        let c = chain(
            s.contract.pools,
            tokens,
            kind,
            amount,
            s.contract.protocol_fee_fraction,
            (tokens.len() - 1) as nat,
        );
        match c.0 {
            Err(e) => (Err(e), s),
            Ok(x) => {
                let amounts = if kind == SwapKind::ExactOut {
                    (x, amount)
                } else {
                    (amount, x)
                };
                let slipped = if kind == SwapKind::ExactOut {
                    amounts.0 > limit
                } else {
                    amounts.1 < limit
                };
                if slipped {
                    (Err(Error { kind: ErrorKind::Slippage }), s)
                } else {
                    let b = booked_swap(
                        s,
                        tokens,
                        amounts,
                        c.1,
                        chain_events(
                            s.contract.pools,
                            tokens,
                            kind,
                            amount,
                            s.contract.protocol_fee_fraction,
                            (tokens.len() - 1) as nat,
                        ),
                    );
                    match b.0 {
                        Err(e) => (Err(e), s),
                        Ok(_) => (Ok(amounts), b.1),
                    }
                }
            },
        }
    }
}

/// The exchange after a swap along `tokens` that took `amounts.0` of the first token and gave
/// `amounts.1` of the last one, leaving the pools `pools`: the caller's account, registered
/// with the tokens, debited and credited, and `pool_events` and then the swap logged. Fails,
/// changing nothing, with
/// the failure of booking the amounts.
pub open spec fn booked_swap<P: Pool>(
    s: DexState<P>,
    tokens: Seq<TokenId>,
    amounts: (Amount, Amount),
    pools: Map<PoolId, P>,
    pool_events: Seq<DexEvent<P>>,
) -> (Result<()>, DexState<P>) {
    let booked = credit(
        debit(Ok(registered_caller(s, tokens)), tokens[0], amounts.0),
        tokens.last(),
        amounts.1,
    );
    match booked {
        Err(e) => (Err(e), s),
        Ok(a) => (
            Ok(()),
            logged(
                logged_all(with_account(with_pools(s, pools), s.caller_id, a), pool_events),
                Event::Swap {
                    user: s.caller_id,
                    token_in: tokens[0],
                    token_out: tokens.last(),
                    amount_in: amounts.0,
                    amount_out: amounts.1,
                },
            ),
        ),
    }
}

/// What `swap_to_price` answers for a swap from the first of `tokens` to the second, of at
/// most `amount_in` up to the price limit `limit`, asked of the pool with the exchange's
/// protocol fee fraction (see `hop`), and the exchange it leaves: the amounts taken from and
/// given to the caller, booked on the caller's account; logged are the state of the pool and
/// then the swap.
///
/// Fails, changing nothing, with `ExactOneSwap` unless there are exactly two tokens, with
/// `PayableAPISuspended` while the payable methods are suspended, with the failure of the
/// swap, and with the failure of booking the amounts.
pub open spec fn swap_to_price_outcome<P: Pool>(
    s: DexState<P>,
    tokens: Seq<TokenId>,
    amount_in: Amount,
    limit: P::PriceLimit,
) -> (Result<(Amount, Amount)>, DexState<P>) {
    if tokens.len() != 2 {
        (Err(Error { kind: ErrorKind::ExactOneSwap }), s)
    } else if s.contract.suspended {
        (Err(suspended_error()), s)
    } else {
        let h = hop(
            s.contract.pools,
            tokens[0],
            tokens[1],
            SwapKind::ToPrice,
            amount_in,
            s.contract.protocol_fee_fraction,
            Some(limit),
        );
        match h.0 {
            Err(e) => (Err(e), s),
            Ok(amounts) => {
                let b = booked_swap(s, tokens, amounts, h.1, seq![swap_state_event(h.1, tokens[0], tokens[1])]);
                match b.0 {
                    Err(e) => (Err(e), s),
                    Ok(_) => (Ok(amounts), b.1),
                }
            },
        }
    }
}

/// Once a swap of a chain fails, the chain fails with that failure.
pub proof fn lemma_chain_failure<P: Pool>(
    pools: Map<PoolId, P>,
    tokens: Seq<TokenId>,
    kind: SwapKind,
    amount: Amount,
    fee: BasisPoints,
    k: nat,
    m: nat,
)
    requires
        k <= m,
        chain(pools, tokens, kind, amount, fee, k).0 is Err,
    ensures
        chain(pools, tokens, kind, amount, fee, m) == chain(
            pools,
            tokens,
            kind,
            amount,
            fee,
            k,
        ),
    decreases m,
{
    if m > k {
        lemma_chain_failure(pools, tokens, kind, amount, fee, k, (m - 1) as nat);
    }
}

/// The number of swaps along `tokens`: one for each two tokens next to each other.
pub open spec fn hops(tokens: Seq<TokenId>) -> nat {
    if tokens.len() < 2 {
        0
    } else {
        (tokens.len() - 1) as nat
    }
}

/// The amount in (`ExactOut`) or out (otherwise) paired with the amount a path starts from.
pub open spec fn path_pair(kind: SwapKind, start: Amount, end: Amount) -> (Amount, Amount) {
    if kind == SwapKind::ExactOut {
        (end, start)
    } else {
        (start, end)
    }
}

/// The swaps along the first `k` paths of `paths` in turn, each path a `chain` from its own
/// amount with protocol fee fraction `fee`: the amounts each path takes in and gives out,
/// and the pools they leave.
pub open spec fn paths_chain<P: Pool>(
    pools: Map<PoolId, P>,
    paths: Seq<Path>,
    kind: SwapKind,
    fee: BasisPoints,
    k: nat,
) -> (Result<Seq<(Amount, Amount)>>, Map<PoolId, P>)
    decreases k,
{
    if k == 0 {
        (Ok(Seq::empty()), pools)
    } else {
        let prev = paths_chain(pools, paths, kind, fee, (k - 1) as nat);
        match prev.0 {
            Err(e) => (Err(e), prev.1),
            Ok(pairs) => {
                let p = paths[k - 1];
                let c = chain(prev.1, p.tokens@, kind, p.amount, fee, hops(p.tokens@));
                match c.0 {
                    Err(e) => (Err(e), c.1),
                    Ok(x) => (Ok(pairs.push(path_pair(kind, p.amount, x))), c.1),
                }
            },
        }
    }
}

/// The events the swaps along the first `k` paths of `paths_chain` log, path after path.
pub open spec fn paths_events<P: Pool>(
    pools: Map<PoolId, P>,
    paths: Seq<Path>,
    kind: SwapKind,
    fee: BasisPoints,
    k: nat,
) -> Seq<DexEvent<P>>
    decreases k,
{
    if k == 0 {
        Seq::empty()
    } else {
        let earlier = paths_events(pools, paths, kind, fee, (k - 1) as nat);
        let prev = paths_chain(pools, paths, kind, fee, (k - 1) as nat);
        match prev.0 {
            Err(_) => earlier,
            Ok(_) => {
                let p = paths[k - 1];
                earlier + chain_events(prev.1, p.tokens@, kind, p.amount, fee, hops(p.tokens@))
            },
        }
    }
}

/// The tokens of those of the first `k` paths of `paths` that take at least one swap, in turn.
pub open spec fn swapped_tokens(paths: Seq<Path>, k: nat) -> Seq<TokenId>
    decreases k,
{
    if k == 0 {
        Seq::empty()
    } else if paths[k - 1].tokens@.len() >= 2 {
        swapped_tokens(paths, (k - 1) as nat) + paths[k - 1].tokens@
    } else {
        swapped_tokens(paths, (k - 1) as nat)
    }
}

/// The sum of the amounts in (`ExactOut`) or out (otherwise) of the first `k` pairs of `pairs`.
pub open spec fn paths_total(pairs: Seq<(Amount, Amount)>, kind: SwapKind, k: nat) -> int
    decreases k,
{
    if k == 0 {
        0
    } else if kind == SwapKind::ExactOut {
        paths_total(pairs, kind, (k - 1) as nat) + pairs[k - 1].0
    } else {
        paths_total(pairs, kind, (k - 1) as nat) + pairs[k - 1].1
    }
}

/// `account` with the amounts of the first `k` paths booked in turn: for each path, its amount
/// in taken from its first token and its amount out added to its last one.
pub open spec fn book_paths(
    account: Result<AccountState>,
    paths: Seq<Path>,
    pairs: Seq<(Amount, Amount)>,
    k: nat,
) -> Result<AccountState>
    decreases k,
{
    if k == 0 {
        account
    } else {
        let p = paths[k - 1];
        credit(
            debit(book_paths(account, paths, pairs, (k - 1) as nat), p.tokens@[0], pairs[k - 1].0),
            p.tokens@.last(),
            pairs[k - 1].1,
        )
    }
}

/// What a swap along each of `paths` answers, and the exchange it leaves: the amounts each
/// path takes in and gives out.
///
/// The paths are swapped in turn (see `paths_chain`), with the exchange's protocol fee
/// fraction, each from its own amount: the amount in for `ExactIn`, the amount out for
/// `ExactOut`. For `ExactIn` the sum of the amounts out must be at least `limit`; for
/// `ExactOut` the sum of the amounts in must be at most `limit`; else `Slippage`. Then the
/// caller's account, registered with the tokens of every path that swaps, has each path
/// booked in turn, and the state of the pool after each swap is logged (`paths_events`).
/// Fails, changing nothing, with
/// `PayableAPISuspended` while the payable methods are suspended, with the failure of a swap,
/// and with the failure of booking the amounts (`AccountNotRegistered` when no path swaps and
/// the caller has no account).
pub open spec fn multiple_path_outcome<P: Pool>(
    s: DexState<P>,
    paths: Seq<Path>,
    kind: SwapKind,
    limit: Amount,
) -> (Result<Seq<(Amount, Amount)>>, DexState<P>) {
    if s.contract.suspended {
        (Err(suspended_error()), s)
    } else {
        let c = paths_chain(s.contract.pools, paths, kind, s.contract.protocol_fee_fraction, paths.len());
        match c.0 {
            Err(e) => (Err(e), s),
            Ok(pairs) => if (if kind == SwapKind::ExactOut {
                paths_total(pairs, kind, pairs.len()) > limit
            } else {
                paths_total(pairs, kind, pairs.len()) < limit
            }) {
                (Err(Error { kind: ErrorKind::Slippage }), s)
            } else if paths.len() == 0 {
                (Ok(pairs), s)
            } else {
                let swapped = swapped_tokens(paths, paths.len());
                let start = if swapped.len() > 0 {
                    Ok(registered_caller(s, swapped))
                } else {
                    registered_account(s.contract.accounts, s.caller_id)
                };
                match book_paths(start, paths, pairs, paths.len()) {
                    Err(e) => (Err(e), s),
                    Ok(a) => (
                        Ok(pairs),
                        logged_all(
                            with_account(with_pools(s, c.1), s.caller_id, a),
                            paths_events(s.contract.pools, paths, kind, s.contract.protocol_fee_fraction, paths.len()),
                        ),
                    ),
                }
            },
        }
    }
}

/// The pairs of amounts of a result, as a sequence.
pub open spec fn pairs_of(r: Result<Vec<(Amount, Amount)>>) -> Result<Seq<(Amount, Amount)>> {
    match r {
        Ok(v) => Ok(v@),
        Err(e) => Err(e),
    }
}

/// Once a path of a chain of paths fails, the chain fails with that failure.
pub proof fn lemma_paths_chain_failure<P: Pool>(
    pools: Map<PoolId, P>,
    paths: Seq<Path>,
    kind: SwapKind,
    fee: BasisPoints,
    k: nat,
    m: nat,
)
    requires
        k <= m,
        paths_chain(pools, paths, kind, fee, k).0 is Err,
    ensures
        paths_chain(pools, paths, kind, fee, m) == paths_chain(pools, paths, kind, fee, k),
    decreases m,
{
    if m > k {
        lemma_paths_chain_failure(pools, paths, kind, fee, k, (m - 1) as nat);
    }
}

/// A chain of paths that succeeds gives one pair of amounts for each path.
pub proof fn lemma_paths_chain_len<P: Pool>(
    pools: Map<PoolId, P>,
    paths: Seq<Path>,
    kind: SwapKind,
    fee: BasisPoints,
    k: nat,
)
    ensures
        paths_chain(pools, paths, kind, fee, k).0 matches Ok(pairs) ==> pairs.len() == k,
    decreases k,
{
    if k > 0 {
        lemma_paths_chain_len(pools, paths, kind, fee, (k - 1) as nat);
    }
}

/// Once booking a path fails, booking the paths fails with that failure.
pub proof fn lemma_book_paths_failure(
    account: Result<AccountState>,
    paths: Seq<Path>,
    pairs: Seq<(Amount, Amount)>,
    k: nat,
    m: nat,
)
    requires
        k <= m,
        book_paths(account, paths, pairs, k) is Err,
    ensures
        book_paths(account, paths, pairs, m) == book_paths(account, paths, pairs, k),
    decreases m,
{
    if m > k {
        lemma_book_paths_failure(account, paths, pairs, k, (m - 1) as nat);
    }
}

/// The sums of the amounts of a sequence of pairs only depend on the pairs they sum.
pub proof fn lemma_paths_total_prefix(pairs: Seq<(Amount, Amount)>, more: Seq<(Amount, Amount)>, kind: SwapKind, k: nat)
    requires
        k <= pairs.len(),
    ensures
        paths_total(pairs + more, kind, k) == paths_total(pairs, kind, k),
    decreases k,
{
    if k > 0 {
        lemma_paths_total_prefix(pairs, more, kind, (k - 1) as nat);
        assert((pairs + more)[k - 1] == pairs[k - 1]);
    }
}

/// `entries` holds the identifiers of the pools of `pools`, each once, in increasing order.
pub open spec fn lists_pools<P, I>(entries: Seq<(PoolId, I)>, pools: Map<PoolId, P>) -> bool {
    &&& forall|i: int| 0 <= i < entries.len() ==> pools.contains_key(#[trigger] entries[i].0)
    &&& forall|id: PoolId| #[trigger]
        pools.contains_key(id) ==> exists|i: int| 0 <= i < entries.len() && entries[i].0 == id
    &&& forall|i: int, j: int|
        0 <= i < j < entries.len() ==> (#[trigger] entries[i]).0.rank() < (#[trigger] entries[j]).0.rank()
}

/// What `get_position_info` answers for position `position_id`: the report of the pool that
/// holds it. Fails with `PositionDoesNotExist` when no pool holds such a position, with
/// `PoolNotRegistered` when its pool is gone, and with the pool's failure.
pub open spec fn position_info_outcome<P: Pool>(s: DexState<P>, position_id: PositionId) -> Result<
    PositionInfo<P::Price>,
> {
    if !s.contract.position_to_pool_id.contains_key(position_id) {
        Err(Error { kind: ErrorKind::PositionDoesNotExist })
    } else {
        let pool_id = s.contract.position_to_pool_id[position_id];
        if !s.contract.pools.contains_key(pool_id) {
            Err(Error { kind: ErrorKind::PoolNotRegistered })
        } else {
            s.contract.pools[pool_id].position_info_answer(pool_id, position_id)
        }
    }
}

/// The value of a success, `None` for a failure.
pub open spec fn ok_value<T>(r: Result<T>) -> Option<T> {
    match r {
        Ok(v) => Some(v),
        Err(_) => None,
    }
}

/// The side a pool is asked about for prices in `direction` from `token_a` to `token_b`:
/// `direction` itself when `token_a` is the pool's first token, the other side otherwise.
pub open spec fn swap_side(direction: Side, token_a: TokenId, token_b: TokenId) -> Side {
    if token_a < token_b {
        direction.spec_opposite()
    } else {
        direction
    }
}

/// The position `open_position_full` opens: amounts from 1 up to `amount_a` and `amount_b`,
/// over the whole tick range.
pub open spec fn full_range_position(amount_a: Amount, amount_b: Amount) -> PositionInit {
    PositionInit {
        amount_ranges: (Range { min: 1, max: amount_a }, Range { min: 1, max: amount_b }),
        ticks_range: (None, None),
    }
}

/// The sequence of the two tokens `a` and `b`.
pub open spec fn token_pair(a: TokenId, b: TokenId) -> Seq<TokenId> {
    seq![a, b]
}

/// The view of account `id` of `s` that an operation on it starts from, the account being
/// `account`.
pub open spec fn view_of<P: Pool>(s: DexState<P>, id: AccountId, account: AccountState) -> AccountViewState<P> {
    AccountViewState {
        account_id: id,
        account,
        pools: s.contract.pools,
        pool_count: s.contract.pool_count,
        next_free_position_id: s.contract.next_free_position_id,
        position_to_pool_id: s.contract.position_to_pool_id,
        events: Seq::empty(),
    }
}

/// `s` once the work of view `v` is stored: its account, pools, counters and positions, and
/// its events after those of `s`.
pub open spec fn committed<P: Pool>(s: DexState<P>, v: AccountViewState<P>) -> DexState<P> {
    DexState {
        contract: ContractState {
            accounts: s.contract.accounts.insert(v.account_id, v.account),
            pools: v.pools,
            pool_count: v.pool_count,
            next_free_position_id: v.next_free_position_id,
            position_to_pool_id: v.position_to_pool_id,
            ..s.contract
        },
        events: s.events + v.events,
        ..s
    }
}

/// The failure of a payable operation on the caller's registered account, if any:
/// `PayableAPISuspended` while the payable methods are suspended, `AccountNotRegistered` when
/// the caller has no account.
pub open spec fn account_call_refusal<P: Pool>(s: DexState<P>) -> Option<Error> {
    if s.contract.suspended {
        Some(suspended_error())
    } else if !s.contract.accounts.contains_key(s.caller_id) {
        Some(Error { kind: ErrorKind::AccountNotRegistered })
    } else {
        None
    }
}

/// What a batch of `actions` for account `id` gives, `deposit_data` having come with it, when
/// registering the account answers `registration` and leaves the account as `registered`:
/// what the actions gave, and the view to store. Each action asks the pools what
/// `action_step` says, with the exchange's protocol fee fraction.
///
/// A first `RegisterAccount` action stands for the registration, which is made anyway. Fails
/// with `PayableAPISuspended` while the payable methods are suspended, with the failure of the
/// registration, with that of an action, and with `DepositNotHandled` when something came with
/// the batch and no `Deposit` action took it.
pub open spec fn batch_outcome<P: Pool>(
    s: DexState<P>,
    id: AccountId,
    deposit_data: Seq<DepositPayment>,
    registration: Result<()>,
    registered: AccountState,
    actions: Seq<Action<P::PriceLimit>>,
) -> Result<(Seq<ActionResult>, AccountViewState<P>)> {
    if s.contract.suspended {
        Err(suspended_error())
    } else if registration is Err {
        Err(registration->Err_0)
    } else {
        let first = actions.len() > 0 && actions[0] is RegisterAccount;
        let start: int = if first {
            1
        } else {
            0
        };
        let rest = actions.subrange(start, actions.len() as int);
        let b0 = batch_state(
            view_of(s, id, registered),
            false,
            None,
            if first {
                seq![ActionResult::RegisterAccount]
            } else {
                Seq::empty()
            },
        );
        match actions_fold(b0, deposit_data, rest, s.contract.protocol_fee_fraction, rest.len()) {
            Err(e) => Err(e),
            Ok(b) => if !b.deposit_handled && deposit_data.len() != 0 {
                Err(Error { kind: ErrorKind::DepositNotHandled })
            } else {
                Ok((b.results, b.view))
            },
        }
    }
}

/// The transfers the withdrawals of `results` ask for, in order.
pub open spec fn sends_of(results: Seq<ActionResult>) -> Seq<SendTokens>
    decreases results.len(),
{
    if results.len() == 0 {
        Seq::empty()
    } else {
        let earlier = sends_of(results.drop_last());
        match results.last() {
            ActionResult::Withdraw(Some(send)) => earlier.push(send),
            _ => earlier,
        }
    }
}

/// The amount the last swap of `results` produced, if there was a swap.
pub open spec fn last_swap_amount(results: Seq<ActionResult>) -> Option<Amount>
    decreases results.len(),
{
    if results.len() == 0 {
        None
    } else {
        match results.last() {
            ActionResult::SwapExactIn(amount) => Some(amount),
            ActionResult::SwapExactOut(amount) => Some(amount),
            ActionResult::SwapToPrice(amount) => Some(amount),
            _ => last_swap_amount(results.drop_last()),
        }
    }
}

/// The transfers the withdrawals of `results` ask for, in order, and the amount the last swap
/// produced, if there was a swap.
pub fn collect_outputs(results: &Vec<ActionResult>) -> (r: (Vec<SendTokens>, Option<Amount>))
    ensures
        r.0@ == sends_of(results@),
        r.1 == last_swap_amount(results@),
{
    let mut sends: Vec<SendTokens> = Vec::new();
    let mut out_amount: Option<Amount> = None;
    let mut i: usize = 0;
    while i < results.len()
        invariant
            i <= results@.len(),
            sends@ == sends_of(results@.take(i as int)),
            out_amount == last_swap_amount(results@.take(i as int)),
        decreases results@.len() - i,
    {
        proof {
            assert(results@.take(i + 1).drop_last() =~= results@.take(i as int));
            assert(results@.take(i + 1).last() == results@[i as int]);
        }
        match results[i] {
            ActionResult::Withdraw(Some(send)) => sends.push(send),
            ActionResult::SwapExactIn(amount) => out_amount = Some(amount),
            ActionResult::SwapExactOut(amount) => out_amount = Some(amount),
            ActionResult::SwapToPrice(amount) => out_amount = Some(amount),
            _ => {},
        }
        i += 1;
    }
    assert(results@.take(results@.len() as int) =~= results@);
    (sends, out_amount)
}

/// Whether `account` may suspend and resume the payable methods: the owner or a guard.
pub open spec fn is_guard<P: Pool>(c: ContractState<P>, account: AccountId) -> bool {
    account == c.owner_id || c.guards.contains(account)
}

impl<P: Pool> Dex<P> {
    /// Credits `amounts` of `tokens` to account `id`: both or neither.
    fn credit_pair(&mut self, id: &AccountId, tokens: (TokenId, TokenId), amounts: (Amount, Amount)) -> (r:
        Result<()>)
        requires
            old(self).well_formed(),
        ensures
            final(self).well_formed(),
            ({
                let res = credit(
                    credit(registered_account(old(self)@.contract.accounts, *id), tokens.0, amounts.0),
                    tokens.1,
                    amounts.1,
                );
                &&& res is Ok ==> r is Ok && final(self)@ == with_account(old(self)@, *id, res->Ok_0)
                &&& res is Err ==> r == Err::<(), Error>(res->Err_0) && final(self)@ == old(self)@
            }),
    {
        if !self.has_account(id) {
            return Err(Error::new(ErrorKind::AccountNotRegistered));
        }
        let ghost s = self@;
        let (mut account, _) = self.take_account(id);
        let backup = account.copied();
        if let Err(e) = account.deposit(&tokens.0, amounts.0) {
            self.put_account(*id, Account::V0(backup));
            proof {
                assert(self@.contract.accounts =~= s.contract.accounts);
            }
            return Err(e);
        }
        let ghost mid = account;
        if let Err(e) = account.deposit(&tokens.1, amounts.1) {
            self.put_account(*id, Account::V0(backup));
            proof {
                assert(self@.contract.accounts =~= s.contract.accounts);
            }
            return Err(e);
        }
        proof {
            let first = credit(registered_account(s.contract.accounts, *id), tokens.0, amounts.0);
            assert(first is Ok && first->Ok_0 == mid@);
            assert(account@ == credit(first, tokens.1, amounts.1)->Ok_0);
        }
        let ghost stored = account@;
        self.put_account(*id, Account::V0(account));
        proof {
            assert(self@.contract.accounts =~= s.contract.accounts.insert(*id, stored));
        }
        Ok(())
    }

    /// Stores `pool` as pool `id`.
    fn put_pool(&mut self, id: PoolId, pool: P)
        requires
            old(self).well_formed(),
        ensures
            final(self).well_formed(),
            final(self)@ == with_pools(old(self)@, old(self)@.contract.pools.insert(id, pool)),
    {
        proof {
            lemma_upgrade_keeps_state(self.contract);
        }
        let contract = self.contract.latest();
        contract.pools.insert(id, pool);
    }

    /// What the pool of tokens `tokens` reports of itself, its prices seen in the direction
    /// from the first token to the second; `None` when there is no such pool.
    ///
    /// Fails with `TokenDuplicates` when both tokens are the same, and with the pool's failure.
    pub fn get_pool_info(&self, tokens: (TokenId, TokenId)) -> (r: Result<
        Option<PoolInfo<P::Price, P::Liquidity>>,
    >)
        requires
            self.well_formed(),
        ensures
            tokens.0 == tokens.1 ==> (r matches Err(e) && e == Error { kind: ErrorKind::TokenDuplicates }),
            tokens.0 != tokens.1 && !self@.contract.pools.contains_key(PoolId::of_tokens(tokens)) ==> (
            r matches Ok(found) && found is None),
            tokens.0 != tokens.1 && self@.contract.pools.contains_key(PoolId::of_tokens(tokens)) ==> r == (
            match self@.contract.pools[PoolId::of_tokens(tokens)].pool_info_answer(side_of(tokens.0, tokens.1)) {
                Ok(info) => Ok::<Option<PoolInfo<P::Price, P::Liquidity>>, Error>(Some(info)),
                Err(e) => Err(e),
            }),
    {
        let (pool_id, swapped) = match PoolId::try_from_pair(tokens) {
            Ok(found) => found,
            Err(kind) => return Err(Error::new(kind)),
        };
        let side = if swapped {
            Side::Right
        } else {
            Side::Left
        };
        match self.contract.as_ref().pools.get(&pool_id) {
            None => Ok(None),
            Some(pool) => match pool.pool_info(side) {
                Ok(info) => Ok(Some(info)),
                Err(e) => Err(e),
            },
        }
    }

    /// What every pool reports of itself, its prices seen in the direction from its first
    /// token to its second, with the pool's identifier, in increasing order of identifiers.
    ///
    /// Fails with the failure of the first pool, in that order, that fails.
    pub fn get_pool_infos(&self) -> (r: Result<Vec<(PoolId, PoolInfo<P::Price, P::Liquidity>)>>)
        requires
            self.well_formed(),
        ensures
            r matches Ok(infos) ==> lists_pools(infos@, self@.contract.pools),
            r matches Ok(infos) ==> forall|k: int|
                0 <= k < infos@.len() ==> self@.contract.pools[(#[trigger] infos@[k]).0].pool_info_answer(Side::Left)
                    == Ok::<PoolInfo<P::Price, P::Liquidity>, Error>(infos@[k].1),
            r matches Err(e) ==> exists|id: PoolId| #[trigger]
                self@.contract.pools.contains_key(id) && self@.contract.pools[id].pool_info_answer(Side::Left)
                    == Err::<PoolInfo<P::Price, P::Liquidity>, Error>(e) && forall|other: PoolId| #[trigger]
                    self@.contract.pools.contains_key(other) && other.rank() < id.rank()
                        ==> self@.contract.pools[other].pool_info_answer(Side::Left) is Ok,
            (forall|id: PoolId| #[trigger]
                self@.contract.pools.contains_key(id) ==> self@.contract.pools[id].pool_info_answer(Side::Left) is Ok)
                ==> r is Ok,
            self@.contract.pools.dom().is_empty() ==> (r matches Ok(infos) && infos@.len() == 0),
    {
        let pools = self.contract.as_ref().pools.inner();
        proof {
            pools.lemma_entries();
            pools.lemma_len();
        }
        let ghost entries = pools.entries_seq();
        let n = pools.len();
        let mut infos: Vec<(PoolId, PoolInfo<P::Price, P::Liquidity>)> = Vec::new();
        let mut i: usize = 0;
        while i < n
            invariant
                pools.well_formed(),
                entries == pools.entries_seq(),
                sorted_by_rank(entries),
                seq_to_map(entries) == self@.contract.pools,
                n == entries.len(),
                n == pools.spec_len(),
                self@.contract.pools.dom().is_empty() ==> n == 0,
                i <= n,
                infos@.len() == i,
                forall|k: int| 0 <= k < i ==> (#[trigger] infos@[k]).0 == entries[k].0,
                forall|k: int| 0 <= k < i ==> entries[k].1.pool_info_answer(Side::Left)
                    == Ok::<PoolInfo<P::Price, P::Liquidity>, Error>((#[trigger] infos@[k]).1),
            decreases n - i,
        {
            let (id, pool) = pools.entry_at_index(i);
            match pool.pool_info(Side::Left) {
                Ok(info) => infos.push((*id, info)),
                Err(e) => {
                    proof {
                        lemma_key_index(entries, i as int);
                        let failed = entries[i as int].0;
                        assert forall|other: PoolId| #[trigger]
                            self@.contract.pools.contains_key(other) && other.rank() < failed.rank()
                            implies self@.contract.pools[other].pool_info_answer(Side::Left) is Ok by {
                            assert(seq_has_key(entries, other));
                            let j = seq_key_index(entries, other);
                            lemma_key_index(entries, j);
                            if j >= i {
                                if j > i {
                                    assert(entries[i as int].0.rank() < entries[j].0.rank());
                                }
                            }
                            assert(infos@[j].0 == entries[j].0);
                        }
                    }
                    return Err(e);
                },
            }
            i += 1;
        }
        proof {
            assert forall|k: int| 0 <= k < infos@.len() implies self@.contract.pools[(#[trigger] infos@[k]).0].pool_info_answer(
                Side::Left,
            ) == Ok::<PoolInfo<P::Price, P::Liquidity>, Error>(infos@[k].1) by {
                lemma_key_index(entries, k);
            }
            assert forall|k: int| 0 <= k < infos@.len() implies self@.contract.pools.contains_key(
                #[trigger] infos@[k].0,
            ) by {
                lemma_key_index(entries, k);
            }
            assert forall|id: PoolId| #[trigger] self@.contract.pools.contains_key(id) implies exists|k: int|
                #![trigger infos@[k]]
                0 <= k < infos@.len() && infos@[k].0 == id by {
                assert(seq_has_key(entries, id));
                let k = seq_key_index(entries, id);
                assert(infos@[k].0 == id);
            }
            assert forall|a: int, b: int| 0 <= a < b < infos@.len() implies (#[trigger] infos@[a]).0.rank() < (
            #[trigger] infos@[b]).0.rank() by {
                assert(entries[a].0.rank() < entries[b].0.rank());
            }
        }
        assert(lists_pools(infos@, self@.contract.pools));
        Ok(infos)
    }

    /// Number of ticks in use on fee level `fee_level` of the pool of tokens `pool`; `None`
    /// when both tokens are the same or there is no such pool.
    pub fn get_pool_ticks(&self, pool: (TokenId, TokenId), fee_level: FeeLevel) -> (r: Option<usize>)
        requires
            self.well_formed(),
            fee_level < NUM_FEE_LEVELS,
        ensures
            r is Some <==> pool.0 != pool.1 && self@.contract.pools.contains_key(PoolId::of_tokens(pool)),
            r is Some ==> r == Some(self@.contract.pools[PoolId::of_tokens(pool)].tick_count_answer(fee_level)),
    {
        let (pool_id, _swapped) = match PoolId::try_from_pair(pool) {
            Ok(found) => found,
            Err(_) => return None,
        };
        match self.contract.as_ref().pools.get(&pool_id) {
            None => None,
            Some(found) => Some(found.tick_count(fee_level)),
        }
    }

    /// Square roots of the effective prices on each fee level of the pool of tokens `tokens`,
    /// for a swap in `direction` from the first token to the second.
    ///
    /// Fails with `TokenDuplicates` when both tokens are the same and with `PoolNotRegistered`
    /// when there is no such pool.
    pub fn eff_sqrtprices(&self, tokens: (TokenId, TokenId), direction: Side) -> (r: Result<[P::Price; 8]>)
        requires
            self.well_formed(),
        ensures
            tokens.0 == tokens.1 ==> (r matches Err(e) && e == Error { kind: ErrorKind::TokenDuplicates }),
            tokens.0 != tokens.1 && !self@.contract.pools.contains_key(PoolId::of_tokens(tokens)) ==> (
            r matches Err(e) && e == Error { kind: ErrorKind::PoolNotRegistered }),
            tokens.0 != tokens.1 && self@.contract.pools.contains_key(PoolId::of_tokens(tokens)) ==> (
            r matches Ok(prices) && forall|level: int|
                0 <= level < 8 ==> (#[trigger] prices@[level]) == self@.contract.pools[PoolId::of_tokens(
                    tokens,
                )].eff_sqrtprice_answer(level as FeeLevel, swap_side(direction, tokens.0, tokens.1))),
    {
        let (pool_id, swapped) = match PoolId::try_from_pair(tokens) {
            Ok(found) => found,
            Err(kind) => return Err(Error::new(kind)),
        };
        let side = direction.opposite_if(swapped);
        match self.contract.as_ref().pools.get(&pool_id) {
            None => Err(Error::new(ErrorKind::PoolNotRegistered)),
            Some(pool) => {
                let prices = [
                    pool.eff_sqrtprice(0, side),
                    pool.eff_sqrtprice(1, side),
                    pool.eff_sqrtprice(2, side),
                    pool.eff_sqrtprice(3, side),
                    pool.eff_sqrtprice(4, side),
                    pool.eff_sqrtprice(5, side),
                    pool.eff_sqrtprice(6, side),
                    pool.eff_sqrtprice(7, side),
                ];
                assert forall|level: int| 0 <= level < 8 implies (#[trigger] prices@[level])
                    == pool.eff_sqrtprice_answer(level as FeeLevel, side) by {
                    if level == 0 {} else if level == 1 {} else if level == 2 {} else if level == 3 {} else if level == 4 {} else if level == 5 {} else if level == 6 {} else {}
                }
                Ok(prices)
            },
        }
    }

    /// What the pool of position `position_id` reports of it.
    ///
    /// Fails with `PositionDoesNotExist` when no pool holds such a position, with
    /// `PoolNotRegistered` when its pool is gone, and with the pool's failure.
    pub fn get_position_info(&self, position_id: PositionId) -> (r: Result<PositionInfo<P::Price>>)
        requires
            self.well_formed(),
        ensures
            r == position_info_outcome(self@, position_id),
    {
        let contract = self.contract.as_ref();
        let pool_id = match contract.position_to_pool_id.get(&position_id) {
            Some(pool_id) => *pool_id,
            None => return Err(Error::new(ErrorKind::PositionDoesNotExist)),
        };
        match contract.pools.get(&pool_id) {
            Some(pool) => pool.position_info(pool_id, position_id),
            None => Err(Error::new(ErrorKind::PoolNotRegistered)),
        }
    }

    /// What the pools report of each of the positions `position_ids`, in their order; `None`
    /// for a position that `get_position_info` fails on.
    pub fn get_positions_info(&self, position_ids: &[PositionId]) -> (r: Vec<Option<PositionInfo<P::Price>>>)
        requires
            self.well_formed(),
        ensures
            r@.len() == position_ids@.len(),
            forall|i: int|
                0 <= i < position_ids@.len() ==> (#[trigger] r@[i]) == ok_value(
                    position_info_outcome(self@, position_ids@[i]),
                ),
    {
        let mut infos: Vec<Option<PositionInfo<P::Price>>> = Vec::new();
        let mut i: usize = 0;
        while i < position_ids.len()
            invariant
                self.well_formed(),
                i <= position_ids@.len(),
                infos@.len() == i,
                forall|k: int|
                    0 <= k < i ==> (#[trigger] infos@[k]) == ok_value(position_info_outcome(self@, position_ids@[k])),
            decreases position_ids@.len() - i,
        {
            let info = match self.get_position_info(position_ids[i]) {
                Ok(info) => Some(info),
                Err(_) => None,
            };
            infos.push(info);
            i += 1;
        }
        infos
    }

    /// A copy of pool `id`, if there is one.
    fn pool_copy(&self, id: &PoolId) -> (r: Option<P>)
        requires
            self.well_formed(),
        ensures
            self@.contract.pools.contains_key(*id) <==> r is Some,
            r matches Some(pool) ==> pool == self@.contract.pools[*id],
    {
        match self.contract.as_ref().pools.get(id) {
            Some(pool) => Some(pool.duplicate()),
            None => None,
        }
    }

    /// The pools of the exchange, with those of `scratch` in their place.
    pub open spec fn pools_with(&self, scratch: Map<PoolId, P>) -> Map<PoolId, P> {
        self@.contract.pools.union_prefer_right(scratch)
    }

    /// Swaps from `token_in` to `token_out` on a copy of the pool, taken from `scratch` when it
    /// is there and from the exchange otherwise; the pool left by a swap that succeeds goes to
    /// `scratch`. The exchange itself does not change.
    fn swap_on(
        &self,
        scratch: &mut OrderedMap<PoolId, P>,
        token_in: &TokenId,
        token_out: &TokenId,
        swap_type: SwapKind,
        price_limit: Option<&P::PriceLimit>,
        amount: Amount,
        events: &mut Vec<DexEvent<P>>,
    ) -> (r: Result<(Amount, Amount)>)
        requires
            self.well_formed(),
            old(scratch).well_formed(),
        ensures
            final(scratch).well_formed(),
            r is Ok ==> final(events)@ == old(events)@.push(
                swap_state_event(self.pools_with(final(scratch)@), *token_in, *token_out),
            ),
            r is Err ==> final(events)@ == old(events)@,
            (r, self.pools_with(final(scratch)@)) == hop(
                self.pools_with(old(scratch)@),
                *token_in,
                *token_out,
                swap_type,
                amount,
                self@.contract.protocol_fee_fraction,
                limit_value(price_limit),
            ),
    {
        let ghost before = self.pools_with(scratch@);
        let (id, swapped) = match PoolId::try_from_pair((*token_in, *token_out)) {
            Ok(found) => found,
            Err(kind) => return Err(Error::new(kind)),
        };
        let side = if swapped {
            Side::Right
        } else {
            Side::Left
        };
        let mut pool = match scratch.get(&id) {
            Some(pool) => pool.duplicate(),
            None => match self.pool_copy(&id) {
                Some(pool) => pool,
                None => return Err(Error::new(ErrorKind::PoolNotRegistered)),
            },
        };
        assert(pool == before[id]);
        let fee = self.protocol_fee_fraction();
        let answer = match swap_type {
            SwapKind::ExactIn => pool.swap_exact_in(side, amount, fee),
            SwapKind::ExactOut => pool.swap_exact_out(side, amount, fee),
            SwapKind::ToPrice => match price_limit {
                Some(limit) => pool.swap_to_price(side, amount, limit, fee),
                None => return Err(Error::new(ErrorKind::InvalidParams)),
            },
        };
        match answer {
            Ok(t) => {
                let ghost left = pool;
                let state = pool.state_report();
                scratch.insert(id, pool);
                proof {
                    assert(self.pools_with(scratch@) =~= before.insert(id, left));
                }
                events.push(Event::UpdatePoolState { reason: PoolUpdateReason::Swap, pool: id.pair(), state });
                Ok((t.0, t.1))
            },
            Err(e) => Err(e),
        }
    }

    /// Stores the pools of `scratch` in the exchange, in place of those there.
    fn commit_pools(&mut self, scratch: OrderedMap<PoolId, P>)
        requires
            old(self).well_formed(),
            scratch.well_formed(),
        ensures
            final(self).well_formed(),
            final(self)@ == with_pools(old(self)@, old(self)@.contract.pools.union_prefer_right(scratch@)),
    {
        let mut scratch = scratch;
        let ghost target = self@.contract.pools.union_prefer_right(scratch@);
        proof {
            scratch.lemma_len();
        }
        while !scratch.is_empty()
            invariant
                self.well_formed(),
                scratch.well_formed(),
                self@ == with_pools(old(self)@, self@.contract.pools),
                self@.contract.pools.union_prefer_right(scratch@) == target,
            decreases scratch@.dom().len(),
        {
            proof {
                scratch.lemma_len();
            }
            let ghost before = scratch@;
            if let Some((id, _)) = scratch.entry_at(&KeyAt::Min) {
                let id = *id;
                if let Some(pool) = scratch.remove(&id) {
                    proof {
                        scratch.lemma_len();
                        assert(scratch@.dom() =~= before.dom().remove(id));
                    }
                    self.put_pool(id, pool);
                    proof {
                        assert(self@.contract.pools.union_prefer_right(scratch@) =~= target);
                    }
                }
            } else {
                proof {
                    assert(before.dom() =~= Set::<PoolId>::empty());
                }
            }
        }
        proof {
            scratch.lemma_len();
            assert(scratch@ =~= Map::<PoolId, P>::empty());
            assert(self@.contract.pools =~= target);
        }
    }

    /// Registers the caller's account, unless it is registered, and the tokens of `tokens` in it.
    fn register_caller(&mut self, tokens: &[TokenId])
        requires
            old(self).well_formed(),
        ensures
            final(self).well_formed(),
            final(self)@ == with_account(old(self)@, old(self)@.caller_id, registered_caller(old(self)@, tokens@)),
    {
        let caller = self.caller_id;
        let ghost s = self@;
        let (mut account, _) = self.take_account(&caller);
        account.register_tokens(tokens);
        let ghost stored = account@;
        self.put_account(caller, Account::V0(account));
        proof {
            assert(self@.contract.accounts =~= s.contract.accounts.insert(caller, stored));
        }
    }

    /// Swaps from `token_in` to `token_out`, the way `swap_type` tells, for `amount`;
    /// `effective_price_limit` bounds the effective price of a swap to a price. Registers the
    /// caller's account and both tokens; answers the amounts taken in and given out, and leaves
    /// the balances alone.
    ///
    /// Fails, changing nothing, with `PayableAPISuspended` while the payable methods are
    /// suspended, with `TokenDuplicates` when both tokens are the same, with
    /// `PoolNotRegistered` when there is no such pool, and with the pool's failure.
    pub fn swap(
        &mut self,
        token_in: &TokenId,
        token_out: &TokenId,
        swap_type: SwapKind,
        effective_price_limit: Option<&P::PriceLimit>,
        amount: Amount,
    ) -> (r: Result<(Amount, Amount)>)
        requires
            old(self).well_formed(),
        ensures
            final(self).well_formed(),
            (r, final(self)@) == swap_outcome(
                old(self)@,
                *token_in,
                *token_out,
                swap_type,
                amount,
                limit_value(effective_price_limit),
            ),
    {
        let ghost s = self@;
        let ghost limit = limit_value(effective_price_limit);
        if let Err(e) = self.ensure_payable_api_resumed() {
            return Err(e);
        }
        let mut scratch: OrderedMap<PoolId, P> = OrderedMap::new();
        proof {
            assert(self.pools_with(scratch@) =~= s.contract.pools);
        }
        let mut events: Vec<DexEvent<P>> = Vec::new();
        let r = self.swap_on(&mut scratch, token_in, token_out, swap_type, effective_price_limit, amount, &mut events);
        match r {
            Err(e) => {
                assert((Err::<(Amount, Amount), Error>(e), self@) == swap_outcome(s, *token_in, *token_out, swap_type, amount, limit));
                Err(e)
            },
            Ok(t) => {
                let tokens = vec![*token_in, *token_out];
                assert(tokens@ =~= seq![*token_in, *token_out]);
                self.register_caller(tokens.as_slice());
                self.commit_pools(scratch);
                self.events.append(&mut events);
                assert(self@.events =~= s.events.push(swap_state_event(self@.contract.pools, *token_in, *token_out)));
                assert((Ok::<(Amount, Amount), Error>(t), self@) == swap_outcome(s, *token_in, *token_out, swap_type, amount, limit));
                Ok(t)
            },
        }
    }

    /// A copy of account `id`, if there is one.
    fn account_copy(&self, id: &AccountId) -> (r: Option<AccountV0>)
        requires
            self.well_formed(),
        ensures
            r is Some <==> self@.contract.accounts.contains_key(*id),
            r matches Some(a) ==> a.well_formed() && a@ == self@.contract.accounts[*id],
    {
        match self.contract.as_ref().accounts.get(id) {
            Some(Account::V0(a)) => Some(a.copied()),
            None => None,
        }
    }

    /// A view of account `id` for an operation, the account being `account`.
    fn view_for(&self, id: AccountId, account: AccountV0) -> (v: AccountViewMut<'_, P>)
        requires
            self.well_formed(),
            account.well_formed(),
        ensures
            v.well_formed(),
            v@ == view_of(self@, id, account@),
            v.base() == self@.contract.pools,
            v.fee_fraction() == self@.contract.protocol_fee_fraction,
    {
        let contract = self.contract.as_ref();
        AccountViewMut::new(
            id,
            account,
            contract.pools,
            contract.pool_count,
            contract.next_free_position_id,
            contract.position_to_pool_id.copied(),
            contract.protocol_fee_fraction,
        )
    }

    /// Stores what an operation on account `id` worked out: the account, the pools that
    /// changed, the position counters, the map of positions to pools, and the events.
    fn commit_view(
        &mut self,
        id: AccountId,
        account: AccountV0,
        pools: OrderedMap<PoolId, P>,
        pool_count: u64,
        next_free_position_id: u64,
        position_to_pool_id: PositionToPoolMap,
        events: Vec<DexEvent<P>>,
    )
        requires
            old(self).well_formed(),
            account.well_formed(),
            pools.well_formed(),
            position_to_pool_id.well_formed(),
        ensures
            final(self).well_formed(),
            final(self)@ == committed(
                old(self)@,
                AccountViewState {
                    account_id: id,
                    account: account@,
                    pools: old(self)@.contract.pools.union_prefer_right(pools@),
                    pool_count,
                    next_free_position_id,
                    position_to_pool_id: position_to_pool_id@,
                    events: events@,
                },
            ),
    {
        let ghost s = self@;
        let ghost stored = account@;
        self.put_account(id, Account::V0(account));
        self.commit_pools(pools);
        proof {
            lemma_upgrade_keeps_state(self.contract);
        }
        let contract = self.contract.latest();
        contract.pool_count = pool_count;
        contract.next_free_position_id = next_free_position_id;
        contract.position_to_pool_id = position_to_pool_id;
        let mut events = events;
        self.events.append(&mut events);
    }

    /// Pays out the fees of position `position_id` of the caller to the caller's account;
    /// returns them.
    ///
    /// Fails, changing nothing, with `PayableAPISuspended` while the payable methods are
    /// suspended, with `AccountNotRegistered` when the caller has no account, and as
    /// `withdraw_fee_step` tells.
    pub fn withdraw_fee(&mut self, position_id: PositionId) -> (r: Result<(Amount, Amount)>)
        requires
            old(self).well_formed(),
        ensures
            final(self).well_formed(),
            account_call_refusal(old(self)@) is Some ==> r == Err::<(Amount, Amount), Error>(
                account_call_refusal(old(self)@)->Some_0,
            ) && final(self)@ == old(self)@,
            account_call_refusal(old(self)@) is None ==> match withdraw_fee_step(
                    view_of(old(self)@, old(self)@.caller_id, old(self)@.contract.accounts[old(self)@.caller_id]),
                    position_id,
                ) {
                    Ok(x) => r == Ok::<(Amount, Amount), Error>(x.0) && final(self)@ == committed(
                        old(self)@,
                        x.1,
                    ),
                    Err(e) => r == Err::<(Amount, Amount), Error>(e) && final(self)@ == old(self)@,
                },
    {
        if let Err(e) = self.ensure_payable_api_resumed() {
            return Err(e);
        }
        let caller = self.caller_id;
        let account = match self.account_copy(&caller) {
            Some(account) => account,
            None => return Err(Error::new(ErrorKind::AccountNotRegistered)),
        };
        let ghost s = self@;
        let mut view = self.view_for(caller, account);
        let ghost v0 = view@;
        let r = view.withdraw_fee(position_id);
        match r {
            Err(e) => Err(e),
            Ok(fees) => {
                let (account, pools, pool_count, next_free_position_id, position_to_pool_id, events) =
                    view.into_parts();
                self.commit_view(
                    caller,
                    account,
                    pools,
                    pool_count,
                    next_free_position_id,
                    position_to_pool_id,
                    events,
                );
                Ok(fees)
            },
        }
    }

    /// Logs the changes of liquidity at up to `number` ticks in use on fee level `fee_level` of
    /// the pool of tokens `pool`, from tick index `start_tick` on; answers the index of the
    /// last tick logged. See `ticks_log_outcome`.
    pub fn log_ticks_liquidity_change(
        &mut self,
        pool: (TokenId, TokenId),
        fee_level: FeeLevel,
        start_tick: i32,
        number: u8,
    ) -> (r: Result<i32>)
        requires
            old(self).well_formed(),
            fee_level < NUM_FEE_LEVELS,
        ensures
            final(self).well_formed(),
            (r, final(self)@) == ticks_log_outcome(old(self)@, pool, fee_level, start_tick, number),
    {
        let ghost s = self@;
        let caller = self.caller_id;
        if !self.has_account(&caller) {
            return Err(Error::new(ErrorKind::AccountNotRegistered));
        }
        let (pool_id, _swapped) = match PoolId::try_from_pair(pool) {
            Ok(found) => found,
            Err(kind) => return Err(Error::new(kind)),
        };
        let tick = match Tick::new(start_tick) {
            Ok(tick) => tick,
            Err(kind) => return Err(Error::new(kind)),
        };
        let mut changes = match self.contract.as_ref().pools.get(&pool_id) {
            None => return Err(Error::new(ErrorKind::PoolNotRegistered)),
            Some(found) => found.ticks_liquidity_change(fee_level, Side::Left, tick, number),
        };
        let ghost all = changes@;
        let n = changes.len();
        if n == 0 {
            return Err(Error::new(ErrorKind::InternalTickNotFound));
        }
        let last = changes[n - 1].0.index();
        let tokens = pool_id.pair();
        let ghost logged_events = all.map_values(
            |c: (Tick, P::Price)| tick_update_event::<P::Price, P::Liquidity>(pool_id, fee_level, c),
        );
        let mut i: usize = 0;
        while i < n
            invariant
                self.well_formed(),
                i <= n,
                n == all.len(),
                tokens == pool_id.spec_pair(),
                changes@ == all.skip(i as int),
                self@ == logged_all(s, logged_events.take(i as int)),
                logged_events == all.map_values(
                    |c: (Tick, P::Price)| tick_update_event::<P::Price, P::Liquidity>(pool_id, fee_level, c),
                ),
            decreases n - i,
        {
            let ghost before = self@;
            let (change_tick, liquidity_change) = changes.remove(0);
            let index = change_tick.index();
            self.events.push(Event::TickUpdate { pool: tokens, fee_level, tick: index, liquidity_change });
            proof {
                assert(all[i as int] == (change_tick, liquidity_change));
                assert(logged_events.take(i + 1) =~= logged_events.take(i as int).push(logged_events[i as int]));
                assert(self@.events =~= s.events + logged_events.take(i + 1));
                assert(changes@ =~= all.skip(i + 1));
            }
            i += 1;
        }
        proof {
            assert(logged_events.take(n as int) =~= logged_events);
        }
        Ok(last)
    }

    /// Closes position `position_id` of the caller, crediting the caller's account what it
    /// held and its fees.
    ///
    /// Fails, changing nothing, with `PayableAPISuspended` while the payable methods are
    /// suspended, with `AccountNotRegistered` when the caller has no account, and as
    /// `close_position_step` tells.
    pub fn close_position(&mut self, position_id: PositionId) -> (r: Result<()>)
        requires
            old(self).well_formed(),
        ensures
            final(self).well_formed(),
            account_call_refusal(old(self)@) is Some ==> r == Err::<(), Error>(
                account_call_refusal(old(self)@)->Some_0,
            ) && final(self)@ == old(self)@,
            account_call_refusal(old(self)@) is None ==> match close_position_step(
                    view_of(old(self)@, old(self)@.caller_id, old(self)@.contract.accounts[old(self)@.caller_id]),
                    position_id,
                ) {
                    Ok(v) => r is Ok && final(self)@ == committed(old(self)@, v),
                    Err(e) => r == Err::<(), Error>(e) && final(self)@ == old(self)@,
                },
    {
        if let Err(e) = self.ensure_payable_api_resumed() {
            return Err(e);
        }
        let caller = self.caller_id;
        let account = match self.account_copy(&caller) {
            Some(account) => account,
            None => return Err(Error::new(ErrorKind::AccountNotRegistered)),
        };
        let ghost s = self@;
        let mut view = self.view_for(caller, account);
        let ghost v0 = view@;
        let r = view.close_position(position_id);
        match r {
            Err(e) => Err(e),
            Ok(()) => {
                let (account, pools, pool_count, next_free_position_id, position_to_pool_id, events) =
                    view.into_parts();
                self.commit_view(
                    caller,
                    account,
                    pools,
                    pool_count,
                    next_free_position_id,
                    position_to_pool_id,
                    events,
                );
                Ok(())
            },
        }
    }

    /// Opens a position of the caller on the pool of `token_a` and `token_b`, at fee rate
    /// `fee_rate`, registering the caller's account and both tokens where needed; returns the
    /// position's identifier, the amounts deposited in the order of the tokens given, and the
    /// position's net liquidity.
    ///
    /// Fails, changing nothing, with `PayableAPISuspended` while the payable methods are
    /// suspended, and as `open_position_step` tells.
    pub fn open_position(
        &mut self,
        token_a: &TokenId,
        token_b: &TokenId,
        fee_rate: BasisPoints,
        position: PositionInit,
    ) -> (r: Result<(PositionId, Amount, Amount, P::Liquidity)>)
        requires
            old(self).well_formed(),
        ensures
            final(self).well_formed(),
            old(self)@.contract.suspended ==> r == Err::<(PositionId, Amount, Amount, P::Liquidity), Error>(
                suspended_error(),
            ) && final(self)@ == old(self)@,
            !old(self)@.contract.suspended ==> match open_position_step(
                    view_of(
                        old(self)@,
                        old(self)@.caller_id,
                        registered_caller(old(self)@, token_pair(*token_a, *token_b)),
                    ),
                    *token_a,
                    *token_b,
                    fee_rate,
                    position,
                ) {
                    Ok(x) => r == Ok::<(PositionId, Amount, Amount, P::Liquidity), Error>(x.0)
                        && final(self)@ == committed(old(self)@, x.1),
                    Err(e) => r == Err::<(PositionId, Amount, Amount, P::Liquidity), Error>(e)
                        && final(self)@ == old(self)@,
                },
    {
        if let Err(e) = self.ensure_payable_api_resumed() {
            return Err(e);
        }
        let caller = self.caller_id;
        let mut account = match self.account_copy(&caller) {
            Some(account) => account,
            None => AccountV0::new(),
        };
        let tokens = vec![*token_a, *token_b];
        assert(tokens@ =~= token_pair(*token_a, *token_b));
        account.register_tokens(tokens.as_slice());
        let ghost s = self@;
        assert(account@.balances =~= registered_caller(s, token_pair(*token_a, *token_b)).balances);
        assert(account@.positions =~= registered_caller(s, token_pair(*token_a, *token_b)).positions);
        let mut view = self.view_for(caller, account);
        let ghost v0 = view@;
        let r = view.open_position(token_a, token_b, fee_rate, position);
        match r {
            Err(e) => Err(e),
            Ok(opened) => {
                let (account, pools, pool_count, next_free_position_id, position_to_pool_id, events) =
                    view.into_parts();
                self.commit_view(
                    caller,
                    account,
                    pools,
                    pool_count,
                    next_free_position_id,
                    position_to_pool_id,
                    events,
                );
                Ok(opened)
            },
        }
    }

    /// Opens a position of the caller over the whole tick range, depositing at most `amount_a`
    /// of `token_a` and `amount_b` of `token_b`; see `open_position`.
    pub fn open_position_full(
        &mut self,
        token_a: &TokenId,
        token_b: &TokenId,
        fee_rate: BasisPoints,
        amount_a: Amount,
        amount_b: Amount,
    ) -> (r: Result<(PositionId, Amount, Amount, P::Liquidity)>)
        requires
            old(self).well_formed(),
        ensures
            final(self).well_formed(),
            old(self)@.contract.suspended ==> r == Err::<(PositionId, Amount, Amount, P::Liquidity), Error>(
                suspended_error(),
            ) && final(self)@ == old(self)@,
            !old(self)@.contract.suspended ==> match open_position_step(
                    view_of(
                        old(self)@,
                        old(self)@.caller_id,
                        registered_caller(old(self)@, token_pair(*token_a, *token_b)),
                    ),
                    *token_a,
                    *token_b,
                    fee_rate,
                    full_range_position(amount_a, amount_b),
                ) {
                    Ok(x) => r == Ok::<(PositionId, Amount, Amount, P::Liquidity), Error>(x.0)
                        && final(self)@ == committed(old(self)@, x.1),
                    Err(e) => r == Err::<(PositionId, Amount, Amount, P::Liquidity), Error>(e)
                        && final(self)@ == old(self)@,
                },
    {
        self.open_position(
            token_a,
            token_b,
            fee_rate,
            PositionInit {
                amount_ranges: (Range { min: 1, max: amount_a }, Range { min: 1, max: amount_b }),
                ticks_range: (None, None),
            },
        )
    }

    /// Performs the batch of `actions` for account `account_id`, `deposit_data` having come
    /// with it; registers the account first with `register_account_cb`. Either all of it is
    /// stored, or, on a failure, nothing changes. See `batch_outcome`.
    pub fn execute_actions_impl<F>(
        &mut self,
        account_id: &AccountId,
        deposit_data: &[DepositPayment],
        register_account_cb: F,
        actions: Vec<Action<P::PriceLimit>>,
    ) -> (r: Result<Vec<ActionResult>>) where F: FnOnce(&AccountId, &mut Account, bool) -> Result<()>
        requires
            old(self).well_formed(),
            forall|id: &AccountId, a: &mut Account, found: bool| #[trigger]
                call_requires(register_account_cb, (id, a, found)),
            forall|id: &AccountId, a: &mut Account, found: bool, res: Result<()>|
                #[trigger] call_ensures(register_account_cb, (id, a, found), res) && (*a).well_formed()
                    ==> (*final(a)).well_formed(),
        ensures
            final(self).well_formed(),
            exists|a: &mut Account, registration: Result<()>|
                {
                    &&& !old(self)@.contract.suspended ==> (*a)@ == account_or_new(old(self)@.contract.accounts, *account_id)
                        && call_ensures(
                        register_account_cb,
                        (account_id, a, old(self)@.contract.accounts.contains_key(*account_id)),
                        registration,
                    )
                    &&& match #[trigger] batch_outcome(
                        old(self)@,
                        *account_id,
                        deposit_data@,
                        registration,
                        (*final(a))@,
                        actions@,
                    ) {
                        Ok(x) => r is Ok && r->Ok_0@ == x.0 && final(self)@ == committed(old(self)@, x.1),
                        Err(e) => r == Err::<Vec<ActionResult>, Error>(e) && final(self)@ == old(self)@,
                    }
                },
    {
        let ghost s = self@;
        if let Err(e) = self.ensure_payable_api_resumed() {
            let ghost a: &mut Account = arbitrary();
            assert(batch_outcome(s, *account_id, deposit_data@, Ok(()), (*final(a))@, actions@) == Err::<(Seq<ActionResult>, AccountViewState<P>), Error>(e));
            return Err(e);
        }
        let present = self.has_account(account_id);
        let copy = match self.account_copy(account_id) {
            Some(account) => account,
            None => AccountV0::new(),
        };
        let mut account = Account::V0(copy);
        let ghost initial = account;
        let registration = register_account_cb(account_id, &mut account, present);
        let ghost w = choose|a: &mut Account|
            *a == initial && *final(a) == account && call_ensures(register_account_cb, (account_id, a, present), registration);
        assert(call_ensures(register_account_cb, (account_id, w, present), registration));
        assert((*w)@ == account_or_new(s.contract.accounts, *account_id));
        if let Err(e) = registration {
            assert(batch_outcome(s, *account_id, deposit_data@, registration, (*final(w))@, actions@) == Err::<(Seq<ActionResult>, AccountViewState<P>), Error>(e));
            return Err(e);
        }
        let Account::V0(registered) = account;
        let mut view = self.view_for(*account_id, registered);
        let mut deposit_handled = false;
        let mut prev_swap: Option<(TokenId, SwapKind, Amount)> = None;
        let mut results: Vec<ActionResult> = Vec::new();
        let n = actions.len();
        let first = n > 0 && matches!(actions[0], Action::RegisterAccount);
        let start: usize = if first {
            results.push(ActionResult::RegisterAccount);
            1
        } else {
            0
        };
        let ghost rest = actions@.subrange(start as int, n as int);
        let ghost b0 = batch_state(view@, false, None, results@);
        assert(results@ =~= (if first { seq![ActionResult::RegisterAccount] } else { Seq::<ActionResult>::empty() }));
        let mut i: usize = start;
        while i < n
            invariant
                self.well_formed(),
                self@ == s,
                !s.contract.suspended,
                registration is Ok,
                s == old(self)@,
                present == s.contract.accounts.contains_key(*account_id),
                (*w)@ == account_or_new(s.contract.accounts, *account_id),
                call_ensures(register_account_cb, (account_id, w, present), registration),
                first == (actions@.len() > 0 && actions@[0] is RegisterAccount),
                start == (if first {
                    1usize
                } else {
                    0usize
                }),
                b0 == batch_state(
                    view_of(s, *account_id, (*final(w))@),
                    false,
                    None,
                    if first {
                        seq![ActionResult::RegisterAccount]
                    } else {
                        Seq::empty()
                    },
                ),
                start <= i <= n,
                n == actions@.len(),
                rest == actions@.subrange(start as int, n as int),
                view.well_formed(),
                view.base() == s.contract.pools,
                view.fee_fraction() == s.contract.protocol_fee_fraction,
                view@.account_id == *account_id,
                actions_fold(b0, deposit_data@, rest, s.contract.protocol_fee_fraction, (i - start) as nat) == Ok::<BatchState<P>, Error>(
                    batch_state(view@, deposit_handled, prev_swap, results@),
                ),
            decreases n - i,
        {
            let ghost before = batch_state(view@, deposit_handled, prev_swap, results@);
            let r = execute_action(&mut view, &mut deposit_handled, &mut prev_swap, &mut results, deposit_data, &actions[i]);
            let ghost action = actions@[i as int];
            assert(rest[i - start] == action);
            if let Err(e) = r {
                proof {
                    lemma_actions_failure(
                        b0,
                        deposit_data@,
                        rest,
                        s.contract.protocol_fee_fraction,
                        (i + 1 - start) as nat,
                        rest.len(),
                    );
                }
                assert(batch_outcome(s, *account_id, deposit_data@, registration, (*final(w))@, actions@) == Err::<(Seq<ActionResult>, AccountViewState<P>), Error>(e));
                return Err(e);
            }
            i += 1;
        }
        if !deposit_handled && deposit_data.len() != 0 {
            let e = Error::new(ErrorKind::DepositNotHandled);
            assert(batch_outcome(s, *account_id, deposit_data@, registration, (*final(w))@, actions@) == Err::<(Seq<ActionResult>, AccountViewState<P>), Error>(e));
            return Err(e);
        }
        let ghost done = view@;
        let (account, pools, pool_count, next_free_position_id, position_to_pool_id, events) =
            view.into_parts();
        self.commit_view(
            *account_id,
            account,
            pools,
            pool_count,
            next_free_position_id,
            position_to_pool_id,
            events,
        );
        assert(batch_outcome(s, *account_id, deposit_data@, registration, (*final(w))@, actions@) == Ok::<(Seq<ActionResult>, AccountViewState<P>), Error>((results@, done)));
        Ok(results)
    }

    /// Performs the batch of `actions` for account `account_id`, registering the account
    /// first with `register_account_cb`; returns the transfers its withdrawals ask for and the
    /// amount its last swap produced. Either all of it is stored, or, on a failure, nothing
    /// changes. See `batch_outcome`.
    pub fn execute_actions_for<F>(
        &mut self,
        account_id: &AccountId,
        register_account_cb: F,
        actions: Vec<Action<P::PriceLimit>>,
    ) -> (r: Result<(Vec<SendTokens>, Option<Amount>)>) where
        F: FnOnce(&AccountId, &mut Account, bool) -> Result<()>,
        requires
            old(self).well_formed(),
            forall|id: &AccountId, a: &mut Account, found: bool| #[trigger]
                call_requires(register_account_cb, (id, a, found)),
            forall|id: &AccountId, a: &mut Account, found: bool, res: Result<()>|
                #[trigger] call_ensures(register_account_cb, (id, a, found), res) && (*a).well_formed()
                    ==> (*final(a)).well_formed(),
        ensures
            final(self).well_formed(),
            exists|a: &mut Account, registration: Result<()>|
                {
                    &&& !old(self)@.contract.suspended ==> (*a)@ == account_or_new(old(self)@.contract.accounts, *account_id)
                        && call_ensures(
                        register_account_cb,
                        (account_id, a, old(self)@.contract.accounts.contains_key(*account_id)),
                        registration,
                    )
                    &&& match #[trigger] batch_outcome(
                        old(self)@,
                        *account_id,
                        Seq::<DepositPayment>::empty(),
                        registration,
                        (*final(a))@,
                        actions@,
                    ) {
                        Ok(x) => r is Ok && r->Ok_0.0@ == sends_of(x.0) && r->Ok_0.1 == last_swap_amount(x.0)
                            && final(self)@ == committed(old(self)@, x.1),
                        Err(e) => r == Err::<(Vec<SendTokens>, Option<Amount>), Error>(e) && final(self)@
                            == old(self)@,
                    }
                },
    {
        let no_deposits: Vec<DepositPayment> = Vec::new();
        let r = self.execute_actions_impl(account_id, no_deposits.as_slice(), register_account_cb, actions);
        match r {
            Ok(results) => Ok(collect_outputs(&results)),
            Err(e) => Err(e),
        }
    }

    /// Performs the batch of `actions` for the caller; see `execute_actions_for`.
    #[verifier::spinoff_prover]
    pub fn execute_actions<F>(&mut self, register_account_cb: F, actions: Vec<Action<P::PriceLimit>>) -> (r:
        Result<(Vec<SendTokens>, Option<Amount>)>) where
        F: FnOnce(&AccountId, &mut Account, bool) -> Result<()>,
        requires
            old(self).well_formed(),
            forall|id: &AccountId, a: &mut Account, found: bool| #[trigger]
                call_requires(register_account_cb, (id, a, found)),
            forall|id: &AccountId, a: &mut Account, found: bool, res: Result<()>|
                #[trigger] call_ensures(register_account_cb, (id, a, found), res) && (*a).well_formed()
                    ==> (*final(a)).well_formed(),
        ensures
            final(self).well_formed(),
            exists|a: &mut Account, registration: Result<()>|
                {
                    &&& !old(self)@.contract.suspended ==> (*a)@ == account_or_new(old(self)@.contract.accounts, old(self)@.caller_id)
                        && call_ensures(
                        register_account_cb,
                        (&old(self)@.caller_id, a, old(self)@.contract.accounts.contains_key(old(self)@.caller_id)),
                        registration,
                    )
                    &&& match #[trigger] batch_outcome(
                        old(self)@,
                        old(self)@.caller_id,
                        Seq::<DepositPayment>::empty(),
                        registration,
                        (*final(a))@,
                        actions@,
                    ) {
                        Ok(x) => r is Ok && r->Ok_0.0@ == sends_of(x.0) && r->Ok_0.1 == last_swap_amount(x.0)
                            && final(self)@ == committed(old(self)@, x.1),
                        Err(e) => r == Err::<(Vec<SendTokens>, Option<Amount>), Error>(e) && final(self)@
                            == old(self)@,
                    }
                },
    {
        let caller = self.caller_id;
        self.execute_actions_for(&caller, register_account_cb, actions)
    }

    /// Performs the batch of `actions` that came with the deposits of `deposit_data` for
    /// account `account_id`, registering the account first with `register_account_cb`; returns
    /// the transfers its withdrawals ask for. The account must be the signer of the
    /// transaction (else `DepositSenderMustBeSigner`), and a `Deposit` action must take the
    /// deposits. Either all of it is stored, or, on a failure, nothing changes. See
    /// `batch_outcome`.
    pub fn deposit_execute_actions<F>(
        &mut self,
        account_id: &AccountId,
        deposit_data: &[DepositPayment],
        register_account_cb: F,
        actions: Vec<Action<P::PriceLimit>>,
    ) -> (r: Result<Vec<SendTokens>>) where F: FnOnce(&AccountId, &mut Account, bool) -> Result<()>
        requires
            old(self).well_formed(),
            forall|id: &AccountId, a: &mut Account, found: bool| #[trigger]
                call_requires(register_account_cb, (id, a, found)),
            forall|id: &AccountId, a: &mut Account, found: bool, res: Result<()>|
                #[trigger] call_ensures(register_account_cb, (id, a, found), res) && (*a).well_formed()
                    ==> (*final(a)).well_formed(),
        ensures
            final(self).well_formed(),
            old(self)@.contract.suspended ==> r == Err::<Vec<SendTokens>, Error>(suspended_error())
                && final(self)@ == old(self)@,
            !old(self)@.contract.suspended && *account_id != old(self)@.initiator_id ==> r == Err::<
                Vec<SendTokens>,
                Error,
            >(Error { kind: ErrorKind::DepositSenderMustBeSigner }) && final(self)@ == old(self)@,
            !old(self)@.contract.suspended && *account_id == old(self)@.initiator_id ==> exists|
                a: &mut Account,
                registration: Result<()>,
            |
                {
                    &&& (*a)@ == account_or_new(old(self)@.contract.accounts, *account_id) && call_ensures(
                        register_account_cb,
                        (account_id, a, old(self)@.contract.accounts.contains_key(*account_id)),
                        registration,
                    )
                    &&& match #[trigger] batch_outcome(
                        old(self)@,
                        *account_id,
                        deposit_data@,
                        registration,
                        (*final(a))@,
                        actions@,
                    ) {
                        Ok(x) => r is Ok && r->Ok_0@ == sends_of(x.0) && final(self)@ == committed(
                            old(self)@,
                            x.1,
                        ),
                        Err(e) => r == Err::<Vec<SendTokens>, Error>(e) && final(self)@ == old(self)@,
                    }
                },
    {
        if let Err(e) = self.ensure_payable_api_resumed() {
            return Err(e);
        }
        if *account_id != self.initiator_id {
            return Err(Error::new(ErrorKind::DepositSenderMustBeSigner));
        }
        let r = self.execute_actions_impl(account_id, deposit_data, register_account_cb, actions);
        match r {
            Ok(results) => Ok(collect_outputs(&results).0),
            Err(e) => Err(e),
        }
    }

    /// Swaps along `tokens` and books the amounts on the caller's account; see
    /// `swap_path_outcome`.
    fn swap_path(&mut self, tokens: &[TokenId], kind: SwapKind, amount: Amount, limit: Amount) -> (r:
        Result<(Amount, Amount)>)
        requires
            old(self).well_formed(),
            kind != SwapKind::ToPrice,
        ensures
            final(self).well_formed(),
            (r, final(self)@) == swap_path_outcome(old(self)@, tokens@, kind, amount, limit),
    {
        let ghost s = self@;
        if tokens.len() < 2 {
            let e = Error::new(ErrorKind::AtLeastOneSwap);
            assert((Err::<(Amount, Amount), Error>(e), self@) == swap_path_outcome(s, tokens@, kind, amount, limit));
            return Err(e);
        }
        if let Err(e) = self.ensure_payable_api_resumed() {
            assert((Err::<(Amount, Amount), Error>(e), self@) == swap_path_outcome(s, tokens@, kind, amount, limit));
            return Err(e);
        }
        let n = tokens.len();
        let mut scratch: OrderedMap<PoolId, P> = OrderedMap::new();
        proof {
            assert(self.pools_with(scratch@) =~= s.contract.pools);
        }
        let mut events: Vec<DexEvent<P>> = Vec::new();
        let r = self.swap_along(&mut scratch, tokens, kind, amount, &mut events);
        let current = match r {
            Err(e) => {
                assert((Err::<(Amount, Amount), Error>(e), self@) == swap_path_outcome(s, tokens@, kind, amount, limit));
                return Err(e);
            },
            Ok(x) => x,
        };
        let amounts = if kind == SwapKind::ExactOut {
            (current, amount)
        } else {
            (amount, current)
        };
        let slipped = if kind == SwapKind::ExactOut {
            amounts.0 > limit
        } else {
            amounts.1 < limit
        };
        if slipped {
            let e = Error::new(ErrorKind::Slippage);
            assert((Err::<(Amount, Amount), Error>(e), self@) == swap_path_outcome(s, tokens@, kind, amount, limit));
            return Err(e);
        }
        match self.book_swap(tokens, amounts, scratch, events) {
            Err(e) => {
                assert((Err::<(Amount, Amount), Error>(e), self@) == swap_path_outcome(s, tokens@, kind, amount, limit));
                Err(e)
            },
            Ok(()) => {
                assert((Ok::<(Amount, Amount), Error>(amounts), self@) == swap_path_outcome(s, tokens@, kind, amount, limit));
                Ok(amounts)
            },
        }
    }

    /// Books a swap along `tokens` that took `amounts.0` of the first token and gave
    /// `amounts.1` of the last one: registers the caller's account with the tokens, debits and
    /// credits it, stores the pools of `scratch` and logs the swap. Changes nothing when booking
    /// fails.
    fn book_swap(
        &mut self,
        tokens: &[TokenId],
        amounts: (Amount, Amount),
        scratch: OrderedMap<PoolId, P>,
        pool_events: Vec<DexEvent<P>>,
    ) -> (r: Result<()>)
        requires
            old(self).well_formed(),
            scratch.well_formed(),
            tokens@.len() >= 1,
        ensures
            final(self).well_formed(),
            (r, final(self)@) == booked_swap(
                old(self)@,
                tokens@,
                amounts,
                old(self)@.contract.pools.union_prefer_right(scratch@),
                pool_events@,
            ),
    {
        let mut pool_events = pool_events;
        let ghost s = self@;
        let n = tokens.len();
        let caller = self.caller_id;
        let first = tokens[0];
        let last = tokens[n - 1];
        let (mut account, present) = self.take_account(&caller);
        let backup = account.copied();
        account.register_tokens(tokens);
        let ghost registered = account@;
        if let Err(e) = account.withdraw(&first, amounts.0) {
            if present {
                self.put_account(caller, Account::V0(backup));
            }
            proof {
                assert(self@.contract.accounts =~= s.contract.accounts);
            }
            return Err(e);
        }
        let ghost debited = account@;
        if let Err(e) = account.deposit(&last, amounts.1) {
            if present {
                self.put_account(caller, Account::V0(backup));
            }
            proof {
                assert(self@.contract.accounts =~= s.contract.accounts);
            }
            return Err(e);
        }
        proof {
            assert(registered == registered_caller(s, tokens@));
            assert(debit(Ok(registered), first, amounts.0) == Ok::<AccountState, Error>(debited));
            assert(credit(Ok(debited), last, amounts.1) == Ok::<AccountState, Error>(account@));
        }
        let ghost stored = account@;
        self.put_account(caller, Account::V0(account));
        proof {
            assert(self@.contract.accounts =~= s.contract.accounts.insert(caller, stored));
        }
        self.commit_pools(scratch);
        self.events.append(&mut pool_events);
        self.events.push(
            Event::Swap {
                user: caller,
                token_in: first,
                token_out: last,
                amount_in: amounts.0,
                amount_out: amounts.1,
            },
        );
        Ok(())
    }

    /// Swaps at most `amount_in` of the first of `tokens` for the second, until the effective
    /// price reaches `effective_price_limit`, and books the amounts on the caller's account;
    /// answers the amounts taken in and given out. See `swap_to_price_outcome`.
    pub fn swap_to_price(&mut self, tokens: &[TokenId], amount_in: Amount, effective_price_limit: P::PriceLimit) -> (r:
        Result<(Amount, Amount)>)
        requires
            old(self).well_formed(),
        ensures
            final(self).well_formed(),
            (r, final(self)@) == swap_to_price_outcome(old(self)@, tokens@, amount_in, effective_price_limit),
    {
        let ghost s = self@;
        if tokens.len() != 2 {
            let e = Error::new(ErrorKind::ExactOneSwap);
            assert((Err::<(Amount, Amount), Error>(e), self@) == swap_to_price_outcome(s, tokens@, amount_in, effective_price_limit));
            return Err(e);
        }
        if let Err(e) = self.ensure_payable_api_resumed() {
            assert((Err::<(Amount, Amount), Error>(e), self@) == swap_to_price_outcome(s, tokens@, amount_in, effective_price_limit));
            return Err(e);
        }
        let mut scratch: OrderedMap<PoolId, P> = OrderedMap::new();
        proof {
            assert(self.pools_with(scratch@) =~= s.contract.pools);
        }
        let mut events: Vec<DexEvent<P>> = Vec::new();
        let r = self.swap_on(
            &mut scratch,
            &tokens[0],
            &tokens[1],
            SwapKind::ToPrice,
            Some(&effective_price_limit),
            amount_in,
            &mut events,
        );
        let amounts = match r {
            Err(e) => {
                assert((Err::<(Amount, Amount), Error>(e), self@) == swap_to_price_outcome(s, tokens@, amount_in, effective_price_limit));
                return Err(e);
            },
            Ok(t) => t,
        };
        match self.book_swap(tokens, amounts, scratch, events) {
            Err(e) => {
                assert((Err::<(Amount, Amount), Error>(e), self@) == swap_to_price_outcome(s, tokens@, amount_in, effective_price_limit));
                Err(e)
            },
            Ok(()) => {
                assert((Ok::<(Amount, Amount), Error>(amounts), self@) == swap_to_price_outcome(s, tokens@, amount_in, effective_price_limit));
                Ok(amounts)
            },
        }
    }

    /// Swaps `amount_in` of the first token of `tokens` along them, for at least
    /// `min_amount_out` of the last one; answers the amounts taken in and given out. See
    /// `swap_path_outcome`.
    pub fn swap_exact_in(&mut self, tokens: &[TokenId], amount_in: Amount, min_amount_out: Amount) -> (r:
        Result<(Amount, Amount)>)
        requires
            old(self).well_formed(),
        ensures
            final(self).well_formed(),
            (r, final(self)@) == swap_path_outcome(old(self)@, tokens@, SwapKind::ExactIn, amount_in, min_amount_out),
    {
        self.swap_path(tokens, SwapKind::ExactIn, amount_in, min_amount_out)
    }

    /// Swaps along `tokens` for `amount_out` of the last one, taking at most `max_amount_in` of
    /// the first one; answers the amounts taken in and given out. See `swap_path_outcome`.
    pub fn swap_exact_out(&mut self, tokens: &[TokenId], amount_out: Amount, max_amount_in: Amount) -> (r:
        Result<(Amount, Amount)>)
        requires
            old(self).well_formed(),
        ensures
            final(self).well_formed(),
            (r, final(self)@) == swap_path_outcome(old(self)@, tokens@, SwapKind::ExactOut, amount_out, max_amount_in),
    {
        self.swap_path(tokens, SwapKind::ExactOut, amount_out, max_amount_in)
    }

    /// Swaps along `tokens` on copies of the pools, taken from `scratch` when they are there
    /// and from the exchange otherwise, the first swap handed `amount` and each later one the
    /// amount the one before took in (`ExactOut`) or gave out (otherwise); answers the last
    /// amount. The pools the swaps leave go to `scratch`; the exchange itself does not change.
    fn swap_along(
        &self,
        scratch: &mut OrderedMap<PoolId, P>,
        tokens: &[TokenId],
        kind: SwapKind,
        amount: Amount,
        events: &mut Vec<DexEvent<P>>,
    ) -> (r: Result<Amount>)
        requires
            self.well_formed(),
            old(scratch).well_formed(),
        ensures
            final(scratch).well_formed(),
            r is Ok ==> final(events)@ == old(events)@ + chain_events(
                self.pools_with(old(scratch)@),
                tokens@,
                kind,
                amount,
                self@.contract.protocol_fee_fraction,
                hops(tokens@),
            ),
            (r, self.pools_with(final(scratch)@)) == chain(
                self.pools_with(old(scratch)@),
                tokens@,
                kind,
                amount,
                self@.contract.protocol_fee_fraction,
                hops(tokens@),
            ),
    {
        let ghost start = self.pools_with(scratch@);
        let ghost fee = self@.contract.protocol_fee_fraction;
        let ghost events0 = events@;
        let n = tokens.len();
        if n < 2 {
            assert(events@ =~= events0 + chain_events(start, tokens@, kind, amount, fee, hops(tokens@)));
            assert((Ok::<Amount, Error>(amount), self.pools_with(scratch@)) == chain(start, tokens@, kind, amount, fee, hops(tokens@)));
            return Ok(amount);
        }
        let mut current = amount;
        let mut i: usize = 0;
        while i + 1 < n
            invariant
                self.well_formed(),
                scratch.well_formed(),
                n == tokens@.len(),
                2 <= n,
                i + 1 <= n,
                fee == self@.contract.protocol_fee_fraction,
                start == self.pools_with(old(scratch)@),
                events0 == old(events)@,
                events@ == events0 + chain_events(start, tokens@, kind, amount, fee, i as nat),
                (Ok::<Amount, Error>(current), self.pools_with(scratch@)) == chain(
                    start,
                    tokens@,
                    kind,
                    amount,
                    fee,
                    i as nat,
                ),
            decreases n - i,
        {
            let ghost events_before = events@;
            let r = self.swap_on(scratch, &tokens[i], &tokens[i + 1], kind, None, current, events);
            match r {
                Err(e) => {
                    proof {
                        lemma_chain_failure(start, tokens@, kind, amount, fee, (i + 1) as nat, (n - 1) as nat);
                    }
                    assert((Err::<Amount, Error>(e), self.pools_with(scratch@)) == chain(start, tokens@, kind, amount, fee, hops(tokens@)));
                    return Err(e);
                },
                Ok(t) => {
                    current = if kind == SwapKind::ExactOut {
                        t.0
                    } else {
                        t.1
                    };
                    assert(events@ =~= events0 + chain_events(start, tokens@, kind, amount, fee, (i + 1) as nat));
                },
            }
            i += 1;
        }
        assert((Ok::<Amount, Error>(current), self.pools_with(scratch@)) == chain(start, tokens@, kind, amount, fee, hops(tokens@)));
        Ok(current)
    }

    /// Swaps along each of `paths` and books the amounts on the caller's account; see
    /// `multiple_path_outcome`.
    fn swap_paths(&mut self, paths: &[Path], kind: SwapKind, limit: Amount) -> (r: Result<Vec<(Amount, Amount)>>)
        requires
            old(self).well_formed(),
            forall|i: int| 0 <= i < paths@.len() ==> (#[trigger] paths@[i]).tokens@.len() >= 1,
        ensures
            final(self).well_formed(),
            (pairs_of(r), final(self)@) == multiple_path_outcome(old(self)@, paths@, kind, limit),
    {
        let ghost s = self@;
        let ghost fee = s.contract.protocol_fee_fraction;
        if let Err(e) = self.ensure_payable_api_resumed() {
            assert((pairs_of(Err(e)), self@) == multiple_path_outcome(s, paths@, kind, limit));
            return Err(e);
        }
        let mut scratch: OrderedMap<PoolId, P> = OrderedMap::new();
        proof {
            assert(self.pools_with(scratch@) =~= s.contract.pools);
        }
        let mut pairs: Vec<(Amount, Amount)> = Vec::new();
        let mut swapped: Vec<TokenId> = Vec::new();
        let mut total: Amount = 0;
        let mut over = false;
        let mut events: Vec<DexEvent<P>> = Vec::new();
        let mut j: usize = 0;
        while j < paths.len()
            invariant
                self@ == s,
                events@ == paths_events(s.contract.pools, paths@, kind, fee, j as nat),
                s == old(self)@,
                self.well_formed(),
                scratch.well_formed(),
                !s.contract.suspended,
                j <= paths@.len(),
                fee == s.contract.protocol_fee_fraction,
                pairs@.len() == j,
                (Ok::<Seq<(Amount, Amount)>, Error>(pairs@), self.pools_with(scratch@)) == paths_chain(
                    s.contract.pools,
                    paths@,
                    kind,
                    fee,
                    j as nat,
                ),
                swapped@ == swapped_tokens(paths@, j as nat),
                over == (paths_total(pairs@, kind, j as nat) > u128::MAX),
                total == (if paths_total(pairs@, kind, j as nat) > u128::MAX {
                    u128::MAX as int
                } else {
                    paths_total(pairs@, kind, j as nat)
                }),
            decreases paths@.len() - j,
        {
            let path = &paths[j];
            let r = self.swap_along(&mut scratch, path.tokens.as_slice(), kind, path.amount, &mut events);
            match r {
                Err(e) => {
                    proof {
                        assert(paths_chain(s.contract.pools, paths@, kind, fee, j as nat).0 == Ok::<Seq<(Amount, Amount)>, Error>(pairs@));
                        assert(paths_chain(s.contract.pools, paths@, kind, fee, (j + 1) as nat).0 == Err::<Seq<(Amount, Amount)>, Error>(e));
                        lemma_paths_chain_failure(s.contract.pools, paths@, kind, fee, (j + 1) as nat, paths@.len());
                    }
                    assert((pairs_of(Err(e)), self@) == multiple_path_outcome(s, paths@, kind, limit));
                    return Err(e);
                },
                Ok(x) => {
                    let pair = if kind == SwapKind::ExactOut {
                        (x, path.amount)
                    } else {
                        (path.amount, x)
                    };
                    let ghost before = pairs@;
                    pairs.push(pair);
                    let add = if kind == SwapKind::ExactOut {
                        pair.0
                    } else {
                        pair.1
                    };
                    match total.checked_add(add) {
                        Some(sum) => {
                            total = sum;
                        },
                        None => {
                            total = u128::MAX;
                            over = true;
                        },
                    }
                    proof {
                        assert(pairs@ =~= before + seq![pair]);
                        lemma_paths_total_prefix(before, seq![pair], kind, j as nat);
                        assert(pairs@[j as int] == pair);
                    }
                    if path.tokens.len() >= 2 {
                        append_tokens(&mut swapped, path.tokens.as_slice());
                    }
                },
            }
            j += 1;
        }
        proof {
            lemma_paths_chain_len(s.contract.pools, paths@, kind, fee, paths@.len());
        }
        let slipped = if kind == SwapKind::ExactOut {
            over || total > limit
        } else {
            !over && total < limit
        };
        if slipped {
            let e = Error::new(ErrorKind::Slippage);
            assert((pairs_of(Err(e)), self@) == multiple_path_outcome(s, paths@, kind, limit));
            return Err(e);
        }
        if paths.len() == 0 {
            assert((pairs_of(Ok(pairs)), self@) == multiple_path_outcome(s, paths@, kind, limit));
            return Ok(pairs);
        }
        let ghost pools = self.pools_with(scratch@);
        let caller = self.caller_id;
        let (mut account, present) = self.take_account(&caller);
        let backup = account.copied();
        if swapped.len() == 0 && !present {
            proof {
                assert(self@.contract.accounts =~= s.contract.accounts);
                lemma_book_paths_failure(
                    registered_account(s.contract.accounts, caller),
                    paths@,
                    pairs@,
                    0,
                    paths@.len(),
                );
            }
            let e = Error::new(ErrorKind::AccountNotRegistered);
            assert((pairs_of(Err(e)), self@) == multiple_path_outcome(s, paths@, kind, limit));
            return Err(e);
        }
        account.register_tokens(swapped.as_slice());
        let ghost start = if swapped@.len() > 0 {
            Ok(registered_caller(s, swapped@))
        } else {
            registered_account(s.contract.accounts, s.caller_id)
        };
        proof {
            if swapped@.len() == 0 {
                assert(with_registered(backup@.balances, swapped@) =~= backup@.balances);
            }
            assert(start == Ok::<AccountState, Error>(account@));
        }
        let mut k: usize = 0;
        while k < paths.len()
            invariant
                self.well_formed(),
                s == old(self)@,
                self@ == with_contract(s, ContractState { accounts: s.contract.accounts.remove(caller), ..s.contract }),
                caller == s.caller_id,
                present == s.contract.accounts.contains_key(caller),
                present ==> backup@ == s.contract.accounts[caller],
                backup.well_formed(),
                account.well_formed(),
                k <= paths@.len(),
                pairs@.len() == paths@.len(),
                forall|i: int| 0 <= i < paths@.len() ==> (#[trigger] paths@[i]).tokens@.len() >= 1,
                book_paths(start, paths@, pairs@, k as nat) == Ok::<AccountState, Error>(account@),
                !s.contract.suspended,
                paths@.len() > 0,
                fee == s.contract.protocol_fee_fraction,
                events@ == paths_events(s.contract.pools, paths@, kind, fee, paths@.len()),
                (Ok::<Seq<(Amount, Amount)>, Error>(pairs@), pools) == paths_chain(
                    s.contract.pools,
                    paths@,
                    kind,
                    fee,
                    paths@.len(),
                ),
                !(if kind == SwapKind::ExactOut {
                    paths_total(pairs@, kind, pairs@.len()) > limit
                } else {
                    paths_total(pairs@, kind, pairs@.len()) < limit
                }),
                swapped@ == swapped_tokens(paths@, paths@.len()),
                start == (if swapped@.len() > 0 {
                    Ok(registered_caller(s, swapped@))
                } else {
                    registered_account(s.contract.accounts, s.caller_id)
                }),
            decreases paths@.len() - k,
        {
            let path = &paths[k];
            let ghost p = paths@[k as int];
            let first = path.tokens[0];
            let last = path.tokens[path.tokens.len() - 1];
            let (amount_in, amount_out) = pairs[k];
            let ghost booked = account@;
            let outcome = match account.withdraw(&first, amount_in) {
                Err(e) => Err(e),
                Ok(_) => {
                    let ghost debited = account@;
                    proof {
                        assert(debit(Ok(booked), first, amount_in) == Ok::<AccountState, Error>(debited));
                    }
                    match account.deposit(&last, amount_out) {
                        Err(e) => Err(e),
                        Ok(_) => {
                            proof {
                                assert(credit(Ok(debited), last, amount_out) == Ok::<AccountState, Error>(account@));
                            }
                            Ok(())
                        },
                    }
                },
            };
            if let Err(e) = outcome {
                if present {
                    self.put_account(caller, Account::V0(backup));
                }
                proof {
                    assert(p.tokens@.last() == last);
                    assert(book_paths(start, paths@, pairs@, (k + 1) as nat) == Err::<AccountState, Error>(e));
                    lemma_book_paths_failure(start, paths@, pairs@, (k + 1) as nat, paths@.len());
                    assert(self@.contract.accounts =~= s.contract.accounts);
                }
                assert((pairs_of(Err(e)), self@) == multiple_path_outcome(s, paths@, kind, limit));
                return Err(e);
            }
            proof {
                assert(p.tokens@.last() == last);
            }
            k += 1;
        }
        let ghost stored = account@;
        self.put_account(caller, Account::V0(account));
        proof {
            assert(self@.contract.accounts =~= s.contract.accounts.insert(caller, stored));
        }
        self.commit_pools(scratch);
        self.events.append(&mut events);
        assert((pairs_of(Ok(pairs)), self@) == multiple_path_outcome(s, paths@, kind, limit));
        Ok(pairs)
    }

    /// Swaps along each of `paths` the amount in that it carries, for at least
    /// `min_amount_out` out of all paths together; answers, for each path, the amounts taken
    /// in and given out. See `multiple_path_outcome`.
    pub fn multiple_path_swap_exact_in(&mut self, paths: &[Path], min_amount_out: Amount) -> (r: Result<
        Vec<(Amount, Amount)>,
    >)
        requires
            old(self).well_formed(),
            forall|i: int| 0 <= i < paths@.len() ==> (#[trigger] paths@[i]).tokens@.len() >= 1,
        ensures
            final(self).well_formed(),
            (pairs_of(r), final(self)@) == multiple_path_outcome(old(self)@, paths@, SwapKind::ExactIn, min_amount_out),
    {
        self.swap_paths(paths, SwapKind::ExactIn, min_amount_out)
    }

    /// Swaps along each of `paths` for the amount out that it carries, the amounts in of all
    /// paths together summing to at most `max_amount_in`; answers, for each path, the amounts
    /// taken in and given out. See `multiple_path_outcome`.
    pub fn multiple_path_swap_exact_out(&mut self, paths: &[Path], max_amount_in: Amount) -> (r: Result<
        Vec<(Amount, Amount)>,
    >)
        requires
            old(self).well_formed(),
            forall|i: int| 0 <= i < paths@.len() ==> (#[trigger] paths@[i]).tokens@.len() >= 1,
        ensures
            final(self).well_formed(),
            (pairs_of(r), final(self)@) == multiple_path_outcome(old(self)@, paths@, SwapKind::ExactOut, max_amount_in),
    {
        self.swap_paths(paths, SwapKind::ExactOut, max_amount_in)
    }

    /// Pays the protocol fees collected in the pool of tokens `pool_id` to the owner's account;
    /// answers them in the order of `pool_id`.
    ///
    /// Only the owner may call it, while the payable methods run. Fails, changing nothing, with
    /// `TokenDuplicates` when both tokens are the same, with `PoolNotRegistered` when there is
    /// no such pool, with the pool's failure, and with the failure of crediting the owner's
    /// account (`AccountNotRegistered`, `TokenNotRegistered`, `DepositWouldOverflow`).
    pub fn withdraw_protocol_fee(&mut self, pool_id: (TokenId, TokenId)) -> (r: Result<(Amount, Amount)>)
        requires
            old(self).well_formed(),
        ensures
            final(self).well_formed(),
            (r, final(self)@) == protocol_fee_outcome(old(self)@, pool_id),
    {
        let ghost s = self@;
        if let Err(e) = self.ensure_payable_api_resumed() {
            assert((Err::<(Amount, Amount), Error>(e), self@) == protocol_fee_outcome(s, pool_id));
            return Err(e);
        }
        if let Err(e) = self.ensure_caller_is_owner() {
            assert((Err::<(Amount, Amount), Error>(e), self@) == protocol_fee_outcome(s, pool_id));
            return Err(e);
        }
        let (id, swapped) = match PoolId::try_from_pair(pool_id) {
            Ok(found) => found,
            Err(kind) => {
                let e = Error::new(kind);
                assert((Err::<(Amount, Amount), Error>(e), self@) == protocol_fee_outcome(s, pool_id));
                return Err(e);
            },
        };
        let mut pool = match self.pool_copy(&id) {
            Some(pool) => pool,
            None => {
                let e = Error::new(ErrorKind::PoolNotRegistered);
                assert((Err::<(Amount, Amount), Error>(e), self@) == protocol_fee_outcome(s, pool_id));
                return Err(e);
            },
        };
        let answer = pool.withdraw_protocol_fee();
        let fees = match answer {
            Ok(fees) => fees,
            Err(e) => {
                assert((Err::<(Amount, Amount), Error>(e), self@) == protocol_fee_outcome(s, pool_id));
                return Err(e);
            },
        };
        let owner_id = *self.contract.as_ref().owner_id;
        let tokens = id.pair();
        if let Err(e) = self.credit_pair(&owner_id, tokens, fees) {
            assert((Err::<(Amount, Amount), Error>(e), self@) == protocol_fee_outcome(s, pool_id));
            return Err(e);
        }
        let ghost credited = self@;
        self.put_pool(id, pool);
        let r = swap_if(swapped, fees);
        proof {
            assert(self@.contract.pools =~= s.contract.pools.insert(id, pool));
            assert(self@ == with_account(with_pools(s, s.contract.pools.insert(id, pool)), owner_id, credited.contract.accounts[owner_id]));
            assert((Ok::<(Amount, Amount), Error>(r), self@) == protocol_fee_outcome(s, pool_id));
        }
        Ok(r)
    }
}

/// A deposit that succeeds is read back: afterwards `get_deposit` answers the balance the
/// account had of the token (zero when it had none) plus the amount deposited.
pub proof fn law_deposit_read_back<P: Pool>(s: DexState<P>, id: AccountId, token: TokenId, amount: Amount)
    requires
        deposit_balance(s, id, token, amount) <= u128::MAX,
    ensures
        deposit_of(after_deposit(s, id, token, amount).contract, id, token) == Ok::<Amount, Error>(
            deposit_balance(s, id, token, amount) as Amount,
        ),
{
}

/// Withdrawing what a deposit just brought in succeeds and brings the account back to where it
/// was, but for the token staying registered: its balance is what it was, or zero when the
/// token was not registered before.
pub proof fn law_withdraw_undoes_deposit<P: Pool>(s: DexState<P>, id: AccountId, token: TokenId, amount: Amount)
    requires
        deposit_balance(s, id, token, amount) <= u128::MAX,
        amount != 0,
    ensures
        ({
            let d = after_deposit(s, id, token, amount);
            let before = account_or_new(s.contract.accounts, id);
            &&& d.contract.accounts.contains_key(id)
            &&& d.contract.accounts[id].balances.contains_key(token)
            &&& balance_or_zero(d.contract.accounts[id], token) >= amount
            &&& after_withdraw(d, id, token, amount).contract == with_balances(
                s,
                id,
                with_registered(before.balances, seq![token]),
            ).contract
        }),
{
    let d = after_deposit(s, id, token, amount);
    let before = account_or_new(s.contract.accounts, id);
    let single = seq![token];
    assert forall|t: TokenId| #[trigger] single.contains(t) <==> t == token by {
        if t == token {
            assert(single[0] == t);
        }
    }
    let restored = d.contract.accounts[id].balances.insert(
        token,
        (balance_or_zero(d.contract.accounts[id], token) - amount) as Amount,
    );
    assert(restored =~= with_registered(before.balances, single));
    assert(after_withdraw(d, id, token, amount).contract.accounts =~= with_balances(
        s,
        id,
        with_registered(before.balances, single),
    ).contract.accounts);
}

/// Resuming the payable methods right after suspending them is allowed to the same caller and
/// gives the contract back as it was.
pub proof fn law_resume_undoes_suspend<P: Pool>(s: DexState<P>)
    requires
        guard_call_refusal(s, true) is None,
    ensures
        guard_call_refusal(after_set_suspended(s, true), false) is None,
        after_set_suspended(after_set_suspended(s, true), false).contract == s.contract,
{
}

/// A protocol fee fraction that `set_protocol_fee_fraction` sets is what
/// `protocol_fee_fraction` reads back afterwards; a call that fails leaves the fraction as it
/// was.
pub proof fn law_protocol_fee_fraction_read_back<P: Pool>(s: DexState<P>, fraction: BasisPoints)
    ensures
        fee_fraction_outcome(s, fraction).0 is Ok ==> fee_fraction_outcome(s, fraction).1.contract.protocol_fee_fraction
            == fraction,
        fee_fraction_outcome(s, fraction).0 is Err ==> fee_fraction_outcome(s, fraction).1.contract.protocol_fee_fraction
            == s.contract.protocol_fee_fraction,
        owner_call_refusal(s) is None && valid_protocol_fee_fraction(fraction) ==> fee_fraction_outcome(
            s,
            fraction,
        ).0 is Ok,
{
}

/// What `set_protocol_fee_fraction` answers for `fraction`, and the exchange it leaves: the
/// fraction stored. Fails with the owner-call refusal, and with `IllegalFee` for a fraction out
/// of range; a failure changes nothing.
pub open spec fn fee_fraction_outcome<P: Pool>(s: DexState<P>, fraction: BasisPoints) -> (Result<()>, DexState<P>) {
    if owner_call_refusal(s) is Some {
        (Err(owner_call_refusal(s)->Some_0), s)
    } else if !valid_protocol_fee_fraction(fraction) {
        (Err(Error { kind: ErrorKind::IllegalFee }), s)
    } else {
        (Ok(()), with_contract(s, ContractState { protocol_fee_fraction: fraction, ..s.contract }))
    }
}

/// Unregistering the caller's account right after registering it, when it was not registered
/// before, is allowed and gives the accounts back as they were.
pub proof fn law_unregister_undoes_register_account<P: Pool>(s: DexState<P>)
    requires
        !s.contract.suspended,
        !s.contract.accounts.contains_key(s.caller_id),
    ensures
        ({
            let r = with_account(
                s,
                s.caller_id,
                account_or_new(s.contract.accounts, s.caller_id),
            );
            &&& r.contract.accounts.contains_key(s.caller_id)
            &&& account_unregister_refusal(r.contract.accounts[s.caller_id]) is None
            &&& r.contract.accounts.remove(s.caller_id) == s.contract.accounts
        }),
{
    let r = with_account(s, s.caller_id, account_or_new(s.contract.accounts, s.caller_id));
    assert(r.contract.accounts[s.caller_id].balances.dom() =~= Set::<TokenId>::empty());
    assert(r.contract.accounts.remove(s.caller_id) =~= s.contract.accounts);
}

/// A batch of actions that succeeds gives one result for each of its actions.
pub proof fn law_batch_result_per_action<P: Pool>(
    s: DexState<P>,
    id: AccountId,
    deposit_data: Seq<DepositPayment>,
    registration: Result<()>,
    registered: AccountState,
    actions: Seq<Action<P::PriceLimit>>,
)
    ensures
        batch_outcome(s, id, deposit_data, registration, registered, actions) matches Ok(x)
            ==> x.0.len() == actions.len(),
{
    if !s.contract.suspended && registration is Ok {
        let first = actions.len() > 0 && actions[0] is RegisterAccount;
        let start: int = if first {
            1
        } else {
            0
        };
        let rest = actions.subrange(start, actions.len() as int);
        let b0 = batch_state(
            view_of(s, id, registered),
            false,
            None,
            if first {
                seq![ActionResult::RegisterAccount]
            } else {
                Seq::empty()
            },
        );
        lemma_actions_fold_results(b0, deposit_data, rest, s.contract.protocol_fee_fraction, rest.len());
    }
}

/// Appends the tokens of `src` to `dst`.
fn append_tokens(dst: &mut Vec<TokenId>, src: &[TokenId])
    ensures
        final(dst)@ == old(dst)@ + src@,
{
    let ghost start = dst@;
    let mut i: usize = 0;
    while i < src.len()
        invariant
            i <= src@.len(),
            dst@ == start + src@.take(i as int),
        decreases src@.len() - i,
    {
        dst.push(src[i]);
        proof {
            assert(src@.take(i + 1) =~= src@.take(i as int).push(src@[i as int]));
        }
        i += 1;
    }
    proof {
        assert(src@.take(src@.len() as int) =~= src@);
    }
}



/// Along a path, each swap after the first is asked for the amount the swap before it
/// produced: the amount it gave out for `ExactIn`, the amount it took in for `ExactOut`. The
/// swap from `tokens[k]` to `tokens[k + 1]` is asked of its pool as the swaps before it left
/// the pools, and what it answers is the amount the path hands on.
pub proof fn law_chain_hands_on_each_amount<P: Pool>(
    pools: Map<PoolId, P>,
    tokens: Seq<TokenId>,
    kind: SwapKind,
    amount: Amount,
    fee: BasisPoints,
    k: nat,
)
    requires
        1 <= k < tokens.len(),
        kind != SwapKind::ToPrice,
    ensures
        chain(pools, tokens, kind, amount, fee, k + 1).0 is Ok ==> {
            let before = chain(pools, tokens, kind, amount, fee, k);
            let handed = before.0->Ok_0;
            let id = PoolId::of_tokens((tokens[k as int], tokens[k + 1 as int]));
            let side = side_of(tokens[k as int], tokens[k + 1 as int]);
            let answer = if kind == SwapKind::ExactIn {
                before.1[id].exact_in_answer(side, handed, fee)
            } else {
                before.1[id].exact_out_answer(side, handed, fee)
            };
            &&& before.0 is Ok
            &&& tokens[k as int] != tokens[k + 1 as int]
            &&& before.1.contains_key(id)
            &&& answer.0 is Ok
            &&& chain(pools, tokens, kind, amount, fee, k + 1).0 == Ok::<Amount, Error>(
                if kind == SwapKind::ExactIn {
                    answer.0->Ok_0.1
                } else {
                    answer.0->Ok_0.0
                },
            )
            &&& chain(pools, tokens, kind, amount, fee, k + 1).1 == before.1.insert(id, answer.1)
        },
{
}

/// An exact-in swap along three tokens `a`, `b`, `c` swaps `x` of `a` for some `y` of `b`,
/// then that `y` for the `z` of `c` it answers: the second pool is asked for what the first
/// one gave out, as the first swap left the pools.
pub proof fn law_swap_exact_in_two_hops<P: Pool>(
    s: DexState<P>,
    a: TokenId,
    b: TokenId,
    c: TokenId,
    x: Amount,
    min_out: Amount,
)
    ensures
        swap_path_outcome(s, seq![a, b, c], SwapKind::ExactIn, x, min_out).0 is Ok ==> {
            let r = swap_path_outcome(s, seq![a, b, c], SwapKind::ExactIn, x, min_out).0->Ok_0;
            let fee = s.contract.protocol_fee_fraction;
            let id1 = PoolId::of_tokens((a, b));
            let id2 = PoolId::of_tokens((b, c));
            let first = s.contract.pools[id1].exact_in_answer(side_of(a, b), x, fee);
            let y = first.0->Ok_0.1;
            let second = s.contract.pools.insert(id1, first.1)[id2].exact_in_answer(side_of(b, c), y, fee);
            &&& first.0 is Ok
            &&& second.0 is Ok
            &&& r == (x, second.0->Ok_0.1)
            &&& r.1 >= min_out
        },
{
    let tokens = seq![a, b, c];
    reveal_with_fuel(chain, 3);
    assert(tokens[0] == a && tokens[1] == b && tokens[2] == c);
}

/// An exact-out swap along three tokens `a`, `b`, `c` for `x`: the first pool, of `a` and
/// `b`, is asked for `x` and takes in some `y`; the second pool, as the first swap left the
/// pools, is asked for that `y`, and what it takes in is the amount in the swap answers.
pub proof fn law_swap_exact_out_two_hops<P: Pool>(
    s: DexState<P>,
    a: TokenId,
    b: TokenId,
    c: TokenId,
    x: Amount,
    max_in: Amount,
)
    ensures
        swap_path_outcome(s, seq![a, b, c], SwapKind::ExactOut, x, max_in).0 is Ok ==> {
            let r = swap_path_outcome(s, seq![a, b, c], SwapKind::ExactOut, x, max_in).0->Ok_0;
            let fee = s.contract.protocol_fee_fraction;
            let id1 = PoolId::of_tokens((a, b));
            let id2 = PoolId::of_tokens((b, c));
            let first = s.contract.pools[id1].exact_out_answer(side_of(a, b), x, fee);
            let y = first.0->Ok_0.0;
            let second = s.contract.pools.insert(id1, first.1)[id2].exact_out_answer(side_of(b, c), y, fee);
            &&& first.0 is Ok
            &&& second.0 is Ok
            &&& r == (second.0->Ok_0.0, x)
            &&& r.0 <= max_in
        },
{
    let tokens = seq![a, b, c];
    reveal_with_fuel(chain, 3);
    assert(tokens[0] == a && tokens[1] == b && tokens[2] == c);
}

/// A swap along a path that succeeds takes from the caller exactly the amount in it answers,
/// of the first token, and gives exactly the amount out, of the last token.
pub proof fn law_swap_path_books_its_amounts<P: Pool>(
    s: DexState<P>,
    tokens: Seq<TokenId>,
    kind: SwapKind,
    amount: Amount,
    limit: Amount,
)
    requires
        tokens.len() >= 2,
        tokens[0] != tokens.last(),
    ensures
        swap_path_outcome(s, tokens, kind, amount, limit).0 is Ok ==> {
            let r = swap_path_outcome(s, tokens, kind, amount, limit).0->Ok_0;
            let before = account_or_new(s.contract.accounts, s.caller_id);
            let after = swap_path_outcome(s, tokens, kind, amount, limit).1.contract.accounts[s.caller_id];
            &&& balance_or_zero(before, tokens[0]) >= r.0
            &&& after.balances[tokens[0]] == balance_or_zero(before, tokens[0]) - r.0
            &&& after.balances[tokens.last()] == balance_or_zero(before, tokens.last()) + r.1
            &&& kind == SwapKind::ExactIn ==> r.0 == amount && r.1 >= limit
            &&& kind == SwapKind::ExactOut ==> r.1 == amount && r.0 <= limit
        },
{
}

/// The protocol fees a pool pays out go to the owner's account, each in its own token: the
/// owner's balance of the pool's first token grows by the first fee the pool answered, that of
/// its second token by the second; the answer gives them in the order of the tokens asked.
pub proof fn law_protocol_fee_goes_to_owner<P: Pool>(s: DexState<P>, pair: (TokenId, TokenId))
    ensures
        protocol_fee_outcome(s, pair).0 is Ok ==> {
            let r = protocol_fee_outcome(s, pair).0->Ok_0;
            let id = PoolId::of_tokens(pair);
            let t = id.spec_pair();
            let answer = s.contract.pools[id].protocol_fee_answer();
            let fees = answer.0->Ok_0;
            let owner = s.contract.owner_id;
            let after = protocol_fee_outcome(s, pair).1;
            &&& answer.0 is Ok
            &&& s.contract.accounts.contains_key(owner)
            &&& after.contract.accounts[owner].balances[t.0] == s.contract.accounts[owner].balances[t.0] + fees.0
            &&& after.contract.accounts[owner].balances[t.1] == s.contract.accounts[owner].balances[t.1] + fees.1
            &&& after.contract.pools == s.contract.pools.insert(id, answer.1)
            &&& r == (if pair.0 == t.0 {
                fees
            } else {
                (fees.1, fees.0)
            })
        },
{
    let id = PoolId::of_tokens(pair);
    PoolId::law_pool_id_is_its_pair(spec_swap_if(pair.0 < pair.1, pair), id);
}

/// Swaps along paths answer one pair of amounts for each path, in the order of the paths,
/// each pair carrying its path's own amount (the amount in for `ExactIn`, the amount out for
/// `ExactOut`), and keep to the limit over all paths together: for `ExactIn` the amounts out
/// sum to at least `limit`, for `ExactOut` the amounts in sum to at most `limit`.
pub proof fn law_multiple_path_keeps_to_its_limit<P: Pool>(
    s: DexState<P>,
    paths: Seq<Path>,
    kind: SwapKind,
    limit: Amount,
)
    requires
        kind != SwapKind::ToPrice,
    ensures
        multiple_path_outcome(s, paths, kind, limit).0 is Ok ==> {
            let pairs = multiple_path_outcome(s, paths, kind, limit).0->Ok_0;
            &&& pairs.len() == paths.len()
            &&& forall|i: int|
                0 <= i < pairs.len() ==> (if kind == SwapKind::ExactOut {
                    (#[trigger] pairs[i]).1 == paths[i].amount
                } else {
                    pairs[i].0 == paths[i].amount
                })
            &&& kind == SwapKind::ExactIn ==> paths_total(pairs, kind, pairs.len()) >= limit
            &&& kind == SwapKind::ExactOut ==> paths_total(pairs, kind, pairs.len()) <= limit
        },
{
    let fee = s.contract.protocol_fee_fraction;
    lemma_paths_chain_pairs(s.contract.pools, paths, kind, fee, paths.len());
}

/// Each pair of the first `k` paths carries its path's own amount.
proof fn lemma_paths_chain_pairs<P: Pool>(
    pools: Map<PoolId, P>,
    paths: Seq<Path>,
    kind: SwapKind,
    fee: BasisPoints,
    k: nat,
)
    ensures
        paths_chain(pools, paths, kind, fee, k).0 is Ok ==> {
            let pairs = paths_chain(pools, paths, kind, fee, k).0->Ok_0;
            &&& pairs.len() == k
            &&& forall|i: int|
                0 <= i < k ==> (if kind == SwapKind::ExactOut {
                    (#[trigger] pairs[i]).1 == paths[i].amount
                } else {
                    pairs[i].0 == paths[i].amount
                })
        },
    decreases k,
{
    if k > 0 {
        lemma_paths_chain_pairs(pools, paths, kind, fee, (k - 1) as nat);
    }
}

/// Swapping along a single path of two distinct tokens `a` and `b` asks the pool of the two
/// for the path's amount, and books on the caller exactly what the pool answered: the amount
/// in taken from `a`, the amount out added to `b`.
pub proof fn law_single_path_is_one_swap<P: Pool>(
    s: DexState<P>,
    path: Path,
    kind: SwapKind,
    limit: Amount,
)
    requires
        kind != SwapKind::ToPrice,
        path.tokens@.len() == 2,
        path.tokens@[0] != path.tokens@[1],
    ensures
        multiple_path_outcome(s, seq![path], kind, limit).0 is Ok ==> {
            let pairs = multiple_path_outcome(s, seq![path], kind, limit).0->Ok_0;
            let a = path.tokens@[0];
            let b = path.tokens@[1];
            let fee = s.contract.protocol_fee_fraction;
            let id = PoolId::of_tokens((a, b));
            let answer = if kind == SwapKind::ExactIn {
                s.contract.pools[id].exact_in_answer(side_of(a, b), path.amount, fee)
            } else {
                s.contract.pools[id].exact_out_answer(side_of(a, b), path.amount, fee)
            };
            let t = answer.0->Ok_0;
            let before = account_or_new(s.contract.accounts, s.caller_id);
            let after = multiple_path_outcome(s, seq![path], kind, limit).1.contract.accounts[s.caller_id];
            &&& answer.0 is Ok
            &&& pairs.len() == 1
            &&& pairs[0] == (if kind == SwapKind::ExactIn {
                (path.amount, t.1)
            } else {
                (t.0, path.amount)
            })
            &&& after.balances[a] == balance_or_zero(before, a) - pairs[0].0
            &&& after.balances[b] == balance_or_zero(before, b) + pairs[0].1
        },
{
    let paths = seq![path];
    assert(paths[0] == path);
    reveal_with_fuel(chain, 2);
    reveal_with_fuel(paths_chain, 2);
    reveal_with_fuel(book_paths, 2);
    reveal_with_fuel(swapped_tokens, 2);
}

/// A swap to a price from `a` to `b` asks the pool of the two for at most `amount_in` up to
/// `limit`, and books on the caller exactly what the pool answered: the amount in taken from
/// `a`, the amount out added to `b`.
pub proof fn law_swap_to_price_books_the_pool_answer<P: Pool>(
    s: DexState<P>,
    a: TokenId,
    b: TokenId,
    amount_in: Amount,
    limit: P::PriceLimit,
)
    ensures
        swap_to_price_outcome(s, seq![a, b], amount_in, limit).0 is Ok ==> {
            let r = swap_to_price_outcome(s, seq![a, b], amount_in, limit).0->Ok_0;
            let id = PoolId::of_tokens((a, b));
            let answer = s.contract.pools[id].to_price_answer(
                side_of(a, b),
                amount_in,
                limit,
                s.contract.protocol_fee_fraction,
            );
            let before = account_or_new(s.contract.accounts, s.caller_id);
            let after = swap_to_price_outcome(s, seq![a, b], amount_in, limit).1.contract.accounts[s.caller_id];
            &&& a != b
            &&& answer.0 is Ok
            &&& r == (answer.0->Ok_0.0, answer.0->Ok_0.1)
            &&& after.balances[a] == balance_or_zero(before, a) - r.0
            &&& after.balances[b] == balance_or_zero(before, b) + r.1
        },
{
    let tokens = seq![a, b];
    assert(tokens[0] == a && tokens[1] == b && tokens.last() == b);
}
} // verus!
