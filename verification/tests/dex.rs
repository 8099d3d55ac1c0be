use dx25_dex::account_view::AccountViewMut;
use dx25_dex::actions::{Action, ActionResult};
use dx25_dex::dex::{Dex, Event, SendTokens};
use dx25_dex::error::{Error, ErrorKind, Result};
use dx25_dex::overlay_map::OverlayItemFactory;
use dx25_dex::pool::{Pool, PoolInfo, PoolStateReport, PositionClosedInfo, PositionInfo, PositionOpenedInfo};
use dx25_dex::rational_fraction::Fraction;
use dx25_dex::state::{Account, Contract, ContractV1};
use dx25_dex::tick::Tick;
use dx25_dex::types::{
    AccountId, Amount, BasisPoints, DepositPayment, FeeLevel, Path, PoolId, PoolUpdateReason, PositionId,
    PositionInit, Range, Side, SwapAction, SwapKind, TokenId,
};

/// A constant-product pool without fees, enough to drive the exchange in tests. It keeps the
/// net change of liquidity at each tick that bounds a position.
#[derive(Clone, Debug)]
struct MockPool {
    reserves: (Amount, Amount),
    positions: Vec<MockPosition>,
    ticks: Vec<(FeeLevel, i32, i128)>,
    protocol_fees: (Amount, Amount),
}

#[derive(Clone, Debug)]
struct MockPosition {
    id: PositionId,
    balance: (Amount, Amount),
    fee_level: FeeLevel,
    range: (i32, i32),
    liquidity: i128,
}

impl MockPool {
    fn reserves_for(&self, side: Side) -> (Amount, Amount) {
        match side {
            Side::Left => self.reserves,
            Side::Right => (self.reserves.1, self.reserves.0),
        }
    }

    fn set_reserves_for(&mut self, side: Side, reserves: (Amount, Amount)) {
        self.reserves = match side {
            Side::Left => reserves,
            Side::Right => (reserves.1, reserves.0),
        };
    }

    /// Adds `change` to the net change of liquidity at `tick`; answers the tick and its new
    /// net change. A tick whose net change drops to zero is no longer in use.
    fn change_tick(&mut self, fee_level: FeeLevel, tick: i32, change: i128) -> (Tick, i128) {
        let found = self.ticks.iter().position(|(level, t, _)| *level == fee_level && *t == tick);
        let net = match found {
            Some(index) => {
                let net = self.ticks[index].2 + change;
                if net == 0 {
                    self.ticks.remove(index);
                } else {
                    self.ticks[index].2 = net;
                }
                net
            }
            None => {
                self.ticks.push((fee_level, tick, change));
                self.ticks.sort_by_key(|(level, t, _)| (*level, *t));
                change
            }
        };
        (Tick::new(tick).unwrap(), net)
    }
}

impl Pool for MockPool {
    type PriceLimit = Amount;
    type Liquidity = Amount;
    type Price = i128;

    fn new_pool() -> Result<Self> {
        Ok(MockPool { reserves: (0, 0), positions: Vec::new(), ticks: Vec::new(), protocol_fees: (0, 0) })
    }

    fn new_pool_answer() -> Result<Self> {
        Self::new_pool()
    }

    fn exact_in_answer(&self, side: Side, amount_in: Amount, fee: BasisPoints) -> (Result<(Amount, Amount, u32)>, Self) {
        let mut pool = self.clone();
        let answer = pool.swap_exact_in(side, amount_in, fee);
        (answer, pool)
    }

    fn exact_out_answer(&self, side: Side, amount_out: Amount, fee: BasisPoints) -> (Result<(Amount, Amount, u32)>, Self) {
        let mut pool = self.clone();
        let answer = pool.swap_exact_out(side, amount_out, fee);
        (answer, pool)
    }

    fn to_price_answer(
        &self,
        side: Side,
        max_amount_in: Amount,
        limit: Amount,
        fee: BasisPoints,
    ) -> (Result<(Amount, Amount, u32)>, Self) {
        let mut pool = self.clone();
        let answer = pool.swap_to_price(side, max_amount_in, &limit, fee);
        (answer, pool)
    }

    fn open_position_answer(
        &self,
        position: PositionInit,
        fee_level: FeeLevel,
        position_id: PositionId,
    ) -> (Result<PositionOpenedInfo<Amount, i128>>, Self) {
        let mut pool = self.clone();
        let answer = pool.open_position(position, fee_level, position_id);
        (answer, pool)
    }

    fn withdraw_fee_answer(&self, position_id: PositionId) -> (Result<(Amount, Amount)>, Self) {
        let mut pool = self.clone();
        let answer = pool.withdraw_fee(position_id);
        (answer, pool)
    }

    fn protocol_fee_answer(&self) -> (Result<(Amount, Amount)>, Self) {
        let mut pool = self.clone();
        let answer = pool.withdraw_protocol_fee();
        (answer, pool)
    }

    fn close_position_answer(&self, position_id: PositionId) -> (Result<PositionClosedInfo<i128>>, Self) {
        let mut pool = self.clone();
        let answer = pool.withdraw_fee_and_close_position(position_id);
        (answer, pool)
    }

    fn position_info_answer(&self, pool_id: PoolId, position_id: PositionId) -> Result<PositionInfo<i128>> {
        self.position_info(pool_id, position_id)
    }

    fn pool_info_answer(&self, side: Side) -> Result<PoolInfo<i128, Amount>> {
        self.pool_info(side)
    }

    fn eff_sqrtprice_answer(&self, level: FeeLevel, side: Side) -> i128 {
        self.eff_sqrtprice(level, side)
    }

    fn state_answer(&self) -> PoolStateReport<i128, Amount> {
        self.state_report()
    }

    fn ticks_liquidity_change_answer(
        &self,
        fee_level: FeeLevel,
        side: Side,
        start_tick: Tick,
        number: u8,
    ) -> Vec<(Tick, i128)> {
        self.ticks_liquidity_change(fee_level, side, start_tick, number)
    }

    fn tick_count_answer(&self, fee_level: FeeLevel) -> usize {
        self.tick_count(fee_level)
    }

    fn duplicate(&self) -> Self {
        self.clone()
    }

    fn swap_exact_in(&mut self, side: Side, amount_in: Amount, _: BasisPoints) -> Result<(Amount, Amount, u32)> {
        let (reserve_in, reserve_out) = self.reserves_for(side);
        if reserve_in == 0 || reserve_out == 0 {
            return Err(Error::new(ErrorKind::InsufficientLiquidity));
        }
        let amount_out = reserve_out * amount_in / (reserve_in + amount_in);
        self.set_reserves_for(side, (reserve_in + amount_in, reserve_out - amount_out));
        Ok((amount_in, amount_out, 0))
    }

    fn swap_exact_out(&mut self, side: Side, amount_out: Amount, _: BasisPoints) -> Result<(Amount, Amount, u32)> {
        let (reserve_in, reserve_out) = self.reserves_for(side);
        if reserve_in == 0 || amount_out >= reserve_out {
            return Err(Error::new(ErrorKind::InsufficientLiquidity));
        }
        let amount_in = reserve_in * amount_out / (reserve_out - amount_out) + 1;
        self.set_reserves_for(side, (reserve_in + amount_in, reserve_out - amount_out));
        Ok((amount_in, amount_out, 0))
    }

    fn swap_to_price(
        &mut self,
        side: Side,
        max_amount_in: Amount,
        effective_price_limit: &Amount,
        protocol_fee_fraction: BasisPoints,
    ) -> Result<(Amount, Amount, u32)> {
        let amount_in = max_amount_in.min(*effective_price_limit);
        self.swap_exact_in(side, amount_in, protocol_fee_fraction)
    }

    fn open_position(
        &mut self,
        position: PositionInit,
        fee_level: FeeLevel,
        position_id: PositionId,
    ) -> Result<PositionOpenedInfo<Amount, i128>> {
        let deposited = (position.amount_ranges.0.max, position.amount_ranges.1.max);
        let range = (
            position.ticks_range.0.unwrap_or(Tick::min().index()),
            position.ticks_range.1.unwrap_or(Tick::max().index()),
        );
        let liquidity = deposited.0.min(deposited.1);
        self.reserves = (self.reserves.0 + deposited.0, self.reserves.1 + deposited.1);
        self.positions.push(MockPosition {
            id: position_id,
            balance: deposited,
            fee_level,
            range,
            liquidity: liquidity as i128,
        });
        let low = self.change_tick(fee_level, range.0, liquidity as i128);
        let high = self.change_tick(fee_level, range.1, -(liquidity as i128));
        Ok(PositionOpenedInfo {
            deposited_amounts: deposited,
            net_liquidity: liquidity,
            low_tick_liquidity_change: low,
            high_tick_liquidity_change: high,
        })
    }

    fn withdraw_fee(&mut self, _position_id: PositionId) -> Result<(Amount, Amount)> {
        Ok((0, 0))
    }

    fn withdraw_protocol_fee(&mut self) -> Result<(Amount, Amount)> {
        let fees = self.protocol_fees;
        self.protocol_fees = (0, 0);
        Ok(fees)
    }

    fn withdraw_fee_and_close_position(&mut self, position_id: PositionId) -> Result<PositionClosedInfo<i128>> {
        let index = match self.positions.iter().position(|p| p.id == position_id) {
            Some(index) => index,
            None => return Err(Error::new(ErrorKind::PositionDoesNotExist)),
        };
        let position = self.positions.remove(index);
        let balance = position.balance;
        self.reserves = (self.reserves.0 - balance.0, self.reserves.1 - balance.1);
        let low = self.change_tick(position.fee_level, position.range.0, -position.liquidity);
        let high = self.change_tick(position.fee_level, position.range.1, position.liquidity);
        Ok(PositionClosedInfo {
            fees: (0, 0),
            balance,
            fee_level: position.fee_level,
            low_tick_liquidity_change: low,
            high_tick_liquidity_change: high,
        })
    }

    fn position_info(&self, pool_id: PoolId, position_id: PositionId) -> Result<PositionInfo<i128>> {
        match self.positions.iter().find(|p| p.id == position_id) {
            // Position values are rounded down, one unit below what was deposited.
            Some(position) => Ok(PositionInfo {
                tokens_ids: (*pool_id.as_refs().0, *pool_id.as_refs().1),
                fee_level: position.fee_level,
                balance: (position.balance.0 - 1, position.balance.1 - 1),
                init_sqrtprice: 0,
                range_ticks: (Tick::new(position.range.0).unwrap(), Tick::new(position.range.1).unwrap()),
                reward_since_last_withdraw: (0, 0),
                reward_since_creation: (0, 0),
                net_liquidity: position.liquidity,
            }),
            None => Err(Error::new(ErrorKind::PositionDoesNotExist)),
        }
    }

    fn state_report(&self) -> PoolStateReport<i128, Amount> {
        let mut amounts_a = [0; 8];
        let mut amounts_b = [0; 8];
        for position in &self.positions {
            amounts_a[position.fee_level as usize] += position.balance.0;
            amounts_b[position.fee_level as usize] += position.balance.1;
        }
        PoolStateReport { amounts_a, amounts_b, sqrt_prices: [0; 8], liquidities: [0; 8] }
    }

    fn ticks_liquidity_change(&self, fee_level: FeeLevel, side: Side, start_tick: Tick, number: u8) -> Vec<(Tick, i128)> {
        let mut changes: Vec<(Tick, i128)> = self
            .ticks
            .iter()
            .filter(|(level, tick, _)| *level == fee_level && *tick >= start_tick.index())
            .take(number as usize)
            .map(|(_, tick, change)| (Tick::new(*tick).unwrap(), *change))
            .collect();
        if side == Side::Right {
            changes = changes.into_iter().rev().map(|(tick, change)| (tick.opposite(), -change)).collect();
        }
        changes
    }

    fn pool_info(&self, side: Side) -> Result<PoolInfo<i128, Amount>> {
        let reserves = self.reserves_for(side);
        Ok(PoolInfo {
            total_reserves: reserves,
            position_reserves: reserves,
            spot_sqrtprices: [0; 8],
            eff_sqrtprices: [(0, 0); 8],
            liquidities: [0; 8],
            fee_rates: [1, 2, 4, 8, 16, 32, 64, 128],
            fee_divisor: 10_000,
        })
    }

    fn eff_sqrtprice(&self, level: FeeLevel, side: Side) -> i128 {
        let (reserve_in, _) = self.reserves_for(side);
        reserve_in as i128 + level as i128
    }

    fn tick_count(&self, fee_level: FeeLevel) -> usize {
        self.ticks.iter().filter(|(level, _, _)| *level == fee_level).count()
    }
}

/// An exchange owned, called and signed by `owner`, with the given protocol fee fraction.
fn new_dex_with_fee(owner: AccountId, protocol_fee_fraction: BasisPoints) -> Dex<MockPool> {
    let contract = ContractV1::new(owner, protocol_fee_fraction).unwrap();
    Dex::new(Contract::V1(contract), owner, owner)
}

/// An exchange owned, called and signed by `owner`, with the default protocol fee fraction.
fn new_dex(owner: AccountId) -> Dex<MockPool> {
    new_dex_with_fee(owner, 1300)
}

/// A registration callback that accepts the account as it is.
fn its_ok(_id: &AccountId, _account: &mut Account, _exists: bool) -> Result<()> {
    Ok(())
}

/// An exchange with a registered owner holding `deposits` of two tokens, after opening a
/// position with `position` amounts of them.
struct SwapTestContext {
    dex: Dex<MockPool>,
    owner: AccountId,
    token_ids: (TokenId, TokenId),
    position_id: PositionId,
}

impl SwapTestContext {
    fn new_with_amounts(position: (Amount, Amount), deposits: (Amount, Amount)) -> Self {
        let owner: AccountId = 1;
        let mut dex = new_dex(owner);
        dex.register_account().unwrap();
        let token_ids: (TokenId, TokenId) = (100, 101);
        let mut ctx = SwapTestContext { dex, owner, token_ids, position_id: 0 };
        ctx.position_id = ctx.open_position(token_ids, position);
        ctx.dex.deposit(&owner, &token_ids.0, deposits.0).unwrap();
        ctx.dex.deposit(&owner, &token_ids.1, deposits.1).unwrap();
        ctx
    }

    fn new() -> Self {
        Self::new_with_amounts((500_011, 5_000_110), (500_000, 5_000_000))
    }

    fn new_all_1g() -> Self {
        Self::new_with_amounts((1_000_000_000, 1_000_000_000), (1_000_000_000, 1_000_000_000))
    }

    fn open_position(&mut self, tokens: (TokenId, TokenId), amounts: (Amount, Amount)) -> PositionId {
        let owner = self.owner;
        self.dex.register_tokens(&owner, &[tokens.0, tokens.1]).unwrap();
        self.dex.deposit(&owner, &tokens.0, amounts.0).unwrap();
        self.dex.deposit(&owner, &tokens.1, amounts.1).unwrap();
        self.dex.open_position_full(&tokens.0, &tokens.1, 1, amounts.0, amounts.1).unwrap().0
    }
}

#[test]
fn create_instance() {
    const FEE_RATES: [u16; 8] = [1, 2, 4, 8, 16, 32, 64, 128];
    let acc: AccountId = 7;
    let dex = new_dex_with_fee(acc, 1);
    let contract = dex.contract().as_ref();
    assert_eq!(contract.owner_id, &acc);
    assert_eq!(contract.protocol_fee_fraction, 1);
    assert_eq!(dex.fee_rates_ticks(), FEE_RATES);
}

#[test]
fn create_instance_refuses_illegal_fee() {
    assert!(matches!(ContractV1::<MockPool>::new(7, 0), Err(Error { kind: ErrorKind::IllegalFee })));
    assert!(matches!(ContractV1::<MockPool>::new(7, 5_001), Err(Error { kind: ErrorKind::IllegalFee })));
    assert!(ContractV1::<MockPool>::new(7, 5_000).is_ok());
}

#[test]
fn add_remove_guards() {
    let acc: AccountId = 1;
    let mut dex = new_dex(acc);
    let account_0: AccountId = 10;
    let account_1: AccountId = 11;
    let account_2: AccountId = 12;

    dex.add_guard_accounts(&[account_0, account_1]).unwrap();
    dex.suspend_payable_api().unwrap();
    assert!(matches!(
        dex.suspend_payable_api(),
        Err(Error { kind: ErrorKind::GuardChangeStateDenied })
    ));

    dex.set_initiator_caller_ids(account_0);
    dex.resume_payable_api().unwrap();
    assert!(matches!(
        dex.resume_payable_api(),
        Err(Error { kind: ErrorKind::GuardChangeStateDenied })
    ));

    dex.set_initiator_caller_ids(account_2);
    assert!(matches!(dex.suspend_payable_api(), Err(Error { kind: ErrorKind::PermissionDenied })));

    dex.set_initiator_caller_ids(acc);
    dex.remove_guard_accounts(&[account_1]).unwrap();

    dex.set_initiator_caller_ids(account_1);
    assert!(matches!(dex.suspend_payable_api(), Err(Error { kind: ErrorKind::PermissionDenied })));

    dex.set_initiator_caller_ids(account_0);
    dex.suspend_payable_api().unwrap();

    dex.set_initiator_caller_ids(acc);
    assert!(matches!(dex.register_account(), Err(Error { kind: ErrorKind::PayableAPISuspended })));

    dex.resume_payable_api().unwrap();
    dex.register_account().unwrap();

    dex.set_initiator_caller_ids(account_2);
    assert!(matches!(
        dex.add_guard_accounts(&[account_1]),
        Err(Error { kind: ErrorKind::PermissionDenied })
    ));
}

#[test]
fn guard_events_list_only_changes() {
    let acc: AccountId = 1;
    let mut dex = new_dex(acc);
    dex.add_guard_accounts(&[10, 11, 10]).unwrap();
    assert_eq!(dex.logs().last(), Some(&Event::AddGuardAccounts { accounts: vec![10, 11] }));
    dex.add_guard_accounts(&[11, 12]).unwrap();
    assert_eq!(dex.logs().last(), Some(&Event::AddGuardAccounts { accounts: vec![12] }));
    dex.remove_guard_accounts(&[12, 13, 12]).unwrap();
    assert_eq!(dex.logs().last(), Some(&Event::RemoveGuardAccounts { accounts: vec![12] }));
}

#[test]
fn verified_tokens_add_remove() {
    let acc: AccountId = 1;
    let mut dex = new_dex(acc);
    dex.add_verified_tokens(&[30, 10, 20, 10]).unwrap();
    assert_eq!(dex.get_verified_tokens(), vec![10, 20, 30]);
    assert_eq!(dex.logs().last(), Some(&Event::AddVerifiedTokens { tokens: vec![30, 10, 20] }));
    dex.remove_verified_tokens(&[20, 40]).unwrap();
    assert_eq!(dex.get_verified_tokens(), vec![10, 30]);
    assert_eq!(dex.logs().last(), Some(&Event::RemoveVerifiedTokens { tokens: vec![20] }));

    dex.set_initiator_caller_ids(2);
    assert!(matches!(
        dex.add_verified_tokens(&[50]),
        Err(Error { kind: ErrorKind::PermissionDenied })
    ));
    assert_eq!(dex.get_verified_tokens(), vec![10, 30]);
}

#[test]
fn protocol_fee_fraction_set_and_read() {
    let acc: AccountId = 1;
    let mut dex = new_dex(acc);
    assert_eq!(dex.protocol_fee_fraction(), 1300);
    dex.set_protocol_fee_fraction(2000).unwrap();
    assert_eq!(dex.protocol_fee_fraction(), 2000);
    assert!(matches!(dex.set_protocol_fee_fraction(0), Err(Error { kind: ErrorKind::IllegalFee })));
    assert!(matches!(dex.set_protocol_fee_fraction(5_001), Err(Error { kind: ErrorKind::IllegalFee })));
    assert_eq!(dex.protocol_fee_fraction(), 2000);
    dex.set_initiator_caller_ids(2);
    assert!(matches!(
        dex.set_protocol_fee_fraction(3000),
        Err(Error { kind: ErrorKind::PermissionDenied })
    ));
}

#[test]
fn deposit_successful() {
    const DEPOSIT_AMOUNT: u128 = 2_000;
    let acc: AccountId = 1;
    let token_id: TokenId = 100;
    let mut dex = new_dex(acc);

    assert!(matches!(dex.register_account(), Ok(())));
    assert!(matches!(dex.register_tokens(&acc, &[token_id]), Ok(())));
    assert!(matches!(dex.deposit(&acc, &token_id, DEPOSIT_AMOUNT), Ok(amount) if amount == DEPOSIT_AMOUNT));

    let new_balance = dex.get_deposit(&acc, &token_id).unwrap();
    assert_eq!(new_balance, DEPOSIT_AMOUNT);
    assert!(dex.logs().iter().any(|event| matches!(
        event,
        Event::Deposit { user, token, amount, balance }
            if *user == acc && *token == token_id && *amount == DEPOSIT_AMOUNT && *balance == new_balance
    )));
}

#[test]
fn deposit_other_account_successful() {
    const DEPOSIT_AMOUNT: u128 = 2_000;
    let acc: AccountId = 1;
    let acc_to_deposit: AccountId = 2;
    let token_id: TokenId = 100;
    let mut dex = new_dex(acc);

    assert!(matches!(
        dex.deposit(&acc_to_deposit, &token_id, DEPOSIT_AMOUNT),
        Ok(amount) if amount == DEPOSIT_AMOUNT
    ));
    let new_balance = dex.get_deposit(&acc_to_deposit, &token_id).unwrap();
    assert_eq!(new_balance, DEPOSIT_AMOUNT);
    assert!(dex.logs().iter().any(|event| matches!(
        event,
        Event::Deposit { user, token, amount, balance }
            if *user == acc_to_deposit && *token == token_id && *amount == DEPOSIT_AMOUNT && *balance == new_balance
    )));
}

#[test]
fn deposit_overflow_changes_nothing() {
    let acc: AccountId = 1;
    let token_id: TokenId = 100;
    let mut dex = new_dex(acc);
    dex.deposit(&acc, &token_id, u128::MAX - 5).unwrap();
    let events = dex.logs().len();
    assert!(matches!(dex.deposit(&acc, &token_id, 6), Err(Error { kind: ErrorKind::DepositWouldOverflow })));
    assert_eq!(dex.get_deposit(&acc, &token_id), Ok(u128::MAX - 5));
    assert_eq!(dex.logs().len(), events);
    assert_eq!(dex.deposit(&acc, &token_id, 5), Ok(u128::MAX));
}

#[test]
fn get_deposit_failures() {
    let acc: AccountId = 1;
    let mut dex = new_dex(acc);
    assert!(matches!(dex.get_deposit(&acc, &100), Err(Error { kind: ErrorKind::AccountNotRegistered })));
    dex.register_account().unwrap();
    assert!(matches!(dex.get_deposit(&acc, &100), Err(Error { kind: ErrorKind::TokenNotRegistered })));
}

#[test]
fn withdraw_failure_account_not_registered() {
    let acc: AccountId = 1;
    let token_id: TokenId = 100;
    let mut dex = new_dex(acc);
    assert!(matches!(
        dex.withdraw(&acc, &token_id, 2_000, false),
        Err(Error { kind: ErrorKind::AccountNotRegistered })
    ));
}

#[test]
fn withdraw_failure_token_not_registered() {
    let acc: AccountId = 1;
    let token_id: TokenId = 100;
    let mut dex = new_dex(acc);
    assert!(matches!(dex.register_account(), Ok(())));
    assert!(matches!(
        dex.withdraw(&acc, &token_id, 2_000, false),
        Err(Error { kind: ErrorKind::TokenNotRegistered })
    ));
}

#[test]
fn success_withdraw_zero_amount_zero_balance() {
    let acc: AccountId = 1;
    let token_id: TokenId = 100;
    let mut dex = new_dex(acc);
    assert!(matches!(dex.register_account(), Ok(_)));
    assert!(matches!(dex.register_tokens(&acc, &[token_id]), Ok(_)));
    assert!(matches!(dex.withdraw(&acc, &token_id, 0, false), Ok(None)));
    assert!(matches!(dex.get_deposit(&acc, &token_id), Ok(balance) if balance == 0));
}

#[test]
fn withdraw_zero_amount_zero_balance_unregisters() {
    let acc: AccountId = 1;
    let token_id: TokenId = 100;
    let mut dex = new_dex(acc);
    dex.register_account().unwrap();
    dex.register_tokens(&acc, &[token_id]).unwrap();
    assert!(matches!(dex.withdraw(&acc, &token_id, 0, true), Ok(None)));
    assert!(matches!(dex.get_deposit(&acc, &token_id), Err(Error { kind: ErrorKind::TokenNotRegistered })));
    assert!(matches!(dex.withdraw(&acc, &token_id, 0, true), Ok(None)));
}

#[test]
fn withdraw_failure_not_enough_tokens() {
    let acc: AccountId = 1;
    let token_id: TokenId = 100;
    let mut dex = new_dex(acc);
    assert!(matches!(dex.register_account(), Ok(_)));
    assert!(matches!(dex.register_tokens(&acc, &[token_id]), Ok(_)));
    assert!(matches!(
        dex.withdraw(&acc, &token_id, 2_000, false),
        Err(Error { kind: ErrorKind::NotEnoughTokens })
    ));
    assert!(matches!(dex.get_deposit(&acc, &token_id), Ok(balance) if balance == 0));
    assert!(matches!(dex.deposit(&acc, &token_id, 1_000), Ok(_)));
    assert!(matches!(
        dex.withdraw(&acc, &token_id, 2_000, false),
        Err(Error { kind: ErrorKind::NotEnoughTokens })
    ));
    assert!(matches!(dex.get_deposit(&acc, &token_id), Ok(balance) if balance == 1_000));
}

#[test]
fn withdraw_success_whole_balance() {
    let acc: AccountId = 1;
    let token_id: TokenId = 100;
    let mut dex = new_dex(acc);
    assert!(matches!(dex.register_account(), Ok(_)));
    assert!(matches!(dex.register_tokens(&acc, &[token_id]), Ok(_)));
    assert!(matches!(dex.deposit(&acc, &token_id, 2_000), Ok(_)));
    assert!(matches!(
        dex.withdraw(&acc, &token_id, 0, false),
        Ok(Some(SendTokens { account_id: 1, token_id: 100, amount: 2_000, unregister: false }))
    ));
    assert!(matches!(dex.get_deposit(&acc, &token_id), Ok(balance) if balance == 0));
    assert!(matches!(dex.deposit(&acc, &token_id, 2_000), Ok(_)));
    assert!(matches!(dex.withdraw(&acc, &token_id, 2_000, false), Ok(Some(_))));
    assert!(matches!(dex.get_deposit(&acc, &token_id), Ok(balance) if balance == 0));
    assert_eq!(
        dex.logs().last(),
        Some(&Event::Withdraw { user: acc, token: token_id, amount: 2_000, balance: 0 })
    );
}

#[test]
fn withdraw_success_arbitrary() {
    const RANDOM_DEPOSIT_MAX: u128 = 1_000_000;
    const N_ITERS: i32 = 100;
    let acc: AccountId = 1;
    let token_id: TokenId = 100;
    let mut dex = new_dex(acc);
    assert!(matches!(dex.register_account(), Ok(_)));
    assert!(matches!(dex.register_tokens(&acc, &[token_id]), Ok(_)));

    let mut balance: u128 = 2_000;
    assert!(matches!(dex.deposit(&acc, &token_id, balance), Ok(_)));

    // A fixed linear congruential sequence stands for random amounts.
    let mut seed: u128 = 0x2545_f491;
    let mut next = |bound: u128| {
        seed = (seed * 6_364_136_223_846_793_005 + 1_442_695_040_888_963_407) % (1u128 << 64);
        seed % bound
    };
    for _ in 0..N_ITERS {
        let amount = next(RANDOM_DEPOSIT_MAX + 1);
        balance += amount;
        assert!(matches!(dex.deposit(&acc, &token_id, amount), Ok(_)));
        let before_balance = balance;
        let amount = 1 + next(balance);
        assert!(matches!(dex.withdraw(&acc, &token_id, amount, false), Ok(Some(_))));
        balance -= amount;
        assert!(
            matches!(dex.get_deposit(&acc, &token_id), Ok(after_balance) if after_balance == balance),
            "Balance {} is expected to be {} after withdrawing {}",
            before_balance,
            balance,
            amount,
        );
    }
}

#[test]
fn owner_withdraw_rules() {
    let owner: AccountId = 1;
    let token_id: TokenId = 100;
    let mut dex = new_dex(owner);
    assert!(matches!(
        dex.owner_withdraw(&token_id, 0),
        Err(Error { kind: ErrorKind::IllegalWithdrawAmount })
    ));
    assert!(matches!(
        dex.owner_withdraw(&token_id, 10),
        Err(Error { kind: ErrorKind::AccountNotRegistered })
    ));
    dex.deposit(&owner, &token_id, 100).unwrap();
    assert_eq!(
        dex.owner_withdraw(&token_id, 40),
        Ok(SendTokens { account_id: owner, token_id, amount: 40, unregister: false })
    );
    assert_eq!(dex.get_deposit(&owner, &token_id), Ok(60));
    assert!(matches!(
        dex.owner_withdraw(&token_id, 61),
        Err(Error { kind: ErrorKind::NotEnoughTokens })
    ));
    dex.set_initiator_caller_ids(2);
    assert!(matches!(dex.owner_withdraw(&token_id, 1), Err(Error { kind: ErrorKind::PermissionDenied })));
}

#[test]
fn register_and_unregister_tokens() {
    let acc: AccountId = 1;
    let mut dex = new_dex(acc);
    assert!(matches!(
        dex.register_tokens(&acc, &[100]),
        Err(Error { kind: ErrorKind::AccountNotRegistered })
    ));
    dex.register_account().unwrap();
    dex.register_tokens(&acc, &[100, 101]).unwrap();
    dex.deposit(&acc, &100, 5).unwrap();
    dex.register_tokens(&acc, &[100]).unwrap();
    assert_eq!(dex.get_deposit(&acc, &100), Ok(5));
    assert!(matches!(
        dex.unregister_tokens(&acc, &[101, 100]),
        Err(Error { kind: ErrorKind::NonZeroTokenBalance })
    ));
    assert_eq!(dex.get_deposit(&acc, &101), Ok(0));
    dex.unregister_tokens(&acc, &[101, 102]).unwrap();
    assert!(matches!(dex.get_deposit(&acc, &101), Err(Error { kind: ErrorKind::TokenNotRegistered })));
}

#[test]
fn unregister_account_rules() {
    let acc: AccountId = 1;
    let mut dex = new_dex(acc);
    assert_eq!(dex.unregister_account(), Ok(None));
    dex.register_account().unwrap();
    dex.register_tokens(&acc, &[100]).unwrap();
    assert!(matches!(
        dex.unregister_account(),
        Err(Error { kind: ErrorKind::TokensStorageNotEmpty })
    ));
    dex.unregister_tokens(&acc, &[100]).unwrap();
    assert!(matches!(
        dex.unregister_account_with_cb(None, |_, _| Err::<(), Error>(Error::new(ErrorKind::InvalidParams))),
        Err(Error { kind: ErrorKind::InvalidParams })
    ));
    assert_eq!(dex.unregister_account(), Ok(Some(())));
    assert!(matches!(dex.get_deposit(&acc, &100), Err(Error { kind: ErrorKind::AccountNotRegistered })));
}

#[test]
fn register_account_and_then_stores_only_on_success() {
    let acc: AccountId = 1;
    let mut dex = new_dex(acc);
    let r = dex.register_account_and_then(Some(5), |_, account, exists| {
        assert!(!exists);
        let Account::V0(account) = account;
        account.register_tokens(&[100]);
        Err::<(), Error>(Error::new(ErrorKind::InvalidParams))
    });
    assert!(matches!(r, Err(Error { kind: ErrorKind::InvalidParams })));
    assert!(matches!(dex.get_deposit(&5, &100), Err(Error { kind: ErrorKind::AccountNotRegistered })));
    let r = dex.register_account_and_then(Some(5), |_, account, exists| {
        assert!(!exists);
        let Account::V0(account) = account;
        account.register_tokens(&[100]);
        Ok(7)
    });
    assert_eq!(r, Ok(7));
    assert_eq!(dex.get_deposit(&5, &100), Ok(0));
}

#[test]
fn open_two_positions() {
    let acc: AccountId = 1;
    let mut dex = new_dex(acc);
    dex.register_account().unwrap();
    let token_0: TokenId = 100;
    let token_1: TokenId = 101;
    assert_ne!(token_0, token_1);
    dex.register_tokens(&acc, &[token_0, token_1]).unwrap();

    let amounts = (5_000_000, 5_000_000);
    let balance = dex.deposit(&acc, &token_0, amounts.0).unwrap();
    assert_eq!(amounts.0, balance);
    let balance = dex.deposit(&acc, &token_1, amounts.1).unwrap();
    assert_eq!(amounts.1, balance);

    let pool_id = (token_0, token_1);
    let amounts = (100_000, 100_000);
    let (pos_id, balance_0, balance_1, _) =
        dex.open_position_full(&pool_id.0, &pool_id.1, 1, amounts.0, amounts.1).unwrap();
    assert_eq!(amounts, (balance_0, balance_1));
    assert_eq!(pos_id, 0);

    let amounts = (50_000, 50_000);
    let (pos_id, balance_0, balance_1, _) =
        dex.open_position_full(&pool_id.0, &pool_id.1, 1, amounts.0, amounts.1).unwrap();
    assert_eq!(amounts, (balance_0, balance_1));
    assert_eq!(pos_id, 1);
}

#[test]
fn open_position_refusals() {
    let acc: AccountId = 1;
    let mut dex = new_dex(acc);
    assert!(matches!(
        dex.open_position_full(&100, &100, 1, 10, 10),
        Err(Error { kind: ErrorKind::TokenDuplicates })
    ));
    assert!(matches!(
        dex.open_position_full(&100, &101, 3, 10, 10),
        Err(Error { kind: ErrorKind::IllegalFee })
    ));
    assert!(matches!(
        dex.open_position_full(&100, &101, 1, 10, 10),
        Err(Error { kind: ErrorKind::NotEnoughTokens })
    ));
    assert!(matches!(dex.get_deposit(&acc, &100), Err(Error { kind: ErrorKind::AccountNotRegistered })));
    assert_eq!(dex.contract().as_ref().pool_count, 0);
}

#[test]
fn open_and_close_position_in_user_order() {
    let acc: AccountId = 1;
    let mut dex = new_dex(acc);
    dex.deposit(&acc, &100, 1_000).unwrap();
    dex.deposit(&acc, &101, 2_000).unwrap();
    let (position_id, a, b, liquidity) = dex.open_position_full(&100, &101, 4, 300, 700).unwrap();
    assert_eq!((position_id, a, b, liquidity), (0, 300, 700, 300));
    assert_eq!(dex.get_deposit(&acc, &100), Ok(700));
    assert_eq!(dex.get_deposit(&acc, &101), Ok(1_300));
    assert_eq!(dex.contract().as_ref().pool_count, 1);
    assert_eq!(dex.contract().as_ref().next_free_position_id, 1);

    dex.set_initiator_caller_ids(2);
    assert!(matches!(dex.close_position(position_id), Err(Error { kind: ErrorKind::AccountNotRegistered })));
    dex.register_account().unwrap();
    assert!(matches!(dex.close_position(position_id), Err(Error { kind: ErrorKind::NotYourPosition })));
    dex.set_initiator_caller_ids(acc);
    assert!(matches!(dex.close_position(9), Err(Error { kind: ErrorKind::PositionDoesNotExist })));
    assert_eq!(dex.withdraw_fee(position_id), Ok((0, 0)));
    dex.close_position(position_id).unwrap();
    assert_eq!(dex.get_deposit(&acc, &100), Ok(1_000));
    assert_eq!(dex.get_deposit(&acc, &101), Ok(2_000));
    assert!(matches!(dex.close_position(position_id), Err(Error { kind: ErrorKind::PositionDoesNotExist })));
}

#[test]
fn swap_exact_in_success() {
    let SwapTestContext { mut dex, token_ids: (token_0, token_1), .. } = SwapTestContext::new();
    assert!(matches!(dex.swap_exact_in(&[token_0, token_1], 100, 0), Ok(_)));
}

#[test]
fn base_swap_exact_in_failure() {
    let SwapTestContext { mut dex, token_ids: (token_0, token_1), .. } = SwapTestContext::new();
    assert!(matches!(dex.swap_exact_in(&[token_0, token_1], 1, 20), Err(_)));
}

#[test]
fn swap_exact_out_success() {
    let SwapTestContext { mut dex, token_ids: (token_0, token_1), .. } = SwapTestContext::new();
    assert!(matches!(dex.swap_exact_out(&[token_0, token_1], 100, 2000), Ok(_)));
}

#[test]
fn base_swap_exact_out_failure() {
    let SwapTestContext { mut dex, token_ids: (token_0, token_1), .. } = SwapTestContext::new();
    assert!(matches!(dex.swap_exact_out(&[token_0, token_1], 100, 1), Err(_)));
}

#[test]
fn swap_exact_in_books_amounts() {
    let SwapTestContext { mut dex, owner, token_ids: (token_0, token_1), .. } = SwapTestContext::new_all_1g();
    let before = (dex.get_deposit(&owner, &token_0).unwrap(), dex.get_deposit(&owner, &token_1).unwrap());
    let (amount_in, amount_out) = dex.swap_exact_in(&[token_0, token_1], 1_000, 1).unwrap();
    assert_eq!(amount_in, 1_000);
    assert_eq!(dex.get_deposit(&owner, &token_0), Ok(before.0 - amount_in));
    assert_eq!(dex.get_deposit(&owner, &token_1), Ok(before.1 + amount_out));
    assert_eq!(
        dex.logs().last(),
        Some(&Event::Swap { user: owner, token_in: token_0, token_out: token_1, amount_in, amount_out })
    );
    assert!(matches!(dex.swap_exact_in(&[token_0], 1_000, 1), Err(Error { kind: ErrorKind::AtLeastOneSwap })));
    assert!(matches!(
        dex.swap_exact_in(&[token_0, 555], 1_000, 1),
        Err(Error { kind: ErrorKind::PoolNotRegistered })
    ));
    assert!(matches!(
        dex.swap_exact_in(&[token_0, token_0], 1_000, 1),
        Err(Error { kind: ErrorKind::TokenDuplicates })
    ));
    assert!(matches!(
        dex.swap_exact_in(&[token_0, token_1], 1_000, 1_000_000),
        Err(Error { kind: ErrorKind::Slippage })
    ));
}

#[test]
fn swap_registers_caller_without_booking() {
    let SwapTestContext { mut dex, token_ids: (token_0, token_1), .. } = SwapTestContext::new_all_1g();
    dex.set_initiator_caller_ids(9);
    let (amount_in, amount_out) = dex.swap(&token_0, &token_1, SwapKind::ExactIn, None, 1_000).unwrap();
    assert_eq!(amount_in, 1_000);
    assert!(amount_out > 0);
    assert_eq!(dex.get_deposit(&9, &token_0), Ok(0));
    assert_eq!(dex.get_deposit(&9, &token_1), Ok(0));
}

#[test]
fn withdraw_protocol_fee_rules() {
    let SwapTestContext { mut dex, owner, token_ids: (token_0, token_1), .. } = SwapTestContext::new();
    assert_eq!(dex.withdraw_protocol_fee((token_0, token_1)), Ok((0, 0)));
    assert!(matches!(
        dex.withdraw_protocol_fee((token_0, token_0)),
        Err(Error { kind: ErrorKind::TokenDuplicates })
    ));
    assert!(matches!(
        dex.withdraw_protocol_fee((token_0, 555)),
        Err(Error { kind: ErrorKind::PoolNotRegistered })
    ));
    dex.set_initiator_caller_ids(owner + 1);
    assert!(matches!(
        dex.withdraw_protocol_fee((token_0, token_1)),
        Err(Error { kind: ErrorKind::PermissionDenied })
    ));
}

#[test]
fn deposit_execute_actions_success_just_deposit() {
    let SwapTestContext { mut dex, token_ids, owner, .. } = SwapTestContext::new();
    let before = dex.get_deposit(&owner, &token_ids.0).unwrap();
    assert!(matches!(
        dex.deposit_execute_actions(
            &owner,
            &[DepositPayment { token_id: token_ids.0, amount: 1_000 }],
            its_ok,
            vec![Action::Deposit]
        ),
        Ok(v) if v.is_empty()
    ));
    assert_eq!(dex.get_deposit(&owner, &token_ids.0), Ok(before + 1_000));
}

#[test]
fn deposit_execute_actions_fail_mutable_api_stopped() {
    let SwapTestContext { mut dex, token_ids, owner, .. } = SwapTestContext::new();
    let payment = [DepositPayment { token_id: token_ids.0, amount: 1_000 }];
    assert!(matches!(
        dex.deposit_execute_actions(&owner, &payment, its_ok, vec![Action::Deposit]),
        Ok(o) if o.is_empty()
    ));
    assert!(matches!(dex.suspend_payable_api(), Ok(_)));
    assert!(matches!(
        dex.deposit_execute_actions(&owner, &payment, its_ok, vec![Action::Deposit]),
        Err(Error { kind: ErrorKind::PayableAPISuspended })
    ));
    assert!(matches!(dex.resume_payable_api(), Ok(_)));
    assert!(matches!(
        dex.deposit_execute_actions(&owner, &payment, its_ok, vec![Action::Deposit]),
        Ok(o) if o.is_empty()
    ));
}

#[test]
fn fail_caller_not_initiator() {
    let SwapTestContext { mut dex, token_ids, owner, .. } = SwapTestContext::new();
    let from: AccountId = 77;
    let payment = [DepositPayment { token_id: token_ids.0, amount: 1_000 }];
    assert!(matches!(
        dex.deposit_execute_actions(&from, &payment, its_ok, vec![Action::Deposit]),
        Err(Error { kind: ErrorKind::DepositSenderMustBeSigner })
    ));
    dex.set_initiator_id(from);
    assert!(matches!(
        dex.deposit_execute_actions(&owner, &payment, its_ok, vec![Action::Deposit]),
        Err(Error { kind: ErrorKind::DepositSenderMustBeSigner })
    ));
}

#[test]
fn empty() {
    let SwapTestContext { mut dex, .. } = SwapTestContext::new();
    let events = dex.logs().len();
    assert!(matches!(dex.execute_actions(its_ok, vec![]), Ok((v, None)) if v.is_empty()));
    assert_eq!(dex.logs().len(), events);
}

#[test]
fn execute_actions_fail_mutable_api_stopped() {
    let SwapTestContext { mut dex, .. } = SwapTestContext::new();
    assert!(matches!(dex.execute_actions(its_ok, vec![]), Ok((v, None)) if v.is_empty()));
    assert!(matches!(dex.suspend_payable_api(), Ok(_)));
    assert!(matches!(
        dex.execute_actions(its_ok, vec![]),
        Err(Error { kind: ErrorKind::PayableAPISuspended })
    ));
    assert!(matches!(dex.resume_payable_api(), Ok(_)));
    assert!(matches!(dex.execute_actions(its_ok, vec![]), Ok((v, None)) if v.is_empty()));
}

#[test]
fn fail_register_account_callback_fails() {
    let SwapTestContext { mut dex, token_ids, owner, .. } = SwapTestContext::new();
    assert!(matches!(
        dex.execute_actions_impl(
            &owner,
            &[DepositPayment { token_id: token_ids.0, amount: 1_000 }],
            |_: &AccountId, _: &mut Account, _: bool| Err(Error::new(ErrorKind::InvalidParams)),
            vec![Action::RegisterAccount, Action::Deposit]
        ),
        Err(Error { kind: ErrorKind::InvalidParams })
    ));
}

#[test]
fn fail_register_account_not_first() {
    let SwapTestContext { mut dex, token_ids, owner, .. } = SwapTestContext::new();
    assert!(matches!(
        dex.execute_actions_impl(
            &owner,
            &[DepositPayment { token_id: token_ids.0, amount: 1_000 }],
            its_ok,
            vec![Action::Deposit, Action::RegisterAccount]
        ),
        Err(Error { kind: ErrorKind::UnexpectedRegisterAccount })
    ));
}

#[test]
fn fail_deposit_action_no_data() {
    let SwapTestContext { mut dex, owner, .. } = SwapTestContext::new_all_1g();
    assert!(matches!(
        dex.execute_actions_impl(&owner, &[], its_ok, vec![Action::Deposit]),
        Err(Error { kind: ErrorKind::DepositNotAllowed })
    ));
}

#[test]
fn fail_deposit_data_no_action() {
    let SwapTestContext { mut dex, token_ids, owner, .. } = SwapTestContext::new_all_1g();
    let payment = [DepositPayment { token_id: token_ids.0, amount: 1_000_000 }];
    assert!(matches!(
        dex.execute_actions_impl(&owner, &payment, its_ok, vec![]),
        Err(Error { kind: ErrorKind::DepositNotHandled })
    ));
    let tok2: TokenId = 555;
    assert!(matches!(
        dex.execute_actions_impl(&owner, &payment, its_ok, vec![Action::RegisterTokens(vec![tok2])]),
        Err(Error { kind: ErrorKind::DepositNotHandled })
    ));
    assert!(matches!(dex.get_deposit(&owner, &tok2), Err(Error { kind: ErrorKind::TokenNotRegistered })));
}

#[test]
fn fail_deposit_twice() {
    let SwapTestContext { mut dex, token_ids, owner, .. } = SwapTestContext::new();
    let before = dex.get_deposit(&owner, &token_ids.0).unwrap();
    assert!(matches!(
        dex.execute_actions_impl(
            &owner,
            &[DepositPayment { token_id: token_ids.0, amount: 1_000 }],
            its_ok,
            vec![Action::Deposit, Action::Deposit]
        ),
        Err(Error { kind: ErrorKind::DepositAlreadyHandled })
    ));
    assert_eq!(dex.get_deposit(&owner, &token_ids.0), Ok(before));
}

#[test]
fn success_zero_withdraw() {
    let SwapTestContext { mut dex, token_ids, owner, .. } = SwapTestContext::new();
    let tok2: TokenId = 555;
    assert!(matches!(
        dex.execute_actions_impl(&owner, &[], its_ok, vec![Action::Withdraw(tok2, 0)]),
        Ok(v) if matches!(&v[..], &[ActionResult::Withdraw(None)])
    ));
    dex.register_tokens(&owner, &[tok2]).unwrap();
    assert!(matches!(
        dex.execute_actions_impl(&owner, &[], its_ok, vec![Action::Withdraw(tok2, 0)]),
        Ok(v) if matches!(&v[..], &[ActionResult::Withdraw(None)])
    ));
    assert!(matches!(
        dex.execute_actions_impl(
            &owner,
            &[DepositPayment { token_id: token_ids.0, amount: 1_000 }],
            its_ok,
            vec![Action::Deposit, Action::Withdraw(tok2, 0)]
        ),
        Ok(v) if matches!(&v[..], &[ActionResult::Deposit, ActionResult::Withdraw(None)])
    ));
}

#[test]
fn fail_withdraw() {
    let SwapTestContext { mut dex, token_ids, owner, .. } = SwapTestContext::new();
    let tok2: TokenId = 555;
    assert!(matches!(
        dex.execute_actions_impl(
            &owner,
            &[DepositPayment { token_id: token_ids.0, amount: 1_000 }],
            its_ok,
            vec![Action::Deposit, Action::Withdraw(tok2, 1_000)]
        ),
        Err(Error { kind: ErrorKind::TokenNotRegistered })
    ));
}

#[test]
fn fail_open_position() {
    let SwapTestContext { mut dex, token_ids, owner, .. } = SwapTestContext::new_all_1g();
    assert!(matches!(
        dex.execute_actions_impl(
            &owner,
            &[],
            its_ok,
            vec![Action::OpenPosition {
                tokens: (token_ids.0, token_ids.0),
                fee_rate: 1,
                position: PositionInit {
                    amount_ranges: (Range { min: 1, max: 1_000_000 }, Range { min: 1, max: 1_000_000 }),
                    ticks_range: (None, None),
                },
            }]
        ),
        Err(Error { kind: ErrorKind::TokenDuplicates })
    ));
}

#[test]
fn fail_close_position() {
    let SwapTestContext { mut dex, owner, .. } = SwapTestContext::new_all_1g();
    let invalid_id = dex.contract().as_ref().next_free_position_id + 1;
    assert!(matches!(
        dex.execute_actions_impl(&owner, &[], its_ok, vec![Action::ClosePosition(invalid_id)]),
        Err(Error { kind: ErrorKind::PositionDoesNotExist })
    ));
}

#[test]
fn fail_withdraw_fee() {
    let SwapTestContext { mut dex, owner, .. } = SwapTestContext::new_all_1g();
    let invalid_id = dex.contract().as_ref().next_free_position_id + 1;
    assert!(matches!(
        dex.execute_actions_impl(&owner, &[], its_ok, vec![Action::WithdrawFee(invalid_id)]),
        Err(Error { kind: ErrorKind::PositionDoesNotExist })
    ));
}

#[test]
fn fail_no_start_amount() {
    let SwapTestContext { mut dex, token_ids, owner, .. } = SwapTestContext::new_all_1g();
    let swap = |amount: Option<Amount>| SwapAction {
        token_in: token_ids.0,
        token_out: token_ids.1,
        amount,
        amount_limit: 5_000,
    };
    assert!(matches!(
        dex.execute_actions_impl(&owner, &[], its_ok, vec![Action::SwapExactIn(swap(None))]),
        Err(Error { kind: ErrorKind::WrongActionResult })
    ));
    assert!(matches!(
        dex.execute_actions_impl(&owner, &[], its_ok, vec![Action::SwapExactOut(swap(None))]),
        Err(Error { kind: ErrorKind::WrongActionResult })
    ));
    assert!(matches!(
        dex.execute_actions_impl(
            &owner,
            &[],
            its_ok,
            vec![Action::SwapExactIn(swap(Some(10_000))), Action::SwapExactIn(swap(None))]
        ),
        Err(Error { kind: ErrorKind::WrongActionResult })
    ));
    assert!(matches!(
        dex.execute_actions(its_ok, vec![Action::SwapExactOut(swap(Some(2_500))), Action::SwapExactOut(swap(None))]),
        Err(Error { kind: ErrorKind::WrongActionResult })
    ));
}

#[test]
fn success_no_deposit_empty_batch() {
    let SwapTestContext { mut dex, owner, .. } = SwapTestContext::new();
    assert!(matches!(
        dex.execute_actions_impl(&owner, &[], its_ok, vec![]),
        Ok(v) if v.is_empty()
    ));
}

#[test]
fn execute_actions_impl_success_just_deposit() {
    let SwapTestContext { mut dex, token_ids, owner, .. } = SwapTestContext::new();
    let before = dex.get_deposit(&owner, &token_ids.0).unwrap();
    assert!(matches!(
        dex.execute_actions_impl(
            &owner,
            &[DepositPayment { token_id: token_ids.0, amount: 1_000 }],
            its_ok,
            vec![Action::Deposit]
        ),
        Ok(v) if matches!(&v[..], &[ActionResult::Deposit])
    ));
    assert_eq!(dex.get_deposit(&owner, &token_ids.0), Ok(before + 1_000));
}

#[test]
fn success_multiple_deposit() {
    let SwapTestContext { mut dex, token_ids: (token_id1, token_id2), owner, .. } = SwapTestContext::new();
    let before = (dex.get_deposit(&owner, &token_id1).unwrap(), dex.get_deposit(&owner, &token_id2).unwrap());
    assert!(matches!(
        dex.execute_actions_impl(
            &owner,
            &[
                DepositPayment { token_id: token_id1, amount: 1_000 },
                DepositPayment { token_id: token_id2, amount: 1_001 },
            ],
            its_ok,
            vec![Action::Deposit]
        ),
        Ok(v) if matches!(&v[..], &[ActionResult::Deposit])
    ));
    assert_eq!(dex.get_deposit(&owner, &token_id1), Ok(before.0 + 1000));
    assert_eq!(dex.get_deposit(&owner, &token_id2), Ok(before.1 + 1001));
}

#[test]
fn success_register_account() {
    let SwapTestContext { mut dex, token_ids, owner, .. } = SwapTestContext::new();
    assert!(matches!(
        dex.execute_actions_impl(
            &owner,
            &[DepositPayment { token_id: token_ids.0, amount: 1_000 }],
            its_ok,
            vec![Action::RegisterAccount, Action::Deposit]
        ),
        Ok(v) if matches!(&v[..], &[ActionResult::RegisterAccount, ActionResult::Deposit])
    ));
}

#[test]
fn success_base_scenario_in() {
    let SwapTestContext { mut dex, token_ids, .. } = SwapTestContext::new();
    let acc: AccountId = 2;
    dex.set_initiator_id(acc);
    let amount_in = 1_000_000;
    let min_amount_out = amount_in / 2;
    assert!(matches!(
        dex.execute_actions_impl(
            &acc,
            &[DepositPayment { token_id: token_ids.0, amount: amount_in }],
            its_ok,
            vec![
                Action::RegisterAccount,
                Action::RegisterTokens(vec![token_ids.0, token_ids.1]),
                Action::Deposit,
                Action::SwapExactIn(SwapAction {
                    token_in: token_ids.0,
                    token_out: token_ids.1,
                    amount: Some(amount_in),
                    amount_limit: min_amount_out,
                }),
                Action::Withdraw(token_ids.0, 0),
                Action::Withdraw(token_ids.1, 0),
            ]
        ),
        Ok(v) if matches!(&v[..], &[
            ActionResult::RegisterAccount,
            ActionResult::RegisterTokens,
            ActionResult::Deposit,
            ActionResult::SwapExactIn(_),
            ActionResult::Withdraw(_),
            ActionResult::Withdraw(_),
        ])
    ));
    assert_eq!(dex.get_deposit(&acc, &token_ids.0), Ok(0));
    assert_eq!(dex.get_deposit(&acc, &token_ids.1), Ok(0));
}

#[test]
fn success_base_scenario_out() {
    let SwapTestContext { mut dex, token_ids, .. } = SwapTestContext::new();
    let acc: AccountId = 2;
    dex.set_initiator_id(acc);
    let deposit_amount = 2_000_000;
    let amount_out = 1_000_000;
    let max_amount_in = amount_out * 2;
    assert!(matches!(
        dex.execute_actions_impl(
            &acc,
            &[DepositPayment { token_id: token_ids.0, amount: deposit_amount }],
            its_ok,
            vec![
                Action::RegisterAccount,
                Action::RegisterTokens(vec![token_ids.0, token_ids.1]),
                Action::Deposit,
                Action::SwapExactOut(SwapAction {
                    token_in: token_ids.0,
                    token_out: token_ids.1,
                    amount: Some(amount_out),
                    amount_limit: max_amount_in,
                }),
                Action::Withdraw(token_ids.0, 0),
                Action::Withdraw(token_ids.1, 0),
            ]
        ),
        Ok(v) if matches!(&v[..], &[
            ActionResult::RegisterAccount,
            ActionResult::RegisterTokens,
            ActionResult::Deposit,
            ActionResult::SwapExactOut(_),
            ActionResult::Withdraw(_),
            ActionResult::Withdraw(_),
        ])
    ));
    assert_eq!(dex.get_deposit(&acc, &token_ids.0), Ok(0));
    assert_eq!(dex.get_deposit(&acc, &token_ids.1), Ok(0));
}

#[test]
fn success_base_open_position() {
    let SwapTestContext { mut dex, token_ids, .. } = SwapTestContext::new_all_1g();
    let acc: AccountId = 2;
    let amounts = (1_000_000, 1_000_000);
    dex.set_initiator_id(acc);
    assert!(matches!(
        dex.execute_actions_impl(
            &acc,
            &[DepositPayment { token_id: token_ids.0, amount: amounts.0 }],
            its_ok,
            vec![
                Action::RegisterAccount,
                Action::RegisterTokens(vec![token_ids.0, token_ids.1]),
                Action::Deposit,
            ]
        ),
        Ok(v) if matches!(&v[..], &[
            ActionResult::RegisterAccount,
            ActionResult::RegisterTokens,
            ActionResult::Deposit,
        ])
    ));
    assert!(matches!(
        dex.execute_actions_impl(
            &acc,
            &[DepositPayment { token_id: token_ids.1, amount: amounts.1 }],
            its_ok,
            vec![
                Action::Deposit,
                Action::OpenPosition {
                    tokens: token_ids,
                    fee_rate: 1,
                    position: PositionInit {
                        amount_ranges: (Range { min: 1, max: amounts.0 }, Range { min: 1, max: amounts.1 }),
                        ticks_range: (None, None),
                    },
                },
                Action::Withdraw(token_ids.0, 0),
                Action::Withdraw(token_ids.1, 0),
            ]
        ),
        Ok(v) if matches!(&v[..], &[
            ActionResult::Deposit,
            ActionResult::OpenPosition,
            ActionResult::Withdraw(_),
            ActionResult::Withdraw(_),
        ])
    ));
    assert_eq!(dex.get_deposit(&acc, &token_ids.0), Ok(0));
    assert_eq!(dex.get_deposit(&acc, &token_ids.1), Ok(0));
}

#[test]
fn success_base_close_position() {
    let SwapTestContext { mut dex, owner, token_ids, position_id } = SwapTestContext::new_all_1g();
    assert!(matches!(
        dex.execute_actions_impl(
            &owner,
            &[],
            its_ok,
            vec![
                Action::ClosePosition(position_id),
                Action::Withdraw(token_ids.0, 0),
                Action::Withdraw(token_ids.1, 0),
            ]
        ),
        Ok(v) if matches!(&v[..], &[
            ActionResult::ClosePosition,
            ActionResult::Withdraw(Some(_)),
            ActionResult::Withdraw(Some(_)),
        ])
    ));
    assert_eq!(dex.get_deposit(&owner, &token_ids.0), Ok(0));
    assert_eq!(dex.get_deposit(&owner, &token_ids.1), Ok(0));
}

#[test]
fn success_base_withdraw_fee() {
    let SwapTestContext { mut dex, token_ids, owner, position_id } = SwapTestContext::new_all_1g();
    let acc2: AccountId = 2;
    dex.register_account_and_then(Some(acc2), its_ok).unwrap();
    dex.register_tokens(&acc2, &[token_ids.0, token_ids.1]).unwrap();
    dex.deposit(&acc2, &token_ids.0, 1_000_000_000).unwrap();
    dex.deposit(&acc2, &token_ids.1, 1_000_000_000).unwrap();
    dex.execute_actions_impl(
        &acc2,
        &[],
        its_ok,
        vec![Action::SwapExactIn(SwapAction {
            token_in: token_ids.0,
            token_out: token_ids.1,
            amount: Some(1_000_000),
            amount_limit: 500_000,
        })],
    )
    .unwrap();
    assert!(matches!(
        dex.execute_actions_impl(
            &owner,
            &[],
            its_ok,
            vec![
                Action::WithdrawFee(position_id),
                Action::Withdraw(token_ids.0, 0),
                Action::Withdraw(token_ids.1, 0),
            ]
        ),
        Ok(v) if matches!(&v[..], &[
            ActionResult::WithdrawFee,
            ActionResult::Withdraw(_),
            ActionResult::Withdraw(_),
        ])
    ));
}

#[test]
fn failed_batch_changes_nothing() {
    let SwapTestContext { mut dex, token_ids, owner, .. } = SwapTestContext::new_all_1g();
    let before = (dex.get_deposit(&owner, &token_ids.0).unwrap(), dex.get_deposit(&owner, &token_ids.1).unwrap());
    let events = dex.logs().len();
    assert!(matches!(
        dex.execute_actions_impl(
            &owner,
            &[],
            its_ok,
            vec![
                Action::SwapExactIn(SwapAction {
                    token_in: token_ids.0,
                    token_out: token_ids.1,
                    amount: Some(1_000),
                    amount_limit: 1,
                }),
                Action::Withdraw(555, 1),
            ]
        ),
        Err(Error { kind: ErrorKind::TokenNotRegistered })
    ));
    assert_eq!(dex.get_deposit(&owner, &token_ids.0), Ok(before.0));
    assert_eq!(dex.get_deposit(&owner, &token_ids.1), Ok(before.1));
    assert_eq!(dex.logs().len(), events);
}

#[test]
fn two_swap_ins_chain_hands_amount_on() {
    let mut ctxt = SwapTestContext::new_all_1g();
    let token_2: TokenId = 102;
    let owner = ctxt.owner;
    let token_1 = ctxt.token_ids.1;
    ctxt.open_position((token_1, token_2), (1_000_000_000, 1_000_000_000));
    let SwapTestContext { mut dex, token_ids: (token_0, token_1), .. } = ctxt;
    let before = dex.get_deposit(&owner, &token_1).unwrap();
    let amount_out = match dex.execute_actions(
        its_ok,
        vec![
            Action::SwapExactIn(SwapAction { token_in: token_0, token_out: token_1, amount: Some(1_000), amount_limit: 500 }),
            Action::SwapExactIn(SwapAction { token_in: token_1, token_out: token_2, amount: None, amount_limit: 500 }),
        ],
    ) {
        Ok((outs, Some(a))) if outs.is_empty() => a,
        other => panic!("unexpected {:?}", other),
    };
    assert!((500..=1_000).contains(&amount_out));
    assert_eq!(dex.get_deposit(&owner, &token_1), Ok(before));
}

fn path(tokens: &[TokenId], amount: Amount) -> Path {
    Path { tokens: tokens.to_vec(), token_out: tokens[tokens.len() - 1], amount }
}

#[test]
fn multiple_path_swap_exact_in_matches_single_swaps() {
    let mut multi = SwapTestContext::new();
    let mut single = SwapTestContext::new();
    let (t0, t1) = multi.token_ids;
    let paths = vec![path(&[t0, t1], 1_000), path(&[t0, t1], 2_000)];
    let pairs = multi.dex.multiple_path_swap_exact_in(&paths, 0).unwrap();
    let first = single.dex.swap_exact_in(&[t0, t1], 1_000, 0).unwrap();
    let second = single.dex.swap_exact_in(&[t0, t1], 2_000, 0).unwrap();
    assert_eq!(pairs, vec![first, second]);
    assert_eq!(pairs[0].0, 1_000);
    assert_eq!(pairs[1].0, 2_000);
    let owner = multi.owner;
    assert_eq!(multi.dex.get_deposit(&owner, &t0).unwrap(), 500_000 - 3_000);
    assert_eq!(
        multi.dex.get_deposit(&owner, &t1).unwrap(),
        single.dex.get_deposit(&owner, &t1).unwrap()
    );
    assert_eq!(multi.dex.get_deposit(&owner, &t1).unwrap(), 5_000_000 + pairs[0].1 + pairs[1].1);
}

#[test]
fn multiple_path_swap_exact_in_slippage_changes_nothing() {
    let mut ctx = SwapTestContext::new();
    let (t0, t1) = ctx.token_ids;
    let owner = ctx.owner;
    let paths = vec![path(&[t0, t1], 1_000), path(&[t0, t1], 2_000)];
    let logs = ctx.dex.logs().len();
    assert_eq!(
        ctx.dex.multiple_path_swap_exact_in(&paths, Amount::MAX),
        Err(Error::new(ErrorKind::Slippage))
    );
    assert_eq!(ctx.dex.get_deposit(&owner, &t0).unwrap(), 500_000);
    assert_eq!(ctx.dex.get_deposit(&owner, &t1).unwrap(), 5_000_000);
    assert_eq!(ctx.dex.logs().len(), logs);
    let pairs = ctx.dex.multiple_path_swap_exact_in(&paths, 0).unwrap();
    assert_eq!(pairs.len(), 2);
}

#[test]
fn multiple_path_swap_exact_out_matches_single_swaps() {
    let mut multi = SwapTestContext::new();
    let mut single = SwapTestContext::new();
    let (t0, t1) = multi.token_ids;
    let paths = vec![path(&[t0, t1], 1_000), path(&[t1, t0], 50)];
    let pairs = multi.dex.multiple_path_swap_exact_out(&paths, Amount::MAX).unwrap();
    let first = single.dex.swap_exact_out(&[t0, t1], 1_000, Amount::MAX).unwrap();
    let second = single.dex.swap_exact_out(&[t1, t0], 50, Amount::MAX).unwrap();
    assert_eq!(pairs, vec![first, second]);
    assert_eq!(pairs[0].1, 1_000);
    assert_eq!(pairs[1].1, 50);
    let owner = multi.owner;
    for token in [t0, t1] {
        assert_eq!(
            multi.dex.get_deposit(&owner, &token).unwrap(),
            single.dex.get_deposit(&owner, &token).unwrap()
        );
    }
}

#[test]
fn multiple_path_swap_exact_out_caps_the_sum_in() {
    let mut ctx = SwapTestContext::new();
    let (t0, t1) = ctx.token_ids;
    let paths = vec![path(&[t0, t1], 1_000)];
    assert_eq!(
        ctx.dex.multiple_path_swap_exact_out(&paths, 1),
        Err(Error::new(ErrorKind::Slippage))
    );
    let pairs = ctx.dex.multiple_path_swap_exact_out(&paths, Amount::MAX).unwrap();
    assert_eq!(pairs.len(), 1);
    assert_eq!(pairs[0].1, 1_000);
    let paid = pairs[0].0;
    let mut at_limit = SwapTestContext::new();
    assert_eq!(at_limit.dex.multiple_path_swap_exact_out(&paths, paid), Ok(vec![(paid, 1_000)]));
    let mut below_limit = SwapTestContext::new();
    assert_eq!(
        below_limit.dex.multiple_path_swap_exact_out(&paths, paid - 1),
        Err(Error::new(ErrorKind::Slippage))
    );
}

#[test]
fn multiple_path_swap_with_no_path_or_no_swap() {
    let mut ctx = SwapTestContext::new();
    let (t0, _) = ctx.token_ids;
    let owner = ctx.owner;
    assert_eq!(ctx.dex.multiple_path_swap_exact_in(&[], 0), Ok(vec![]));
    assert_eq!(ctx.dex.multiple_path_swap_exact_in(&[], 1), Err(Error::new(ErrorKind::Slippage)));
    let pairs = ctx.dex.multiple_path_swap_exact_in(&[path(&[t0], 7)], 7).unwrap();
    assert_eq!(pairs, vec![(7, 7)]);
    assert_eq!(ctx.dex.get_deposit(&owner, &t0).unwrap(), 500_000);
    let mut dex = new_dex(3);
    assert_eq!(
        dex.multiple_path_swap_exact_in(&[path(&[t0], 7)], 0),
        Err(Error::new(ErrorKind::AccountNotRegistered))
    );
}

#[test]
fn multiple_path_swap_failures() {
    let mut ctx = SwapTestContext::new();
    let (t0, t1) = ctx.token_ids;
    let owner = ctx.owner;
    let missing = vec![path(&[t0, t1], 1_000), path(&[t0, 999], 1_000)];
    assert_eq!(
        ctx.dex.multiple_path_swap_exact_in(&missing, 0),
        Err(Error::new(ErrorKind::PoolNotRegistered))
    );
    let too_much = vec![path(&[t0, t1], 400_000), path(&[t0, t1], 400_000)];
    assert_eq!(
        ctx.dex.multiple_path_swap_exact_in(&too_much, 0),
        Err(Error::new(ErrorKind::NotEnoughTokens))
    );
    assert_eq!(ctx.dex.get_deposit(&owner, &t0).unwrap(), 500_000);
    assert_eq!(ctx.dex.get_deposit(&owner, &t1).unwrap(), 5_000_000);
    ctx.dex.suspend_payable_api().unwrap();
    assert_eq!(
        ctx.dex.multiple_path_swap_exact_out(&[path(&[t0, t1], 10)], 0),
        Err(Error::new(ErrorKind::PayableAPISuspended))
    );
}

#[test]
fn get_pool_info_of_pairs() {
    let ctx = SwapTestContext::new();
    let (t0, t1) = ctx.token_ids;
    assert!(matches!(ctx.dex.get_pool_info((t0, t0)), Err(Error { kind: ErrorKind::TokenDuplicates })));
    assert!(matches!(ctx.dex.get_pool_info((t0, 999)), Ok(None)));
    let forward = ctx.dex.get_pool_info((t0, t1)).unwrap().unwrap();
    let reverse = ctx.dex.get_pool_info((t1, t0)).unwrap().unwrap();
    assert_eq!(forward.total_reserves, (reverse.total_reserves.1, reverse.total_reserves.0));
    assert_eq!(forward.fee_divisor, 10_000);
}

#[test]
fn get_pool_infos_in_increasing_order() {
    let mut ctx = SwapTestContext::new();
    ctx.open_position((7, 3), (1_000, 1_000));
    ctx.open_position((2, 5), (1_000, 1_000));
    let infos = ctx.dex.get_pool_infos().unwrap();
    assert_eq!(infos.len(), 3);
    let ids: Vec<(TokenId, TokenId)> = infos.iter().map(|(id, _)| (*id.as_refs().0, *id.as_refs().1)).collect();
    let mut sorted = ids.clone();
    sorted.sort();
    assert_eq!(ids, sorted);
    assert!(ids.contains(&(7, 3)));
    assert!(ids.contains(&(5, 2)));
    assert!(ids.contains(&(101, 100)));
}

#[test]
fn get_pool_ticks_of_pairs() {
    let ctx = SwapTestContext::new();
    let (t0, t1) = ctx.token_ids;
    assert_eq!(ctx.dex.get_pool_ticks((t0, t0), 1), None);
    assert_eq!(ctx.dex.get_pool_ticks((t0, 999), 1), None);
    assert_eq!(ctx.dex.get_pool_ticks((t0, t1), 0), Some(2));
    assert_eq!(ctx.dex.get_pool_ticks((t1, t0), 1), Some(0));
}

fn fraction_parts(f: Fraction) -> (Amount, Amount) {
    (f.nominator, f.denominator)
}

#[test]
fn fraction_from_float_parts() {
    assert_eq!(fraction_parts(Fraction::from_float_parts(true, 5, 3, -1).unwrap()), (0, 0));
    assert_eq!(fraction_parts(Fraction::from_float_parts(false, 3, 2, 1).unwrap()), (12, 1));
    assert_eq!(fraction_parts(Fraction::from_float_parts(false, 3, -2, 1).unwrap()), (3, 4));
    assert_eq!(fraction_parts(Fraction::from_float_parts(false, 1, -127, 1).unwrap()), (1, 1 << 127));
    assert_eq!(fraction_parts(Fraction::from_float_parts(false, 3, 127, 1).unwrap()), (1 << 127, 1));
    assert_eq!(fraction_parts(Fraction::from_float_parts(false, 3, 0, 1).unwrap()), (3, 1));
}

#[test]
fn fraction_from_float_parts_refuses() {
    for (exponent, sign) in [(0i16, -1i8), (128, 1), (-128, 1), (200, 1)] {
        assert!(matches!(
            Fraction::from_float_parts(false, 3, exponent, sign),
            Err(Error { kind: ErrorKind::InternalLogicError })
        ));
    }
}

#[test]
fn overlay_item_factory_new() {
    let _factory: OverlayItemFactory = OverlayItemFactory::new();
    let _default: OverlayItemFactory = Default::default();
}

#[test]
fn dex_tests_swap_swap_exact_in_failure() {
    let owner: AccountId = 11;
    let mut dex = new_dex(owner);
    dex.register_account().unwrap();
    let (t0, t1): (TokenId, TokenId) = (300, 301);
    dex.register_tokens(&owner, &[t0, t1]).unwrap();
    dex.deposit(&owner, &t0, 500_000_000_000_000_000_000_000).unwrap();
    dex.deposit(&owner, &t1, 500_000_000_000_000_000_000_000).unwrap();
    assert!(dex.swap_exact_in(&[t0, t1], 1, 20).is_err());
}

#[test]
fn dex_tests_swap_swap_exact_out_failure() {
    let owner: AccountId = 11;
    let mut dex = new_dex(owner);
    dex.register_account().unwrap();
    let (t0, t1): (TokenId, TokenId) = (300, 301);
    dex.register_tokens(&owner, &[t0, t1]).unwrap();
    dex.deposit(&owner, &t0, 500_000_000_000_000_000_000_000).unwrap();
    dex.deposit(&owner, &t1, 500_000_000_000_000_000_000_000).unwrap();
    assert!(dex.swap_exact_out(&[t0, t1], 100, 1).is_err());
}

#[test]
fn fail_pool_not_registered() {
    let mut ctx = SwapTestContext::new();
    let owner = ctx.owner;
    let (t0, t1) = ctx.token_ids;
    let other: (TokenId, TokenId) = (200, 201);
    ctx.dex.register_tokens(&owner, &[other.0, other.1]).unwrap();
    let contract = ctx.dex.contract().as_ref();
    let account = match contract.accounts.get(&owner) {
        Some(Account::V0(account)) => account.copied(),
        None => panic!("the owner is registered"),
    };
    let mut view = AccountViewMut::new(
        owner,
        account,
        contract.pools,
        contract.pool_count,
        contract.next_free_position_id,
        contract.position_to_pool_id.copied(),
        contract.protocol_fee_fraction,
    );
    for (a, b) in [(t0, other.0), (t0, other.1), (t1, other.0), (t1, other.1), (other.0, other.1)] {
        for (token_in, token_out) in [(a, b), (b, a)] {
            let action = SwapAction { token_in, token_out, amount: Some(5_000), amount_limit: 5_000 };
            assert_eq!(
                view.execute_swap_action(&None, SwapKind::ExactIn, action),
                Err(Error::new(ErrorKind::PoolNotRegistered))
            );
        }
    }
}

#[test]
fn deposit_then_withdraw_restores_balance() {
    let owner: AccountId = 5;
    let mut dex = new_dex(owner);
    dex.register_account().unwrap();
    dex.register_tokens(&owner, &[40]).unwrap();
    dex.deposit(&owner, &40, 70).unwrap();
    assert_eq!(dex.deposit(&owner, &40, 30), Ok(100));
    assert_eq!(dex.get_deposit(&owner, &40), Ok(100));
    dex.withdraw(&owner, &40, 30, false).unwrap();
    assert_eq!(dex.get_deposit(&owner, &40), Ok(70));
    dex.deposit(&owner, &41, 9).unwrap();
    dex.withdraw(&owner, &41, 9, false).unwrap();
    assert_eq!(dex.get_deposit(&owner, &41), Ok(0));
}

#[test]
fn suspend_then_resume_restores_payable_methods() {
    let owner: AccountId = 5;
    let mut dex = new_dex(owner);
    dex.register_account().unwrap();
    dex.suspend_payable_api().unwrap();
    assert_eq!(dex.deposit(&owner, &40, 1), Err(Error::new(ErrorKind::PayableAPISuspended)));
    dex.resume_payable_api().unwrap();
    assert_eq!(dex.deposit(&owner, &40, 1), Ok(1));
}

#[test]
fn register_then_unregister_account_restores_accounts() {
    let owner: AccountId = 5;
    let mut dex = new_dex(owner);
    assert!(dex.get_deposit(&owner, &40).is_err());
    dex.register_account().unwrap();
    assert_eq!(dex.get_deposit(&owner, &40), Err(Error::new(ErrorKind::TokenNotRegistered)));
    dex.unregister_account().unwrap();
    assert_eq!(dex.get_deposit(&owner, &40), Err(Error::new(ErrorKind::AccountNotRegistered)));
}

#[test]
fn register_tokens_twice_keeps_balances() {
    let owner: AccountId = 5;
    let mut dex = new_dex(owner);
    dex.register_account().unwrap();
    dex.register_tokens(&owner, &[40, 41]).unwrap();
    dex.deposit(&owner, &40, 12).unwrap();
    dex.register_tokens(&owner, &[40, 41, 42]).unwrap();
    assert_eq!(dex.get_deposit(&owner, &40), Ok(12));
    assert_eq!(dex.get_deposit(&owner, &41), Ok(0));
    assert_eq!(dex.get_deposit(&owner, &42), Ok(0));
}

#[test]
fn eff_sqrtprices_of_pairs() {
    let ctx = SwapTestContext::new();
    let (t0, t1) = ctx.token_ids;
    assert!(matches!(ctx.dex.eff_sqrtprices((t0, t0), Side::Left), Err(Error { kind: ErrorKind::TokenDuplicates })));
    assert!(matches!(
        ctx.dex.eff_sqrtprices((t0, 999), Side::Left),
        Err(Error { kind: ErrorKind::PoolNotRegistered })
    ));
    let forward = ctx.dex.eff_sqrtprices((t0, t1), Side::Left).unwrap();
    let reverse = ctx.dex.eff_sqrtprices((t1, t0), Side::Right).unwrap();
    assert_eq!(forward, reverse);
    let other = ctx.dex.eff_sqrtprices((t0, t1), Side::Right).unwrap();
    assert_eq!(forward[3] - forward[0], 3);
    assert_ne!(forward, other);
}

#[test]
fn swap_to_price_books_amounts() {
    let mut ctx = SwapTestContext::new();
    let (t0, t1) = ctx.token_ids;
    let owner = ctx.owner;
    assert_eq!(ctx.dex.swap_to_price(&[t0, t1, t0], 1_000, 400), Err(Error::new(ErrorKind::ExactOneSwap)));
    assert_eq!(ctx.dex.swap_to_price(&[t0], 1_000, 400), Err(Error::new(ErrorKind::ExactOneSwap)));
    let logs = ctx.dex.logs().len();
    let (amount_in, amount_out) = ctx.dex.swap_to_price(&[t0, t1], 1_000, 400).unwrap();
    assert_eq!(amount_in, 400);
    assert!(amount_out > 0);
    assert_eq!(ctx.dex.get_deposit(&owner, &t0).unwrap(), 500_000 - 400);
    assert_eq!(ctx.dex.get_deposit(&owner, &t1).unwrap(), 5_000_000 + amount_out);
    assert_eq!(ctx.dex.logs().len(), logs + 2);
    assert!(matches!(ctx.dex.logs()[logs], Event::UpdatePoolState { reason: PoolUpdateReason::Swap, .. }));
    assert_eq!(
        ctx.dex.logs()[logs + 1],
        Event::Swap { user: owner, token_in: t0, token_out: t1, amount_in: 400, amount_out }
    );
    ctx.dex.suspend_payable_api().unwrap();
    assert_eq!(ctx.dex.swap_to_price(&[t0, t1], 1_000, 400), Err(Error::new(ErrorKind::PayableAPISuspended)));
}

#[test]
fn batch_gives_one_result_per_action() {
    let mut ctx = SwapTestContext::new();
    let owner = ctx.owner;
    let (t0, t1) = ctx.token_ids;
    let actions = vec![
        Action::RegisterTokens(vec![t0, t1, 77]),
        Action::Deposit,
        Action::Withdraw(t0, 10),
        Action::Withdraw(77, 0),
    ];
    let deposits = [DepositPayment { token_id: t1, amount: 5 }];
    let results = ctx.dex.execute_actions_impl(&owner, &deposits, its_ok, actions).unwrap();
    assert_eq!(results.len(), 4);
    assert_eq!(results[0], ActionResult::RegisterTokens);
    assert_eq!(results[1], ActionResult::Deposit);
    assert_eq!(results[3], ActionResult::Withdraw(None));
}

#[test]
fn get_position_info_of_positions() {
    let ctx = SwapTestContext::new();
    let position_id = ctx.position_id;
    let info = ctx.dex.get_position_info(position_id).unwrap();
    assert_eq!(info.tokens_ids, (101, 100));
    assert_eq!(info.fee_level, 0);
    assert!(matches!(
        ctx.dex.get_position_info(position_id + 1_000),
        Err(Error { kind: ErrorKind::PositionDoesNotExist })
    ));
    let infos = ctx.dex.get_positions_info(&[position_id, position_id + 1_000, position_id]);
    assert_eq!(infos.len(), 3);
    assert!(infos[0].is_some());
    assert!(infos[1].is_none());
    assert_eq!(infos[2].as_ref().unwrap().balance, info.balance);
}

#[test]
fn get_positions_infos() {
    let acc: AccountId = 21;
    let mut dex = new_dex(acc);
    dex.register_account().unwrap();
    let (token_0, token_1): (TokenId, TokenId) = (500, 501);
    assert_ne!(token_0, token_1);
    dex.register_tokens(&acc, &[token_0, token_1]).unwrap();
    let amounts: (Amount, Amount) = (5_000_000, 5_000_000);
    assert_eq!(dex.deposit(&acc, &token_0, amounts.0).unwrap(), amounts.0);
    assert_eq!(dex.deposit(&acc, &token_1, amounts.1).unwrap(), amounts.1);
    let pool_id = (token_0, token_1);

    let amounts: (Amount, Amount) = (100_000, 100_000);
    let (pos_id1, balance_0, balance_1, _) =
        dex.open_position_full(&pool_id.0, &pool_id.1, 1, amounts.0, amounts.1).unwrap();
    assert_eq!(amounts, (balance_0, balance_1));
    assert_eq!(pos_id1, 0);

    let amounts: (Amount, Amount) = (50_000, 50_000);
    let (pos_id2, balance_0, balance_1, _) =
        dex.open_position_full(&pool_id.0, &pool_id.1, 1, amounts.0, amounts.1).unwrap();
    assert_eq!(amounts, (balance_0, balance_1));
    assert_eq!(pos_id2, 1);

    let pos_info1 = dex.get_position_info(pos_id1).unwrap();
    assert_eq!(pos_info1.tokens_ids, (pool_id.1, pool_id.0));
    assert_eq!(pos_info1.balance, (99_999, 99_999));

    let pos_info2 = dex.get_position_info(pos_id2).unwrap();
    assert_eq!(pos_info2.tokens_ids, (pool_id.1, pool_id.0));
    assert_eq!(pos_info2.balance, (49_999, 49_999));

    let pos_infos = dex.get_positions_info(&[pos_id1, 10, pos_id2, 25, 345]);
    assert_eq!(pos_infos.len(), 5);
    assert!(matches!(
        &pos_infos[0],
        Some(info) if info.tokens_ids == (pool_id.1, pool_id.0) && info.balance == (99_999, 99_999)
    ));
    assert!(pos_infos[1].is_none());
    assert!(matches!(
        &pos_infos[2],
        Some(info) if info.tokens_ids == (pool_id.1, pool_id.0) && info.balance == (49_999, 49_999)
    ));
    assert!(pos_infos[3].is_none());
    assert!(pos_infos[4].is_none());
}

/// The tick updates among `events`, as (pool, fee level, tick, liquidity change).
fn tick_updates(events: &[Event<i128, Amount>]) -> Vec<((TokenId, TokenId), FeeLevel, i32, i128)> {
    events
        .iter()
        .filter_map(|event| match event {
            Event::TickUpdate { pool, fee_level, tick, liquidity_change } => {
                Some((*pool, *fee_level, *tick, *liquidity_change))
            }
            _ => None,
        })
        .collect()
}

#[test]
fn open_close_position() {
    let acc: AccountId = 1;
    let mut dex = new_dex(acc);
    dex.register_account().unwrap();
    let (token_0, token_1): (TokenId, TokenId) = (100, 101);
    dex.register_tokens(&acc, &[token_0, token_1]).unwrap();
    let initial_balance: (Amount, Amount) = (500_011, 5_000_110);
    assert_eq!(dex.deposit(&acc, &token_0, initial_balance.0).unwrap(), initial_balance.0);
    assert_eq!(dex.deposit(&acc, &token_1, initial_balance.1).unwrap(), initial_balance.1);
    let requested: (Amount, Amount) = (500_000, 5_000_000);
    let (pos_id, balance_0, balance_1, net_liquidity) =
        dex.open_position_full(&token_0, &token_1, 1, requested.0, requested.1).unwrap();
    assert_eq!(requested, (balance_0, balance_1));
    dex.close_position(pos_id).unwrap();
    let final_balance_0 = dex.get_deposit(&acc, &token_0).unwrap();
    let final_balance_1 = dex.get_deposit(&acc, &token_1).unwrap();
    assert!(initial_balance.0 - final_balance_0 <= 1);
    assert!(initial_balance.1 - final_balance_1 <= 1);
    let pool = PoolId::try_from_pair((token_0, token_1)).unwrap().0.pair();
    let liquidity = net_liquidity as i128;
    assert_eq!(
        tick_updates(dex.logs()),
        vec![
            (pool, 0, Tick::min().index(), liquidity),
            (pool, 0, Tick::max().index(), -liquidity),
            (pool, 0, Tick::min().index(), 0),
            (pool, 0, Tick::max().index(), 0),
        ]
    );
    assert_eq!(dex.close_position(pos_id), Err(Error::new(ErrorKind::PositionDoesNotExist)));
}

#[test]
fn pool_state_is_logged_after_each_change() {
    let mut ctx = SwapTestContext::new();
    let (t0, t1) = ctx.token_ids;
    let owner = ctx.owner;
    let pool = PoolId::try_from_pair((t0, t1)).unwrap().0.pair();
    assert!(matches!(
        ctx.dex.logs().last(),
        Some(Event::UpdatePoolState { reason: PoolUpdateReason::AddLiquidity, .. })
            | Some(Event::Deposit { .. })
    ));
    let logs = ctx.dex.logs().len();
    let (amount_in, amount_out) = ctx.dex.swap_exact_in(&[t0, t1], 1_000, 0).unwrap();
    let events = &ctx.dex.logs()[logs..];
    assert_eq!(events.len(), 2);
    assert!(matches!(
        &events[0],
        Event::UpdatePoolState { reason: PoolUpdateReason::Swap, pool: p, .. } if *p == pool
    ));
    assert_eq!(events[1], Event::Swap { user: owner, token_in: t0, token_out: t1, amount_in, amount_out });
    ctx.dex.swap(&t1, &t0, SwapKind::ExactIn, None, 10).unwrap();
    assert!(matches!(
        ctx.dex.logs().last(),
        Some(Event::UpdatePoolState { reason: PoolUpdateReason::Swap, .. })
    ));
    let position_id = ctx.position_id;
    ctx.dex.close_position(position_id).unwrap();
    match ctx.dex.logs().last() {
        Some(Event::UpdatePoolState { reason: PoolUpdateReason::RemoveLiquidity, pool: p, state }) => {
            assert_eq!(*p, pool);
            assert_eq!(state.amounts_a, [0; 8]);
            assert_eq!(state.amounts_b, [0; 8]);
        }
        other => panic!("unexpected last event {:?}", other),
    }
}

#[test]
fn log_ticks_liquidity_change_logs_each_tick() {
    let mut ctx = SwapTestContext::new();
    let (t0, t1) = ctx.token_ids;
    let pool = PoolId::try_from_pair((t0, t1)).unwrap().0.pair();
    let logs = ctx.dex.logs().len();
    assert_eq!(
        ctx.dex.log_ticks_liquidity_change((t0, t1), 0, Tick::min().index(), 20),
        Ok(Tick::max().index())
    );
    let logged = tick_updates(&ctx.dex.logs()[logs..]);
    assert_eq!(logged.len(), 2);
    assert_eq!((logged[0].0, logged[0].1, logged[0].2), (pool, 0, Tick::min().index()));
    assert_eq!((logged[1].0, logged[1].1, logged[1].2), (pool, 0, Tick::max().index()));
    assert_eq!(logged[0].3, -logged[1].3);
    assert_eq!(
        ctx.dex.log_ticks_liquidity_change((t0, t1), 0, Tick::min().index(), 1),
        Ok(Tick::min().index())
    );
    let logs = ctx.dex.logs().len();
    assert_eq!(
        ctx.dex.log_ticks_liquidity_change((t0, t1), 1, Tick::min().index(), 20),
        Err(Error::new(ErrorKind::InternalTickNotFound))
    );
    assert_eq!(
        ctx.dex.log_ticks_liquidity_change((t0, t0), 0, 0, 20),
        Err(Error::new(ErrorKind::TokenDuplicates))
    );
    assert_eq!(
        ctx.dex.log_ticks_liquidity_change((t0, t1), 0, Tick::max().index() + 1, 20),
        Err(Error::new(ErrorKind::PriceTickOutOfBounds))
    );
    assert_eq!(
        ctx.dex.log_ticks_liquidity_change((t0, 999), 0, 0, 20),
        Err(Error::new(ErrorKind::PoolNotRegistered))
    );
    assert_eq!(ctx.dex.logs().len(), logs);
    let mut unregistered = new_dex(3);
    assert_eq!(
        unregistered.log_ticks_liquidity_change((t0, t1), 0, 0, 20),
        Err(Error::new(ErrorKind::AccountNotRegistered))
    );
}
