use vstd::prelude::*;

use crate::dex::{
    credit, debit, hop, side_of, pool_state_event, swap_state_event, tick_update_event, DexEvent, Event, SendTokens,
};
use crate::error::{Error, ErrorKind, Result};
use crate::ordered_map::OrderedMap;
use crate::pool::{fee_rates_ticks, Pool, PositionClosedInfo, PositionOpenedInfo, NUM_FEE_LEVELS};
use crate::state::{with_registered, AccountState, AccountV0, PoolsMap, PositionToPoolMap};
use crate::types::{
    spec_swap_if, spec_transposed, swap_if, AccountId, Amount, BasisPoints, FeeLevel, PoolId, PositionId,
    PoolUpdateReason, PositionInit, Side, SwapAction, SwapKind, SwapToPriceAction, TokenId,
};
use vstd::arithmetic::power2::pow2;

verus! {

/// What an operation on one account works on: the account, the pools, the position
/// counters and the map of positions to pools, and the events it logged.
pub struct AccountViewState<P: Pool> {
    pub account_id: AccountId,
    pub account: AccountState,
    pub pools: Map<PoolId, P>,
    pub pool_count: u64,
    pub next_free_position_id: u64,
    pub position_to_pool_id: Map<PositionId, PoolId>,
    pub events: Seq<DexEvent<P>>,
}

/// `v` with the account `a`.
pub open spec fn with_view_account<P: Pool>(v: AccountViewState<P>, a: AccountState) -> AccountViewState<P> {
    AccountViewState { account: a, ..v }
}

/// `v` with `e` appended to its events.
pub open spec fn view_logged<P: Pool>(v: AccountViewState<P>, e: DexEvent<P>) -> AccountViewState<P> {
    AccountViewState { events: v.events.push(e), ..v }
}

/// `v` with the account's balance of `token` raised by `amount`, the token registered first;
/// logged. Fails with `DepositWouldOverflow` when the balance would not fit.
pub open spec fn deposit_step<P: Pool>(v: AccountViewState<P>, token: TokenId, amount: Amount) -> Result<
    AccountViewState<P>,
> {
    let a = AccountState {
        balances: with_registered(v.account.balances, seq![token]),
        ..v.account
    };
    match credit(Ok(a), token, amount) {
        Err(e) => Err(e),
        Ok(b) => Ok(
            view_logged(
                with_view_account(v, b),
                Event::Deposit { user: v.account_id, token, amount, balance: b.balances[token] },
            ),
        ),
    }
}

/// Withdrawal of `amount` of `token` from the account of `v`, or of its whole balance when
/// `amount` is zero: the transfer to perform, if any, and the view it leaves, logged. Nothing
/// happens for a zero `amount` when the token is not registered or its balance is zero.
pub open spec fn withdraw_step<P: Pool>(v: AccountViewState<P>, token: TokenId, amount: Amount) -> Result<
    (Option<SendTokens>, AccountViewState<P>),
> {
    let a = v.account;
    let registered = a.balances.contains_key(token);
    if amount == 0 && (!registered || a.balances[token] == 0) {
        Ok((None, v))
    } else {
        let taken = if amount == 0 {
            a.balances[token]
        } else {
            amount
        };
        match debit(Ok(a), token, taken) {
            Err(e) => Err(e),
            Ok(b) => Ok(
                (
                    Some(
                        SendTokens {
                            account_id: v.account_id,
                            token_id: token,
                            amount: taken,
                            unregister: false,
                        },
                    ),
                    view_logged(
                        with_view_account(v, b),
                        Event::Withdraw {
                            user: v.account_id,
                            token,
                            amount: taken,
                            balance: b.balances[token],
                        },
                    ),
                ),
            ),
        }
    }
}

/// The amount a swap action is for: its own, or, when it has none, the amount the previous
/// swap produced, provided that swap was of the same kind and produced the token this one
/// starts from (the token in for `ExactIn`, the token out otherwise); else `WrongActionResult`.
pub open spec fn resolved_amount(
    prev: Option<(TokenId, SwapKind, Amount)>,
    swap_type: SwapKind,
    action: SwapAction,
) -> Result<Amount> {
    match action.amount {
        Some(amount) => Ok(amount),
        None => match prev {
            None => Err(Error { kind: ErrorKind::WrongActionResult }),
            Some(p) => {
                let start = if swap_type == SwapKind::ExactIn {
                    action.token_in
                } else {
                    action.token_out
                };
                if p.1 != swap_type || p.0 != start {
                    Err(Error { kind: ErrorKind::WrongActionResult })
                } else {
                    Ok(p.2)
                }
            },
        },
    }
}

/// A swap action of kind `swap_type` on `v`: the pool of its tokens is asked for a swap of the
/// resolved amount, with protocol fee fraction `fee` (see `hop`). Answers what it hands on to
/// the next swap (the token and amount it produced), and the view it leaves, the amounts
/// booked on the account, the swap logged and then the state of its pool.
///
/// Fails with `InternalLogicError` for a swap to a price, with `TokenNotRegistered` when the
/// account has not registered both tokens, with `WrongActionResult` when the amount cannot be
/// resolved, with the failure of the swap, with `Slippage` when the pool's amounts break the
/// limit, and with the failure of booking the amounts.
pub open spec fn swap_action_step<P: Pool>(
    v: AccountViewState<P>,
    prev: Option<(TokenId, SwapKind, Amount)>,
    swap_type: SwapKind,
    action: SwapAction,
    fee: BasisPoints,
) -> Result<((TokenId, SwapKind, Amount), AccountViewState<P>)> {
    if swap_type == SwapKind::ToPrice {
        Err(Error { kind: ErrorKind::InternalLogicError })
    } else if !v.account.balances.contains_key(action.token_in) || !v.account.balances.contains_key(
        action.token_out,
    ) {
        Err(Error { kind: ErrorKind::TokenNotRegistered })
    } else {
        match resolved_amount(prev, swap_type, action) {
            Err(e) => Err(e),
            Ok(amount) => {
                let h = hop(v.pools, action.token_in, action.token_out, swap_type, amount, fee, None);
                match h.0 {
                    Err(e) => Err(e),
                    Ok(t) => {
                        let slipped = if swap_type == SwapKind::ExactIn {
                            t.1 < action.amount_limit
                        } else {
                            t.0 > action.amount_limit
                        };
                        if slipped {
                            Err(Error { kind: ErrorKind::Slippage })
                        } else {
                            match credit(debit(Ok(v.account), action.token_in, t.0), action.token_out, t.1) {
                                Err(e) => Err(e),
                                Ok(a) => Ok(
                                    (
                                        if swap_type == SwapKind::ExactIn {
                                            (action.token_out, swap_type, t.1)
                                        } else {
                                            (action.token_in, swap_type, t.0)
                                        },
                                        view_logged(
                                            view_logged(
                                                AccountViewState { account: a, pools: h.1, ..v },
                                                Event::Swap {
                                                    user: v.account_id,
                                                    token_in: action.token_in,
                                                    token_out: action.token_out,
                                                    amount_in: t.0,
                                                    amount_out: t.1,
                                                },
                                            ),
                                            swap_state_event(h.1, action.token_in, action.token_out),
                                        ),
                                    ),
                                ),
                            }
                        }
                    },
                }
            },
        }
    }
}

/// A swap-to-price action on `v`: the pool of its tokens is asked for a swap of at most the
/// action's amount up to its price limit, with protocol fee fraction `fee` (see `hop`).
/// Answers the token and amount it produced, handed on as those of an exact-in swap, and the
/// view it leaves, the swap logged and then the state of its pool.
///
/// Fails with `ExactOneSwap` when it follows another swap or has no amount, with
/// `TokenNotRegistered` when the account has not registered both tokens, with the failure of
/// the swap, and with the failure of booking the amounts.
pub open spec fn swap_to_price_step<P: Pool>(
    v: AccountViewState<P>,
    prev: Option<(TokenId, SwapKind, Amount)>,
    action: SwapToPriceAction<P::PriceLimit>,
    fee: BasisPoints,
) -> Result<((TokenId, SwapKind, Amount), AccountViewState<P>)> {
    if prev is Some {
        Err(Error { kind: ErrorKind::ExactOneSwap })
    } else if !v.account.balances.contains_key(action.token_in) || !v.account.balances.contains_key(
        action.token_out,
    ) {
        Err(Error { kind: ErrorKind::TokenNotRegistered })
    } else if action.amount is None {
        Err(Error { kind: ErrorKind::ExactOneSwap })
    } else {
        let h = hop(
            v.pools,
            action.token_in,
            action.token_out,
            SwapKind::ToPrice,
            action.amount->Some_0,
            fee,
            Some(action.effective_price_limit),
        );
        match h.0 {
            Err(e) => Err(e),
            Ok(t) => match credit(debit(Ok(v.account), action.token_in, t.0), action.token_out, t.1) {
                Err(e) => Err(e),
                Ok(a) => Ok(
                    (
                        (action.token_out, SwapKind::ExactIn, t.1),
                        view_logged(
                            view_logged(
                                AccountViewState { account: a, pools: h.1, ..v },
                                Event::Swap {
                                    user: v.account_id,
                                    token_in: action.token_in,
                                    token_out: action.token_out,
                                    amount_in: t.0,
                                    amount_out: t.1,
                                },
                            ),
                            swap_state_event(h.1, action.token_in, action.token_out),
                        ),
                    ),
                ),
            },
        }
    }
}

/// The failure of an operation on position `position_id` of the account of `v`, if any:
/// `PositionDoesNotExist` when there is no such position, `NotYourPosition` when the account
/// does not own it, `InternalLogicError` when its pool is missing.
pub open spec fn position_refusal<P: Pool>(v: AccountViewState<P>, position_id: PositionId) -> Option<Error> {
    if !v.position_to_pool_id.contains_key(position_id) {
        Some(Error { kind: ErrorKind::PositionDoesNotExist })
    } else if !v.account.positions.contains(position_id) {
        Some(Error { kind: ErrorKind::NotYourPosition })
    } else if !v.pools.contains_key(v.position_to_pool_id[position_id]) {
        Some(Error { kind: ErrorKind::InternalLogicError })
    } else {
        None
    }
}

/// Paying out the fees of position `position_id`, asked of its pool: the fees, credited to
/// the account, and the view it leaves, the pool replaced by the one the call left, logged.
pub open spec fn withdraw_fee_step<P: Pool>(v: AccountViewState<P>, position_id: PositionId) -> Result<
    ((Amount, Amount), AccountViewState<P>),
> {
    if position_refusal(v, position_id) is Some {
        Err(position_refusal(v, position_id)->Some_0)
    } else {
        let id = v.position_to_pool_id[position_id];
        let answer = v.pools[id].withdraw_fee_answer(position_id);
        match answer.0 {
            Err(e) => Err(e),
            Ok(fees) => match credit(credit(Ok(v.account), id.spec_pair().0, fees.0), id.spec_pair().1, fees.1) {
                Err(e) => Err(e),
                Ok(a) => Ok(
                    (
                        fees,
                        view_logged(
                            AccountViewState { account: a, pools: v.pools.insert(id, answer.1), ..v },
                            Event::HarvestFee { position_id, amount_a: fees.0, amount_b: fees.1 },
                        ),
                    ),
                ),
            },
        }
    }
}

/// Closing position `position_id`, asked of its pool: the position dropped, what it held and
/// its fees credited to the account, the pool replaced by the one the call left; logged are the
/// changes of liquidity at the position's two ticks, the fees paid out, the closing, and the
/// state of the pool. Fails
/// with `DepositWouldOverflow` when what it held and its fees of a token do not add up within
/// range.
pub open spec fn close_position_step<P: Pool>(v: AccountViewState<P>, position_id: PositionId) -> Result<
    AccountViewState<P>,
> {
    if position_refusal(v, position_id) is Some {
        Err(position_refusal(v, position_id)->Some_0)
    } else {
        let id = v.position_to_pool_id[position_id];
        let answer = v.pools[id].close_position_answer(position_id);
        let a0 = AccountState {
            positions: v.account.positions.remove(position_id),
            ..v.account
        };
        match answer.0 {
            Err(e) => Err(e),
            Ok(info) => if info.balance.0 + info.fees.0 > u128::MAX {
                Err(Error { kind: ErrorKind::DepositWouldOverflow })
            } else {
                match credit(Ok(a0), id.spec_pair().0, (info.balance.0 + info.fees.0) as Amount) {
                    Err(e) => Err(e),
                    Ok(a1) => if info.balance.1 + info.fees.1 > u128::MAX {
                        Err(Error { kind: ErrorKind::DepositWouldOverflow })
                    } else {
                        match credit(Ok(a1), id.spec_pair().1, (info.balance.1 + info.fees.1) as Amount) {
                            Err(e) => Err(e),
                            Ok(a2) => Ok(
                                AccountViewState {
                                    account: a2,
                                    pools: v.pools.insert(id, answer.1),
                                    position_to_pool_id: v.position_to_pool_id.remove(position_id),
                                    events: v.events + seq![
                                        tick_update_event(id, info.fee_level, info.low_tick_liquidity_change),
                                        tick_update_event(id, info.fee_level, info.high_tick_liquidity_change),
                                        Event::HarvestFee {
                                            position_id,
                                            amount_a: info.fees.0,
                                            amount_b: info.fees.1,
                                        },
                                        Event::ClosePosition {
                                            position_id,
                                            amount_a: info.balance.0,
                                            amount_b: info.balance.1,
                                        },
                                        pool_state_event(PoolUpdateReason::RemoveLiquidity, id, answer.1),
                                    ],
                                    ..v
                                },
                            ),
                        }
                    },
                }
            },
        }
    }
}

/// The lowest fee level from `level` on whose fee rate is `fee_rate`, if any.
pub open spec fn fee_level_from(fee_rate: BasisPoints, level: FeeLevel) -> Option<FeeLevel>
    decreases NUM_FEE_LEVELS - level,
{
    if level >= NUM_FEE_LEVELS {
        None
    } else if pow2(level as nat) == fee_rate {
        Some(level)
    } else {
        fee_level_from(fee_rate, (level + 1) as FeeLevel)
    }
}

/// The fee level whose fee rate is `fee_rate`, if any.
pub open spec fn fee_level_of(fee_rate: BasisPoints) -> Option<FeeLevel> {
    fee_level_from(fee_rate, 0)
}

/// The fee level whose fee rate is `fee_rate`, if any.
pub fn find_fee_level(fee_rate: BasisPoints) -> (r: Option<FeeLevel>)
    ensures
        r == fee_level_of(fee_rate),
{
    let rates = fee_rates_ticks();
    let mut level: FeeLevel = 0;
    while level < NUM_FEE_LEVELS
        invariant
            level <= NUM_FEE_LEVELS,
            fee_level_of(fee_rate) == fee_level_from(fee_rate, level),
            forall|i: int| 0 <= i < 8 ==> rates@[i] == pow2(i as nat),
        decreases NUM_FEE_LEVELS - level,
    {
        if rates[level as usize] == fee_rate {
            return Some(level);
        }
        level = level + 1;
    }
    None
}

/// Opening position `position` on the pool of `token_a` and `token_b` at fee rate `fee_rate`:
/// the pool, or a new pool when there is none, is asked to open the position, seen from the
/// pool's side (`spec_transposed`), on the fee level of the rate, under the next free position
/// identifier. Answers the position's identifier, the amounts deposited in the order of the
/// tokens given, and its net liquidity; and the view it leaves, the amounts debited from the
/// account, the pool replaced by the one the call left, the position recorded; logged are the
/// changes of liquidity at the position's two ticks, the opening, and the state of the pool.
///
/// Fails with `TokenDuplicates` when both tokens are the same, with `InternalLogicError` when
/// the position or pool counter is exhausted, with `IllegalFee` when no fee level has the
/// rate, with the failure of creating the pool, with the pool's failure, with
/// `PositionAlreadyExists` when the account has the position already, and with the failure
/// of debiting the amounts.
pub open spec fn open_position_step<P: Pool>(
    v: AccountViewState<P>,
    token_a: TokenId,
    token_b: TokenId,
    fee_rate: BasisPoints,
    position: PositionInit,
) -> Result<((PositionId, Amount, Amount, P::Liquidity), AccountViewState<P>)> {
    let id = PoolId::of_tokens((token_a, token_b));
    let position_id = v.next_free_position_id;
    let exists = v.pools.contains_key(id);
    let created = P::new_pool_answer();
    let pool = if exists {
        v.pools[id]
    } else {
        created->Ok_0
    };
    let answer = pool.open_position_answer(
        spec_transposed(position, token_a < token_b),
        fee_level_of(fee_rate)->Some_0,
        position_id,
    );
    if token_a == token_b {
        Err(Error { kind: ErrorKind::TokenDuplicates })
    } else if position_id == u64::MAX {
        Err(Error { kind: ErrorKind::InternalLogicError })
    } else if fee_level_of(fee_rate) is None {
        Err(Error { kind: ErrorKind::IllegalFee })
    } else if !exists && v.pool_count == u64::MAX {
        Err(Error { kind: ErrorKind::InternalLogicError })
    } else if !exists && created is Err {
        Err(created->Err_0)
    } else {
        match answer.0 {
            Err(e) => Err(e),
            Ok(info) => if v.account.positions.contains(position_id) {
                Err(Error { kind: ErrorKind::PositionAlreadyExists })
            } else {
                let d = info.deposited_amounts;
                match debit(debit(Ok(v.account), id.spec_pair().0, d.0), id.spec_pair().1, d.1) {
                    Err(e) => Err(e),
                    Ok(a) => {
                        let user_order = spec_swap_if(token_a < token_b, d);
                        let fee_level = fee_level_of(fee_rate)->Some_0;
                        Ok(
                            (
                                (position_id, user_order.0, user_order.1, info.net_liquidity),
                                AccountViewState {
                                        account: AccountState {
                                            positions: a.positions.insert(position_id),
                                            ..a
                                        },
                                        pools: v.pools.insert(id, answer.1),
                                        pool_count: if exists {
                                            v.pool_count
                                        } else {
                                            (v.pool_count + 1) as u64
                                        },
                                        next_free_position_id: (position_id + 1) as u64,
                                        position_to_pool_id: v.position_to_pool_id.insert(position_id, id),
                                        events: v.events + seq![
                                            tick_update_event(id, fee_level, info.low_tick_liquidity_change),
                                            tick_update_event(id, fee_level, info.high_tick_liquidity_change),
                                            Event::OpenPosition {
                                                user: v.account_id,
                                                token_a: id.spec_pair().0,
                                                token_b: id.spec_pair().1,
                                                amount_a: d.0,
                                                amount_b: d.1,
                                                fee_rate,
                                                position_id,
                                                low_tick: info.low_tick_liquidity_change.0.spec_index(),
                                                high_tick: info.high_tick_liquidity_change.0.spec_index(),
                                            },
                                            pool_state_event(PoolUpdateReason::AddLiquidity, id, answer.1),
                                        ],
                                        ..v
                                    },
                            ),
                        )
                    },
                }
            },
        }
    }
}

/// Opening a position hands the pool the position in the pool's order of tokens, on the fee
/// level whose rate is `fee_rate`, under the next free identifier; the account pays what the
/// pool says was deposited, each amount of its own token, and the amounts answered are those
/// deposits in the order of the tokens given.
pub proof fn law_open_position_debits_deposits<P: Pool>(
    v: AccountViewState<P>,
    token_a: TokenId,
    token_b: TokenId,
    fee_rate: BasisPoints,
    position: PositionInit,
)
    ensures
        open_position_step(v, token_a, token_b, fee_rate, position) is Ok ==> {
            let x = open_position_step(v, token_a, token_b, fee_rate, position)->Ok_0;
            let id = PoolId::of_tokens((token_a, token_b));
            let t = id.spec_pair();
            let position_id = v.next_free_position_id;
            let level = fee_level_of(fee_rate)->Some_0;
            let handed = spec_transposed(position, token_a < token_b);
            let pool = if v.pools.contains_key(id) {
                v.pools[id]
            } else {
                P::new_pool_answer()->Ok_0
            };
            let answer = pool.open_position_answer(handed, level, position_id);
            let d = answer.0->Ok_0.deposited_amounts;
            &&& token_a != token_b
            &&& fee_level_of(fee_rate) is Some && level < NUM_FEE_LEVELS && pow2(level as nat) == fee_rate
            &&& handed.amount_ranges == (if token_a == t.0 {
                position.amount_ranges
            } else {
                (position.amount_ranges.1, position.amount_ranges.0)
            })
            &&& answer.0 is Ok
            &&& x.0.0 == position_id
            &&& (x.0.1, x.0.2) == (if token_a == t.0 {
                d
            } else {
                (d.1, d.0)
            })
            &&& x.1.account.balances[t.0] == v.account.balances[t.0] - d.0
            &&& x.1.account.balances[t.1] == v.account.balances[t.1] - d.1
            &&& x.1.account.positions == v.account.positions.insert(position_id)
            &&& x.1.position_to_pool_id == v.position_to_pool_id.insert(position_id, id)
            &&& x.1.pools == v.pools.insert(id, answer.1)
        },
{
    if open_position_step(v, token_a, token_b, fee_rate, position) is Ok {
        lemma_fee_level_of(fee_rate, 0);
        let pair = (token_a, token_b);
        PoolId::law_pool_id_is_its_pair(spec_swap_if(token_a < token_b, pair), PoolId::of_tokens(pair));
    }
}

/// The fee level found from `level` on has the rate asked for.
proof fn lemma_fee_level_of(fee_rate: BasisPoints, level: FeeLevel)
    ensures
        fee_level_from(fee_rate, level) matches Some(l) ==> l < NUM_FEE_LEVELS && pow2(l as nat) == fee_rate,
    decreases NUM_FEE_LEVELS - level,
{
    if level < NUM_FEE_LEVELS && pow2(level as nat) != fee_rate {
        lemma_fee_level_of(fee_rate, (level + 1) as FeeLevel);
    }
}

/// Closing a position pays its owner back what the position held plus the fees it earned,
/// each in its own token: the balance of the pool's first token grows by the first amounts the
/// pool answered, that of its second token by the second; the position is gone.
pub proof fn law_close_position_credits_holdings_and_fees<P: Pool>(v: AccountViewState<P>, position_id: PositionId)
    ensures
        close_position_step(v, position_id) is Ok ==> {
            let w = close_position_step(v, position_id)->Ok_0;
            let id = v.position_to_pool_id[position_id];
            let t = id.spec_pair();
            let answer = v.pools[id].close_position_answer(position_id);
            let info = answer.0->Ok_0;
            &&& answer.0 is Ok
            &&& v.account.positions.contains(position_id)
            &&& !w.account.positions.contains(position_id)
            &&& !w.position_to_pool_id.contains_key(position_id)
            &&& w.pools == v.pools.insert(id, answer.1)
            &&& t.0 != t.1 ==> w.account.balances[t.0] == v.account.balances[t.0] + info.balance.0 + info.fees.0
                && w.account.balances[t.1] == v.account.balances[t.1] + info.balance.1 + info.fees.1
        },
{
}

/// The fees a position's pool pays out go to the position's owner, each in its own token: the
/// balance of the pool's first token grows by the first fee answered, that of its second
/// token by the second, and the fees answered are those the pool paid out.
pub proof fn law_withdraw_fee_credits_each_token<P: Pool>(v: AccountViewState<P>, position_id: PositionId)
    ensures
        withdraw_fee_step(v, position_id) is Ok ==> {
            let x = withdraw_fee_step(v, position_id)->Ok_0;
            let id = v.position_to_pool_id[position_id];
            let t = id.spec_pair();
            let answer = v.pools[id].withdraw_fee_answer(position_id);
            &&& answer.0 == Ok::<(Amount, Amount), Error>(x.0)
            &&& v.account.positions.contains(position_id)
            &&& x.1.pools == v.pools.insert(id, answer.1)
            &&& t.0 != t.1 ==> x.1.account.balances[t.0] == v.account.balances[t.0] + x.0.0
                && x.1.account.balances[t.1] == v.account.balances[t.1] + x.0.1
        },
{
}

/// A swap action keeps to its limit: an exact-in swap gives out at least `amount_limit`, an
/// exact-out swap takes in at most `amount_limit`. The pool of its tokens is asked for the
/// resolved amount; the account pays what the pool took in, of the token in, and gets what
/// it gave out, of the token out; the amount handed on is the amount out (exact in) or in
/// (exact out). When the pool's answer breaks the limit, the action fails with `Slippage`.
pub proof fn law_swap_action_keeps_to_its_limit<P: Pool>(
    v: AccountViewState<P>,
    prev: Option<(TokenId, SwapKind, Amount)>,
    swap_type: SwapKind,
    action: SwapAction,
    fee: BasisPoints,
)
    requires
        swap_type != SwapKind::ToPrice,
    ensures
        ({
            let step = swap_action_step(v, prev, swap_type, action, fee);
            let amount = resolved_amount(prev, swap_type, action)->Ok_0;
            let id = PoolId::of_tokens((action.token_in, action.token_out));
            let side = side_of(action.token_in, action.token_out);
            let answer = if swap_type == SwapKind::ExactIn {
                v.pools[id].exact_in_answer(side, amount, fee)
            } else {
                v.pools[id].exact_out_answer(side, amount, fee)
            };
            let t = answer.0->Ok_0;
            &&& step is Ok ==> {
                let x = step->Ok_0;
                &&& resolved_amount(prev, swap_type, action) is Ok
                &&& answer.0 is Ok
                &&& swap_type == SwapKind::ExactIn ==> t.1 >= action.amount_limit && x.0 == (
                    action.token_out,
                    SwapKind::ExactIn,
                    t.1,
                )
                &&& swap_type == SwapKind::ExactOut ==> t.0 <= action.amount_limit && x.0 == (
                    action.token_in,
                    SwapKind::ExactOut,
                    t.0,
                )
                &&& x.1.pools == v.pools.insert(id, answer.1)
                &&& action.token_in != action.token_out ==> x.1.account.balances[action.token_in]
                    == v.account.balances[action.token_in] - t.0 && x.1.account.balances[action.token_out]
                    == v.account.balances[action.token_out] + t.1
            }
            &&& (v.account.balances.contains_key(action.token_in) && v.account.balances.contains_key(
                action.token_out,
            ) && resolved_amount(prev, swap_type, action) is Ok && action.token_in != action.token_out
                && v.pools.contains_key(id) && answer.0 is Ok && (if swap_type == SwapKind::ExactIn {
                t.1 < action.amount_limit
            } else {
                t.0 > action.amount_limit
            })) ==> step == Err::<((TokenId, SwapKind, Amount), AccountViewState<P>), Error>(
                Error { kind: ErrorKind::Slippage },
            )
        }),
{
}

/// A swap-to-price action asks the pool of its tokens for at most its amount up to its price
/// limit; the account pays what the pool took in, of the token in, gets what it gave out, of
/// the token out, and the amount out is handed on as that of an exact-in swap.
pub proof fn law_swap_to_price_action_books_the_pool_answer<P: Pool>(
    v: AccountViewState<P>,
    prev: Option<(TokenId, SwapKind, Amount)>,
    action: SwapToPriceAction<P::PriceLimit>,
    fee: BasisPoints,
)
    ensures
        swap_to_price_step(v, prev, action, fee) is Ok ==> {
            let x = swap_to_price_step(v, prev, action, fee)->Ok_0;
            let id = PoolId::of_tokens((action.token_in, action.token_out));
            let answer = v.pools[id].to_price_answer(
                side_of(action.token_in, action.token_out),
                action.amount->Some_0,
                action.effective_price_limit,
                fee,
            );
            let t = answer.0->Ok_0;
            &&& prev is None
            &&& action.amount is Some
            &&& answer.0 is Ok
            &&& x.0 == (action.token_out, SwapKind::ExactIn, t.1)
            &&& x.1.pools == v.pools.insert(id, answer.1)
            &&& action.token_in != action.token_out ==> x.1.account.balances[action.token_in]
                == v.account.balances[action.token_in] - t.0 && x.1.account.balances[action.token_out]
                == v.account.balances[action.token_out] + t.1
        },
{
}

/// Mutable view into the exchange for one account. It works on copies: the exchange is only
/// changed when the view is committed, so that an operation that fails leaves it as it was.
pub struct AccountViewMut<'a, P: Pool> {
    account_id: AccountId,
    account: AccountV0,
    base_pools: &'a PoolsMap<P>,
    pools: OrderedMap<PoolId, P>,
    pool_count: u64,
    next_free_position_id: u64,
    position_to_pool_id: PositionToPoolMap,
    protocol_fee_fraction: BasisPoints,
    events: Vec<DexEvent<P>>,
}

impl<'a, P: Pool> View for AccountViewMut<'a, P> {
    type V = AccountViewState<P>;

    closed spec fn view(&self) -> AccountViewState<P> {
        AccountViewState {
            account_id: self.account_id,
            account: self.account@,
            pools: self.base_pools@.union_prefer_right(self.pools@),
            pool_count: self.pool_count,
            next_free_position_id: self.next_free_position_id,
            position_to_pool_id: self.position_to_pool_id@,
            events: self.events@,
        }
    }
}

impl<'a, P: Pool> AccountViewMut<'a, P> {
    /// Internal consistency of the view.
    pub closed spec fn well_formed(&self) -> bool {
        &&& self.account.well_formed()
        &&& self.base_pools.well_formed()
        &&& self.pools.well_formed()
        &&& self.position_to_pool_id.well_formed()
    }

    /// The protocol fee fraction swaps are made with.
    pub closed spec fn fee_fraction(&self) -> BasisPoints {
        self.protocol_fee_fraction
    }

    /// A view of account `account_id`, held in `account`, over `pools`, with no event yet.
    pub fn new(
        account_id: AccountId,
        account: AccountV0,
        pools: &'a PoolsMap<P>,
        pool_count: u64,
        next_free_position_id: u64,
        position_to_pool_id: PositionToPoolMap,
        protocol_fee_fraction: BasisPoints,
    ) -> (v: Self)
        requires
            account.well_formed(),
            pools.well_formed(),
            position_to_pool_id.well_formed(),
        ensures
            v.well_formed(),
            v.fee_fraction() == protocol_fee_fraction,
            v.base() == pools@,
            v@ == (AccountViewState {
                account_id,
                account: account@,
                pools: pools@,
                pool_count,
                next_free_position_id,
                position_to_pool_id: position_to_pool_id@,
                events: Seq::empty(),
            }),
    {
        let v = AccountViewMut {
            account_id,
            account,
            base_pools: pools,
            pools: OrderedMap::new(),
            pool_count,
            next_free_position_id,
            position_to_pool_id,
            protocol_fee_fraction,
            events: Vec::new(),
        };
        assert(v@.pools =~= pools@);
        v
    }

    /// The parts of the view, to store in the exchange: the account, the pools that changed,
    /// the position counters, the map of positions to pools, and the events.
    pub fn into_parts(self) -> (r: (AccountV0, OrderedMap<PoolId, P>, u64, u64, PositionToPoolMap, Vec<DexEvent<P>>))
        requires
            self.well_formed(),
        ensures
            r.0.well_formed(),
            r.0@ == self@.account,
            r.1.well_formed(),
            self.base().union_prefer_right(r.1@) == self@.pools,
            r.2 == self@.pool_count,
            r.3 == self@.next_free_position_id,
            r.4.well_formed(),
            r.4@ == self@.position_to_pool_id,
            r.5@ == self@.events,
    {
        (
            self.account,
            self.pools,
            self.pool_count,
            self.next_free_position_id,
            self.position_to_pool_id,
            self.events,
        )
    }

    /// The pools the view started from.
    pub closed spec fn base(&self) -> Map<PoolId, P> {
        self.base_pools@
    }

    /// A copy of pool `id`, if there is one.
    fn pool_copy(&self, id: &PoolId) -> (r: Option<P>)
        requires
            self.well_formed(),
        ensures
            r is Some <==> self@.pools.contains_key(*id),
            r matches Some(pool) ==> pool == self@.pools[*id],
    {
        match self.pools.get(id) {
            Some(pool) => Some(pool.duplicate()),
            None => match self.base_pools.get(id) {
                Some(pool) => Some(pool.duplicate()),
                None => None,
            },
        }
    }

    /// Stores `pool` as pool `id`.
    fn store_pool(&mut self, id: PoolId, pool: P)
        requires
            old(self).well_formed(),
        ensures
            final(self).well_formed(),
            final(self)@ == (AccountViewState { pools: old(self)@.pools.insert(id, pool), ..old(self)@ }),
            final(self).fee_fraction() == old(self).fee_fraction(),
            final(self).base() == old(self).base(),
            final(self)@.account_id == old(self)@.account_id,
    {
        let ghost before = self@.pools;
        self.pools.insert(id, pool);
        assert(self@.pools =~= before.insert(id, pool));
    }

    /// Registers the tokens of `tokens` in the account.
    pub fn register_tokens(&mut self, tokens: &[TokenId])
        requires
            old(self).well_formed(),
        ensures
            final(self).well_formed(),
            final(self)@ == with_view_account(
                old(self)@,
                AccountState {
                    balances: with_registered(old(self)@.account.balances, tokens@),
                    ..old(self)@.account
                },
            ),
            final(self).fee_fraction() == old(self).fee_fraction(),
            final(self).base() == old(self).base(),
            final(self)@.account_id == old(self)@.account_id,
    {
        self.account.register_tokens(tokens);
    }

    /// Registers `token_id` in the account and deposits `amount` of it; returns the new
    /// balance and logs the deposit.
    pub fn deposit(&mut self, token_id: &TokenId, amount: Amount) -> (r: Result<Amount>)
        requires
            old(self).well_formed(),
        ensures
            final(self).well_formed(),
            final(self).fee_fraction() == old(self).fee_fraction(),
            final(self).base() == old(self).base(),
            final(self)@.account_id == old(self)@.account_id,
            match deposit_step(old(self)@, *token_id, amount) {
                Ok(v) => r == Ok::<Amount, Error>(v.account.balances[*token_id]) && final(self)@ == v,
                Err(e) => r == Err::<Amount, Error>(e),
            },
    {
        self.account.register_token(token_id);
        proof {
            let single = seq![*token_id];
            assert forall|t: TokenId| #[trigger] single.contains(t) <==> t == *token_id by {
                if t == *token_id {
                    assert(single[0] == t);
                }
            }
        }
        let balance = match self.account.deposit(token_id, amount) {
            Ok(balance) => balance,
            Err(e) => return Err(e),
        };
        let user = self.account_id;
        self.events.push(Event::Deposit { user, token: *token_id, amount, balance });
        Ok(balance)
    }

    /// Withdraws `amount` of `token_id` from the account, or its whole balance when `amount`
    /// is zero; logs the withdrawal and returns the transfer to perform. See `withdraw_step`.
    pub fn withdraw(&mut self, token_id: &TokenId, amount: Amount) -> (r: Result<Option<SendTokens>>)
        requires
            old(self).well_formed(),
        ensures
            final(self).well_formed(),
            final(self).fee_fraction() == old(self).fee_fraction(),
            final(self).base() == old(self).base(),
            final(self)@.account_id == old(self)@.account_id,
            match withdraw_step(old(self)@, *token_id, amount) {
                Ok(x) => r == Ok::<Option<SendTokens>, Error>(x.0) && final(self)@ == x.1,
                Err(e) => r == Err::<Option<SendTokens>, Error>(e),
            },
    {
        let amount = if amount == 0 {
            match self.account.token_balances.get(token_id) {
                None => return Ok(None),
                Some(balance) => {
                    if *balance == 0 {
                        return Ok(None);
                    }
                    *balance
                },
            }
        } else {
            amount
        };
        let balance = match self.account.withdraw(token_id, amount) {
            Ok(balance) => balance,
            Err(e) => return Err(e),
        };
        let user = self.account_id;
        self.events.push(Event::Withdraw { user, token: *token_id, amount, balance });
        Ok(Some(SendTokens { account_id: user, token_id: *token_id, amount, unregister: false }))
    }

    /// Performs a swap action of kind `swap_type`; returns the token and amount it produced,
    /// to hand on to the next swap. See `swap_action_step`.
    pub fn execute_swap_action(
        &mut self,
        prev_swap_result: &Option<(TokenId, SwapKind, Amount)>,
        swap_type: SwapKind,
        action: SwapAction,
    ) -> (r: Result<(TokenId, SwapKind, Amount)>)
        requires
            old(self).well_formed(),
        ensures
            final(self).well_formed(),
            final(self).fee_fraction() == old(self).fee_fraction(),
            final(self).base() == old(self).base(),
            final(self)@.account_id == old(self)@.account_id,
            match swap_action_step(old(self)@, *prev_swap_result, swap_type, action, old(self).fee_fraction()) {
                Ok(x) => r == Ok::<(TokenId, SwapKind, Amount), Error>(x.0) && final(self)@ == x.1,
                Err(e) => r == Err::<(TokenId, SwapKind, Amount), Error>(e),
            },
    {
        let ghost s = self@;
        let ghost fee_fraction = self.protocol_fee_fraction;
        let SwapAction { token_in, token_out, amount, amount_limit } = action;
        if let SwapKind::ToPrice = swap_type {
            return Err(Error::new(ErrorKind::InternalLogicError));
        }
        if !self.account.token_balances.contains_key(&token_in) {
            return Err(Error::new(ErrorKind::TokenNotRegistered));
        }
        if !self.account.token_balances.contains_key(&token_out) {
            return Err(Error::new(ErrorKind::TokenNotRegistered));
        }
        let amount = match amount {
            Some(amount) => amount,
            None => match prev_swap_result {
                None => {
                    let e = Error::new(ErrorKind::WrongActionResult);
                    assert(swap_action_step(s, *prev_swap_result, swap_type, action, fee_fraction) == Err::<((TokenId, SwapKind, Amount), AccountViewState<P>), Error>(e));
                    return Err(e);
                },
                Some(prev) => {
                    let same_kind = match (prev.1, swap_type) {
                        (SwapKind::ExactIn, SwapKind::ExactIn) => true,
                        (SwapKind::ExactOut, SwapKind::ExactOut) => true,
                        (SwapKind::ToPrice, SwapKind::ToPrice) => true,
                        _ => false,
                    };
                    let start = if let SwapKind::ExactIn = swap_type {
                        token_in
                    } else {
                        token_out
                    };
                    if !same_kind || prev.0 != start {
                        let e = Error::new(ErrorKind::WrongActionResult);
                        assert(swap_action_step(s, *prev_swap_result, swap_type, action, fee_fraction) == Err::<((TokenId, SwapKind, Amount), AccountViewState<P>), Error>(e));
                        return Err(e);
                    }
                    prev.2
                },
            },
        };
        let (id, swapped) = match PoolId::try_from_pair((token_in, token_out)) {
            Ok(found) => found,
            Err(kind) => {
                let e = Error::new(kind);
                assert(swap_action_step(s, *prev_swap_result, swap_type, action, fee_fraction) == Err::<((TokenId, SwapKind, Amount), AccountViewState<P>), Error>(e));
                return Err(e);
            },
        };
        let mut pool = match self.pool_copy(&id) {
            Some(pool) => pool,
            None => {
                let e = Error::new(ErrorKind::PoolNotRegistered);
                assert(swap_action_step(s, *prev_swap_result, swap_type, action, fee_fraction) == Err::<((TokenId, SwapKind, Amount), AccountViewState<P>), Error>(e));
                return Err(e);
            },
        };
        let side = if swapped {
            Side::Right
        } else {
            Side::Left
        };
        let fee = self.protocol_fee_fraction;
        let answer = if let SwapKind::ExactIn = swap_type {
            pool.swap_exact_in(side, amount, fee)
        } else {
            pool.swap_exact_out(side, amount, fee)
        };
        let ghost left = pool;
        let (amount_in, amount_out) = match answer {
            Ok(t) => (t.0, t.1),
            Err(e) => {
                assert(swap_action_step(s, *prev_swap_result, swap_type, action, fee_fraction) == Err::<((TokenId, SwapKind, Amount), AccountViewState<P>), Error>(e));
                return Err(e);
            },
        };
        let slipped = if let SwapKind::ExactIn = swap_type {
            amount_out < amount_limit
        } else {
            amount_in > amount_limit
        };
        if slipped {
            let e = Error::new(ErrorKind::Slippage);
            assert(swap_action_step(s, *prev_swap_result, swap_type, action, fee_fraction) == Err::<((TokenId, SwapKind, Amount), AccountViewState<P>), Error>(e));
            return Err(e);
        }
        let ghost before = self.account@;
        if let Err(e) = self.account.withdraw(&token_in, amount_in) {
            assert(swap_action_step(s, *prev_swap_result, swap_type, action, fee_fraction) == Err::<((TokenId, SwapKind, Amount), AccountViewState<P>), Error>(e));
            return Err(e);
        }
        let ghost debited = self.account@;
        if let Err(e) = self.account.deposit(&token_out, amount_out) {
            assert(debit(Ok(before), token_in, amount_in) == Ok::<AccountState, Error>(debited));
            assert(swap_action_step(s, *prev_swap_result, swap_type, action, fee_fraction) == Err::<((TokenId, SwapKind, Amount), AccountViewState<P>), Error>(e));
            return Err(e);
        }
        proof {
            assert(debit(Ok(before), token_in, amount_in) == Ok::<AccountState, Error>(debited));
            assert(credit(Ok(debited), token_out, amount_out) == Ok::<AccountState, Error>(self.account@));
        }
        let state = pool.state_report();
        self.store_pool(id, pool);
        let user = self.account_id;
        self.events.push(Event::Swap { user, token_in, token_out, amount_in, amount_out });
        self.events.push(Event::UpdatePoolState { reason: PoolUpdateReason::Swap, pool: id.pair(), state });
        let r = if let SwapKind::ExactIn = swap_type {
            (token_out, swap_type, amount_out)
        } else {
            (token_in, swap_type, amount_in)
        };
        assert(swap_action_step(s, *prev_swap_result, swap_type, action, fee_fraction) == Ok::<((TokenId, SwapKind, Amount), AccountViewState<P>), Error>((r, self@)));
        Ok(r)
    }

    /// Performs a swap-to-price action; returns the token and amount it produced. See
    /// `swap_to_price_step`.
    pub fn execute_swap_to_price_action(
        &mut self,
        prev_swap_result: &Option<(TokenId, SwapKind, Amount)>,
        action: &SwapToPriceAction<P::PriceLimit>,
    ) -> (r: Result<(TokenId, SwapKind, Amount)>)
        requires
            old(self).well_formed(),
        ensures
            final(self).well_formed(),
            final(self).fee_fraction() == old(self).fee_fraction(),
            final(self).base() == old(self).base(),
            final(self)@.account_id == old(self)@.account_id,
            match swap_to_price_step(old(self)@, *prev_swap_result, *action, old(self).fee_fraction()) {
                Ok(x) => r == Ok::<(TokenId, SwapKind, Amount), Error>(x.0) && final(self)@ == x.1,
                Err(e) => r == Err::<(TokenId, SwapKind, Amount), Error>(e),
            },
    {
        let ghost s = self@;
        let ghost fee_fraction = self.protocol_fee_fraction;
        let token_in = action.token_in;
        let token_out = action.token_out;
        let amount = action.amount;
        if prev_swap_result.is_some() {
            return Err(Error::new(ErrorKind::ExactOneSwap));
        }
        if !self.account.token_balances.contains_key(&token_in) {
            return Err(Error::new(ErrorKind::TokenNotRegistered));
        }
        if !self.account.token_balances.contains_key(&token_out) {
            return Err(Error::new(ErrorKind::TokenNotRegistered));
        }
        let amount = match amount {
            Some(amount) => amount,
            None => return Err(Error::new(ErrorKind::ExactOneSwap)),
        };
        let (id, swapped) = match PoolId::try_from_pair((token_in, token_out)) {
            Ok(found) => found,
            Err(kind) => {
                let e = Error::new(kind);
                assert(swap_to_price_step(s, *prev_swap_result, *action, fee_fraction) == Err::<((TokenId, SwapKind, Amount), AccountViewState<P>), Error>(e));
                return Err(e);
            },
        };
        let mut pool = match self.pool_copy(&id) {
            Some(pool) => pool,
            None => {
                let e = Error::new(ErrorKind::PoolNotRegistered);
                assert(swap_to_price_step(s, *prev_swap_result, *action, fee_fraction) == Err::<((TokenId, SwapKind, Amount), AccountViewState<P>), Error>(e));
                return Err(e);
            },
        };
        let side = if swapped {
            Side::Right
        } else {
            Side::Left
        };
        let fee = self.protocol_fee_fraction;
        let answer = pool.swap_to_price(side, amount, &action.effective_price_limit, fee);
        let ghost left = pool;
        let (amount_in, amount_out) = match answer {
            Ok(t) => (t.0, t.1),
            Err(e) => {
                assert(swap_to_price_step(s, *prev_swap_result, *action, fee_fraction) == Err::<((TokenId, SwapKind, Amount), AccountViewState<P>), Error>(e));
                return Err(e);
            },
        };
        let ghost before = self.account@;
        if let Err(e) = self.account.withdraw(&token_in, amount_in) {
            assert(swap_to_price_step(s, *prev_swap_result, *action, fee_fraction) == Err::<((TokenId, SwapKind, Amount), AccountViewState<P>), Error>(e));
            return Err(e);
        }
        let ghost debited = self.account@;
        if let Err(e) = self.account.deposit(&token_out, amount_out) {
            assert(debit(Ok(before), token_in, amount_in) == Ok::<AccountState, Error>(debited));
            assert(swap_to_price_step(s, *prev_swap_result, *action, fee_fraction) == Err::<((TokenId, SwapKind, Amount), AccountViewState<P>), Error>(e));
            return Err(e);
        }
        proof {
            assert(debit(Ok(before), token_in, amount_in) == Ok::<AccountState, Error>(debited));
            assert(credit(Ok(debited), token_out, amount_out) == Ok::<AccountState, Error>(self.account@));
        }
        let state = pool.state_report();
        self.store_pool(id, pool);
        let user = self.account_id;
        self.events.push(Event::Swap { user, token_in, token_out, amount_in, amount_out });
        self.events.push(Event::UpdatePoolState { reason: PoolUpdateReason::Swap, pool: id.pair(), state });
        let r = (token_out, SwapKind::ExactIn, amount_out);
        assert(swap_to_price_step(s, *prev_swap_result, *action, fee_fraction) == Ok::<((TokenId, SwapKind, Amount), AccountViewState<P>), Error>((r, self@)));
        Ok(r)
    }

    /// The pool of position `position_id`, which the account must own; see
    /// `position_refusal`.
    fn position_pool(&self, position_id: PositionId) -> (r: Result<PoolId>)
        requires
            self.well_formed(),
        ensures
            position_refusal(self@, position_id) is Some ==> r == Err::<PoolId, Error>(
                position_refusal(self@, position_id)->Some_0,
            ),
            position_refusal(self@, position_id) is None ==> r == Ok::<PoolId, Error>(
                self@.position_to_pool_id[position_id],
            ),
    {
        let id = match self.position_to_pool_id.get(&position_id) {
            Some(id) => *id,
            None => return Err(Error::new(ErrorKind::PositionDoesNotExist)),
        };
        if !self.account.positions.contains_item(&position_id) {
            return Err(Error::new(ErrorKind::NotYourPosition));
        }
        if !self.pools.contains_key(&id) && !self.base_pools.contains_key(&id) {
            return Err(Error::new(ErrorKind::InternalLogicError));
        }
        Ok(id)
    }

    /// Pays out the fees of position `position_id` to the account; returns them. See
    /// `withdraw_fee_step`.
    pub fn withdraw_fee(&mut self, position_id: PositionId) -> (r: Result<(Amount, Amount)>)
        requires
            old(self).well_formed(),
        ensures
            final(self).well_formed(),
            final(self).fee_fraction() == old(self).fee_fraction(),
            final(self).base() == old(self).base(),
            final(self)@.account_id == old(self)@.account_id,
            match withdraw_fee_step(old(self)@, position_id) {
                Ok(x) => r == Ok::<(Amount, Amount), Error>(x.0) && final(self)@ == x.1,
                Err(e) => r == Err::<(Amount, Amount), Error>(e),
            },
    {
        let ghost s = self@;
        let id = match self.position_pool(position_id) {
            Ok(id) => id,
            Err(e) => {
                assert(withdraw_fee_step(s, position_id) == Err::<((Amount, Amount), AccountViewState<P>), Error>(e));
                return Err(e);
            },
        };
        let mut pool = match self.pool_copy(&id) {
            Some(pool) => pool,
            None => return Err(Error::new(ErrorKind::InternalLogicError)),
        };
        let answer = pool.withdraw_fee(position_id);
        let fees = match answer {
            Ok(fees) => fees,
            Err(e) => {
                assert(withdraw_fee_step(s, position_id) == Err::<((Amount, Amount), AccountViewState<P>), Error>(e));
                return Err(e);
            },
        };
        let tokens = id.pair();
        let ghost before = self.account@;
        if let Err(e) = self.account.deposit(&tokens.0, fees.0) {
            assert(withdraw_fee_step(s, position_id) == Err::<((Amount, Amount), AccountViewState<P>), Error>(e));
            return Err(e);
        }
        let ghost first = self.account@;
        if let Err(e) = self.account.deposit(&tokens.1, fees.1) {
            assert(credit(Ok(before), tokens.0, fees.0) == Ok::<AccountState, Error>(first));
            assert(withdraw_fee_step(s, position_id) == Err::<((Amount, Amount), AccountViewState<P>), Error>(e));
            return Err(e);
        }
        proof {
            assert(credit(Ok(before), tokens.0, fees.0) == Ok::<AccountState, Error>(first));
            assert(credit(Ok(first), tokens.1, fees.1) == Ok::<AccountState, Error>(self.account@));
        }
        self.store_pool(id, pool);
        self.events.push(Event::HarvestFee { position_id, amount_a: fees.0, amount_b: fees.1 });
        assert(withdraw_fee_step(s, position_id) == Ok::<((Amount, Amount), AccountViewState<P>), Error>((fees, self@)));
        Ok(fees)
    }

    /// Closes position `position_id` of the account, crediting it what the position held and
    /// its fees. See `close_position_step`.
    pub fn close_position(&mut self, position_id: PositionId) -> (r: Result<()>)
        requires
            old(self).well_formed(),
        ensures
            final(self).well_formed(),
            final(self).fee_fraction() == old(self).fee_fraction(),
            final(self).base() == old(self).base(),
            final(self)@.account_id == old(self)@.account_id,
            match close_position_step(old(self)@, position_id) {
                Ok(v) => r is Ok && final(self)@ == v,
                Err(e) => r == Err::<(), Error>(e),
            },
    {
        let ghost s = self@;
        let id = match self.position_pool(position_id) {
            Ok(id) => id,
            Err(e) => {
                assert(close_position_step(s, position_id) == Err::<AccountViewState<P>, Error>(e));
                return Err(e);
            },
        };
        self.account.positions.remove_item(&position_id);
        let mut pool = match self.pool_copy(&id) {
            Some(pool) => pool,
            None => return Err(Error::new(ErrorKind::InternalLogicError)),
        };
        let answer = pool.withdraw_fee_and_close_position(position_id);
        let info = match answer {
            Ok(info) => info,
            Err(e) => {
                assert(close_position_step(s, position_id) == Err::<AccountViewState<P>, Error>(e));
                return Err(e);
            },
        };
        let tokens = id.pair();
        let ghost a0 = self.account@;
        let amount_a = match info.balance.0.checked_add(info.fees.0) {
            Some(amount) => amount,
            None => {
                let e = Error::new(ErrorKind::DepositWouldOverflow);
                assert(close_position_step(s, position_id) == Err::<AccountViewState<P>, Error>(e));
                return Err(e);
            },
        };
        if let Err(e) = self.account.deposit(&tokens.0, amount_a) {
            assert(close_position_step(s, position_id) == Err::<AccountViewState<P>, Error>(e));
            return Err(e);
        }
        let ghost a1 = self.account@;
        proof {
            assert(credit(Ok(a0), tokens.0, amount_a) == Ok::<AccountState, Error>(a1));
        }
        let amount_b = match info.balance.1.checked_add(info.fees.1) {
            Some(amount) => amount,
            None => {
                let e = Error::new(ErrorKind::DepositWouldOverflow);
                assert(close_position_step(s, position_id) == Err::<AccountViewState<P>, Error>(e));
                return Err(e);
            },
        };
        if let Err(e) = self.account.deposit(&tokens.1, amount_b) {
            assert(close_position_step(s, position_id) == Err::<AccountViewState<P>, Error>(e));
            return Err(e);
        }
        proof {
            assert(credit(Ok(a1), tokens.1, amount_b) == Ok::<AccountState, Error>(self.account@));
        }
        let state = pool.state_report();
        self.store_pool(id, pool);
        let ghost before_map = self.position_to_pool_id@;
        let _ = self.position_to_pool_id.remove(&position_id);
        let ghost closed = info;
        let PositionClosedInfo {
            fees,
            balance,
            fee_level,
            low_tick_liquidity_change: low_change,
            high_tick_liquidity_change: high_change,
        } = info;
        let low_tick = low_change.0.index();
        let high_tick = high_change.0.index();
        self.events.push(Event::TickUpdate { pool: tokens, fee_level, tick: low_tick, liquidity_change: low_change.1 });
        self.events.push(Event::TickUpdate { pool: tokens, fee_level, tick: high_tick, liquidity_change: high_change.1 });
        self.events.push(Event::HarvestFee { position_id, amount_a: fees.0, amount_b: fees.1 });
        self.events.push(Event::ClosePosition { position_id, amount_a: balance.0, amount_b: balance.1 });
        self.events.push(Event::UpdatePoolState { reason: PoolUpdateReason::RemoveLiquidity, pool: tokens, state });
        proof {
            assert(self@.events =~= s.events + seq![
                tick_update_event(id, closed.fee_level, closed.low_tick_liquidity_change),
                tick_update_event(id, closed.fee_level, closed.high_tick_liquidity_change),
                Event::HarvestFee { position_id, amount_a: closed.fees.0, amount_b: closed.fees.1 },
                Event::ClosePosition { position_id, amount_a: closed.balance.0, amount_b: closed.balance.1 },
                pool_state_event(PoolUpdateReason::RemoveLiquidity, id, pool),
            ]);
        }
        assert(close_position_step(s, position_id) == Ok::<AccountViewState<P>, Error>(self@));
        Ok(())
    }

    /// Opens a position on the pool of `token_a` and `token_b`, creating the pool when there
    /// is none, at fee rate `fee_rate`; debits the account the amounts deposited. Returns the
    /// position's identifier, the amounts deposited in the order of the tokens given, and the
    /// position's net liquidity. See `open_position_step`.
    pub fn open_position(
        &mut self,
        token_a: &TokenId,
        token_b: &TokenId,
        fee_rate: BasisPoints,
        position: PositionInit,
    ) -> (r: Result<(PositionId, Amount, Amount, P::Liquidity)>)
        requires
            old(self).well_formed(),
        ensures
            final(self).well_formed(),
            final(self).fee_fraction() == old(self).fee_fraction(),
            final(self).base() == old(self).base(),
            final(self)@.account_id == old(self)@.account_id,
            match open_position_step(old(self)@, *token_a, *token_b, fee_rate, position) {
                Ok(x) => r == Ok::<(PositionId, Amount, Amount, P::Liquidity), Error>(x.0) && final(self)@ == x.1,
                Err(e) => r == Err::<(PositionId, Amount, Amount, P::Liquidity), Error>(e),
            },
    {
        let ghost s = self@;
        let (id, transposed) = match PoolId::try_from_pair((*token_a, *token_b)) {
            Ok(found) => found,
            Err(kind) => {
                let e = Error::new(kind);
                assert(open_position_step(s, *token_a, *token_b, fee_rate, position) == Err::<((PositionId, Amount, Amount, P::Liquidity), AccountViewState<P>), Error>(e));
                return Err(e);
            },
        };
        let pool_position = position.transpose_if(transposed);
        let position_id = self.next_free_position_id;
        if position_id == u64::MAX {
            let e = Error::new(ErrorKind::InternalLogicError);
            assert(open_position_step(s, *token_a, *token_b, fee_rate, position) == Err::<((PositionId, Amount, Amount, P::Liquidity), AccountViewState<P>), Error>(e));
            return Err(e);
        }
        let fee_level = match find_fee_level(fee_rate) {
            Some(level) => level,
            None => {
                let e = Error::new(ErrorKind::IllegalFee);
                assert(open_position_step(s, *token_a, *token_b, fee_rate, position) == Err::<((PositionId, Amount, Amount, P::Liquidity), AccountViewState<P>), Error>(e));
                return Err(e);
            },
        };
        let mut pool = match self.pool_copy(&id) {
            Some(pool) => pool,
            None => {
                if self.pool_count == u64::MAX {
                    let e = Error::new(ErrorKind::InternalLogicError);
                    assert(open_position_step(s, *token_a, *token_b, fee_rate, position) == Err::<((PositionId, Amount, Amount, P::Liquidity), AccountViewState<P>), Error>(e));
                    return Err(e);
                }
                match P::new_pool() {
                    Ok(pool) => {
                        self.pool_count = self.pool_count + 1;
                        pool
                    },
                    Err(e) => {
                        assert(open_position_step(s, *token_a, *token_b, fee_rate, position) == Err::<((PositionId, Amount, Amount, P::Liquidity), AccountViewState<P>), Error>(e));
                        return Err(e);
                    },
                }
            },
        };
        let answer = pool.open_position(pool_position, fee_level, position_id);
        let info = match answer {
            Ok(info) => info,
            Err(e) => {
                assert(open_position_step(s, *token_a, *token_b, fee_rate, position) == Err::<((PositionId, Amount, Amount, P::Liquidity), AccountViewState<P>), Error>(e));
                return Err(e);
            },
        };
        if self.account.positions.contains_item(&position_id) {
            let e = Error::new(ErrorKind::PositionAlreadyExists);
            assert(open_position_step(s, *token_a, *token_b, fee_rate, position) == Err::<((PositionId, Amount, Amount, P::Liquidity), AccountViewState<P>), Error>(e));
            return Err(e);
        }
        let tokens = id.pair();
        let deposited = info.deposited_amounts;
        let ghost before = self.account@;
        if let Err(e) = self.account.withdraw(&tokens.0, deposited.0) {
            assert(open_position_step(s, *token_a, *token_b, fee_rate, position) == Err::<((PositionId, Amount, Amount, P::Liquidity), AccountViewState<P>), Error>(e));
            return Err(e);
        }
        let ghost first = self.account@;
        if let Err(e) = self.account.withdraw(&tokens.1, deposited.1) {
            assert(debit(Ok(before), tokens.0, deposited.0) == Ok::<AccountState, Error>(first));
            assert(open_position_step(s, *token_a, *token_b, fee_rate, position) == Err::<((PositionId, Amount, Amount, P::Liquidity), AccountViewState<P>), Error>(e));
            return Err(e);
        }
        proof {
            assert(debit(Ok(before), tokens.0, deposited.0) == Ok::<AccountState, Error>(first));
            assert(debit(Ok(first), tokens.1, deposited.1) == Ok::<AccountState, Error>(self.account@));
        }
        self.account.positions.add_item(position_id);
        self.next_free_position_id = position_id + 1;
        self.position_to_pool_id.insert(position_id, id);
        let state = pool.state_report();
        self.store_pool(id, pool);
        let user = self.account_id;
        let PositionOpenedInfo {
            deposited_amounts: _,
            net_liquidity,
            low_tick_liquidity_change: low_change,
            high_tick_liquidity_change: high_change,
        } = info;
        let low_tick = low_change.0.index();
        let high_tick = high_change.0.index();
        self.events.push(Event::TickUpdate { pool: tokens, fee_level, tick: low_tick, liquidity_change: low_change.1 });
        self.events.push(Event::TickUpdate { pool: tokens, fee_level, tick: high_tick, liquidity_change: high_change.1 });
        self.events.push(
            Event::OpenPosition {
                user,
                token_a: tokens.0,
                token_b: tokens.1,
                amount_a: deposited.0,
                amount_b: deposited.1,
                fee_rate,
                position_id,
                low_tick,
                high_tick,
            },
        );
        self.events.push(Event::UpdatePoolState { reason: PoolUpdateReason::AddLiquidity, pool: tokens, state });
        let user_order = swap_if(transposed, deposited);
        let r = (position_id, user_order.0, user_order.1, net_liquidity);
        proof {
            let id_pair = id.spec_pair();
            assert(tokens == id_pair);
            assert(self@.events =~= s.events + seq![
                tick_update_event(id, fee_level, info.low_tick_liquidity_change),
                tick_update_event(id, fee_level, info.high_tick_liquidity_change),
                Event::OpenPosition {
                    user: s.account_id,
                    token_a: id_pair.0,
                    token_b: id_pair.1,
                    amount_a: deposited.0,
                    amount_b: deposited.1,
                    fee_rate,
                    position_id,
                    low_tick: info.low_tick_liquidity_change.0.spec_index(),
                    high_tick: info.high_tick_liquidity_change.0.spec_index(),
                },
                pool_state_event(PoolUpdateReason::AddLiquidity, id, pool),
            ]);
        }
        assert(open_position_step(s, *token_a, *token_b, fee_rate, position) == Ok::<((PositionId, Amount, Amount, P::Liquidity), AccountViewState<P>), Error>((r, self@)));
        Ok(r)
    }
}

} // verus!
