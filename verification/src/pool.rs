use vstd::prelude::*;
use vstd::arithmetic::power2::{lemma2_to64, lemma_pow2_strictly_increases, lemma_pow2_unfold, pow2};

use crate::error::{Error, ErrorKind, Result};
use crate::tick::Tick;
use crate::types::{
    Amount, BasisPoints, FeeLevel, PoolId, PositionId, PositionInit, Side, SwapKind, TokenId,
};

verus! {

/// Number of fee levels of a pool.
pub const NUM_FEE_LEVELS: FeeLevel = 8;

/// What limited one step of a swap.
#[derive(Clone, Copy, Debug, PartialEq, Eq, Structural)]
pub enum StepLimit {
    StepComplete,
    LevelActivation,
    TickCrossing,
}

/// The fee level with index `level` (truncated to the width of a fee level).
pub fn as_fee_level(level: usize) -> (r: FeeLevel)
    ensures
        r == level as FeeLevel,
{
    level as FeeLevel
}

/// Fee rate of a fee level, in ticks: `2^fee_level`.
pub fn fee_rate_ticks(fee_level: FeeLevel) -> (r: BasisPoints)
    requires
        fee_level < 16,
    ensures
        r == pow2(fee_level as nat),
{
    let mut r: BasisPoints = 1;
    let mut i: FeeLevel = 0;
    proof {
        lemma2_to64();
    }
    while i < fee_level
        invariant
            i <= fee_level < 16,
            r == pow2(i as nat),
        decreases fee_level - i,
    {
        proof {
            lemma_pow2_unfold((i + 1) as nat);
            lemma2_to64();
            if i + 1 < 15 {
                lemma_pow2_strictly_increases((i + 1) as nat, 15);
            }
        }
        r = r * 2;
        i = i + 1;
    }
    r
}

/// Fee rates of all fee levels, in ticks: `[1, 2, 4, ..., 128]`.
pub fn fee_rates_ticks() -> (r: [BasisPoints; 8])
    ensures
        forall|i: int| 0 <= i < 8 ==> r@[i] == pow2(i as nat),
{
    let r = [
        fee_rate_ticks(0),
        fee_rate_ticks(1),
        fee_rate_ticks(2),
        fee_rate_ticks(3),
        fee_rate_ticks(4),
        fee_rate_ticks(5),
        fee_rate_ticks(6),
        fee_rate_ticks(7),
    ];
    assert forall|i: int| 0 <= i < 8 implies r@[i] == pow2(i as nat) by {
        if i == 0 {} else if i == 1 {} else if i == 2 {} else if i == 3 {} else if i == 4 {} else if i == 5 {} else if i == 6 {} else {}
    }
    r
}

/// What opening a position answers.
pub struct PositionOpenedInfo<L, F> {
    /// Amounts actually deposited, of the first and the second token of the pool.
    pub deposited_amounts: (Amount, Amount),
    /// Net liquidity accounted to the position.
    pub net_liquidity: L,
    /// Low tick of the position's range, and the change of liquidity at it.
    pub low_tick_liquidity_change: (Tick, F),
    /// High tick of the position's range, and the change of liquidity at it.
    pub high_tick_liquidity_change: (Tick, F),
}

/// What closing a position answers.
#[derive(Debug)]
pub struct PositionClosedInfo<F> {
    /// Liquidity provider fees earned by the position, of both tokens.
    pub fees: (Amount, Amount),
    /// Amounts the position held, of both tokens.
    pub balance: (Amount, Amount),
    /// Fee level of the position.
    pub fee_level: FeeLevel,
    /// Low tick of the position's range, and the change of liquidity at it.
    pub low_tick_liquidity_change: (Tick, F),
    /// High tick of the position's range, and the change of liquidity at it.
    pub high_tick_liquidity_change: (Tick, F),
}

/// The state of a pool as the exchange logs it after a change: the amounts of both tokens
/// locked in positions, and the square root of the spot price and the liquidity, on each fee
/// level.
#[derive(Clone, Debug, PartialEq, Eq)]
pub struct PoolStateReport<F, L> {
    pub amounts_a: [Amount; 8],
    pub amounts_b: [Amount; 8],
    pub sqrt_prices: [F; 8],
    pub liquidities: [L; 8],
}

/// What a pool reports of one of its positions.
#[derive(Debug)]
pub struct PositionInfo<F> {
    /// Tokens of the pool.
    pub tokens_ids: (TokenId, TokenId),
    /// Fee level of the position.
    pub fee_level: FeeLevel,
    /// Amounts of both tokens the position holds.
    pub balance: (Amount, Amount),
    /// Square root of the price when the position opened.
    pub init_sqrtprice: F,
    /// Ticks bounding the position's range.
    pub range_ticks: (Tick, Tick),
    /// Fees earned since they were last paid out.
    pub reward_since_last_withdraw: (Amount, Amount),
    /// Fees earned since the position opened.
    pub reward_since_creation: (Amount, Amount),
    /// Net liquidity of the position.
    pub net_liquidity: F,
}

/// What a pool reports of itself.
pub struct PoolInfo<F, L> {
    /// Total amounts of both tokens in the pool: all positions and collected fees.
    pub total_reserves: (Amount, Amount),
    /// Amounts of both tokens locked in positions.
    pub position_reserves: (Amount, Amount),
    /// Square root of the spot price on each fee level; zero where the level is empty.
    pub spot_sqrtprices: [F; 8],
    /// Square roots of the effective prices forward and in reverse on each fee level; zero
    /// where the level is empty.
    pub eff_sqrtprices: [(F, F); 8],
    /// Liquidity on each fee level.
    pub liquidities: [L; 8],
    /// Fee rate of each fee level, scaled up by `fee_divisor`.
    pub fee_rates: [BasisPoints; 8],
    /// Scale of the fee rates.
    pub fee_divisor: BasisPoints,
}

/// What a pool answers to a swap, and the pool it leaves.
pub type PoolSwapAnswer<P> = (Result<(Amount, Amount, u32)>, P);

/// What `pool` answers to a swap on `side` of `amount` the way `kind` tells, with protocol fee
/// fraction `fee` and, for a swap to a price, the limit `limit`, and the pool it leaves: an
/// exact-in swap of `amount`, an exact-out swap for `amount`, or a swap of at most `amount`
/// up to the limit; a swap to a price without a limit fails with `InvalidParams`.
pub open spec fn pool_swap_answer<P: Pool>(
    pool: P,
    side: Side,
    kind: SwapKind,
    amount: Amount,
    fee: BasisPoints,
    limit: Option<P::PriceLimit>,
) -> PoolSwapAnswer<P> {
    match kind {
        SwapKind::ExactIn => pool.exact_in_answer(side, amount, fee),
        SwapKind::ExactOut => pool.exact_out_answer(side, amount, fee),
        SwapKind::ToPrice => match limit {
            Some(l) => pool.to_price_answer(side, amount, l, fee),
            None => (Err(Error { kind: ErrorKind::InvalidParams }), pool),
        },
    }
}

/// The limit a swap is handed, by value.
pub open spec fn limit_value<L>(limit: Option<&L>) -> Option<L> {
    match limit {
        Some(l) => Some(*l),
        None => None,
    }
}

/// A liquidity pool of two tokens, as the exchange drives it.
///
/// How a pool prices its swaps and accounts its positions is up to the implementation. Each
/// operation's answer is named by a spec function of the pool and the request; the exchange's
/// contracts state which request it makes of which pool, and what it does with the answer.
/// Amounts are of the first token of the pool, then of the second; `Side::Left` swaps the first
/// token for the second.
pub trait Pool: Sized + Clone {
    /// Limit on the effective price of a swap to a price.
    type PriceLimit;

    /// Net liquidity accounted to a position.
    type Liquidity;

    /// A price the pool reports.
    type Price;

    /// A new pool, or the failure of making one.
    spec fn new_pool_answer() -> Result<Self>;

    /// Answer to an exact-in swap of `amount_in` on `side`, and the pool it leaves.
    spec fn exact_in_answer(&self, side: Side, amount_in: Amount, fee: BasisPoints) -> PoolSwapAnswer<Self>;

    /// Answer to an exact-out swap for `amount_out` on `side`, and the pool it leaves.
    spec fn exact_out_answer(&self, side: Side, amount_out: Amount, fee: BasisPoints) -> PoolSwapAnswer<Self>;

    /// Answer to a swap of at most `max_amount_in` on `side` up to the price `limit`, and the
    /// pool it leaves.
    spec fn to_price_answer(
        &self,
        side: Side,
        max_amount_in: Amount,
        limit: Self::PriceLimit,
        fee: BasisPoints,
    ) -> PoolSwapAnswer<Self>;

    /// Answer to opening position `position_id` on fee level `fee_level`, and the pool it
    /// leaves.
    spec fn open_position_answer(&self, position: PositionInit, fee_level: FeeLevel, position_id: PositionId) -> (
        Result<PositionOpenedInfo<Self::Liquidity, Self::Price>>,
        Self,
    );

    /// Answer to paying out the fees of position `position_id`, and the pool it leaves.
    spec fn withdraw_fee_answer(&self, position_id: PositionId) -> (Result<(Amount, Amount)>, Self);

    /// Answer to paying out the protocol fees, and the pool it leaves.
    spec fn protocol_fee_answer(&self) -> (Result<(Amount, Amount)>, Self);

    /// Answer to closing position `position_id`, and the pool it leaves.
    spec fn close_position_answer(&self, position_id: PositionId) -> (Result<PositionClosedInfo<Self::Price>>, Self);

    /// The state of the pool as the exchange logs it.
    spec fn state_answer(&self) -> PoolStateReport<Self::Price, Self::Liquidity>;

    /// The changes of liquidity at up to `number` ticks in use on fee level `fee_level`, from
    /// `start_tick` on in the direction of `side`.
    spec fn ticks_liquidity_change_answer(
        &self,
        fee_level: FeeLevel,
        side: Side,
        start_tick: Tick,
        number: u8,
    ) -> Vec<(Tick, Self::Price)>;

    /// Report on position `position_id`, the pool being that of `pool_id`.
    spec fn position_info_answer(&self, pool_id: PoolId, position_id: PositionId) -> Result<
        PositionInfo<Self::Price>,
    >;

    /// Report on the pool, its prices seen from `side`.
    spec fn pool_info_answer(&self, side: Side) -> Result<PoolInfo<Self::Price, Self::Liquidity>>;

    /// Square root of the effective price on fee level `level` for a swap on `side`.
    spec fn eff_sqrtprice_answer(&self, level: FeeLevel, side: Side) -> Self::Price;

    /// Number of ticks in use on fee level `fee_level`.
    spec fn tick_count_answer(&self, fee_level: FeeLevel) -> usize;

    /// A copy of the pool.
    fn duplicate(&self) -> (r: Self)
        ensures
            r == *self,
    ;

    /// A new pool, with no liquidity.
    fn new_pool() -> (r: Result<Self>)
        ensures
            r == Self::new_pool_answer(),
    ;

    /// Swaps `amount_in` of the token given on `side`; answers the amount taken in, the
    /// amount given out and the number of ticks crossed.
    fn swap_exact_in(&mut self, side: Side, amount_in: Amount, protocol_fee_fraction: BasisPoints) -> (r: Result<
        (Amount, Amount, u32),
    >)
        ensures
            (r, *final(self)) == old(self).exact_in_answer(side, amount_in, protocol_fee_fraction),
    ;

    /// Swaps for `amount_out` of the token taken on `side`; answers the amount taken in, the
    /// amount given out and the number of ticks crossed.
    fn swap_exact_out(&mut self, side: Side, amount_out: Amount, protocol_fee_fraction: BasisPoints) -> (r: Result<
        (Amount, Amount, u32),
    >)
        ensures
            (r, *final(self)) == old(self).exact_out_answer(side, amount_out, protocol_fee_fraction),
    ;

    /// Swaps at most `max_amount_in` of the token given on `side`, until the effective price
    /// reaches `effective_price_limit`; answers the amount taken in, the amount given out and
    /// the number of ticks crossed.
    fn swap_to_price(
        &mut self,
        side: Side,
        max_amount_in: Amount,
        effective_price_limit: &Self::PriceLimit,
        protocol_fee_fraction: BasisPoints,
    ) -> (r: Result<(Amount, Amount, u32)>)
        ensures
            (r, *final(self)) == old(self).to_price_answer(
                side,
                max_amount_in,
                *effective_price_limit,
                protocol_fee_fraction,
            ),
    ;

    /// Opens position `position_id` on fee level `fee_level`.
    fn open_position(&mut self, position: PositionInit, fee_level: FeeLevel, position_id: PositionId) -> (r:
        Result<PositionOpenedInfo<Self::Liquidity, Self::Price>>)
        ensures
            (r, *final(self)) == old(self).open_position_answer(position, fee_level, position_id),
    ;

    /// Pays out the fees position `position_id` earned since they were last paid out.
    fn withdraw_fee(&mut self, position_id: PositionId) -> (r: Result<(Amount, Amount)>)
        ensures
            (r, *final(self)) == old(self).withdraw_fee_answer(position_id),
    ;

    /// Pays out the fees collected for the exchange.
    fn withdraw_protocol_fee(&mut self) -> (r: Result<(Amount, Amount)>)
        ensures
            (r, *final(self)) == old(self).protocol_fee_answer(),
    ;

    /// Pays out the fees of position `position_id` and closes it.
    fn withdraw_fee_and_close_position(&mut self, position_id: PositionId) -> (r: Result<PositionClosedInfo<Self::Price>>)
        ensures
            (r, *final(self)) == old(self).close_position_answer(position_id),
    ;

    /// What the pool reports of position `position_id`, the pool being that of `pool_id`.
    fn position_info(&self, pool_id: PoolId, position_id: PositionId) -> (r: Result<PositionInfo<Self::Price>>)
        ensures
            r == self.position_info_answer(pool_id, position_id),
    ;

    /// What the pool reports of itself, its prices seen from `side`.
    fn pool_info(&self, side: Side) -> (r: Result<PoolInfo<Self::Price, Self::Liquidity>>)
        ensures
            r == self.pool_info_answer(side),
    ;

    /// Square root of the effective price on fee level `level` for a swap on `side`.
    fn eff_sqrtprice(&self, level: FeeLevel, side: Side) -> (r: Self::Price)
        requires
            level < NUM_FEE_LEVELS,
        ensures
            r == self.eff_sqrtprice_answer(level, side),
    ;

    /// The state of the pool as the exchange logs it: its spot prices seen from `Side::Right`.
    fn state_report(&self) -> (r: PoolStateReport<Self::Price, Self::Liquidity>)
        ensures
            r == self.state_answer(),
    ;

    /// The changes of liquidity at up to `number` ticks in use on fee level `fee_level`, from
    /// `start_tick` on in the direction of `side`.
    fn ticks_liquidity_change(&self, fee_level: FeeLevel, side: Side, start_tick: Tick, number: u8) -> (r: Vec<
        (Tick, Self::Price),
    >)
        requires
            fee_level < NUM_FEE_LEVELS,
        ensures
            r == self.ticks_liquidity_change_answer(fee_level, side, start_tick, number),
    ;

    /// Number of ticks in use on fee level `fee_level`.
    fn tick_count(&self, fee_level: FeeLevel) -> (r: usize)
        requires
            fee_level < NUM_FEE_LEVELS,
        ensures
            r == self.tick_count_answer(fee_level),
    ;
}

} // verus!
