use vstd::prelude::*;

use crate::error::ErrorKind;
use crate::key::OrderedKey;

verus! {

/// Identifier of an account.
pub type AccountId = u64;

/// Identifier of a token.
pub type TokenId = u64;

/// Amount of a token.
pub type Amount = u128;

/// Amount of a token as passed by callers.
pub type WasmAmount = u128;

/// Hundredths of a percent.
pub type BasisPoints = u16;

/// Identifier of a liquidity position.
pub type PositionId = u64;

/// Index of a fee level.
pub type FeeLevel = u8;

/// Number of pools.
pub type PoolsNumber = usize;

/// The pair swapped when `swap` holds, otherwise the pair unchanged.
pub open spec fn spec_swap_if<T>(swap: bool, pair: (T, T)) -> (T, T) {
    if swap {
        (pair.1, pair.0)
    } else {
        pair
    }
}

/// Swaps the elements of `pair` when `swap` holds.
pub fn swap_if<T>(swap: bool, pair: (T, T)) -> (r: (T, T))
    ensures
        r == spec_swap_if(swap, pair),
{
    if swap {
        (pair.1, pair.0)
    } else {
        pair
    }
}

/// Identifier of a pool: the pair of its tokens, the larger identifier first.
#[derive(Clone, Copy, Debug, PartialEq, Eq, Structural)]
pub struct PoolId {
    first: TokenId,
    second: TokenId,
}

impl PoolId {
    /// The token pair of the pool.
    pub closed spec fn spec_pair(self) -> (TokenId, TokenId) {
        (self.first, self.second)
    }

    /// The pool identifier whose pair of tokens is `pair`, in this order.
    pub closed spec fn spec_new(pair: (TokenId, TokenId)) -> PoolId {
        PoolId { first: pair.0, second: pair.1 }
    }

    /// The pool identifier of the tokens of `pair`, whichever order they come in.
    pub open spec fn of_tokens(pair: (TokenId, TokenId)) -> PoolId {
        PoolId::spec_new(spec_swap_if(pair.0 < pair.1, pair))
    }

    /// A pool identifier is its pair of tokens.
    pub proof fn law_pool_id_is_its_pair(pair: (TokenId, TokenId), id: PoolId)
        ensures
            PoolId::spec_new(pair).spec_pair() == pair,
            PoolId::spec_new(id.spec_pair()) == id,
    {
    }

    /// Pool identifier for a pair of tokens, with a flag telling whether the tokens were
    /// swapped to put the larger identifier first.
    ///
    /// Fails with `TokenDuplicates` when both tokens are the same.
    pub fn try_from_pair(pair: (TokenId, TokenId)) -> (r: core::result::Result<(PoolId, bool), ErrorKind>)
        ensures
            pair.0 == pair.1 ==> r == Err::<(PoolId, bool), ErrorKind>(ErrorKind::TokenDuplicates),
            pair.0 != pair.1 ==> r is Ok && r->Ok_0.1 == (pair.0 < pair.1) && r->Ok_0.0.spec_pair()
                == spec_swap_if(pair.0 < pair.1, pair) && r->Ok_0.0 == PoolId::of_tokens(pair),
    {
        if pair.0 == pair.1 {
            return Err(ErrorKind::TokenDuplicates);
        }
        let swapped = pair.0 < pair.1;
        let pair = swap_if(swapped, pair);
        Ok((PoolId { first: pair.0, second: pair.1 }, swapped))
    }

    /// The two tokens of the pool.
    pub fn as_refs(&self) -> (r: (&TokenId, &TokenId))
        ensures
            (*r.0, *r.1) == self.spec_pair(),
    {
        (&self.first, &self.second)
    }

    /// The pair of tokens of the pool.
    pub fn pair(&self) -> (r: (TokenId, TokenId))
        ensures
            r == self.spec_pair(),
    {
        (self.first, self.second)
    }

    /// The side of the pool that `input_token` enters: `Left` for the first token of the pair,
    /// `Right` otherwise.
    pub fn side(&self, input_token: &TokenId) -> (r: Side)
        ensures
            r == (if *input_token == self.spec_pair().0 {
                Side::Left
            } else {
                Side::Right
            }),
    {
        if *input_token == self.first {
            Side::Left
        } else {
            Side::Right
        }
    }
}

impl OrderedKey for PoolId {
    open spec fn rank(&self) -> int {
        self.spec_pair().0 as int * 0x1_0000_0000_0000_0000 + self.spec_pair().1 as int
    }

    proof fn lemma_rank_injective(a: Self, b: Self) {
    }

    fn key_lt(&self, other: &Self) -> (r: bool) {
        self.first < other.first || (self.first == other.first && self.second < other.second)
    }
}

/// Bounds on an amount.
#[derive(Clone, Copy, Debug)]
pub struct Range<T> {
    pub min: T,
    pub max: T,
}

/// Parameters of a position to open: bounds on the deposited amounts, and the range of ticks
/// (`None` for an unbounded end).
#[derive(Clone, Copy, Debug)]
pub struct PositionInit {
    pub amount_ranges: (Range<WasmAmount>, Range<WasmAmount>),
    pub ticks_range: (Option<i32>, Option<i32>),
}

/// The negation of `x`, saturated to `i32::MAX` for `i32::MIN`.
pub open spec fn spec_saturating_neg(x: i32) -> i32 {
    if x == i32::MIN {
        i32::MAX
    } else {
        -x as i32
    }
}

/// Negates `x`, saturating at `i32::MAX`.
pub fn saturating_neg(x: i32) -> (r: i32)
    ensures
        r == spec_saturating_neg(x),
{
    if x == i32::MIN {
        i32::MAX
    } else {
        -x
    }
}

/// Negates the tick bound, if any.
fn neg_tick_bound(bound: Option<i32>) -> (r: Option<i32>)
    ensures
        r == match bound {
            Some(x) => Some(spec_saturating_neg(x)),
            None => None::<i32>,
        },
{
    match bound {
        Some(x) => Some(saturating_neg(x)),
        None => None,
    }
}

/// The position `p` seen from the other side of the pool when `transposed` holds: the amount
/// ranges swapped, and the tick range mirrored (bounds swapped and negated).
pub open spec fn spec_transposed(p: PositionInit, transposed: bool) -> PositionInit {
    if transposed {
        PositionInit {
            amount_ranges: (p.amount_ranges.1, p.amount_ranges.0),
            ticks_range: (
                match p.ticks_range.1 {
                    Some(x) => Some(spec_saturating_neg(x)),
                    None => None::<i32>,
                },
                match p.ticks_range.0 {
                    Some(x) => Some(spec_saturating_neg(x)),
                    None => None::<i32>,
                },
            ),
        }
    } else {
        p
    }
}

impl PositionInit {
    /// A position over the whole tick range, with the given amount bounds for both tokens.
    pub fn new_full_range(min_a: WasmAmount, max_a: WasmAmount, min_b: WasmAmount, max_b: WasmAmount) -> (r:
        PositionInit)
        ensures
            r.amount_ranges.0.min == min_a,
            r.amount_ranges.0.max == max_a,
            r.amount_ranges.1.min == min_b,
            r.amount_ranges.1.max == max_b,
            r.ticks_range == (None::<i32>, None::<i32>),
    {
        PositionInit {
            amount_ranges: (Range { min: min_a, max: max_a }, Range { min: min_b, max: max_b }),
            ticks_range: (None, None),
        }
    }

    /// The same position seen from the other side of the pool when `transposed` holds: the
    /// amount ranges are swapped, and the tick range is mirrored (bounds swapped and negated).
    pub fn transpose_if(self, transposed: bool) -> (r: PositionInit)
        ensures
            r == spec_transposed(self, transposed),
            r.amount_ranges == spec_swap_if(transposed, self.amount_ranges),
            transposed ==> r.ticks_range == (
                match self.ticks_range.1 {
                    Some(x) => Some(spec_saturating_neg(x)),
                    None => None::<i32>,
                },
                match self.ticks_range.0 {
                    Some(x) => Some(spec_saturating_neg(x)),
                    None => None::<i32>,
                },
            ),
            !transposed ==> r.ticks_range == self.ticks_range,
    {
        PositionInit {
            amount_ranges: swap_if(transposed, self.amount_ranges),
            ticks_range: if transposed {
                (neg_tick_bound(self.ticks_range.1), neg_tick_bound(self.ticks_range.0))
            } else {
                self.ticks_range
            },
        }
    }
}

/// Side of a pool: the direction of a swap.
#[derive(Clone, Copy, Debug, PartialEq, Eq, Structural)]
pub enum Side {
    Left,
    Right,
}

impl Side {
    /// The other side.
    pub open spec fn spec_opposite(self) -> Side {
        match self {
            Side::Left => Side::Right,
            Side::Right => Side::Left,
        }
    }

    /// The other side.
    pub fn opposite(&self) -> (r: Side)
        ensures
            r == self.spec_opposite(),
    {
        match *self {
            Side::Left => Side::Right,
            Side::Right => Side::Left,
        }
    }

    /// The other side when `cond` holds, this side otherwise.
    pub fn opposite_if(&self, cond: bool) -> (r: Side)
        ensures
            r == (if cond {
                self.spec_opposite()
            } else {
                *self
            }),
    {
        if cond {
            self.opposite()
        } else {
            *self
        }
    }

    /// `Right` when the tokens were swapped, `Left` otherwise.
    pub fn from_swapped(swapped: bool) -> (r: Side)
        ensures
            r == (if swapped {
                Side::Right
            } else {
                Side::Left
            }),
    {
        if swapped {
            Side::Right
        } else {
            Side::Left
        }
    }
}

impl Default for Side {
    fn default() -> (r: Side)
        ensures
            r == Side::Left,
    {
        Side::Left
    }
}

/// Two distinct tokens have one pool, whichever order they come in: the same identifier, with
/// the larger token first and the smaller second.
pub proof fn law_pool_id_either_order(a: TokenId, b: TokenId)
    requires
        a != b,
    ensures
        PoolId::of_tokens((a, b)) == PoolId::of_tokens((b, a)),
        PoolId::of_tokens((a, b)).spec_pair() == (if a < b {
            (b, a)
        } else {
            (a, b)
        }),
{
}

/// The side opposite to the opposite side is the side itself.
pub proof fn law_side_opposite_involutive(side: Side)
    ensures
        side.spec_opposite().spec_opposite() == side,
        side.spec_opposite() != side,
{
}

/// Kind of swap.
#[derive(Clone, Copy, Debug, PartialEq, Eq, Structural)]
pub enum SwapKind {
    /// The amount put in is fixed.
    ExactIn,
    /// The amount taken out is fixed.
    ExactOut,
    /// The price is moved up to a limit.
    ToPrice,
}

impl SwapKind {
    /// The kind of the reverse swap: exact-in and exact-out exchange roles. A swap to price has
    /// no opposite.
    pub fn opposite(self) -> (r: Self)
        requires
            self != SwapKind::ToPrice,
        ensures
            self == SwapKind::ExactIn ==> r == SwapKind::ExactOut,
            self == SwapKind::ExactOut ==> r == SwapKind::ExactIn,
    {
        match self {
            SwapKind::ExactIn => SwapKind::ExactOut,
            _ => SwapKind::ExactIn,
        }
    }
}

/// Why the state of a pool changed.
#[derive(Clone, Copy, Debug, PartialEq, Eq, Structural)]
pub enum PoolUpdateReason {
    AddLiquidity,
    RemoveLiquidity,
    Swap,
}

/// Version of the exchange.
#[derive(Debug)]
pub struct VersionInfo {
    pub version: String,
}

/// A chain of swaps: through `tokens` in turn, for `amount`, ending in `token_out`.
#[derive(Clone, Debug)]
pub struct Path {
    pub tokens: Vec<TokenId>,
    pub token_out: TokenId,
    pub amount: Amount,
}

/// A deposit that comes with a batch of actions.
#[derive(Clone, Copy, Debug)]
pub struct DepositPayment {
    pub token_id: TokenId,
    pub amount: Amount,
}

/// Upper bounds on the costs of a transaction.
#[derive(Clone, Copy, Debug)]
pub struct TxCostEstimate {
    pub gas_cost_max: Amount,
    pub storage_fee_max: Amount,
}

/// Estimate of a swap for an exact amount, prices being of type `F`.
#[derive(Clone, Copy, Debug)]
pub struct EstimateSwapExactResult<F> {
    /// Amount out (exact in) or in (exact out).
    pub result: Amount,
    /// Bound on `result` within the slippage tolerance.
    pub result_bound: Amount,
    /// Impact of the swap on the price.
    pub price_impact: F,
    /// Average price of the swap.
    pub swap_price: Option<F>,
    /// Price of the swap at the bound.
    pub swap_price_worst: Option<F>,
    /// Fee, in the token spent.
    pub fee_in_spent_tok: Amount,
    /// Number of ticks the swap crosses.
    pub num_tick_crossings: u32,
}

/// Estimate of adding liquidity, prices and liquidity being of type `F`.
#[derive(Clone, Copy, Debug)]
pub struct EstimateAddLiquidityResult<F> {
    pub min_a: Amount,
    pub max_a: Amount,
    pub min_b: Amount,
    pub max_b: Amount,
    /// Whether the pool exists.
    pub pool_exists: bool,
    /// Spot price of the pool, if it has one.
    pub spot_price: Option<F>,
    /// Price at which the position opens.
    pub position_price: F,
    /// Costs of the transaction.
    pub tx_cost: TxCostEstimate,
    /// Net liquidity of the position.
    pub position_net_liquidity: F,
}

/// Estimated costs of removing liquidity.
#[derive(Clone, Copy, Debug)]
pub struct EstimateRemoveLiquidityResult {
    pub tx_cost: TxCostEstimate,
}

/// A single swap of a batch of actions.
#[derive(Clone, Copy, Debug)]
pub struct SwapAction {
    /// Token given to the pool.
    pub token_in: TokenId,
    /// Token taken from the pool.
    pub token_out: TokenId,
    /// Amount to exchange; when `None`, the amount the previous swap produced.
    pub amount: Option<WasmAmount>,
    /// Minimal amount out for an exact-in swap, maximal amount in for an exact-out swap.
    pub amount_limit: WasmAmount,
}

/// A swap to a price of a batch of actions.
#[derive(Clone, Copy, Debug)]
pub struct SwapToPriceAction<L> {
    /// Token given to the pool.
    pub token_in: TokenId,
    /// Token taken from the pool.
    pub token_out: TokenId,
    /// Most amount to give; a swap to a price must have one.
    pub amount: Option<WasmAmount>,
    /// Limit on the effective price.
    pub effective_price_limit: L,
}

} // verus!
