use vstd::prelude::*;
use vstd::arithmetic::power2::{lemma2_to64, lemma_pow2_pos, lemma_pow2_strictly_increases, pow2};

use crate::error::ErrorKind;
use crate::pool::fee_rate_ticks;
use crate::types::{FeeLevel, Side};

verus! {

/// Smallest valid tick index.
pub const MIN_TICK: i32 = -887272;

/// Largest valid tick index.
pub const MAX_TICK: i32 = 887272;

/// Smallest valid effective tick index: a tick shifted by the smallest fee rate.
pub const MIN_EFF_TICK: i32 = -887271;

/// Largest valid effective tick index: a tick shifted by the largest fee rate.
pub const MAX_EFF_TICK: i32 = 887400;

/// Number of precalculated tick sqrtprices.
pub const NUM_PRECALCULATED_TICKS: usize = 21;

/// Bit patterns of the spot sqrtprices of the ticks `2^0, 2^1, ..., 2^20`.
pub const PRECALCULATED_TICKS: [u64; 21] = [
    4607182643974369558,
    4607182869159980145,
    4607183319564978878,
    4607184220510102349,
    4607186022940979433,
    4607189629966263589,
    4607196852679033204,
    4607211332818125533,
    4607240432470062669,
    4607299193450302128,
    4607418995971640537,
    4607668000704051496,
    4608205938457857923,
    4609462070376259803,
    4612290832146940624,
    4617480469329378893,
    4628148512120721768,
    4649381992504848318,
    4692198734602598674,
    4777248888797670312,
    4947442543280771895,
];

/// Whether `value` is a valid tick index.
pub open spec fn spec_tick_valid(value: int) -> bool {
    MIN_TICK <= value <= MAX_TICK
}

/// Whether `value` is a valid effective tick index.
pub open spec fn spec_eff_tick_valid(value: int) -> bool {
    MIN_EFF_TICK <= value <= MAX_EFF_TICK
}

/// Index of the effective tick that `tick` has on `fee_level` for a swap in direction `side`.
pub open spec fn spec_eff_index(tick: int, fee_level: FeeLevel, side: Side) -> int {
    match side {
        Side::Left => tick + pow2(fee_level as nat),
        Side::Right => -tick + pow2(fee_level as nat),
    }
}

/// Index of the tick whose effective tick on `fee_level` in direction `side` is `eff`.
pub open spec fn spec_tick_index(eff: int, fee_level: FeeLevel, side: Side) -> int {
    match side {
        Side::Left => eff - pow2(fee_level as nat),
        Side::Right => -eff + pow2(fee_level as nat),
    }
}

/// The fee rate of a fee level below 16, in ticks, lies between 1 and `2^15`.
proof fn lemma_fee_shift_bound(fee_level: FeeLevel)
    requires
        fee_level < 16,
    ensures
        1 <= pow2(fee_level as nat) <= 32768,
{
    lemma2_to64();
    lemma_pow2_pos(fee_level as nat);
    if fee_level < 15 {
        lemma_pow2_strictly_increases(fee_level as nat, 15);
    }
}

/// A point on the price scale which corresponds to a specific spot price.
#[derive(Clone, Copy, Debug, PartialEq, Eq, PartialOrd, Ord, Structural)]
pub struct Tick(i32);

/// A point on the price scale which corresponds to a specific effective price.
#[derive(Clone, Copy, Debug, PartialEq, Eq, PartialOrd, Ord, Structural)]
pub struct EffTick(i32);

impl Tick {
    /// Index of the tick.
    pub closed spec fn spec_index(self) -> i32 {
        self.0
    }

    #[verifier::type_invariant]
    spec fn is_within_range(self) -> bool {
        spec_tick_valid(self.0 as int)
    }

    /// The tick with index `index`.
    pub closed spec fn tick_of(index: i32) -> Tick {
        Tick(index)
    }

    /// The tick with index `value`; fails with `PriceTickOutOfBounds` when the index is out
    /// of range.
    pub fn new(value: i32) -> (r: core::result::Result<Tick, ErrorKind>)
        ensures
            spec_tick_valid(value as int) ==> r is Ok && r->Ok_0.spec_index() == value && r->Ok_0
                == Tick::tick_of(value),
            !spec_tick_valid(value as int) ==> r == Err::<Tick, ErrorKind>(
                ErrorKind::PriceTickOutOfBounds,
            ),
    {
        if Self::is_valid(value) {
            Ok(Tick(value))
        } else {
            Err(ErrorKind::PriceTickOutOfBounds)
        }
    }

    /// The tick with index `value`, which must be valid.
    pub fn new_unchecked(value: i32) -> (r: Tick)
        requires
            spec_tick_valid(value as int),
        ensures
            r.spec_index() == value,
    {
        Tick(value)
    }

    /// The smallest tick.
    pub fn min() -> (r: Tick)
        ensures
            r.spec_index() == MIN_TICK,
    {
        Tick(MIN_TICK)
    }

    /// The largest tick.
    pub fn max() -> (r: Tick)
        ensures
            r.spec_index() == MAX_TICK,
    {
        Tick(MAX_TICK)
    }

    /// Whether `value` is a valid tick index.
    pub fn is_valid(value: i32) -> (r: bool)
        ensures
            r == spec_tick_valid(value as int),
    {
        MIN_TICK <= value && value <= MAX_TICK
    }

    /// Index of the tick.
    pub fn index(&self) -> (r: i32)
        ensures
            r == self.spec_index(),
            spec_tick_valid(r as int),
    {
        proof {
            use_type_invariant(self);
        }
        self.0
    }

    /// Index of the tick, or `None` for the two extreme ticks.
    pub fn to_opt_index(&self) -> (r: Option<i32>)
        ensures
            r == (if MIN_TICK < self.spec_index() < MAX_TICK {
                Some(self.spec_index())
            } else {
                None::<i32>
            }),
    {
        if MIN_TICK < self.index() && self.index() < MAX_TICK {
            Some(self.index())
        } else {
            None
        }
    }

    /// For swap direction `swap_direction`, the tick with the same effective price on
    /// `other_level` as this tick has on `this_level`; fails with `PriceTickOutOfBounds`
    /// when that tick is out of range.
    pub fn with_same_eff_price(self, this_level: FeeLevel, other_level: FeeLevel, swap_direction: Side) -> (r:
        core::result::Result<Self, ErrorKind>)
        requires
            this_level < 16,
            other_level < 16,
            spec_eff_tick_valid(spec_eff_index(self.spec_index() as int, this_level, swap_direction)),
        ensures
            ({
                let target = spec_tick_index(
                    spec_eff_index(self.spec_index() as int, this_level, swap_direction),
                    other_level,
                    swap_direction,
                );
                &&& spec_tick_valid(target) ==> r is Ok && r->Ok_0.spec_index() == target
                &&& !spec_tick_valid(target) ==> r == Err::<Tick, ErrorKind>(
                    ErrorKind::PriceTickOutOfBounds,
                )
            }),
    {
        EffTick::from_tick(self, this_level, swap_direction).to_tick(other_level, swap_direction)
    }

    /// The tick of the opposite spot price.
    pub fn opposite(&self) -> (r: Self)
        ensures
            r.spec_index() == -self.spec_index(),
    {
        proof {
            use_type_invariant(self);
        }
        Tick(-self.0)
    }

    /// The tick of the opposite spot price when `is_opposite` holds, this tick otherwise.
    pub fn opposite_if(&self, is_opposite: bool) -> (r: Self)
        ensures
            r.spec_index() == (if is_opposite {
                -self.spec_index()
            } else {
                self.spec_index() as int
            }),
    {
        if is_opposite {
            self.opposite()
        } else {
            *self
        }
    }

    /// The ticks of a range given by optional bounds: a missing lower bound is the smallest
    /// tick, a missing upper bound the largest. Fails with `PriceTickOutOfBounds` when a given
    /// bound is out of range.
    pub fn unwrap_range(as_options: (Option<i32>, Option<i32>)) -> (r: core::result::Result<(Tick, Tick), ErrorKind>)
        ensures
            ({
                let low_ok = match as_options.0 {
                    Some(x) => spec_tick_valid(x as int),
                    None => true,
                };
                let high_ok = match as_options.1 {
                    Some(x) => spec_tick_valid(x as int),
                    None => true,
                };
                &&& (low_ok && high_ok) ==> r is Ok && r->Ok_0.0.spec_index() == match as_options.0 {
                    Some(x) => x,
                    None => MIN_TICK,
                } && r->Ok_0.1.spec_index() == match as_options.1 {
                    Some(x) => x,
                    None => MAX_TICK,
                }
                &&& !(low_ok && high_ok) ==> r == Err::<(Tick, Tick), ErrorKind>(
                    ErrorKind::PriceTickOutOfBounds,
                )
            }),
    {
        let low = match as_options.0 {
            Some(tick_low) => Tick::new(tick_low)?,
            None => Tick::min(),
        };
        let high = match as_options.1 {
            Some(tick_high) => Tick::new(tick_high)?,
            None => Tick::max(),
        };
        Ok((low, high))
    }

    /// Optional bounds of a tick range: the smallest tick as lower bound and the largest as
    /// upper bound become `None`.
    pub fn wrap_range(as_ticks: (Tick, Tick)) -> (r: (Option<i32>, Option<i32>))
        ensures
            r.0 == (if as_ticks.0.spec_index() <= MIN_TICK {
                None::<i32>
            } else {
                Some(as_ticks.0.spec_index())
            }),
            r.1 == (if as_ticks.1.spec_index() >= MAX_TICK {
                None::<i32>
            } else {
                Some(as_ticks.1.spec_index())
            }),
    {
        (
            if as_ticks.0.index() <= MIN_TICK {
                None
            } else {
                Some(as_ticks.0.index())
            },
            if as_ticks.1.index() >= MAX_TICK {
                None
            } else {
                Some(as_ticks.1.index())
            },
        )
    }
}

impl Default for Tick {
    fn default() -> (r: Tick)
        ensures
            r.spec_index() == 0,
    {
        Tick(0)
    }
}

impl EffTick {
    /// Index of the effective tick.
    pub closed spec fn spec_index(self) -> i32 {
        self.0
    }

    #[verifier::type_invariant]
    spec fn is_within_range(self) -> bool {
        spec_eff_tick_valid(self.0 as int)
    }

    /// Whether `index` is a valid effective tick index.
    pub fn is_valid(index: i32) -> (r: bool)
        ensures
            r == spec_eff_tick_valid(index as int),
    {
        MIN_EFF_TICK <= index && index <= MAX_EFF_TICK
    }

    /// The effective tick with index `index`; fails with `PriceTickOutOfBounds` when the index
    /// is out of range.
    pub fn new(index: i32) -> (r: core::result::Result<Self, ErrorKind>)
        ensures
            spec_eff_tick_valid(index as int) ==> r is Ok && r->Ok_0.spec_index() == index,
            !spec_eff_tick_valid(index as int) ==> r == Err::<EffTick, ErrorKind>(
                ErrorKind::PriceTickOutOfBounds,
            ),
    {
        if Self::is_valid(index) {
            Ok(EffTick(index))
        } else {
            Err(ErrorKind::PriceTickOutOfBounds)
        }
    }

    /// Index of the effective tick.
    pub fn index(&self) -> (r: i32)
        ensures
            r == self.spec_index(),
            spec_eff_tick_valid(r as int),
    {
        proof {
            use_type_invariant(self);
        }
        self.0
    }

    /// The effective tick of `tick` on `fee_level` for a swap in direction `side`: the tick
    /// shifted by the fee rate (`Left`), or the opposite tick shifted by the fee rate (`Right`).
    pub fn from_tick(tick: Tick, fee_level: FeeLevel, side: Side) -> (r: EffTick)
        requires
            fee_level < 16,
            spec_eff_tick_valid(spec_eff_index(tick.spec_index() as int, fee_level, side)),
        ensures
            r.spec_index() == spec_eff_index(tick.spec_index() as int, fee_level, side),
    {
        let t = tick.index();
        proof {
            lemma_fee_shift_bound(fee_level);
        }
        let shift = fee_rate_ticks(fee_level) as i32;
        let eff_tick_index = match side {
            Side::Left => t + shift,
            Side::Right => -t + shift,
        };
        EffTick(eff_tick_index)
    }

    /// The tick whose effective tick on `fee_level` in direction `side` is this one; fails
    /// with `PriceTickOutOfBounds` when that tick is out of range.
    pub fn to_tick(&self, fee_level: FeeLevel, side: Side) -> (r: core::result::Result<Tick, ErrorKind>)
        requires
            fee_level < 16,
        ensures
            spec_tick_valid(spec_tick_index(self.spec_index() as int, fee_level, side)) ==> r is Ok
                && r->Ok_0.spec_index() == spec_tick_index(self.spec_index() as int, fee_level, side),
            !spec_tick_valid(spec_tick_index(self.spec_index() as int, fee_level, side)) ==> r
                == Err::<Tick, ErrorKind>(ErrorKind::PriceTickOutOfBounds),
    {
        let e = self.index();
        proof {
            lemma_fee_shift_bound(fee_level);
        }
        let shift = fee_rate_ticks(fee_level) as i32;
        let tick_index = match side {
            Side::Left => e - shift,
            Side::Right => -e + shift,
        };
        Tick::new(tick_index)
    }

    /// The effective tick of the same price in the opposite direction:
    /// `2^(fee_level + 1) - index`.
    pub fn opposite(&self, fee_level: FeeLevel) -> (r: Self)
        requires
            fee_level < 16,
            spec_eff_tick_valid(pow2(fee_level as nat + 1) - self.spec_index()),
        ensures
            r.spec_index() == pow2(fee_level as nat + 1) - self.spec_index(),
    {
        let e = self.index();
        proof {
            lemma_fee_shift_bound(fee_level);
            vstd::arithmetic::power2::lemma_pow2_unfold(fee_level as nat + 1);
        }
        let shift = 2 * fee_rate_ticks(fee_level) as i32;
        EffTick(-e + shift)
    }

    /// The effective tick `step` ticks further; fails with `PriceTickOutOfBounds` when out of
    /// range.
    pub fn shifted(&self, step: i32) -> (r: core::result::Result<Self, ErrorKind>)
        requires
            i32::MIN <= self.spec_index() + step <= i32::MAX,
        ensures
            spec_eff_tick_valid(self.spec_index() + step) ==> r is Ok && r->Ok_0.spec_index()
                == self.spec_index() + step,
            !spec_eff_tick_valid(self.spec_index() + step) ==> r == Err::<EffTick, ErrorKind>(
                ErrorKind::PriceTickOutOfBounds,
            ),
    {
        EffTick::new(self.index() + step)
    }
}

impl Default for EffTick {
    fn default() -> (r: EffTick)
        ensures
            r.spec_index() == 0,
    {
        EffTick(0)
    }
}

/// A tick and its effective tick on a fee level lead back to each other.
pub proof fn law_eff_tick_round_trip(tick: int, fee_level: FeeLevel, side: Side)
    ensures
        spec_tick_index(spec_eff_index(tick, fee_level, side), fee_level, side) == tick,
{
}

/// The effective tick of a tick in one direction, taken opposite, is its effective tick in the
/// other direction.
pub proof fn law_eff_tick_opposite(tick: int, fee_level: FeeLevel, side: Side)
    ensures
        pow2(fee_level as nat + 1) - spec_eff_index(tick, fee_level, side) == spec_eff_index(
            tick,
            fee_level,
            side.spec_opposite(),
        ),
{
    vstd::arithmetic::power2::lemma_pow2_unfold(fee_level as nat + 1);
}

} // verus!
