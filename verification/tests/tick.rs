use dx25_dex::error::ErrorKind;
use dx25_dex::tick::{EffTick, Tick, MAX_TICK, MIN_TICK};
use dx25_dex::types::Side;

#[test]
fn eff_tick_round_trip() {
    for index in [-500, -1, 0, 1, 17, 500] {
        let tick = Tick::new(index).unwrap();
        for level in 0..8u8 {
            for side in [Side::Left, Side::Right] {
                let eff = EffTick::from_tick(tick, level, side);
                assert_eq!(eff.to_tick(level, side), Ok(tick));
            }
        }
    }
}

#[test]
fn eff_tick_values() {
    let tick = Tick::new(10).unwrap();
    assert_eq!(EffTick::from_tick(tick, 3, Side::Left).index(), 18);
    assert_eq!(EffTick::from_tick(tick, 3, Side::Right).index(), -2);
    assert_eq!(EffTick::from_tick(tick, 0, Side::Left).index(), 11);
}

#[test]
fn eff_tick_opposite_is_other_direction() {
    let tick = Tick::new(-42).unwrap();
    for level in 0..8u8 {
        let left = EffTick::from_tick(tick, level, Side::Left);
        let right = EffTick::from_tick(tick, level, Side::Right);
        assert_eq!(left.opposite(level), right);
        assert_eq!(right.opposite(level), left);
    }
}

#[test]
fn tick_range_bounds() {
    assert_eq!(Tick::new(MAX_TICK + 1), Err(ErrorKind::PriceTickOutOfBounds));
    assert_eq!(Tick::new(MIN_TICK - 1), Err(ErrorKind::PriceTickOutOfBounds));
    let (low, high) = Tick::unwrap_range((None, Some(5))).unwrap();
    assert_eq!((low.index(), high.index()), (MIN_TICK, 5));
    assert_eq!(Tick::wrap_range((low, high)), (None, Some(5)));
    assert_eq!(Tick::unwrap_range((Some(MAX_TICK + 1), None)), Err(ErrorKind::PriceTickOutOfBounds));
}

#[test]
fn tick_same_eff_price_on_other_level() {
    let tick = Tick::new(100).unwrap();
    let moved = tick.with_same_eff_price(1, 3, Side::Left).unwrap();
    assert_eq!(moved.index(), 100 + 2 - 8);
    let back = moved.with_same_eff_price(3, 1, Side::Left).unwrap();
    assert_eq!(back, tick);
}

#[test]
fn tick_same_eff_price_on_high_level() {
    let tick = Tick::new(0).unwrap();
    let moved = tick.with_same_eff_price(10, 3, Side::Left).unwrap();
    assert_eq!(moved.index(), 1024 - 8);
    let eff = EffTick::from_tick(tick, 12, Side::Right);
    assert_eq!(eff.index(), 4096);
    assert_eq!(eff.to_tick(12, Side::Right), Ok(tick));
    assert_eq!(eff.opposite(12).index(), 8192 - 4096);
}
