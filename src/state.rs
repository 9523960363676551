//! Pool and tick state that the range-accounting operations read and update.
use crate::decimals::{
    mul_div, FeeGrowth, FixedPoint, Liquidity, Price, TokenAmount, FIXED_POINT_ONE, LIQUIDITY_ONE,
};
use crate::errors::ErrorCode;
use vstd::prelude::*;

verus! {

/// An initialized price boundary and its "outside" snapshots.
#[derive(Clone, Copy, Debug, PartialEq, Eq, Structural)]
pub struct Tick {
    pub index: i32,
    /// Whether crossing upwards adds `liquidity_change` (else removes it).
    pub sign: bool,
    pub liquidity_change: Liquidity,
    pub liquidity_gross: Liquidity,
    pub fee_growth_outside_x: FeeGrowth,
    pub fee_growth_outside_y: FeeGrowth,
    pub seconds_per_liquidity_outside: FixedPoint,
}

impl Default for Tick {
    fn default() -> (r: Tick)
        ensures
            r.index == 0,
            r.sign == false,
            r.liquidity_change.v == 0,
            r.liquidity_gross.v == 0,
            r.fee_growth_outside_x.v == 0,
            r.fee_growth_outside_y.v == 0,
            r.seconds_per_liquidity_outside.v == 0,
    {
        Tick {
            index: 0,
            sign: false,
            liquidity_change: Liquidity { v: 0 },
            liquidity_gross: Liquidity { v: 0 },
            fee_growth_outside_x: FeeGrowth { v: 0 },
            fee_growth_outside_y: FeeGrowth { v: 0 },
            seconds_per_liquidity_outside: FixedPoint { v: 0 },
        }
    }
}

/// The live state of a pool.
#[derive(Clone, Copy, Debug, PartialEq, Eq, Structural)]
pub struct Pool {
    pub current_tick_index: i32,
    pub sqrt_price: Price,
    pub liquidity: Liquidity,
    pub fee_growth_global_x: FeeGrowth,
    pub fee_growth_global_y: FeeGrowth,
    pub seconds_per_liquidity_global: FixedPoint,
    pub start_timestamp: u64,
    pub last_timestamp: u64,
    pub protocol_fee: FixedPoint,
    pub fee_protocol_token_x: TokenAmount,
    pub fee_protocol_token_y: TokenAmount,
    pub oracle_initialized: bool,
}

impl Default for Pool {
    fn default() -> (r: Pool)
        ensures
            r.current_tick_index == 0,
            r.sqrt_price.v == 0,
            r.liquidity.v == 0,
            r.fee_growth_global_x.v == 0,
            r.fee_growth_global_y.v == 0,
            r.seconds_per_liquidity_global.v == 0,
            r.start_timestamp == 0,
            r.last_timestamp == 0,
            r.protocol_fee.v == 0,
            r.fee_protocol_token_x.0 == 0,
            r.fee_protocol_token_y.0 == 0,
            !r.oracle_initialized,
    {
        Pool {
            current_tick_index: 0,
            sqrt_price: Price { v: 0 },
            liquidity: Liquidity { v: 0 },
            fee_growth_global_x: FeeGrowth { v: 0 },
            fee_growth_global_y: FeeGrowth { v: 0 },
            seconds_per_liquidity_global: FixedPoint { v: 0 },
            start_timestamp: 0,
            last_timestamp: 0,
            protocol_fee: FixedPoint { v: 0 },
            fee_protocol_token_x: TokenAmount(0),
            fee_protocol_token_y: TokenAmount(0),
            oracle_initialized: false,
        }
    }
}

/// Pool liquidity after adding (`add`) or removing `delta`, when it stays
/// within `0..=u128::MAX`.
pub open spec fn updated_liquidity(l: int, delta: int, add: bool) -> Option<int> {
    let n = if add {
        l + delta
    } else {
        l - delta
    };
    if 0 <= n <= u128::MAX {
        Some(n)
    } else {
        None
    }
}

/// Seconds per unit of liquidity that `elapsed` seconds add: `elapsed / L` at fixed-point scale.
pub open spec fn seconds_per_liquidity_increment(elapsed: int, l: int) -> int {
    elapsed * FIXED_POINT_ONE * LIQUIDITY_ONE / l
}

/// Whether the pool's accumulator can advance to `now`: time does not go back
/// and the new accumulator fits in 128 bits.
pub open spec fn can_advance_seconds(pool: Pool, now: u64) -> bool {
    &&& pool.liquidity.v > 0
    &&& now >= pool.last_timestamp
    &&& pool.seconds_per_liquidity_global.v + seconds_per_liquidity_increment(
        now - pool.last_timestamp,
        pool.liquidity.v as int,
    ) <= u128::MAX
}

impl Pool {
    /// Adds or removes `liquidity_delta`; fails, changing nothing, when the
    /// liquidity would fall below zero or overflow.
    pub fn update_liquidity_safely(&mut self, liquidity_delta: Liquidity, add: bool) -> (r: Result<
        (),
        ErrorCode,
    >)
        ensures
            r is Ok <==> updated_liquidity(
                old(self).liquidity.v as int,
                liquidity_delta.v as int,
                add,
            ) is Some,
            r is Err ==> r == Err::<(), ErrorCode>(ErrorCode::InvalidPoolLiquidity) && *final(self)
                == *old(self),
            r is Ok ==> *final(self) == (Pool {
                liquidity: Liquidity {
                    v: updated_liquidity(
                        old(self).liquidity.v as int,
                        liquidity_delta.v as int,
                        add,
                    )->Some_0 as u128,
                },
                ..*old(self)
            }),
    {
        if add {
            if self.liquidity.v > u128::MAX - liquidity_delta.v {
                return Err(ErrorCode::InvalidPoolLiquidity);
            }
            self.liquidity = Liquidity { v: self.liquidity.v + liquidity_delta.v };
        } else {
            if self.liquidity.v < liquidity_delta.v {
                return Err(ErrorCode::InvalidPoolLiquidity);
            }
            self.liquidity = Liquidity { v: self.liquidity.v - liquidity_delta.v };
        }
        Ok(())
    }

    /// Advances the global seconds-per-liquidity accumulator to `current_timestamp`.
    pub fn update_seconds_per_liquidity_global(&mut self, current_timestamp: u64)
        requires
            can_advance_seconds(*old(self), current_timestamp),
        ensures
            *final(self) == (Pool {
                seconds_per_liquidity_global: FixedPoint {
                    v: (old(self).seconds_per_liquidity_global.v + seconds_per_liquidity_increment(
                        current_timestamp - old(self).last_timestamp,
                        old(self).liquidity.v as int,
                    )) as u128,
                },
                last_timestamp: current_timestamp,
                ..*old(self)
            }),
    {
        let elapsed = (current_timestamp - self.last_timestamp) as u128;
        proof {
            assert(elapsed * FIXED_POINT_ONE * LIQUIDITY_ONE == elapsed * (FIXED_POINT_ONE
                * LIQUIDITY_ONE)) by (nonlinear_arith);
        }
        let increment = mul_div(elapsed * FIXED_POINT_ONE, LIQUIDITY_ONE, self.liquidity.v);
        self.seconds_per_liquidity_global = FixedPoint {
            v: self.seconds_per_liquidity_global.v + increment,
        };
        self.last_timestamp = current_timestamp;
    }
}

} // verus!
