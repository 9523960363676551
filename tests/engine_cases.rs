use invariant_amm::decimals::{FeeGrowth, FixedPoint, Liquidity, Price, TokenAmount};
use invariant_amm::math::{
    calculate_amount_delta, calculate_fee_growth_inside, calculate_price_sqrt,
    calculate_seconds_per_liquidity_inside, compute_swap_step, get_delta_x, get_delta_y,
    get_next_sqrt_price_x_up, get_next_sqrt_price_y_down, is_enough_amount_to_push_price,
    SwapResult, MAX_TICK,
};
use invariant_amm::state::{Pool, Tick};
use invariant_amm::wide::U256;

// Size of the tick bitmap in each direction.
const TICK_LIMIT: i32 = 100_000;

#[test]
fn test_swap_step() {
    // one token by amount in
    {
        let price = Price::from_integer(1);
        let target = Price::new(1004987562112089027021926);
        let liquidity = Liquidity::from_integer(2000);
        let amount = TokenAmount(1);
        let fee = FixedPoint::from_scale(6, 4);

        let result = compute_swap_step(price, target, liquidity, amount, true, fee);

        let expected_result = SwapResult {
            next_price_sqrt: price,
            amount_in: TokenAmount(0),
            amount_out: TokenAmount(0),
            fee_amount: TokenAmount(1),
        };
        assert_eq!(result, expected_result)
    }
    // amount out capped at target price
    {
        let price = Price::from_integer(1);
        let target = Price::new(1004987562112089027021926);
        let liquidity = Liquidity::from_integer(2000);
        let amount = TokenAmount(20);
        let fee = FixedPoint::from_scale(6, 4);

        let result_in = compute_swap_step(price, target, liquidity, amount, true, fee);
        let result_out = compute_swap_step(price, target, liquidity, amount, false, fee);

        let expected_result = SwapResult {
            next_price_sqrt: target,
            amount_in: TokenAmount(10),
            amount_out: TokenAmount(9),
            fee_amount: TokenAmount(1),
        };
        assert_eq!(result_in, expected_result);
        assert_eq!(result_out, expected_result);
    }
    // amount in not capped
    {
        let price = Price::from_scale(101, 2);
        let target = Price::from_integer(10);
        let liquidity = Liquidity::from_integer(300000000);
        let amount = TokenAmount(1000000);
        let fee = FixedPoint::from_scale(6, 4);

        let result = compute_swap_step(price, target, liquidity, amount, true, fee);
        let expected_result = SwapResult {
            next_price_sqrt: Price::new(1013331333333_333333333333),
            amount_in: TokenAmount(999400),
            amount_out: TokenAmount(976487),
            fee_amount: TokenAmount(600),
        };
        assert_eq!(result, expected_result)
    }
    // amount out not capped
    {
        let price = Price::from_integer(101);
        let target = Price::from_integer(100);
        let liquidity = Liquidity::from_integer(5000000000000u128);
        let amount = TokenAmount(2000000);
        let fee = FixedPoint::from_scale(6, 4);

        let result = compute_swap_step(price, target, liquidity, amount, false, fee);
        let expected_result = SwapResult {
            next_price_sqrt: Price::new(100999999600000_000000000000),
            amount_in: TokenAmount(197),
            amount_out: amount,
            fee_amount: TokenAmount(1),
        };
        assert_eq!(result, expected_result)
    }
    // empty swap step when price is at tick
    {
        let current_price_sqrt = Price::new(999500149965_000000000000);
        let target_price_sqrt = Price::new(999500149965_000000000000);
        let liquidity = Liquidity::new(20006000000000000000);
        let amount = TokenAmount(1_000_000);
        let by_amount_in = true;
        let fee = FixedPoint::from_scale(6, 4);

        let result = compute_swap_step(
            current_price_sqrt,
            target_price_sqrt,
            liquidity,
            amount,
            by_amount_in,
            fee,
        );
        let expected_result = SwapResult {
            next_price_sqrt: current_price_sqrt,
            amount_in: TokenAmount(0),
            amount_out: TokenAmount(0),
            fee_amount: TokenAmount(0),
        };
        assert_eq!(result, expected_result)
    }
    // if liquidity is high, small amount in should not push price
    {
        let current_price_sqrt = Price::from_scale(999500149965u128, 12);
        let target_price_sqrt = Price::from_scale(1999500149965u128, 12);
        let liquidity = Liquidity::from_integer(100_000000000000_000000000000u128);
        let amount = TokenAmount(10);
        let by_amount_in = true;
        let fee = FixedPoint::from_scale(6, 4);

        let result = compute_swap_step(
            current_price_sqrt,
            target_price_sqrt,
            liquidity,
            amount,
            by_amount_in,
            fee,
        );
        let expected_result = SwapResult {
            next_price_sqrt: current_price_sqrt,
            amount_in: TokenAmount(0),
            amount_out: TokenAmount(0),
            fee_amount: TokenAmount(10),
        };
        assert_eq!(result, expected_result)
    }
    // amount_in > u64 for swap to target price and when liquidity > 2^64
    {
        let current_price_sqrt = Price::from_integer(1);
        let target_price_sqrt = Price::from_scale(100005, 5);
        let liquidity = Liquidity::from_integer(368944000000_000000000000u128);
        let amount = TokenAmount(1);
        let by_amount_in = true;
        let fee = FixedPoint::from_scale(6, 4);

        let result = compute_swap_step(
            current_price_sqrt,
            target_price_sqrt,
            liquidity,
            amount,
            by_amount_in,
            fee,
        );
        let expected_result = SwapResult {
            next_price_sqrt: current_price_sqrt,
            amount_in: TokenAmount(0),
            amount_out: TokenAmount(0),
            fee_amount: TokenAmount(1),
        };
        assert_eq!(result, expected_result)
    }
    // amount_out > u64 for swap to target price and when liquidity > 2^64
    {
        let current_price_sqrt = Price::from_integer(1);
        let target_price_sqrt = Price::from_scale(100005, 5);
        let liquidity = Liquidity::from_integer(368944000000_000000000000u128);
        let amount = TokenAmount(1);
        let by_amount_in = false;
        let fee = FixedPoint::from_scale(6, 4);

        let result = compute_swap_step(
            current_price_sqrt,
            target_price_sqrt,
            liquidity,
            amount,
            by_amount_in,
            fee,
        );
        let expected_result = SwapResult {
            next_price_sqrt: Price::new(1_000000000000_000000000003),
            amount_in: TokenAmount(2),
            amount_out: TokenAmount(1),
            fee_amount: TokenAmount(1),
        };
        assert_eq!(result, expected_result)
    }
    // liquidity is zero and by amount_in should skip to target price
    {
        let current_price_sqrt = Price::from_integer(1);
        let target_price_sqrt = Price::from_scale(100005, 5);
        let liquidity = Liquidity::new(0);
        let amount = TokenAmount(100000);
        let by_amount_in = true;
        let fee = FixedPoint::from_scale(6, 4);

        let result = compute_swap_step(
            current_price_sqrt,
            target_price_sqrt,
            liquidity,
            amount,
            by_amount_in,
            fee,
        );
        let expected_result = SwapResult {
            next_price_sqrt: target_price_sqrt,
            amount_in: TokenAmount(0),
            amount_out: TokenAmount(0),
            fee_amount: TokenAmount(0),
        };
        assert_eq!(result, expected_result)
    }
    // liquidity is zero and by amount_out should skip to target price
    {
        let current_price_sqrt = Price::from_integer(1);
        let target_price_sqrt = Price::from_scale(100005, 5);
        let liquidity = Liquidity::new(0);
        let amount = TokenAmount(100000);
        let by_amount_in = false;
        let fee = FixedPoint::from_scale(6, 4);

        let result = compute_swap_step(
            current_price_sqrt,
            target_price_sqrt,
            liquidity,
            amount,
            by_amount_in,
            fee,
        );
        let expected_result = SwapResult {
            next_price_sqrt: target_price_sqrt,
            amount_in: TokenAmount(0),
            amount_out: TokenAmount(0),
            fee_amount: TokenAmount(0),
        };
        assert_eq!(result, expected_result)
    }
}

#[test]
fn test_get_delta_x() {
    // zero at zero liquidity
    {
        let result =
            get_delta_x(Price::from_integer(1), Price::from_integer(1), Liquidity::new(0), false)
                .unwrap();
        assert_eq!(result, TokenAmount(0));
    }
    // equal at equal liquidity
    {
        let result = get_delta_x(
            Price::from_integer(1),
            Price::from_integer(2),
            Liquidity::from_integer(2),
            false,
        )
        .unwrap();
        assert_eq!(result, TokenAmount(1));
    }
    // complex
    {
        let sqrt_price_a = Price::new(234__878_324_943_782_000000000000);
        let sqrt_price_b = Price::new(87__854_456_421_658_000000000000);
        let liquidity = Liquidity::new(983_983__249_092_300_399);

        let result_down = get_delta_x(sqrt_price_a, sqrt_price_b, liquidity, false).unwrap();
        let result_up = get_delta_x(sqrt_price_a, sqrt_price_b, liquidity, true).unwrap();

        // 7010.8199533090222620342346078676429792113623790285962379282493052
        assert_eq!(result_down, TokenAmount(7010));
        assert_eq!(result_up, TokenAmount(7011));
    }
    // big
    {
        let sqrt_price_a = Price::from_integer(1);
        let sqrt_price_b = Price::from_scale(5, 1);
        let liquidity = Liquidity::from_integer(2u128.pow(64) - 1);

        let result_down = get_delta_x(sqrt_price_a, sqrt_price_b, liquidity, false).unwrap();
        let result_up = get_delta_x(sqrt_price_a, sqrt_price_b, liquidity, true).unwrap();

        assert_eq!(result_down, TokenAmount::from_decimal(liquidity));
        assert_eq!(result_up, TokenAmount::from_decimal(liquidity));
    }
    // overflow
    {
        let sqrt_price_a = Price::from_integer(1);
        let sqrt_price_b = Price::from_scale(5, 1);
        let liquidity = Liquidity::from_integer(2u128.pow(64));

        let result_down = get_delta_x(sqrt_price_a, sqrt_price_b, liquidity, false);
        let result_up = get_delta_x(sqrt_price_a, sqrt_price_b, liquidity, true);

        assert!(result_down.is_none());
        assert!(result_up.is_none());
    }
    // huge liquidity
    {
        let sqrt_price_a = Price::from_integer(1);
        let sqrt_price_b = Price::new(Price::one() + 1000000);
        let liquidity = Liquidity::from_integer(2u128.pow(80));

        let result_down = get_delta_x(sqrt_price_a, sqrt_price_b, liquidity, false);
        let result_up = get_delta_x(sqrt_price_a, sqrt_price_b, liquidity, true);

        assert!(result_down.is_some());
        assert!(result_up.is_some());
    }
}

#[test]
fn test_get_delta_y() {
    // zero at zero liquidity
    {
        let result =
            get_delta_y(Price::from_integer(1), Price::from_integer(1), Liquidity::new(0), false)
                .unwrap();
        assert_eq!(result, TokenAmount(0));
    }
    // equal at equal liquidity
    {
        let result = get_delta_y(
            Price::from_integer(1),
            Price::from_integer(2),
            Liquidity::from_integer(2),
            false,
        )
        .unwrap();
        assert_eq!(result, TokenAmount(2));
    }
    // big numbers
    {
        let sqrt_price_a = Price::new(234__878_324_943_782_000000000000);
        let sqrt_price_b = Price::new(87__854_456_421_658_000000000000);
        let liquidity = Liquidity::new(983_983__249_092_300_399);

        let result_down = get_delta_y(sqrt_price_a, sqrt_price_b, liquidity, false).unwrap();
        let result_up = get_delta_y(sqrt_price_a, sqrt_price_b, liquidity, true).unwrap();

        // 144669023.842518763627991585527476
        assert_eq!(result_down, TokenAmount(144669023));
        assert_eq!(result_up, TokenAmount(144669024));
    }
    // big
    {
        let sqrt_price_a = Price::from_integer(1);
        let sqrt_price_b = Price::from_integer(2);
        let liquidity = Liquidity::from_integer(2u128.pow(64) - 1);

        let result_down = get_delta_y(sqrt_price_a, sqrt_price_b, liquidity, false).unwrap();
        let result_up = get_delta_y(sqrt_price_a, sqrt_price_b, liquidity, true).unwrap();

        assert_eq!(result_down, TokenAmount::from_decimal(liquidity));
        assert_eq!(result_up, TokenAmount::from_decimal(liquidity));
    }
    // overflow
    {
        let sqrt_price_a = Price::from_integer(1);
        let sqrt_price_b = Price::from_integer(2);
        let liquidity = Liquidity::from_integer(2u128.pow(64));

        let result_down = get_delta_y(sqrt_price_a, sqrt_price_b, liquidity, false);
        let result_up = get_delta_y(sqrt_price_a, sqrt_price_b, liquidity, true);

        assert!(result_down.is_none());
        assert!(result_up.is_none());
    }
    // huge liquidity
    {
        let sqrt_price_a = Price::from_integer(1);
        let sqrt_price_b = Price::new(Price::one() + 1000000);
        let liquidity = Liquidity::from_integer(2u128.pow(80));

        let result_down = get_delta_y(sqrt_price_a, sqrt_price_b, liquidity, false);
        let result_up = get_delta_y(sqrt_price_a, sqrt_price_b, liquidity, true);

        assert!(result_down.is_some());
        assert!(result_up.is_some());
    }
}

#[test]
fn test_calculate_price_sqrt() {
    {
        let price_sqrt = calculate_price_sqrt(20_000);
        // expected 2.718145925979
        // real     2.718145926825...
        assert_eq!(price_sqrt, Price::from_scale(2718145925979u128, 12));
    }
    {
        let price_sqrt = calculate_price_sqrt(200_000);
        // expected 22015.455979766288
        // real     22015.456048527954...
        assert_eq!(price_sqrt, Price::from_scale(22015455979766288u128, 12));
    }
    {
        let price_sqrt = calculate_price_sqrt(-20_000);
        // expected 0.367897834491
        // real     0.36789783437712...
        assert_eq!(price_sqrt, Price::from_scale(367897834491u128, 12));
    }
    {
        let price_sqrt = calculate_price_sqrt(-200_000);
        // expected 0.000045422634
        // real     0.00004542263388...
        assert_eq!(price_sqrt, Price::from_scale(45422634u128, 12))
    }
    {
        let price_sqrt = calculate_price_sqrt(0);
        assert_eq!(price_sqrt, Price::from_integer(1));
    }
    {
        let price_sqrt = calculate_price_sqrt(MAX_TICK);
        // expected 65535.383934512647
        // real     65535.384161610681...
        assert_eq!(price_sqrt, Price::from_scale(65535383934512647u128, 12))
    }
    {
        let price_sqrt = calculate_price_sqrt(-MAX_TICK);
        // expected 0.000015258932
        // real     0.0000152589324...
        assert_eq!(price_sqrt, Price::from_scale(15258932u128, 12))
    }
}

#[test]
fn test_get_next_sqrt_price_x_up() {
    // Add
    {
        let price_sqrt = Price::from_integer(1);
        let liquidity = Liquidity::from_integer(1);
        let amount = TokenAmount(1);

        let result = get_next_sqrt_price_x_up(price_sqrt, liquidity, amount, true);

        assert_eq!(result, Price::from_scale(5, 1));
    }
    {
        let price_sqrt = Price::from_integer(1);
        let liquidity = Liquidity::from_integer(2);
        let amount = TokenAmount(3);

        let result = get_next_sqrt_price_x_up(price_sqrt, liquidity, amount, true);

        assert_eq!(result, Price::from_scale(4, 1));
    }
    {
        let price_sqrt = Price::from_integer(2);
        let liquidity = Liquidity::from_integer(3);
        let amount = TokenAmount(5);

        let result = get_next_sqrt_price_x_up(price_sqrt, liquidity, amount, true);

        // rounded up 6 / 13
        assert_eq!(result, Price::new(461538461538461538461539));
    }
    {
        let price_sqrt = Price::from_integer(24234);
        let liquidity = Liquidity::from_integer(3000);
        let amount = TokenAmount(5000);

        let result = get_next_sqrt_price_x_up(price_sqrt, liquidity, amount, true);

        // rounded up 24234 / 40391
        assert_eq!(result, Price::new(599985145205615112277488));
    }
    // Subtract
    {
        let price_sqrt = Price::from_integer(1);
        let liquidity = Liquidity::from_integer(2);
        let amount = TokenAmount(1);

        let result = get_next_sqrt_price_x_up(price_sqrt, liquidity, amount, false);

        assert_eq!(result, Price::from_integer(2));
    }
    {
        let price_sqrt = Price::from_integer(100_000);
        let liquidity = Liquidity::from_integer(500_000_000);
        let amount = TokenAmount(4_000);

        let result = get_next_sqrt_price_x_up(price_sqrt, liquidity, amount, false);

        assert_eq!(result, Price::from_integer(500_000));
    }
    {
        let price_sqrt = Price::new(3_333333333333333333333333);
        let liquidity = Liquidity::new(222_222222222222);
        let amount = TokenAmount(37);

        // expected  7490636704119859529520682
        // real     7.49063670411985952952068173...
        let result = get_next_sqrt_price_x_up(price_sqrt, liquidity, amount, false);
        assert_eq!(result, Price::new(7490636704119859529520682));
    }
}

#[test]
fn test_get_next_sqrt_price_y_down() {
    {
        let price_sqrt = Price::from_integer(1);
        let liquidity = Liquidity::from_integer(1);
        let amount = TokenAmount(1);

        let result = get_next_sqrt_price_y_down(price_sqrt, liquidity, amount, true);

        assert_eq!(result, Price::from_integer(2));
    }
    {
        let price_sqrt = Price::from_integer(1);
        let liquidity = Liquidity::from_integer(2);
        let amount = TokenAmount(3);

        let result = get_next_sqrt_price_y_down(price_sqrt, liquidity, amount, true);

        assert_eq!(result, Price::from_scale(25, 1));
    }
    {
        let price_sqrt = Price::from_integer(2);
        let liquidity = Liquidity::from_integer(3);
        let amount = TokenAmount(5);

        let result = get_next_sqrt_price_y_down(price_sqrt, liquidity, amount, true);

        assert_eq!(result, Price::from_integer(11).big_div(&Price::from_integer(3)));
    }
    {
        let price_sqrt = Price::from_integer(24234);
        let liquidity = Liquidity::from_integer(3000);
        let amount = TokenAmount(5000);

        let result = get_next_sqrt_price_y_down(price_sqrt, liquidity, amount, true);

        assert_eq!(result, Price::from_integer(72707).big_div(&Price::from_integer(3)));
    }
    // bool = false
    {
        let price_sqrt = Price::from_integer(1);
        let liquidity = Liquidity::from_integer(2);
        let amount = TokenAmount(1);

        let result = get_next_sqrt_price_y_down(price_sqrt, liquidity, amount, false);

        assert_eq!(result, Price::from_scale(5, 1));
    }
    {
        let price_sqrt = Price::from_integer(100_000);
        let liquidity = Liquidity::from_integer(500_000_000);
        let amount = TokenAmount(4_000);

        let result = get_next_sqrt_price_y_down(price_sqrt, liquidity, amount, false);
        assert_eq!(result, Price::new(99999999992000000_000000000000));
    }
    {
        let price_sqrt = Price::from_integer(3);
        let liquidity = Liquidity::from_integer(222);
        let amount = TokenAmount(37);

        let result = get_next_sqrt_price_y_down(price_sqrt, liquidity, amount, false);

        // expected 2.833333333333
        // real     2.999999999999833...
        assert_eq!(result, Price::new(2833333333333_333333333333));
    }
}

#[test]
fn test_calculate_fee_growth_inside() {
    let fee_growth_global_x = FeeGrowth::from_integer(15);
    let fee_growth_global_y = FeeGrowth::from_integer(15);
    let mut tick_lower = Tick {
        index: -2,
        fee_growth_outside_x: FeeGrowth::new(0),
        fee_growth_outside_y: FeeGrowth::new(0),
        ..Default::default()
    };
    let mut tick_upper = Tick {
        index: 2,
        fee_growth_outside_x: FeeGrowth::from_integer(0),
        fee_growth_outside_y: FeeGrowth::from_integer(0),
        ..Default::default()
    };
    // current tick inside range
    {
        let tick_current = 0;
        let fee_growth_inside = calculate_fee_growth_inside(
            tick_lower,
            tick_upper,
            tick_current,
            fee_growth_global_x,
            fee_growth_global_y,
        );

        assert_eq!(fee_growth_inside.0, FeeGrowth::from_integer(15));
        assert_eq!(fee_growth_inside.1, FeeGrowth::from_integer(15));
    }
    // current tick below range
    {
        let tick_current = -4;
        let fee_growth_inside = calculate_fee_growth_inside(
            tick_lower,
            tick_upper,
            tick_current,
            fee_growth_global_x,
            fee_growth_global_y,
        );

        assert_eq!(fee_growth_inside.0, FeeGrowth::new(0));
        assert_eq!(fee_growth_inside.1, FeeGrowth::new(0));
    }
    // current tick upper range
    {
        let tick_current = 4;
        let fee_growth_inside = calculate_fee_growth_inside(
            tick_lower,
            tick_upper,
            tick_current,
            fee_growth_global_x,
            fee_growth_global_y,
        );

        assert_eq!(fee_growth_inside.0, FeeGrowth::new(0));
        assert_eq!(fee_growth_inside.1, FeeGrowth::new(0));
    }
    // subtracts upper tick if below
    tick_upper = Tick {
        index: 2,
        fee_growth_outside_x: FeeGrowth::from_integer(2),
        fee_growth_outside_y: FeeGrowth::from_integer(3),
        ..Default::default()
    };
    {
        let tick_current = 0;
        let fee_growth_inside = calculate_fee_growth_inside(
            tick_lower,
            tick_upper,
            tick_current,
            fee_growth_global_x,
            fee_growth_global_y,
        );

        assert_eq!(fee_growth_inside.0, FeeGrowth::from_integer(13));
        assert_eq!(fee_growth_inside.1, FeeGrowth::from_integer(12));
    }
    // subtracts lower tick if above
    tick_upper = Tick {
        index: 2,
        fee_growth_outside_x: FeeGrowth::new(0),
        fee_growth_outside_y: FeeGrowth::new(0),
        ..Default::default()
    };
    tick_lower = Tick {
        index: -2,
        fee_growth_outside_x: FeeGrowth::from_integer(2),
        fee_growth_outside_y: FeeGrowth::from_integer(3),
        ..Default::default()
    };
    {
        let tick_current = 0;
        let fee_growth_inside = calculate_fee_growth_inside(
            tick_lower,
            tick_upper,
            tick_current,
            fee_growth_global_x,
            fee_growth_global_y,
        );

        assert_eq!(fee_growth_inside.0, FeeGrowth::from_integer(13));
        assert_eq!(fee_growth_inside.1, FeeGrowth::from_integer(12));
    }
    {
        let tick_current = 0;
        let fee_growth_global_x = FeeGrowth::from_integer(20);
        let fee_growth_global_y = FeeGrowth::from_integer(20);
        tick_lower = Tick {
            index: -20,
            fee_growth_outside_x: FeeGrowth::from_integer(20),
            fee_growth_outside_y: FeeGrowth::from_integer(20),
            ..Default::default()
        };
        tick_upper = Tick {
            index: -10,
            fee_growth_outside_x: FeeGrowth::from_integer(15),
            fee_growth_outside_y: FeeGrowth::from_integer(15),
            ..Default::default()
        };

        let fee_growth_inside = calculate_fee_growth_inside(
            tick_lower,
            tick_upper,
            tick_current,
            fee_growth_global_x,
            fee_growth_global_y,
        );

        assert_eq!(
            fee_growth_inside.0,
            FeeGrowth::new(u128::MAX)
                .unchecked_sub(&FeeGrowth::from_integer(5))
                .unchecked_add(&FeeGrowth::new(1))
        );
        assert_eq!(
            fee_growth_inside.1,
            FeeGrowth::new(u128::MAX)
                .unchecked_sub(&FeeGrowth::from_integer(5))
                .unchecked_add(&FeeGrowth::new(1))
        );
    }
}

#[test]
fn test_calculate_amount_delta() {
    // current tick between lower tick and upper tick
    {
        let mut pool = Pool {
            liquidity: Liquidity::from_integer(0),
            sqrt_price: Price::new(1000140000000_000000000000),
            current_tick_index: 2,
            ..Default::default()
        };

        let liquidity_delta = Liquidity::from_integer(5_000_000);
        let liquidity_sign = true;
        let upper_tick = 3;
        let lower_tick = 0;

        let (x, y) =
            calculate_amount_delta(&mut pool, liquidity_delta, liquidity_sign, upper_tick, lower_tick)
                .unwrap();

        assert_eq!(x, TokenAmount(51));
        assert_eq!(y, TokenAmount(700));
    }
    // current tick smaller than lower tick
    {
        let mut pool = Pool {
            liquidity: Liquidity::from_integer(0),
            current_tick_index: 0,
            ..Default::default()
        };

        let liquidity_delta = Liquidity::from_integer(10);
        let liquidity_sign = true;
        let upper_tick = 4;
        let lower_tick = 2;

        let (x, y) =
            calculate_amount_delta(&mut pool, liquidity_delta, liquidity_sign, upper_tick, lower_tick)
                .unwrap();

        assert_eq!(x, TokenAmount(1));
        assert_eq!(y, TokenAmount(0));
    }
    // current tick greater than upper tick
    {
        let mut pool = Pool {
            liquidity: Liquidity::from_integer(0),
            current_tick_index: 6,
            ..Default::default()
        };

        let liquidity_delta = Liquidity::from_integer(10);
        let liquidity_sign = true;
        let upper_tick = 4;
        let lower_tick = 2;

        let (x, y) =
            calculate_amount_delta(&mut pool, liquidity_delta, liquidity_sign, upper_tick, lower_tick)
                .unwrap();

        assert_eq!(x, TokenAmount(0));
        assert_eq!(y, TokenAmount(1));
    }
}

#[test]
fn test_update_seconds_per_liquidity_global() {
    let mut pool = Pool {
        liquidity: Liquidity::from_integer(1000),
        start_timestamp: 0,
        last_timestamp: 0,
        seconds_per_liquidity_global: FixedPoint::new(0),
        ..Default::default()
    };

    let current_timestamp = 100;
    pool.update_seconds_per_liquidity_global(current_timestamp);
    assert_eq!(pool.seconds_per_liquidity_global.v, 100000000000);
}

#[test]
fn test_calculate_seconds_per_liquidity_inside() {
    let mut tick_lower = Tick {
        index: 0,
        seconds_per_liquidity_outside: FixedPoint::new(3012300000),
        ..Default::default()
    };
    let mut tick_upper = Tick {
        index: 10,
        seconds_per_liquidity_outside: FixedPoint::new(2030400000),
        ..Default::default()
    };
    let mut pool = Pool {
        liquidity: Liquidity::from_integer(1000),
        start_timestamp: 0,
        last_timestamp: 0,
        seconds_per_liquidity_global: FixedPoint::new(0),
        ..Default::default()
    };
    let current_timestamp = 100;

    {
        pool.current_tick_index = -10;
        let seconds_per_liquidity_inside = calculate_seconds_per_liquidity_inside(
            tick_lower,
            tick_upper,
            &mut pool,
            current_timestamp,
        );
        assert_eq!(seconds_per_liquidity_inside.v, 981900000);
    }

    {
        pool.current_tick_index = 0;
        let seconds_per_liquidity_inside = calculate_seconds_per_liquidity_inside(
            tick_lower,
            tick_upper,
            &mut pool,
            current_timestamp,
        );
        assert_eq!(seconds_per_liquidity_inside.v, 94957300000);
    }

    {
        tick_lower.seconds_per_liquidity_outside = FixedPoint::new(2012333200);
        tick_upper.seconds_per_liquidity_outside = FixedPoint::new(3012333310);
        pool.current_tick_index = 20;
        let seconds_per_liquidity_inside = calculate_seconds_per_liquidity_inside(
            tick_lower,
            tick_upper,
            &mut pool,
            current_timestamp,
        );
        assert_eq!(seconds_per_liquidity_inside.v, 1000000110);
    }
}

#[test]
fn test_is_enough_amount_to_push_price() {
    let current_price_sqrt = calculate_price_sqrt(-20);
    let liquidity = Liquidity::new(20006000000000000000);
    let fee = FixedPoint::from_scale(6, 4);

    // -20 crossing tick with 1 token amount by amount in
    {
        let amount = TokenAmount(1);
        let result =
            is_enough_amount_to_push_price(amount, current_price_sqrt, liquidity, fee, true, true);
        assert_eq!(result, false);
    }
    // -20 crossing tick with 1 token amount by amount out
    {
        let amount = TokenAmount(1);
        let result =
            is_enough_amount_to_push_price(amount, current_price_sqrt, liquidity, fee, false, true);
        assert_eq!(result, true);
    }
    // -20 crossing tick with 2 token amount by amount in
    {
        let amount = TokenAmount(2);
        let result =
            is_enough_amount_to_push_price(amount, current_price_sqrt, liquidity, fee, true, true);
        assert_eq!(result, true);
    }
    // should always be enough amount to cross tick when pool liquidity is zero
    {
        let no_liquidity = Liquidity::new(0);
        let amount = TokenAmount(1);
        let result = is_enough_amount_to_push_price(
            amount,
            current_price_sqrt,
            no_liquidity,
            fee,
            true,
            true,
        );
        assert_eq!(result, true);
    }
}

#[test]
fn test_max_liquidity_amount() {
    let liquidity_denominator = U256::from_u128(1000000000000u128);
    let price_denominator = U256::from_u128(1000000000000000000000000u128);
    let max_token_amount: u64 = 10u128.wrapping_pow(64).wrapping_sub(1) as u64;
    let max_sqrt_price = calculate_price_sqrt(MAX_TICK);
    let min_tick_spacing_reachable_max_price = (MAX_TICK + TICK_LIMIT - 1) / TICK_LIMIT;
    let almost_max_sqrt_price = calculate_price_sqrt(MAX_TICK - min_tick_spacing_reachable_max_price);
    let max_u64 = u64::MAX as u128;
    let max_u128 = u128::MAX;

    // position range below current price
    {
        let max_y: TokenAmount = TokenAmount::new(max_token_amount);
        let upper_sqrt_price = calculate_price_sqrt(0);
        let lower_sqrt_price = calculate_price_sqrt(-1);
        let min_price_diff_between_tick = Price::new(upper_sqrt_price.v - lower_sqrt_price.v);

        let max_liquidity = U256::from_u128(max_y.0 as u128)
            .checked_mul(&liquidity_denominator)
            .unwrap()
            .checked_mul(&price_denominator)
            .unwrap()
            .checked_div(&U256::from_u128(min_price_diff_between_tick.v))
            .unwrap();

        assert!(max_liquidity.to_u128().unwrap() > max_u64);
        assert!(max_liquidity.to_u128().unwrap() < max_u128);

        assert_eq!(368962546285911549948015102172360883u128, max_liquidity.to_u128().unwrap());

        let price_product = lower_sqrt_price.big_mul(&upper_sqrt_price);
        let delta_x = max_liquidity
            .checked_mul(&U256::from_u128(min_price_diff_between_tick.v))
            .unwrap()
            .checked_div(&U256::from_u128(price_product.v))
            .unwrap()
            .checked_div(&liquidity_denominator)
            .unwrap();

        assert!(U256::from_u128(u64::MAX as u128).lt(&delta_x));
        assert_eq!(delta_x, U256::from_u128(18447666387868643759u128));
    }
    // position range above current price
    {
        let product = U256::from_u128(max_sqrt_price.v)
            .checked_mul(&U256::from_u128(almost_max_sqrt_price.v))
            .unwrap()
            .checked_mul(&liquidity_denominator)
            .unwrap()
            .checked_div(&price_denominator)
            .unwrap();
        let diff = U256::from_u128(max_sqrt_price.v)
            .checked_sub(&U256::from_u128(almost_max_sqrt_price.v))
            .unwrap();

        let multiplier = product.checked_div(&diff).unwrap();

        let max_liquidity = U256::from_u128(max_token_amount as u128).checked_mul(&multiplier).unwrap();

        assert!(U256::from_u128(u128::MAX).lt(&max_liquidity));
        assert_eq!(max_liquidity, U256::new(0x17, 0xAF16DEB58131B1D350E9214A7ECE4E15));

        let delta_y = max_liquidity
            .checked_mul(&price_denominator)
            .unwrap()
            .checked_div(&diff)
            .unwrap()
            .checked_div(&liquidity_denominator)
            .unwrap();

        assert!(U256::from_u128(u64::MAX as u128).lt(&delta_y));
        assert_eq!(delta_y, U256::from_u128(819937248758720934737797367u128));
    }
}
