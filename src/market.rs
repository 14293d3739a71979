//! The stock market: a price that walks at random, and income paid from it.
use vstd::prelude::*;
use std::collections::VecDeque;
use crate::fixed::{
    add_saturating, limit, limited, mul_fixed, saturate, scaled_product, MAX_FRAME, ONE,
};
use crate::random::random_below;

verus! {

/// The smallest factor that one trade multiplies the price by (0.96).
pub const FACTOR_MIN: i64 = 960_000_000;

/// The largest factor that one trade multiplies the price by (1.05).
pub const FACTOR_MAX: i64 = 1_050_000_000;

/// The steps between two drawable factors.
pub const FACTOR_STEP: i64 = 1_000;

/// Time between two trades (one second).
pub const TRADING_INTERVAL: i64 = ONE;

/// Time that income waits for (24 seconds).
pub const INCOME_INTERVAL: i64 = 24_000_000_000;

/// Time taken off the income timer after a payment (50 seconds).
pub const INCOME_COOLDOWN: i64 = 50_000_000_000;

/// The part of the price paid as income (0.1).
pub const INCOME_SHARE: i64 = 100_000_000;

/// The market. Money, price and timers are in fixed point.
pub struct Market {
    pub money: i64,
    pub price: i64,
    pub trading_time: i64,
    pub income_time: i64,
    /// Past prices, the oldest first.
    pub history: VecDeque<i64>,
    pub show: bool,
}

/// What a market holds, as plain values.
pub ghost struct MarketView {
    pub money: i64,
    pub price: i64,
    pub trading_time: i64,
    pub income_time: i64,
    pub history: Seq<i64>,
    pub show: bool,
}

impl View for Market {
    type V = MarketView;

    open spec fn view(&self) -> MarketView {
        MarketView {
            money: self.money,
            price: self.price,
            trading_time: self.trading_time,
            income_time: self.income_time,
            history: self.history@,
            show: self.show,
        }
    }
}


/// The ten prices that the starting history repeats.
pub open spec fn history_pattern() -> Seq<i64> {
    seq![
        9_000_000_000i64,
        9_200_000_000,
        8_900_000_000,
        8_800_000_000,
        9_100_000_000,
        9_200_000_000,
        9_400_000_000,
        9_600_000_000,
        9_800_000_000,
        10_000_000_000,
    ]
}

/// The market after a tick of `dt` nanoseconds, where `factor` is what a trade multiplies the
/// price by. A trade is due once a second has gathered: the price joins the history, the
/// oldest price leaves it, the price is multiplied and a second is taken off the trading
/// timer. Income is due after 24 seconds: a tenth of the (new) price is paid and 50 seconds
/// are taken off the income timer.
pub open spec fn market_after(m: MarketView, dt: u64, factor: i64) -> MarketView {
    let step = limited(dt) as int;
    let trading = saturate(m.trading_time + step);
    let income = saturate(m.income_time + step);
    let traded = trading >= TRADING_INTERVAL;
    let price = if traded {
        saturate(scaled_product(m.price as int, factor as int)) as i64
    } else {
        m.price
    };
    let paid = income >= INCOME_INTERVAL;
    MarketView {
        money: if paid {
            saturate(m.money + saturate(scaled_product(price as int, INCOME_SHARE as int))) as i64
        } else {
            m.money
        },
        price,
        trading_time: if traded {
            (trading - TRADING_INTERVAL) as i64
        } else {
            trading as i64
        },
        income_time: if paid {
            (income - INCOME_COOLDOWN) as i64
        } else {
            income as i64
        },
        history: if traded {
            m.history.push(m.price).drop_first()
        } else {
            m.history
        },
        show: m.show,
    }
}

impl Market {
    /// A hidden market with 250 in money, a price of 10 and a history of thirty past prices.
    pub fn new() -> (r: Market)
        ensures
            r@ == (MarketView {
                money: 250_000_000_000,
                price: 10_000_000_000,
                trading_time: 0,
                income_time: 0,
                history: history_pattern() + history_pattern() + history_pattern(),
                show: false,
            }),
    {
        let pattern: [i64; 10] = [
            9_000_000_000,
            9_200_000_000,
            8_900_000_000,
            8_800_000_000,
            9_100_000_000,
            9_200_000_000,
            9_400_000_000,
            9_600_000_000,
            9_800_000_000,
            10_000_000_000,
        ];
        assert(pattern@ =~= history_pattern());
        let mut history: VecDeque<i64> = VecDeque::new();
        let mut round: usize = 0;
        while round < 3
            invariant
                round <= 3,
                pattern@ == history_pattern(),
                history@ == if round == 0 {
                    seq![]
                } else if round == 1 {
                    history_pattern()
                } else if round == 2 {
                    history_pattern() + history_pattern()
                } else {
                    history_pattern() + history_pattern() + history_pattern()
                },
            decreases 3 - round,
        {
            let ghost start = history@;
            let mut j: usize = 0;
            while j < 10
                invariant
                    j <= 10,
                    pattern@ == history_pattern(),
                    history@ == start + history_pattern().take(j as int),
                decreases 10 - j,
            {
                history.push_back(pattern[j]);
                assert(history_pattern().take(j as int + 1) =~= history_pattern().take(j as int).push(
                    pattern@[j as int],
                ));
                j = j + 1;
            }
            assert(history_pattern().take(10) =~= history_pattern());
            assert(seq![] + history_pattern() =~= history_pattern());
            round = round + 1;
        }
        Market {
            money: 250_000_000_000,
            price: 10_000_000_000,
            trading_time: 0,
            income_time: 0,
            history,
            show: false,
        }
    }

    /// Runs one tick of `dt` nanoseconds; a trade multiplies the price by a factor drawn at
    /// random in `[FACTOR_MIN, FACTOR_MAX]`.
    pub fn update(&mut self, dt: u64)
        ensures
            exists|factor: i64|
                FACTOR_MIN <= factor <= FACTOR_MAX && final(self)@ == market_after(
                    old(self)@,
                    dt,
                    factor,
                ),
    {
        let steps = random_below(((FACTOR_MAX - FACTOR_MIN) / FACTOR_STEP + 1) as usize);
        let factor = FACTOR_MIN + (steps as i64) * FACTOR_STEP;
        self.update_with_factor(dt, factor);
    }

    /// Runs one tick of `dt` nanoseconds, where a trade multiplies the price by `factor`.
    pub fn update_with_factor(&mut self, dt: u64, factor: i64)
        ensures
            final(self)@ == market_after(old(self)@, dt, factor),
    {
        let step = limit(dt, MAX_FRAME) as i64;
        self.trading_time = add_saturating(self.trading_time, step);
        self.income_time = add_saturating(self.income_time, step);
        if self.trading_time >= TRADING_INTERVAL {
            self.history.push_back(self.price);
            self.price = mul_fixed(self.price, factor);
            let _ = self.history.pop_front();
            self.trading_time = self.trading_time - TRADING_INTERVAL;
        }
        if self.income_time >= INCOME_INTERVAL {
            self.money = add_saturating(self.money, mul_fixed(self.price, INCOME_SHARE));
            self.income_time = self.income_time - INCOME_COOLDOWN;
        }
        assert(self@ =~= market_after(old(self)@, dt, factor));
    }
}

} // verus!
