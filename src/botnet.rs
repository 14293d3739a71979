//! The botnet: a capacity shared out among four demands.
use vstd::prelude::*;
use std::rc::Rc;
use crate::effect::{
    appended, Effect, MarketResolution, ModifierType, ParlamentResolution,
};
use crate::fixed::{
    add_saturating, div_trunc, div_trunc_i128, lemma_product_bound, limit, limited, mul_fixed,
    saturate, saturate_i128, scaled_product, MAX_FRAME, ONE,
};
use crate::random::random_below;

verus! {

/// Capacity gained per second from malware's full share (0.001).
pub const MALWARE_RATE: i64 = 1_000_000;

/// Popularity moved per second by memes' full share (0.00008).
pub const MEMES_RATE: i64 = 80_000;

/// Money mined per second by crypto mining's full share (0.1).
pub const MINING_RATE: i64 = 100_000_000;

/// Approval bought per second by bribery's full share (0.0001).
pub const BRIBERY_RATE: i64 = 100_000;

/// The party that memes promote.
pub const MEME_PARTY: usize = 3;

/// How many parties bribery may target: every party before the meme party.
pub const BRIBABLE_PARTIES: usize = 3;

/// The botnet. Capacity and the four demands are in fixed point.
#[derive(Clone, Copy, Debug, PartialEq, Eq, Structural)]
pub struct Botnet {
    pub capacity: i64,
    pub malware: i64,
    pub memes: i64,
    pub crypto_mining: i64,
    pub bribery: i64,
    pub show: bool,
    pub show_malware: bool,
    pub show_memes: bool,
    pub show_bribery: bool,
}


/// The sum of the four demands.
pub open spec fn usage_total(b: Botnet) -> int {
    b.malware + b.memes + b.crypto_mining + b.bribery
}

/// What one demand yields in a tick of `dt` nanoseconds: its share of the capacity
/// (`demand * capacity / total`), times the channel's rate, times the limited frame time.
pub open spec fn channel_amount(b: Botnet, demand: i64, rate: i64, dt: u64) -> i64 {
    let share = saturate(div_trunc(demand * b.capacity, usage_total(b))) as i64;
    let per_second = saturate(scaled_product(share as int, rate as int)) as i64;
    saturate(scaled_product(per_second as int, limited(dt) as int)) as i64
}

/// Whether a demand takes part in a tick: it is positive, and so is the total.
pub open spec fn active(b: Botnet, demand: i64) -> bool {
    usage_total(b) > 0 && demand > 0
}

/// The botnet after a tick: malware grows the capacity.
pub open spec fn botnet_after(b: Botnet, dt: u64) -> Botnet {
    if active(b, b.malware) {
        Botnet {
            capacity: saturate(b.capacity + channel_amount(b, b.malware, MALWARE_RATE, dt)) as i64,
            ..b
        }
    } else {
        b
    }
}

/// The effects that a tick queues: memes move popularity to the meme party, crypto mining
/// earns money, and bribery buys approval from `bribed_party`.
pub open spec fn botnet_effects(b: Botnet, dt: u64, bribed_party: usize) -> Seq<Effect> {
    let memes = if active(b, b.memes) {
        seq![
            Effect::ParlamentEffect {
                resolution: ParlamentResolution::Transfer,
                modifier: ModifierType::Constant,
                value: channel_amount(b, b.memes, MEMES_RATE, dt),
                party: MEME_PARTY,
            },
        ]
    } else {
        seq![]
    };
    let mining = if active(b, b.crypto_mining) {
        seq![
            Effect::MarketEffect {
                resolution: MarketResolution::Money,
                modifier: ModifierType::Constant,
                value: channel_amount(b, b.crypto_mining, MINING_RATE, dt),
            },
        ]
    } else {
        seq![]
    };
    let bribery = if active(b, b.bribery) {
        seq![
            Effect::ParlamentEffect {
                resolution: ParlamentResolution::Approval,
                modifier: ModifierType::Constant,
                value: channel_amount(b, b.bribery, BRIBERY_RATE, dt),
                party: bribed_party,
            },
        ]
    } else {
        seq![]
    };
    memes + mining + bribery
}

impl Botnet {
    /// A botnet of capacity one, with every demand at zero and every part hidden.
    pub fn new() -> (r: Botnet)
        ensures
            r == (Botnet {
                capacity: ONE,
                malware: 0,
                memes: 0,
                crypto_mining: 0,
                bribery: 0,
                show: false,
                show_malware: false,
                show_memes: false,
                show_bribery: false,
            }),
    {
        Botnet {
            capacity: ONE,
            malware: 0,
            memes: 0,
            crypto_mining: 0,
            bribery: 0,
            show: false,
            show_malware: false,
            show_memes: false,
            show_bribery: false,
        }
    }

    /// Sending spam mail recruits one more bot.
    pub fn send_spam_mail(&mut self)
        ensures
            *final(self) == (Botnet { capacity: saturate(old(self).capacity + ONE) as i64, ..*old(self) }),
    {
        self.capacity = add_saturating(self.capacity, ONE);
    }

    fn channel(&self, demand: i64, total: i128, rate: i64, dt: i64) -> (r: i64)
        requires
            total > 0,
            total == usage_total(*self),
            0 <= dt <= MAX_FRAME,
        ensures
            r == channel_amount(*self, demand, rate, dt as u64),
    {
        proof {
            lemma_product_bound(demand, self.capacity);
        }
        let product: i128 = demand as i128 * self.capacity as i128;
        let share = saturate_i128(div_trunc_i128(product, total));
        mul_fixed(mul_fixed(share, rate), dt)
    }

    /// Runs one tick of `dt` nanoseconds; bribery targets a party picked at random among
    /// those before the meme party.
    pub fn update(&mut self, dt: u64, effects: &mut Vec<Rc<Effect>>)
        ensures
            *final(self) == botnet_after(*old(self), dt),
            exists|bribed_party: usize|
                bribed_party < BRIBABLE_PARTIES && appended(
                    old(effects)@,
                    final(effects)@,
                    botnet_effects(*old(self), dt, bribed_party),
                ),
    {
        let bribed_party = random_below(BRIBABLE_PARTIES);
        self.update_with_party(dt, bribed_party, effects);
    }

    /// Runs one tick of `dt` nanoseconds, with bribery targeting `bribed_party`.
    pub fn update_with_party(&mut self, dt: u64, bribed_party: usize, effects: &mut Vec<Rc<Effect>>)
        ensures
            *final(self) == botnet_after(*old(self), dt),
            appended(old(effects)@, final(effects)@, botnet_effects(*old(self), dt, bribed_party)),
    {
        let b = *self;
        let total: i128 = b.malware as i128 + b.memes as i128 + b.crypto_mining as i128
            + b.bribery as i128;
        let ghost before = effects@;
        assert(before.take(before.len() as int) =~= before);
        if total <= 0 {
            assert(botnet_effects(b, dt, bribed_party) =~= seq![]);
            return;
        }
        let frame = limit(dt, MAX_FRAME) as i64;
        if b.malware > 0 {
            let grown = b.channel(b.malware, total, MALWARE_RATE, frame);
            self.capacity = add_saturating(b.capacity, grown);
        }
        let ghost mut added: Seq<Effect> = seq![];
        if b.memes > 0 {
            let e = Effect::ParlamentEffect {
                resolution: ParlamentResolution::Transfer,
                modifier: ModifierType::Constant,
                value: b.channel(b.memes, total, MEMES_RATE, frame),
                party: MEME_PARTY,
            };
            proof {
                added = added.push(e);
            }
            effects.push(Rc::new(e));
        }
        if b.crypto_mining > 0 {
            let e = Effect::MarketEffect {
                resolution: MarketResolution::Money,
                modifier: ModifierType::Constant,
                value: b.channel(b.crypto_mining, total, MINING_RATE, frame),
            };
            proof {
                added = added.push(e);
            }
            effects.push(Rc::new(e));
        }
        if b.bribery > 0 {
            let e = Effect::ParlamentEffect {
                resolution: ParlamentResolution::Approval,
                modifier: ModifierType::Constant,
                value: b.channel(b.bribery, total, BRIBERY_RATE, frame),
                party: bribed_party,
            };
            proof {
                added = added.push(e);
            }
            effects.push(Rc::new(e));
        }
        assert(added =~= botnet_effects(b, dt, bribed_party));
        assert(effects@.take(before.len() as int) =~= before);
    }
}

} // verus!
