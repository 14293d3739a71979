//! One frame of the simulation: every running part updates and queues its effects, then
//! the queue is resolved.
use vstd::prelude::*;
use std::rc::Rc;
use crate::botnet::{botnet_after, botnet_effects, Botnet, BRIBABLE_PARTIES};
use crate::effect::{appended, drain_and_resolve, resolved_all, world_of, Effect, World};
use crate::fixed::ONE;
use crate::market::{market_after, Market, FACTOR_MAX, FACTOR_MIN};
use crate::news::{news_after, news_effects, News};
use crate::parlament::{progressed, vote_effects, vote_round, Parlament};
use crate::state::GameState;

verus! {

/// Why a frame could not be resolved.
#[derive(Clone, Copy, Debug, PartialEq, Eq, Structural)]
pub enum TickError {
    /// The parliament has no law left to vote on.
    NoLawToVote,
    /// A queued effect names a party that does not exist.
    UnknownParty,
}

/// Whether every effect of `effects` names only parties among `party_count`.
pub open spec fn all_valid(effects: Seq<Rc<Effect>>, party_count: int) -> bool {
    forall|i: int| 0 <= i < effects.len() ==> #[trigger] effects[i].valid_for(party_count)
}

/// Tells whether every queued effect names only parties among `party_count`.
pub fn effects_valid(effects: &Vec<Rc<Effect>>, party_count: usize) -> (r: bool)
    ensures
        r == all_valid(effects@, party_count as int),
{
    let mut i: usize = 0;
    while i < effects.len()
        invariant
            i <= effects@.len(),
            forall|j: int| 0 <= j < i ==> #[trigger] effects@[j].valid_for(party_count as int),
        decreases effects@.len() - i,
    {
        if !effects[i].is_valid_for(party_count) {
            return false;
        }
        i = i + 1;
    }
    true
}

/// Names the random choices of one frame, so that a statement about them can be triggered.
pub open spec fn frame_choices(
    bribed_party: usize,
    factor: i64,
    rolls: Seq<i64>,
    after_botnet: Seq<Rc<Effect>>,
    after_parlament: Seq<Rc<Effect>>,
) -> bool {
    true
}

/// Whether `w1` and `q1` are the world and the queue after the update phase of a frame of
/// `dt` nanoseconds from `w0` and `q0`: a shown botnet and a shown market update, the
/// parliament and the news always do, each with some random choice it may make.
pub open spec fn updated(w0: World, q0: Seq<Rc<Effect>>, dt: u64, w1: World, q1: Seq<Rc<Effect>>) -> bool {
    exists|
        bribed_party: usize,
        factor: i64,
        rolls: Seq<i64>,
        after_botnet: Seq<Rc<Effect>>,
        after_parlament: Seq<Rc<Effect>>,
    |
        #[trigger] frame_choices(bribed_party, factor, rolls, after_botnet, after_parlament) && {
            &&& bribed_party < BRIBABLE_PARTIES
            &&& FACTOR_MIN <= factor <= FACTOR_MAX
            &&& rolls.len() == w0.news.available.len()
            &&& forall|i: int| 0 <= i < rolls.len() ==> 0 <= #[trigger] rolls[i] < ONE
            &&& if w0.botnet.show {
                &&& w1.botnet == botnet_after(w0.botnet, dt)
                &&& appended(q0, after_botnet, botnet_effects(w0.botnet, dt, bribed_party))
            } else {
                &&& w1.botnet == w0.botnet
                &&& after_botnet == q0
            }
            &&& w1.market == if w0.market.show {
                market_after(w0.market, dt, factor)
            } else {
                w0.market
            }
            &&& ({
                let p = progressed(w0.parlament, dt);
                if p.voting_progress >= ONE {
                    &&& w1.parlament == vote_round(p)
                    &&& after_parlament == after_botnet + vote_effects(p)
                } else {
                    &&& w1.parlament == p
                    &&& after_parlament == after_botnet
                }
            })
            &&& w1.news == news_after(w0.news, dt, rolls)
            &&& q1 == after_parlament + news_effects(w0.news, dt, rolls)
            &&& w1.state == w0.state
        }
}

/// Runs one frame of `dt` nanoseconds. Without a law to vote on nothing changes. Otherwise
/// every running part updates (see `updated`); then, if every queued effect names only
/// existing parties, the queue is resolved in order and emptied, and else it is left as
/// it is, unresolved.
pub fn tick(
    dt: u64,
    botnet: &mut Botnet,
    market: &mut Market,
    parlament: &mut Parlament,
    news: &mut News,
    game_state: &mut GameState,
    effects: &mut Vec<Rc<Effect>>,
) -> (r: Result<(), TickError>)
    ensures
        ({
            let w0 = world_of(*old(botnet), old(market), old(parlament), old(news), *old(game_state));
            let w2 = world_of(*final(botnet), final(market), final(parlament), final(news), *final(game_state));
            if old(parlament)@.available.len() == 0 {
                &&& r == Err::<(), TickError>(TickError::NoLawToVote)
                &&& w2 == w0
                &&& final(effects)@ == old(effects)@
            } else {
                exists|w1: World, q1: Seq<Rc<Effect>>|
                    #[trigger] updated(w0, old(effects)@, dt, w1, q1) && if all_valid(
                        q1,
                        w1.parlament.parties.len() as int,
                    ) {
                        &&& r == Ok::<(), TickError>(())
                        &&& final(effects)@.len() == 0
                        &&& exists|rolls: Seq<int>|
                            rolls.len() == q1.len() && w2 == resolved_all(q1, w1, rolls)
                    } else {
                        &&& r == Err::<(), TickError>(TickError::UnknownParty)
                        &&& w2 == w1
                        &&& final(effects)@ == q1
                    }
            }
        }),
{
    if parlament.available_laws.len() == 0 {
        return Err(TickError::NoLawToVote);
    }
    let ghost w0 = world_of(*botnet, market, parlament, news, *game_state);
    let ghost q0 = effects@;
    if botnet.show {
        botnet.update(dt, effects);
    }
    let ghost after_botnet = effects@;
    if market.show {
        market.update(dt);
    }
    parlament.update(dt, effects);
    let ghost after_parlament = effects@;
    news.update(dt, effects);
    let ghost w1 = world_of(*botnet, market, parlament, news, *game_state);
    let ghost q1 = effects@;
    proof {
        let bribed_party: usize = if w0.botnet.show {
            choose|b: usize|
                b < BRIBABLE_PARTIES && appended(q0, after_botnet, botnet_effects(w0.botnet, dt, b))
        } else {
            0
        };
        let factor: i64 = if w0.market.show {
            choose|f: i64| FACTOR_MIN <= f <= FACTOR_MAX && w1.market == market_after(w0.market, dt, f)
        } else {
            FACTOR_MIN
        };
        let rolls = choose|rolls: Seq<i64>|
            {
                &&& rolls.len() == w0.news.available.len()
                &&& forall|i: int| 0 <= i < rolls.len() ==> 0 <= #[trigger] rolls[i] < ONE
                &&& w1.news == news_after(w0.news, dt, rolls)
                &&& q1 == after_parlament + news_effects(w0.news, dt, rolls)
            };
        assert(frame_choices(bribed_party, factor, rolls, after_botnet, after_parlament));
        assert(updated(w0, q0, dt, w1, q1));
    }
    if !effects_valid(effects, parlament.parties.len()) {
        return Err(TickError::UnknownParty);
    }
    drain_and_resolve(effects, botnet, market, parlament, news, game_state);
    Ok(())
}

} // verus!
