//! Effects: deferred, typed mutations that any part of the simulation may queue and that
//! are resolved, in queue order, against all parts at once.
use vstd::prelude::*;
use std::rc::Rc;
use crate::botnet::Botnet;
use crate::fixed::{
    add_saturating, clamp, clamp_spec, mul_fixed, neg_saturating, saturate, scaled_product,
    sub_saturating, ONE,
};
use crate::market::{Market, MarketView};
use crate::news::{pushed_news, Event, EventView, News, NewsView};
use crate::parlament::{Law, Parlament, ParlamentView, Party, PendingLaw};
use crate::random::{random_below, RANDOM_BOUND_MAX};
use crate::state::GameState;

verus! {

/// Which number of the market an effect changes.
#[derive(Clone, Copy, Debug, Default, PartialEq, Eq, Structural)]
pub enum MarketResolution {
    #[default]
    Money,
    Price,
}

/// Which number of a party an effect changes.
#[derive(Clone, Copy, Debug, Default, PartialEq, Eq, Structural)]
pub enum ParlamentResolution {
    #[default]
    Approval,
    Popularity,
    Transfer,
}

/// How an effect's value combines with the number it changes.
#[derive(Clone, Copy, Debug, Default, PartialEq, Eq, Structural)]
pub enum ModifierType {
    /// v = n
    Setter,
    /// v += n
    #[default]
    Constant,
    /// v *= n
    Multiplier,
}

/// A part of the interface whose visibility an effect can switch.
#[derive(Clone, Copy, Debug, Default, PartialEq, Eq, Structural)]
pub enum ComponentId {
    Botnet,
    BotnetMalware,
    BotnetMemes,
    BotnetBribery,
    #[default]
    Market,
}

/// A deferred mutation of one part of the simulation. Values are in fixed point.
#[allow(inconsistent_fields)]
#[derive(Clone)]
pub enum Effect {
    CreateEvent { source: String, description: String },
    CreateLaw { law: Rc<Law> },
    MarketEffect { resolution: MarketResolution, modifier: ModifierType, value: i64 },
    ParlamentEffect {
        resolution: ParlamentResolution,
        modifier: ModifierType,
        value: i64,
        party: usize,
    },
    ShowComponent { id: ComponentId, show: bool },
    ChangeState { state: GameState },
}

/// Everything that resolving an effect can change, as plain values.
pub ghost struct World {
    pub botnet: Botnet,
    pub market: MarketView,
    pub parlament: ParlamentView,
    pub news: NewsView,
    pub state: GameState,
}

/// The world made of the given parts.
pub open spec fn world_of(
    botnet: Botnet,
    market: &Market,
    parlament: &Parlament,
    news: &News,
    state: GameState,
) -> World {
    World { botnet, market: market@, parlament: parlament@, news: news@, state }
}

/// `dest` after `value` is applied to it with `modifier`.
pub open spec fn modified(modifier: ModifierType, value: i64, dest: i64) -> i64 {
    match modifier {
        ModifierType::Setter => value,
        ModifierType::Constant => saturate(dest + value) as i64,
        ModifierType::Multiplier => saturate(scaled_product(dest as int, value as int)) as i64,
    }
}

/// The party that a transfer from `source` takes popularity from: the roll picks one of the
/// `count - 1` other parties.
pub open spec fn transfer_target(source: int, count: int, roll: int) -> int {
    let r = roll % (count - 1);
    if r < source {
        r
    } else {
        r + 1
    }
}

/// The parties after a parliament effect, where `roll` picks the target of a transfer.
pub open spec fn parties_after(
    resolution: ParlamentResolution,
    modifier: ModifierType,
    value: i64,
    party: int,
    parties: Seq<Party>,
    roll: int,
) -> Seq<Party> {
    match resolution {
        ParlamentResolution::Approval => {
            let p = parties[party];
            let a = clamp_spec(modified(modifier, value, p.approval) as int, 0, ONE as int);
            parties.update(party, Party { approval: a as i64, ..p })
        },
        ParlamentResolution::Popularity => {
            let p = parties[party];
            parties.update(party, Party { popularity: modified(modifier, value, p.popularity), ..p })
        },
        ParlamentResolution::Transfer => {
            if parties.len() > 1 {
                let t = transfer_target(party, parties.len() as int, roll);
                let old_t = parties[t].popularity;
                let new_t = clamp_spec(
                    modified(modifier, saturate(-value) as i64, old_t) as int,
                    0,
                    ONE as int,
                ) as i64;
                let diff = saturate(old_t - new_t) as i64;
                let p = parties[party];
                parties.update(t, Party { popularity: new_t, ..parties[t] }).update(
                    party,
                    Party { popularity: modified(modifier, diff, p.popularity), ..p },
                )
            } else {
                parties
            }
        },
    }
}

/// The world after the effects `es` are resolved in order, starting from `w`; the `i`-th
/// roll picks the target of the `i`-th effect if it is a transfer.
pub open spec fn resolved_all(es: Seq<Rc<Effect>>, w: World, rolls: Seq<int>) -> World
    decreases es.len(),
{
    if es.len() == 0 {
        w
    } else {
        es.last().resolved(resolved_all(es.drop_last(), w, rolls.drop_last()), rolls.last())
    }
}

/// Resolves every queued effect exactly once, in queue order, then empties the queue.
pub fn drain_and_resolve(
    effects: &mut Vec<Rc<Effect>>,
    botnet: &mut Botnet,
    market: &mut Market,
    parlament: &mut Parlament,
    news: &mut News,
    game_state: &mut GameState,
)
    requires
        forall|i: int|
            0 <= i < old(effects)@.len() ==> #[trigger] old(effects)@[i].valid_for(
                old(parlament).parties@.len() as int,
            ),
    ensures
        final(effects)@.len() == 0,
        exists|rolls: Seq<int>|
            rolls.len() == old(effects)@.len() && world_of(
                *final(botnet),
                final(market),
                final(parlament),
                final(news),
                *final(game_state),
            ) == resolved_all(
                old(effects)@,
                world_of(*old(botnet), old(market), old(parlament), old(news), *old(game_state)),
                rolls,
            ),
{
    let ghost w0 = world_of(*botnet, market, parlament, news, *game_state);
    let ghost party_count = parlament.parties@.len();
    let ghost mut rolls: Seq<int> = seq![];
    let n = effects.len();
    let mut i: usize = 0;
    assert(effects@.take(0) =~= seq![]);
    while i < n
        invariant
            n == effects@.len(),
            effects@ == old(effects)@,
            i <= n,
            parlament.parties@.len() == party_count,
            party_count == old(parlament).parties@.len(),
            forall|j: int| 0 <= j < n ==> #[trigger] effects@[j].valid_for(party_count as int),
            rolls.len() == i,
            w0 == world_of(*old(botnet), old(market), old(parlament), old(news), *old(game_state)),
            world_of(*botnet, market, parlament, news, *game_state) == resolved_all(
                effects@.take(i as int),
                w0,
                rolls,
            ),
        decreases n - i,
    {
        let ghost before = world_of(*botnet, market, parlament, news, *game_state);
        let effect: &Effect = &effects[i];
        assert(effect.valid_for(party_count as int));
        effect.resolve(botnet, market, parlament, news, game_state);
        let ghost r = choose|r: int|
            world_of(*botnet, market, parlament, news, *game_state) == effect.resolved(before, r);
        proof {
            let prefix = effects@.take(i as int + 1);
            assert(prefix.drop_last() =~= effects@.take(i as int));
            assert(rolls.push(r).drop_last() =~= rolls);
            rolls = rolls.push(r);
        }
        i = i + 1;
    }
    assert(effects@.take(n as int) =~= effects@);
    effects.clear();
}

/// Whether `after` is `before` with effects equal to `added` appended, in order.
pub open spec fn appended(
    before: Seq<Rc<Effect>>,
    after: Seq<Rc<Effect>>,
    added: Seq<Effect>,
) -> bool {
    &&& after.len() == before.len() + added.len()
    &&& after.take(before.len() as int) == before
    &&& forall|k: int|
        before.len() <= k < after.len() ==> *#[trigger] after[k] == added[k - before.len()]
}

/// Appends a copy of each effect of `more` to `effects`, in order.
pub(crate) fn queue_all(effects: &mut Vec<Rc<Effect>>, more: &Vec<Rc<Effect>>)
    ensures
        final(effects)@ == old(effects)@ + more@,
{
    let mut j: usize = 0;
    while j < more.len()
        invariant
            j <= more@.len(),
            effects@ == old(effects)@ + more@.take(j as int),
        decreases more@.len() - j,
    {
        effects.push(more[j].clone());
        assert(more@.take(j as int + 1) =~= more@.take(j as int).push(more@[j as int]));
        j = j + 1;
    }
    assert(more@.take(more@.len() as int) =~= more@);
}

impl Effect {
    /// Resolves the effect; a transfer takes popularity from a party picked at random among
    /// the parties other than its source.
    pub fn resolve(
        &self,
        botnet: &mut Botnet,
        market: &mut Market,
        parlament: &mut Parlament,
        news: &mut News,
        game_state: &mut GameState,
    )
        requires
            self.valid_for(old(parlament).parties@.len() as int),
        ensures
            final(parlament).parties@.len() == old(parlament).parties@.len(),
            exists|roll: int|
                world_of(*final(botnet), final(market), final(parlament), final(news), *final(game_state))
                    == self.resolved(
                    world_of(*old(botnet), old(market), old(parlament), old(news), *old(game_state)),
                    roll,
                ),
    {
        let count = parlament.parties.len();
        let roll: usize = match self {
            Effect::ParlamentEffect { resolution: ParlamentResolution::Transfer, .. } => {
                if count > 1 {
                    let others = count - 1;
                    random_below(
                        if others > RANDOM_BOUND_MAX {
                            RANDOM_BOUND_MAX
                        } else {
                            others
                        },
                    )
                } else {
                    0
                }
            },
            _ => 0,
        };
        self.resolve_with_roll(botnet, market, parlament, news, game_state, roll);
    }

    /// Tells whether the effect can be resolved against a parliament of `party_count` parties.
    pub fn is_valid_for(&self, party_count: usize) -> (r: bool)
        ensures
            r == self.valid_for(party_count as int),
    {
        match self {
            Effect::ParlamentEffect { resolution, party, .. } => match resolution {
                ParlamentResolution::Transfer => party_count <= 1 || *party < party_count,
                _ => *party < party_count,
            },
            _ => true,
        }
    }

    /// Whether the effect can be resolved against a parliament of `party_count` parties:
    /// a party it names must exist.
    pub open spec fn valid_for(&self, party_count: int) -> bool {
        match self {
            Effect::ParlamentEffect { resolution, party, .. } => match resolution {
                ParlamentResolution::Transfer => party_count <= 1 || party < party_count,
                _ => party < party_count,
            },
            _ => true,
        }
    }

    /// The world after this effect is resolved in `w`, where `roll` picks the target of a transfer.
    pub open spec fn resolved(&self, w: World, roll: int) -> World {
        match self {
            Effect::CreateEvent { source, description } => {
                let e = EventView {
                    source: source@,
                    description: description@,
                    effects: seq![],
                    chance: 0,
                };
                World { news: NewsView { current: pushed_news(w.news.current, e), ..w.news }, ..w }
            },
            Effect::CreateLaw { law } => World {
                parlament: ParlamentView {
                    available: w.parlament.available.push(
                        PendingLaw { law: *law, publicity: law.publicity },
                    ),
                    ..w.parlament
                },
                ..w
            },
            Effect::MarketEffect { resolution, modifier, value } => match resolution {
                MarketResolution::Money => World {
                    market: MarketView {
                        money: modified(*modifier, *value, w.market.money),
                        ..w.market
                    },
                    ..w
                },
                MarketResolution::Price => World {
                    market: MarketView {
                        price: modified(*modifier, *value, w.market.price),
                        ..w.market
                    },
                    ..w
                },
            },
            Effect::ParlamentEffect { resolution, modifier, value, party } => World {
                parlament: ParlamentView {
                    parties: parties_after(
                        *resolution,
                        *modifier,
                        *value,
                        *party as int,
                        w.parlament.parties,
                        roll,
                    ),
                    ..w.parlament
                },
                ..w
            },
            Effect::ShowComponent { id, show } => match id {
                ComponentId::Botnet => World { botnet: Botnet { show: *show, ..w.botnet }, ..w },
                ComponentId::BotnetBribery => World {
                    botnet: Botnet { show_bribery: *show, ..w.botnet },
                    ..w
                },
                ComponentId::BotnetMalware => World {
                    botnet: Botnet { show_malware: *show, ..w.botnet },
                    ..w
                },
                ComponentId::BotnetMemes => World {
                    botnet: Botnet { show_memes: *show, ..w.botnet },
                    ..w
                },
                ComponentId::Market => World {
                    market: MarketView { show: *show, ..w.market },
                    ..w
                },
            },
            Effect::ChangeState { state } => World { state: *state, ..w },
        }
    }

    /// Resolves the effect, with `roll` picking the target party of a transfer among the
    /// parties other than the source.
    pub fn resolve_with_roll(
        &self,
        botnet: &mut Botnet,
        market: &mut Market,
        parlament: &mut Parlament,
        news: &mut News,
        game_state: &mut GameState,
        roll: usize,
    )
        requires
            self.valid_for(old(parlament).parties@.len() as int),
        ensures
            world_of(*final(botnet), final(market), final(parlament), final(news), *final(game_state))
                == self.resolved(
                world_of(*old(botnet), old(market), old(parlament), old(news), *old(game_state)),
                roll as int,
            ),
    {
        match self {
            Effect::CreateEvent { source, description } => {
                news.add_event(Event::new(source.clone(), description.clone()));
            },
            Effect::CreateLaw { law } => {
                let publicity = law.publicity;
                parlament.available_laws.push_back(PendingLaw { law: law.clone(), publicity });
            },
            Effect::MarketEffect { resolution, modifier, value } => {
                match resolution {
                    MarketResolution::Money => {
                        Self::resolve_modifier(modifier, *value, &mut market.money);
                    },
                    MarketResolution::Price => {
                        Self::resolve_modifier(modifier, *value, &mut market.price);
                    },
                }
            },
            Effect::ParlamentEffect { resolution, modifier, value, party } => {
                let ghost parties0 = parlament.parties@;
                match resolution {
                    ParlamentResolution::Approval => {
                        let mut p = parlament.parties[*party];
                        Self::resolve_modifier(modifier, *value, &mut p.approval);
                        p.approval = clamp(p.approval, 0, ONE);
                        parlament.parties[*party] = p;
                    },
                    ParlamentResolution::Popularity => {
                        let mut p = parlament.parties[*party];
                        Self::resolve_modifier(modifier, *value, &mut p.popularity);
                        parlament.parties[*party] = p;
                    },
                    ParlamentResolution::Transfer => {
                        let count = parlament.parties.len();
                        if count > 1 {
                            let r = roll % (count - 1);
                            let t = if r < *party {
                                r
                            } else {
                                r + 1
                            };
                            let mut target = parlament.parties[t];
                            let old_value = target.popularity;
                            Self::resolve_modifier(
                                modifier,
                                neg_saturating(*value),
                                &mut target.popularity,
                            );
                            target.popularity = clamp(target.popularity, 0, ONE);
                            let diff = sub_saturating(old_value, target.popularity);
                            parlament.parties[t] = target;
                            let mut source = parlament.parties[*party];
                            Self::resolve_modifier(modifier, diff, &mut source.popularity);
                            parlament.parties[*party] = source;
                        }
                    },
                }
                assert(parlament.parties@ =~= parties_after(
                    *resolution,
                    *modifier,
                    *value,
                    *party as int,
                    parties0,
                    roll as int,
                ));
            },
            Effect::ShowComponent { id, show } => {
                match id {
                    ComponentId::Botnet => botnet.show = *show,
                    ComponentId::BotnetBribery => botnet.show_bribery = *show,
                    ComponentId::BotnetMalware => botnet.show_malware = *show,
                    ComponentId::BotnetMemes => botnet.show_memes = *show,
                    ComponentId::Market => market.show = *show,
                }
            },
            Effect::ChangeState { state } => {
                *game_state = *state;
            },
        }
    }

    /// Applies `value` to `destination` with `modifier`: a setter stores it, a constant adds
    /// it and a multiplier multiplies by it (in fixed point), saturating at the bounds of `i64`.
    pub fn resolve_modifier(modifier: &ModifierType, value: i64, destination: &mut i64)
        ensures
            *final(destination) == modified(*modifier, value, *old(destination)),
    {
        match modifier {
            ModifierType::Setter => *destination = value,
            ModifierType::Constant => *destination = add_saturating(*destination, value),
            ModifierType::Multiplier => *destination = mul_fixed(*destination, value),
        }
    }
}


/// Setting stores the value; adding gives `x + v` and multiplying gives `x * v` in fixed
/// point (rounded toward zero), wherever the result fits in an `i64`.
pub proof fn lemma_modifier_laws(x: i64, v: i64)
    ensures
        modified(ModifierType::Setter, v, x) == v,
        i64::MIN <= x + v <= i64::MAX ==> modified(ModifierType::Constant, v, x) == x + v,
        i64::MIN <= scaled_product(x as int, v as int) <= i64::MAX ==> modified(
            ModifierType::Multiplier,
            v,
            x,
        ) == scaled_product(x as int, v as int),
{
}

/// Whether every party's approval lies in `[0, ONE]`.
pub open spec fn approvals_in_range(parties: Seq<Party>) -> bool {
    forall|i: int| 0 <= i < parties.len() ==> 0 <= #[trigger] parties[i].approval <= ONE
}

proof fn lemma_resolved_keeps_approvals(e: Rc<Effect>, w: World, roll: int)
    requires
        e.valid_for(w.parlament.parties.len() as int),
        approvals_in_range(w.parlament.parties),
    ensures
        e.resolved(w, roll).parlament.parties.len() == w.parlament.parties.len(),
        approvals_in_range(e.resolved(w, roll).parlament.parties),
{
    let w2 = e.resolved(w, roll);
    if let Effect::ParlamentEffect { resolution, modifier, value, party } = *e {
        let ps = w.parlament.parties;
        let ps2 = w2.parlament.parties;
        assert forall|i: int| 0 <= i < ps2.len() implies 0 <= #[trigger] ps2[i].approval <= ONE by {
            assert(0 <= ps[i].approval <= ONE);
        }
    }
}

/// Once every party's approval lies in `[0, ONE]`, it stays there whatever effects are
/// resolved, in whatever order and with whatever rolls: an approval effect clamps the
/// approval it changes, and no other effect touches approval.
pub proof fn lemma_approval_clamp(es: Seq<Rc<Effect>>, w: World, rolls: Seq<int>)
    requires
        forall|i: int|
            0 <= i < es.len() ==> #[trigger] es[i].valid_for(w.parlament.parties.len() as int),
        approvals_in_range(w.parlament.parties),
    ensures
        resolved_all(es, w, rolls).parlament.parties.len() == w.parlament.parties.len(),
        approvals_in_range(resolved_all(es, w, rolls).parlament.parties),
    decreases es.len(),
{
    if es.len() > 0 {
        let rest = es.drop_last();
        assert forall|i: int|
            0 <= i < rest.len() implies #[trigger] rest[i].valid_for(
            w.parlament.parties.len() as int,
        ) by {
            assert(rest[i] == es[i]);
        }
        lemma_approval_clamp(rest, w, rolls.drop_last());
        let before = resolved_all(rest, w, rolls.drop_last());
        assert(es[es.len() - 1].valid_for(w.parlament.parties.len() as int));
        lemma_resolved_keeps_approvals(es.last(), before, rolls.last());
    }
}

/// In a parliament of two parties whose popularities lie in `[0, ONE]`, a transfer of `v`
/// (added as a constant) toward party `source` takes from the other party, whose popularity
/// drops by `v` but stays within `[0, ONE]`; the source gains exactly what the other party
/// actually lost, not the requested `v`.
pub proof fn lemma_transfer_two_parties(w: World, source: usize, v: i64, roll: int)
    requires
        w.parlament.parties.len() == 2,
        source < 2,
        forall|i: int|
            0 <= i < 2 ==> 0 <= #[trigger] w.parlament.parties[i].popularity <= ONE,
    ensures
        ({
            let e = Effect::ParlamentEffect {
                resolution: ParlamentResolution::Transfer,
                modifier: ModifierType::Constant,
                value: v,
                party: source,
            };
            let before = w.parlament.parties;
            let after = e.resolved(w, roll).parlament.parties;
            let target = 1 - source;
            &&& after.len() == 2
            &&& after[target].popularity == clamp_spec(
                before[target].popularity - v,
                0,
                ONE as int,
            )
            &&& after[source as int].popularity - before[source as int].popularity
                == before[target].popularity - after[target].popularity
            &&& after[target].approval == before[target].approval
            &&& after[source as int].approval == before[source as int].approval
        }),
{
    let before = w.parlament.parties;
    assert(0 <= before[0].popularity <= ONE);
    assert(0 <= before[1].popularity <= ONE);
    assert(transfer_target(source as int, 2, roll) == 1 - source) by {
        assert(roll % 1 == 0);
    }
}

} // verus!
