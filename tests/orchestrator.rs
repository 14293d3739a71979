use evil_inc::botnet::Botnet;
use evil_inc::effect::{Effect, MarketResolution, ModifierType, ParlamentResolution};
use evil_inc::fixed::ONE;
use evil_inc::market::Market;
use evil_inc::news::{Event, News};
use evil_inc::orchestrator::{effects_valid, tick, TickError};
use evil_inc::parlament::{Law, Parlament};
use evil_inc::state::GameState;
use std::rc::Rc;

fn law(effects: Vec<Rc<Effect>>) -> Law {
    Law {
        title: "Gesetz".to_string(),
        description: String::new(),
        required_approval: 0,
        publicity: 0,
        on_self_passed: effects,
        on_law_passed: Vec::new(),
        recurring: true,
    }
}

fn approval(party: usize) -> Rc<Effect> {
    Rc::new(Effect::ParlamentEffect {
        resolution: ParlamentResolution::Approval,
        modifier: ModifierType::Setter,
        value: ONE / 2,
        party,
    })
}

#[test]
fn tick_updates_then_resolves() {
    let mut botnet = Botnet::new();
    botnet.show = true;
    botnet.crypto_mining = ONE;
    let mut market = Market::new();
    let mut parlament = Parlament::new(vec![law(vec![approval(1)])]);
    let mut news = News::new(vec![Event {
        source: "s".to_string(),
        description: "d".to_string(),
        effects: vec![Rc::new(Effect::ChangeState { state: GameState::Won })],
        chance: ONE,
    }]);
    let mut state = GameState::Running;
    let mut effects: Vec<Rc<Effect>> = Vec::new();
    let r = tick(
        10 * ONE as u64,
        &mut botnet,
        &mut market,
        &mut parlament,
        &mut news,
        &mut state,
        &mut effects,
    );
    assert_eq!(r, Ok(()));
    assert!(effects.is_empty());
    assert_eq!(market.money, 250 * ONE + 500_000_000);
    assert_eq!(market.history.len(), 30);
    assert_eq!(market.price, 10 * ONE);
    assert_eq!(parlament.parties[1].approval, ONE / 2);
    assert_eq!(state, GameState::Won);
    assert_eq!(news.current.len(), 1);
}

#[test]
fn tick_without_laws_changes_nothing() {
    let mut botnet = Botnet::new();
    let mut market = Market::new();
    let mut parlament = Parlament::new(Vec::new());
    let mut news = News::new(Vec::new());
    let mut state = GameState::Running;
    let mut effects: Vec<Rc<Effect>> = Vec::new();
    let r = tick(
        ONE as u64,
        &mut botnet,
        &mut market,
        &mut parlament,
        &mut news,
        &mut state,
        &mut effects,
    );
    assert_eq!(r, Err(TickError::NoLawToVote));
    assert_eq!(parlament.voting_progress, 0);
    assert_eq!(news.real_time, 0);
}

#[test]
fn tick_leaves_an_effect_on_a_missing_party_unresolved() {
    let mut botnet = Botnet::new();
    let mut market = Market::new();
    market.show = true;
    let mut parlament = Parlament::new(vec![law(vec![
        Rc::new(Effect::MarketEffect {
            resolution: MarketResolution::Money,
            modifier: ModifierType::Constant,
            value: ONE,
        }),
        approval(9),
    ])]);
    let mut news = News::new(Vec::new());
    let mut state = GameState::Running;
    let mut effects: Vec<Rc<Effect>> = Vec::new();
    let r = tick(
        10 * ONE as u64,
        &mut botnet,
        &mut market,
        &mut parlament,
        &mut news,
        &mut state,
        &mut effects,
    );
    assert_eq!(r, Err(TickError::UnknownParty));
    assert_eq!(effects.len(), 2);
    assert_eq!(market.money, 250 * ONE);
    assert!(!effects_valid(&effects, 4));
    assert!(effects_valid(&effects, 10));
}
