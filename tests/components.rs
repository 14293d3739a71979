use evil_inc::botnet::{Botnet, MEME_PARTY};
use evil_inc::effect::{Effect, MarketResolution, ModifierType, ParlamentResolution};
use evil_inc::fixed::{limit, ONE};
use evil_inc::market::{Market, FACTOR_MAX, FACTOR_MIN};
use evil_inc::news::{Event, News, NEWS_CAPACITY};
use std::rc::Rc;

fn event(description: &str, chance: i64, effects: Vec<Rc<Effect>>) -> Event {
    Event { source: "Quelle".to_string(), description: description.to_string(), effects, chance }
}

fn money_effect(value: i64) -> Rc<Effect> {
    Rc::new(Effect::MarketEffect {
        resolution: MarketResolution::Money,
        modifier: ModifierType::Constant,
        value,
    })
}

#[test]
fn limit_caps_frame_time() {
    assert_eq!(limit(7 * ONE as u64, 5 * ONE as u64), 5 * ONE as u64);
    assert_eq!(limit(3, 5), 3);
}

#[test]
fn market_starts_with_thirty_prices() {
    let m = Market::new();
    assert_eq!(m.money, 250 * ONE);
    assert_eq!(m.price, 10 * ONE);
    assert_eq!(m.history.len(), 30);
    assert_eq!(m.history[0], 9 * ONE);
    assert_eq!(m.history[29], 10 * ONE);
    assert!(!m.show);
}

#[test]
fn market_trade_keeps_history_length_and_bounds_price() {
    let mut m = Market::new();
    m.update(ONE as u64);
    assert_eq!(m.history.len(), 30);
    assert_eq!(m.history[29], 10 * ONE);
    assert_eq!(m.history[0], 9_200_000_000);
    assert!(m.price >= 9_600_000_000 && m.price <= 10_500_000_000);
    assert_eq!(m.trading_time, 0);
}

#[test]
fn market_trade_with_given_factor() {
    let mut m = Market::new();
    m.update_with_factor(1_500_000_000, FACTOR_MIN);
    assert_eq!(m.price, 9_600_000_000);
    assert_eq!(m.trading_time, 500_000_000);
    m.update_with_factor(ONE as u64, FACTOR_MAX);
    assert_eq!(m.price, 10_080_000_000);
    assert_eq!(m.trading_time, 500_000_000);
    assert_eq!(m.history[29], 9_600_000_000);
}

#[test]
fn market_without_a_full_second_does_not_trade() {
    let mut m = Market::new();
    m.update_with_factor(ONE as u64 / 2, FACTOR_MAX);
    assert_eq!(m.price, 10 * ONE);
    assert_eq!(m.trading_time, ONE / 2);
    assert_eq!(m.income_time, ONE / 2);
}

#[test]
fn market_frame_time_is_limited_to_five_seconds() {
    let mut m = Market::new();
    m.update_with_factor(60 * ONE as u64, ONE);
    assert_eq!(m.trading_time, 4 * ONE);
    assert_eq!(m.income_time, 5 * ONE);
    assert_eq!(m.history.len(), 30);
}

#[test]
fn market_pays_income_and_keeps_cooldown() {
    let mut m = Market::new();
    for _ in 0..4 {
        m.update_with_factor(5 * ONE as u64, ONE);
    }
    assert_eq!(m.money, 250 * ONE);
    m.update_with_factor(4 * ONE as u64, ONE);
    assert_eq!(m.income_time, -26 * ONE);
    assert_eq!(m.money, 251 * ONE);
}

#[test]
fn botnet_malware_and_memes_scenario() {
    let mut b = Botnet::new();
    b.malware = ONE / 2;
    b.memes = ONE / 2;
    let mut effects: Vec<Rc<Effect>> = Vec::new();
    b.update(ONE as u64, &mut effects);
    assert_eq!(effects.len(), 1);
    match &*effects[0] {
        Effect::ParlamentEffect { resolution, modifier, value, party } => {
            assert_eq!(*resolution, ParlamentResolution::Transfer);
            assert_eq!(*modifier, ModifierType::Constant);
            assert_eq!(*party, MEME_PARTY);
            assert_eq!(*party, 3);
            assert_eq!(*value, 40_000);
        }
        _ => panic!("expected a parliament effect"),
    }
    assert_eq!(b.capacity, ONE + 500_000);
    assert!(!effects.iter().any(|e| matches!(&**e, Effect::MarketEffect { .. })));
}

#[test]
fn botnet_without_demand_does_nothing() {
    let mut b = Botnet::new();
    let mut effects: Vec<Rc<Effect>> = Vec::new();
    b.update(ONE as u64, &mut effects);
    assert!(effects.is_empty());
    assert_eq!(b.capacity, ONE);
}

#[test]
fn botnet_channels_share_one_total() {
    let mut b = Botnet::new();
    b.capacity = 2 * ONE;
    b.crypto_mining = ONE;
    b.bribery = ONE;
    let mut effects: Vec<Rc<Effect>> = Vec::new();
    b.update_with_party(2 * ONE as u64, 1, &mut effects);
    assert_eq!(effects.len(), 2);
    match &*effects[0] {
        Effect::MarketEffect { resolution, value, .. } => {
            assert_eq!(*resolution, MarketResolution::Money);
            assert_eq!(*value, 200_000_000);
        }
        _ => panic!("expected a market effect"),
    }
    match &*effects[1] {
        Effect::ParlamentEffect { resolution, value, party, .. } => {
            assert_eq!(*resolution, ParlamentResolution::Approval);
            assert_eq!(*value, 200_000);
            assert_eq!(*party, 1);
        }
        _ => panic!("expected a parliament effect"),
    }
    assert_eq!(b.capacity, 2 * ONE);
}

#[test]
fn botnet_bribery_targets_a_party_before_the_meme_party() {
    for _ in 0..50 {
        let mut b = Botnet::new();
        b.bribery = ONE;
        let mut effects: Vec<Rc<Effect>> = Vec::new();
        b.update(ONE as u64, &mut effects);
        assert_eq!(effects.len(), 1);
        match &*effects[0] {
            Effect::ParlamentEffect { party, .. } => assert!(*party < 3),
            _ => panic!("expected a parliament effect"),
        }
    }
}

#[test]
fn spam_mail_adds_a_bot() {
    let mut b = Botnet::new();
    b.send_spam_mail();
    assert_eq!(b.capacity, 2 * ONE);
}

#[test]
fn certain_event_fires_once() {
    let mut news = News::new(vec![event("sure", ONE, vec![money_effect(5)])]);
    let mut effects: Vec<Rc<Effect>> = Vec::new();
    news.update(ONE as u64, &mut effects);
    assert!(news.available.is_empty());
    assert_eq!(news.current.len(), 1);
    assert_eq!(news.current[0].description, "sure");
    assert_eq!(effects.len(), 1);
    news.update(ONE as u64, &mut effects);
    assert_eq!(effects.len(), 1);
    assert_eq!(news.current.len(), 1);
}

#[test]
fn impossible_event_never_fires() {
    let mut news = News::new(vec![event("never", 0, vec![money_effect(5)])]);
    let mut effects: Vec<Rc<Effect>> = Vec::new();
    for _ in 0..20 {
        news.update(ONE as u64, &mut effects);
    }
    assert_eq!(news.available.len(), 1);
    assert!(news.current.is_empty());
    assert!(effects.is_empty());
}

#[test]
fn news_waits_for_a_full_second() {
    let mut news = News::new(vec![event("sure", ONE, Vec::new())]);
    let mut effects: Vec<Rc<Effect>> = Vec::new();
    news.update(ONE as u64 / 2, &mut effects);
    assert_eq!(news.available.len(), 1);
    assert_eq!(news.real_time, ONE / 2);
    news.update(ONE as u64 * 3 / 4, &mut effects);
    assert!(news.available.is_empty());
    assert_eq!(news.real_time, ONE / 4);
}

#[test]
fn rolls_decide_which_events_fire() {
    let mut news = News::new(vec![
        event("a", ONE / 2, vec![money_effect(1)]),
        event("b", ONE / 2, vec![money_effect(2), money_effect(3)]),
        event("c", ONE / 2, vec![money_effect(4)]),
    ]);
    let mut effects: Vec<Rc<Effect>> = Vec::new();
    news.update_with_rolls(ONE as u64, &vec![ONE / 4, ONE / 2, 0], &mut effects);
    assert_eq!(news.available.len(), 1);
    assert_eq!(news.available[0].description, "b");
    assert_eq!(news.current.len(), 2);
    assert_eq!(news.current[0].description, "c");
    assert_eq!(news.current[1].description, "a");
    let values: Vec<i64> = effects
        .iter()
        .map(|e| match &**e {
            Effect::MarketEffect { value, .. } => *value,
            _ => -1,
        })
        .collect();
    assert_eq!(values, vec![1, 4]);
}

#[test]
fn news_feed_keeps_the_ten_latest() {
    let mut news = News::new(Vec::new());
    for i in 0..15 {
        news.add_event(event(&format!("e{i}"), 0, Vec::new()));
        assert!(news.current.len() <= NEWS_CAPACITY);
    }
    assert_eq!(news.current.len(), 10);
    assert_eq!(news.current[0].description, "e14");
    assert_eq!(news.current[9].description, "e5");
}
