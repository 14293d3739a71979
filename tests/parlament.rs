use evil_inc::effect::{Effect, MarketResolution, ModifierType};
use evil_inc::fixed::ONE;
use evil_inc::parlament::{count_votes, Law, Parlament, Party};
use std::rc::Rc;

fn money_effect(value: i64) -> Rc<Effect> {
    Rc::new(Effect::MarketEffect {
        resolution: MarketResolution::Money,
        modifier: ModifierType::Constant,
        value,
    })
}

fn law(title: &str, required: i64, publicity: i64, recurring: bool) -> Law {
    Law {
        title: title.to_string(),
        description: format!("{title} description"),
        required_approval: required,
        publicity,
        on_self_passed: vec![money_effect(1), money_effect(2)],
        on_law_passed: Vec::new(),
        recurring,
    }
}

fn titles(p: &Parlament) -> Vec<String> {
    p.available_laws.iter().map(|e| e.law.title.clone()).collect()
}

fn publicities(p: &Parlament) -> Vec<i64> {
    p.available_laws.iter().map(|e| e.publicity).collect()
}

#[test]
fn new_parlament_has_four_parties() {
    let p = Parlament::new(vec![law("a", 0, 2, false), law("b", 0, 7, false)]);
    assert_eq!(p.parties.len(), 4);
    assert_eq!(p.parties[3], Party { approval: ONE, popularity: 0 });
    assert_eq!(p.parties[0], Party { approval: 340_000_000, popularity: 350_000_000 });
    assert_eq!(titles(&p), vec!["a", "b"]);
    assert_eq!(publicities(&p), vec![2, 7]);
    assert_eq!(p.voting_progress, 0);
}

#[test]
fn votes_sum_popularity_of_approving_parties() {
    let p = Parlament::new(Vec::new());
    assert_eq!(count_votes(&p.parties, 200_000_000), 750_000_000);
    assert_eq!(count_votes(&p.parties, 300_000_000), 350_000_000);
    assert_eq!(count_votes(&p.parties, 0), ONE as i128);
}

#[test]
fn no_vote_before_the_voting_time() {
    let mut p = Parlament::new(vec![law("a", 0, 0, false)]);
    let mut effects: Vec<Rc<Effect>> = Vec::new();
    p.update(9 * ONE as u64, &mut effects);
    assert_eq!(p.voting_progress, 900_000_000);
    assert!(effects.is_empty());
    assert_eq!(titles(&p), vec!["a"]);
}

#[test]
fn passing_recurring_law_queues_its_effects_once_and_returns() {
    let mut p = Parlament::new(vec![law("front", 0, 9, true), law("other", 0, 3, false)]);
    let mut effects: Vec<Rc<Effect>> = Vec::new();
    p.update(11 * ONE as u64, &mut effects);
    assert_eq!(effects.len(), 2);
    assert_eq!(p.voting_progress, ONE / 10);
    assert_eq!(titles(&p), vec!["other", "front"]);
    assert_eq!(publicities(&p), vec![4, 1]);
    assert!(p.passed_laws.is_empty());
}

#[test]
fn passing_law_that_does_not_recur_leaves_the_queue() {
    let mut p = Parlament::new(vec![law("front", 0, 9, false), law("other", 0, 3, false)]);
    let mut effects: Vec<Rc<Effect>> = Vec::new();
    p.update(10 * ONE as u64, &mut effects);
    assert_eq!(effects.len(), 2);
    assert_eq!(titles(&p), vec!["other"]);
    assert_eq!(publicities(&p), vec![4]);
}

#[test]
fn failed_law_goes_back_with_fresh_publicity() {
    let mut p = Parlament::new(vec![law("front", ONE, 9, false), law("other", ONE, 3, false)]);
    let mut effects: Vec<Rc<Effect>> = Vec::new();
    p.update(10 * ONE as u64, &mut effects);
    assert!(effects.is_empty());
    assert_eq!(titles(&p), vec!["other", "front"]);
    assert_eq!(publicities(&p), vec![4, 1]);
}

#[test]
fn passed_laws_queue_their_standing_effects_every_vote() {
    let mut standing = law("standing", 0, 9, false);
    standing.on_self_passed = Vec::new();
    standing.on_law_passed = vec![money_effect(7)];
    let mut p = Parlament::new(vec![standing, law("x", ONE, 1, false), law("y", ONE, 0, false)]);
    let mut effects: Vec<Rc<Effect>> = Vec::new();
    p.update(10 * ONE as u64, &mut effects);
    assert_eq!(p.passed_laws.len(), 1);
    assert_eq!(effects.len(), 1);
    p.update(10 * ONE as u64, &mut effects);
    assert_eq!(effects.len(), 2);
    p.update(10 * ONE as u64, &mut effects);
    assert_eq!(effects.len(), 3);
}

#[test]
fn untouched_laws_age_by_one_per_round_and_stay_sorted() {
    let mut p = Parlament::new(vec![
        law("f1", ONE, 100, false),
        law("f2", ONE, 90, false),
        law("a", ONE, 5, false),
        law("b", ONE, 3, false),
    ]);
    let mut effects: Vec<Rc<Effect>> = Vec::new();
    p.update(10 * ONE as u64, &mut effects);
    assert_eq!(titles(&p), vec!["f2", "a", "b", "f1"]);
    assert_eq!(publicities(&p), vec![91, 6, 4, 1]);
    p.update(10 * ONE as u64, &mut effects);
    assert_eq!(titles(&p), vec!["a", "b", "f1", "f2"]);
    assert_eq!(publicities(&p), vec![7, 5, 2, 1]);
    let pubs = publicities(&p);
    assert!(pubs.windows(2).all(|w| w[0] >= w[1]));
}

#[test]
fn equal_publicity_keeps_queue_order() {
    let mut p = Parlament::new(vec![
        law("front", ONE, 9, false),
        law("a", ONE, 0, false),
        law("b", ONE, 0, false),
    ]);
    let mut effects: Vec<Rc<Effect>> = Vec::new();
    p.update(10 * ONE as u64, &mut effects);
    assert_eq!(titles(&p), vec!["a", "b", "front"]);
    assert_eq!(publicities(&p), vec![1, 1, 1]);
}

#[test]
fn lobbying_and_defaming_move_publicity() {
    let mut p = Parlament::new(vec![law("a", 0, 2, false)]);
    p.available_laws[0].lobby();
    p.available_laws[0].lobby();
    p.available_laws[0].defame();
    assert_eq!(p.available_laws[0].publicity, 3);
}
