//! The news feed: events that fire at random and a short list of the latest ones.
use vstd::prelude::*;
use std::collections::VecDeque;
use std::rc::Rc;
use crate::effect::{queue_all, Effect};
use crate::fixed::{add_saturating, limit, limited, saturate, MAX_FRAME, ONE};
use crate::random::random_below;

verus! {

/// The number of distinct rolls that a random draw chooses among.
pub const ROLL_STEPS: usize = 0x10_0000;

/// How many fired events the feed keeps.
pub const NEWS_CAPACITY: usize = 10;

/// A news event.
#[derive(Clone)]
pub struct Event {
    /// e.g. BOTNET-Auftrag
    pub source: String,
    /// e.g. Smart Fridge nimmt Affäre von Politiker xyz auf.
    pub description: String,
    /// Effects queued when the event fires.
    pub effects: Vec<Rc<Effect>>,
    /// The chance that the event fires in one roll, in fixed point.
    pub chance: i64,
}

/// What an event holds, as plain values.
pub ghost struct EventView {
    pub source: Seq<char>,
    pub description: Seq<char>,
    pub effects: Seq<Rc<Effect>>,
    pub chance: i64,
}

impl View for Event {
    type V = EventView;

    open spec fn view(&self) -> EventView {
        EventView {
            source: self.source@,
            description: self.description@,
            effects: self.effects@,
            chance: self.chance,
        }
    }
}

/// The views of a sequence of events.
pub open spec fn event_views(s: Seq<Event>) -> Seq<EventView> {
    s.map_values(|e: Event| e@)
}

/// The feed after `e` arrives: it goes in front, and the oldest entries beyond the
/// capacity drop off the back.
pub open spec fn pushed_news(current: Seq<EventView>, e: EventView) -> Seq<EventView> {
    let s = seq![e] + current;
    if s.len() > NEWS_CAPACITY {
        s.take(NEWS_CAPACITY as int)
    } else {
        s
    }
}

impl Event {
    /// An event with the given texts, no effects and no chance to fire.
    pub fn new(source: String, description: String) -> (r: Event)
        ensures
            r@ == (EventView { source: source@, description: description@, effects: seq![], chance: 0 }),
    {
        Event { source, description, effects: Vec::new(), chance: 0 }
    }
}

/// The news feed.
pub struct News {
    /// Events that have not fired yet.
    pub available: VecDeque<Event>,
    /// Events that fired, the latest first.
    pub current: VecDeque<Event>,
    /// Time since the last roll, in fixed point seconds.
    pub real_time: i64,
}

/// What a news feed holds, as plain values.
pub ghost struct NewsView {
    pub available: Seq<EventView>,
    pub current: Seq<EventView>,
    pub real_time: i64,
}

impl View for News {
    type V = NewsView;

    open spec fn view(&self) -> NewsView {
        NewsView {
            available: event_views(self.available@),
            current: event_views(self.current@),
            real_time: self.real_time,
        }
    }
}

impl News {
    /// Puts `event` at the front of the feed, dropping the oldest entries beyond the capacity.
    pub fn add_event(&mut self, event: Event)
        ensures
            final(self)@ == (NewsView { current: pushed_news(old(self)@.current, event@), ..old(self)@ }),
            final(self)@.current.len() <= NEWS_CAPACITY,
    {
        let ghost e = event@;
        self.current.push_front(event);
        assert(event_views(self.current@) =~= seq![e] + old(self)@.current);
        while self.current.len() > NEWS_CAPACITY
            invariant
                self.available == old(self).available,
                self.real_time == old(self).real_time,
                self.current@.len() == old(self).current@.len() + 1
                    || NEWS_CAPACITY <= self.current@.len() <= old(self).current@.len() + 1,
                event_views(self.current@) == (seq![e] + old(self)@.current).take(
                    self.current@.len() as int,
                ),
            decreases self.current@.len(),
        {
            let _ = self.current.pop_back();
            assert(event_views(self.current@) =~= (seq![e] + old(self)@.current).take(
                self.current@.len() as int,
            ));
        }
        assert(event_views(self.current@) =~= pushed_news(old(self)@.current, e));
    }
}


/// The events of `available` whose roll (the roll of the same index) falls below their chance.
pub open spec fn fired(available: Seq<EventView>, rolls: Seq<i64>) -> Seq<EventView>
    decreases available.len(),
{
    if available.len() == 0 {
        seq![]
    } else {
        let rest = fired(available.drop_last(), rolls.take(available.len() - 1));
        if rolls[available.len() - 1] < available.last().chance {
            rest.push(available.last())
        } else {
            rest
        }
    }
}

/// The events of `available` that do not fire, in their order.
pub open spec fn unfired(available: Seq<EventView>, rolls: Seq<i64>) -> Seq<EventView>
    decreases available.len(),
{
    if available.len() == 0 {
        seq![]
    } else {
        let rest = unfired(available.drop_last(), rolls.take(available.len() - 1));
        if rolls[available.len() - 1] < available.last().chance {
            rest
        } else {
            rest.push(available.last())
        }
    }
}

/// The effects of the given events, in order.
pub open spec fn events_effects(events: Seq<EventView>) -> Seq<Rc<Effect>>
    decreases events.len(),
{
    if events.len() == 0 {
        seq![]
    } else {
        events_effects(events.drop_last()) + events.last().effects
    }
}

/// The feed after each of `events` arrives, in order.
pub open spec fn pushed_all(current: Seq<EventView>, events: Seq<EventView>) -> Seq<EventView>
    decreases events.len(),
{
    if events.len() == 0 {
        current
    } else {
        pushed_news(pushed_all(current, events.drop_last()), events.last())
    }
}

/// The time since the last roll once a tick of `dt` nanoseconds is counted.
pub open spec fn news_time(n: NewsView, dt: u64) -> int {
    saturate(n.real_time + limited(dt))
}

/// The feed after a tick of `dt` nanoseconds with the given rolls: when a second has
/// gathered, every event whose roll falls below its chance leaves the pool and enters the
/// feed, and a second is taken off the timer.
pub open spec fn news_after(n: NewsView, dt: u64, rolls: Seq<i64>) -> NewsView {
    let t = news_time(n, dt);
    if t >= ONE {
        NewsView {
            available: unfired(n.available, rolls),
            current: pushed_all(n.current, fired(n.available, rolls)),
            real_time: (t - ONE) as i64,
        }
    } else {
        NewsView { real_time: t as i64, ..n }
    }
}

/// The effects that a tick queues: those of the events that fire, in order.
pub open spec fn news_effects(n: NewsView, dt: u64, rolls: Seq<i64>) -> Seq<Rc<Effect>> {
    if news_time(n, dt) >= ONE {
        events_effects(fired(n.available, rolls))
    } else {
        seq![]
    }
}

impl News {
    /// A feed whose pool holds `available`, in order, with nothing fired yet.
    pub fn new(available: Vec<Event>) -> (r: News)
        ensures
            r@ == (NewsView { available: event_views(available@), current: seq![], real_time: 0 }),
    {
        let mut available = available;
        let ghost orig = available@;
        let mut pool: VecDeque<Event> = VecDeque::new();
        while available.len() > 0
            invariant
                available@.len() <= orig.len(),
                available@ == orig.take(available@.len() as int),
                pool@ == orig.skip(available@.len() as int),
            decreases available@.len(),
        {
            let e = available.pop().unwrap();
            pool.push_front(e);
            assert(pool@ =~= orig.skip(available@.len() as int));
            assert(available@ =~= orig.take(available@.len() as int));
        }
        assert(pool@ =~= orig);
        let r = News { available: pool, current: VecDeque::new(), real_time: 0 };
        assert(r@.current =~= seq![]);
        r
    }

    /// Runs one tick of `dt` nanoseconds; when a second has gathered, each event of the pool
    /// gets a roll drawn at random in `[0, ONE)`.
    pub fn update(&mut self, dt: u64, effects: &mut Vec<Rc<Effect>>)
        ensures
            exists|rolls: Seq<i64>|
                {
                    &&& rolls.len() == old(self)@.available.len()
                    &&& forall|i: int| 0 <= i < rolls.len() ==> 0 <= #[trigger] rolls[i] < ONE
                    &&& final(self)@ == news_after(old(self)@, dt, rolls)
                    &&& final(effects)@ == old(effects)@ + news_effects(old(self)@, dt, rolls)
                },
    {
        let count = self.available.len();
        let due = add_saturating(self.real_time, limit(dt, MAX_FRAME) as i64) >= ONE;
        let mut rolls: Vec<i64> = Vec::new();
        if due {
            let mut i: usize = 0;
            while i < count
                invariant
                    i <= count,
                    rolls@.len() == i,
                    forall|j: int| 0 <= j < i ==> 0 <= #[trigger] rolls@[j] < ONE,
                decreases count - i,
            {
                let r = random_below(ROLL_STEPS);
                assert(0 <= r * ONE / (ROLL_STEPS as int) < ONE) by (nonlinear_arith)
                    requires
                        r < ROLL_STEPS,
                        ROLL_STEPS == 0x10_0000,
                        ONE == 1_000_000_000,
                ;
                rolls.push((r as i64) * ONE / (ROLL_STEPS as i64));
                i = i + 1;
            }
        }
        self.update_with_rolls(dt, &rolls, effects);
        proof {
            if !due {
                let witness = Seq::new(count as nat, |i: int| 0i64);
                assert(news_after(old(self)@, dt, witness) == news_after(old(self)@, dt, rolls@));
                assert(news_effects(old(self)@, dt, witness) == news_effects(
                    old(self)@,
                    dt,
                    rolls@,
                ));
                assert(witness.len() == old(self)@.available.len());
            }
        }
    }

    /// Runs one tick of `dt` nanoseconds, where `rolls[i]` is the roll of the `i`-th event
    /// of the pool (in fixed point; an event fires when its roll falls below its chance).
    pub fn update_with_rolls(&mut self, dt: u64, rolls: &Vec<i64>, effects: &mut Vec<Rc<Effect>>)
        requires
            news_time(old(self)@, dt) >= ONE ==> rolls@.len() == old(self)@.available.len(),
        ensures
            final(self)@ == news_after(old(self)@, dt, rolls@),
            final(effects)@ == old(effects)@ + news_effects(old(self)@, dt, rolls@),
    {
        let t = add_saturating(self.real_time, limit(dt, MAX_FRAME) as i64);
        if t < ONE {
            self.real_time = t;
            assert(effects@ =~= old(effects)@ + seq![]);
            return;
        }
        let ghost n0 = self@;
        let ghost raw = self.available@;
        let ghost e0 = effects@;
        let count = self.available.len();
        let mut kept: VecDeque<Event> = VecDeque::new();
        let mut triggered: VecDeque<Event> = VecDeque::new();
        let mut i: usize = 0;
        assert(n0.available.take(0) =~= seq![]);
        while i < count
            invariant
                count == raw.len(),
                rolls@.len() == count,
                n0.available == event_views(raw),
                n0 == old(self)@,
                self.current == old(self).current,
                i <= count,
                self.available@ == raw.skip(i as int),
                event_views(kept@) == unfired(n0.available.take(i as int), rolls@.take(i as int)),
                event_views(triggered@) == fired(n0.available.take(i as int), rolls@.take(i as int)),
                effects@ == e0 + events_effects(
                    fired(n0.available.take(i as int), rolls@.take(i as int)),
                ),
            decreases count - i,
        {
            let e = self.available.pop_front().unwrap();
            proof {
                let a = n0.available.take(i as int + 1);
                assert(a.drop_last() =~= n0.available.take(i as int));
                assert(rolls@.take(i as int + 1).take(i as int) =~= rolls@.take(i as int));
                assert(a.last() == e@);
            }
            if rolls[i] < e.chance {
                proof {
                    let f = fired(n0.available.take(i as int), rolls@.take(i as int));
                    assert(f.push(e@).drop_last() =~= f);
                    assert(events_effects(f.push(e@)) == events_effects(f) + e@.effects);
                    assert(e0 + events_effects(f) + e@.effects =~= e0 + (events_effects(f)
                        + e@.effects));
                }
                queue_all(effects, &e.effects);
                triggered.push_back(e);
            } else {
                kept.push_back(e);
            }
            i = i + 1;
            assert(self.available@ =~= raw.skip(i as int));
        }
        assert(n0.available.take(count as int) =~= n0.available);
        assert(rolls@.take(count as int) =~= rolls@);
        self.available = kept;
        self.real_time = t - ONE;
        let ghost fs = event_views(triggered@);
        let mut k: usize = 0;
        let total = triggered.len();
        assert(fs.take(0) =~= seq![]);
        while triggered.len() > 0
            invariant
                k + triggered@.len() == total,
                total == fs.len(),
                event_views(triggered@) == fs.skip(k as int),
                self@.current == pushed_all(n0.current, fs.take(k as int)),
                self@.available == unfired(n0.available, rolls@),
                self.real_time == t - ONE,
            decreases triggered@.len(),
        {
            let ghost tv = triggered@;
            let e = triggered.pop_front().unwrap();
            proof {
                assert(fs.take(k as int + 1).drop_last() =~= fs.take(k as int));
                assert(e == tv[0]);
                assert(event_views(tv)[0] == e@);
                assert(fs.skip(k as int)[0] == fs[k as int]);
                assert(event_views(triggered@) =~= event_views(tv).skip(1));
                assert(fs.skip(k as int).skip(1) =~= fs.skip(k as int + 1));
            }
            self.add_event(e);
            k = k + 1;
            assert(event_views(triggered@) =~= fs.skip(k as int));
        }
        assert(fs.take(k as int) =~= fs);
    }
}


/// After any number of arrivals on a feed within its capacity, the feed stays within its
/// capacity, and it holds the newest events first: the arrivals in reverse order, then the
/// earlier feed, cut at the capacity, so that the oldest entries are the ones dropped.
pub proof fn lemma_news_cap(current: Seq<EventView>, events: Seq<EventView>)
    requires
        current.len() <= NEWS_CAPACITY,
    ensures
        pushed_all(current, events).len() == if events.len() + current.len() > NEWS_CAPACITY {
            NEWS_CAPACITY as int
        } else {
            (events.len() + current.len()) as int
        },
        pushed_all(current, events) == (events.reverse() + current).take(
            pushed_all(current, events).len() as int,
        ),
    decreases events.len(),
{
    if events.len() == 0 {
        assert(events.reverse() + current =~= current);
        assert(current.take(current.len() as int) =~= current);
    } else {
        let rest = events.drop_last();
        lemma_news_cap(current, rest);
        let before = pushed_all(current, rest);
        let x = events.last();
        let all = events.reverse() + current;
        let all_rest = rest.reverse() + current;
        assert(all =~= seq![x] + all_rest) by {
            assert forall|i: int| 0 <= i < all.len() implies all[i] == (seq![x] + all_rest)[i] by {
                if i == 0 {
                    assert(events.reverse()[0] == x);
                } else if i < events.len() {
                    assert(events.reverse()[i] == events[events.len() - 1 - i]);
                    assert(rest.reverse()[i - 1] == rest[rest.len() - 1 - (i - 1)]);
                }
            }
        }
        let grown = seq![x] + before;
        assert(grown =~= all.take(before.len() + 1 as int));
        let after = pushed_all(current, events);
        assert(after == pushed_news(before, x));
        if grown.len() > NEWS_CAPACITY {
            assert(after =~= all.take(NEWS_CAPACITY as int));
        } else {
            assert(after =~= all.take(grown.len() as int));
        }
    }
}

} // verus!
