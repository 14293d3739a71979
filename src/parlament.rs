//! The parliament: parties, and a queue of laws that it votes on one after another.
use vstd::prelude::*;
use std::collections::VecDeque;
use std::rc::Rc;
use crate::effect::{queue_all, Effect};
use crate::fixed::{add_saturating, saturate, ONE};
use vstd::seq_lib::group_to_multiset_ensures;

verus! {

/// Seconds that a vote takes.
pub const VOTING_TIME: u64 = 10;

/// A party. Approval and popularity are fractions in fixed point.
#[derive(Clone, Copy, Debug, PartialEq, Eq, Structural)]
pub struct Party {
    pub approval: i64,
    pub popularity: i64,
}

/// A law as the game data describe it.
#[derive(Clone)]
pub struct Law {
    pub title: String,
    /// The description of this law.
    pub description: String,
    /// How much approval a party needs to give the law its votes (fixed point).
    pub required_approval: i64,
    /// How soon the parliament decides on this law; the law's starting place in the queue.
    pub publicity: i64,
    /// Effects queued when this law passes.
    pub on_self_passed: Vec<Rc<Effect>>,
    /// Effects queued at every vote once this law has passed.
    pub on_law_passed: Vec<Rc<Effect>>,
    /// Whether the law can be passed more than once.
    pub recurring: bool,
}

/// One entry of the queue of laws waiting for a vote. The law itself is shared and never
/// changes; the entry's publicity is its own.
pub struct PendingLaw {
    pub law: Rc<Law>,
    pub publicity: i64,
}

/// The parliament.
pub struct Parlament {
    pub parties: Vec<Party>,
    /// Progress toward the next vote, in fixed point: a vote is due at `ONE`.
    pub voting_progress: i64,
    pub available_laws: VecDeque<PendingLaw>,
    pub passed_laws: VecDeque<Rc<Law>>,
}

/// What a parliament holds, as plain values.
pub ghost struct ParlamentView {
    pub parties: Seq<Party>,
    pub voting_progress: i64,
    pub available: Seq<PendingLaw>,
    pub passed: Seq<Rc<Law>>,
}

impl View for Parlament {
    type V = ParlamentView;

    open spec fn view(&self) -> ParlamentView {
        ParlamentView {
            parties: self.parties@,
            voting_progress: self.voting_progress,
            available: self.available_laws@,
            passed: self.passed_laws@,
        }
    }
}


/// The votes for a law that needs `required` approval: the popularity of every party whose
/// approval reaches it.
pub open spec fn votes(parties: Seq<Party>, required: i64) -> int
    decreases parties.len(),
{
    if parties.len() == 0 {
        0
    } else {
        votes(parties.drop_last(), required) + if parties.last().approval >= required {
            parties.last().popularity as int
        } else {
            0
        }
    }
}

/// Whether a law that needs `required` approval passes: its votes exceed one half.
pub open spec fn passes(parties: Seq<Party>, required: i64) -> bool {
    votes(parties, required) * 2 > ONE
}

/// The entry `e` one voting round older.
pub open spec fn aged_entry(e: PendingLaw) -> PendingLaw {
    PendingLaw { law: e.law, publicity: saturate(e.publicity + 1) as i64 }
}

/// Every entry one voting round older.
pub open spec fn aged(s: Seq<PendingLaw>) -> Seq<PendingLaw> {
    s.map_values(|e: PendingLaw| aged_entry(e))
}

/// `e` put into `sorted` after every entry at the back whose publicity is lower, so that a
/// queue sorted by descending publicity stays sorted, and `e` comes after its equals.
pub open spec fn insert_by_publicity(sorted: Seq<PendingLaw>, e: PendingLaw) -> Seq<PendingLaw>
    decreases sorted.len(),
{
    if sorted.len() == 0 {
        seq![e]
    } else if sorted.last().publicity >= e.publicity {
        sorted.push(e)
    } else {
        insert_by_publicity(sorted.drop_last(), e).push(sorted.last())
    }
}

/// `s` sorted by descending publicity; entries of equal publicity keep their order.
pub open spec fn sort_by_publicity(s: Seq<PendingLaw>) -> Seq<PendingLaw>
    decreases s.len(),
{
    if s.len() == 0 {
        s
    } else {
        insert_by_publicity(sort_by_publicity(s.drop_last()), s.last())
    }
}

/// Whether `s` is sorted by descending publicity.
pub open spec fn sorted_by_publicity(s: Seq<PendingLaw>) -> bool {
    forall|i: int, j: int| 0 <= i < j < s.len() ==> s[i].publicity >= s[j].publicity
}

/// The effects that the passed laws queue at every vote, in the order the laws passed.
pub open spec fn passed_effects(passed: Seq<Rc<Law>>) -> Seq<Rc<Effect>>
    decreases passed.len(),
{
    if passed.len() == 0 {
        seq![]
    } else {
        passed_effects(passed.drop_last()) + passed.last().on_law_passed@
    }
}

/// Whether the law at the front of the queue passes.
pub open spec fn front_passes(p: ParlamentView) -> bool {
    passes(p.parties, p.available[0].law.required_approval)
}

/// The parliament after a vote on the law at the front of its queue: the law leaves the
/// front; a failed or recurring law goes back to the end with publicity 0; a passed law
/// with effects on later votes joins the passed laws; every waiting law ages by one round
/// and the queue is sorted by descending publicity.
pub open spec fn vote_round(p: ParlamentView) -> ParlamentView {
    let law = p.available[0].law;
    let pass = front_passes(p);
    let back = if !pass || law.recurring {
        seq![PendingLaw { law, publicity: 0 }]
    } else {
        seq![]
    };
    ParlamentView {
        parties: p.parties,
        voting_progress: (p.voting_progress - ONE) as i64,
        available: sort_by_publicity(aged(p.available.drop_first() + back)),
        passed: if pass && law.on_law_passed@.len() > 0 {
            p.passed.push(law)
        } else {
            p.passed
        },
    }
}

/// The effects that a vote on the front law queues: the law's own effects if it passes,
/// then those of every passed law.
pub open spec fn vote_effects(p: ParlamentView) -> Seq<Rc<Effect>> {
    let law = p.available[0].law;
    (if front_passes(p) {
        law.on_self_passed@
    } else {
        seq![]
    }) + passed_effects(vote_round(p).passed)
}

/// The parliament after time `dt` (in nanoseconds) has passed, before any vote.
pub open spec fn progressed(p: ParlamentView, dt: u64) -> ParlamentView {
    ParlamentView {
        voting_progress: saturate(p.voting_progress + dt / VOTING_TIME) as i64,
        ..p
    }
}

proof fn lemma_votes_bound(parties: Seq<Party>, required: i64)
    ensures
        -(parties.len() * 0x8000_0000_0000_0000) <= votes(parties, required) <= parties.len()
            * 0x8000_0000_0000_0000,
    decreases parties.len(),
{
    if parties.len() > 0 {
        lemma_votes_bound(parties.drop_last(), required);
    }
}

proof fn lemma_insert_at(s: Seq<PendingLaw>, e: PendingLaw, pos: int)
    requires
        0 <= pos <= s.len(),
        forall|j: int| pos <= j < s.len() ==> s[j].publicity < e.publicity,
        pos == 0 || s[pos - 1].publicity >= e.publicity,
    ensures
        insert_by_publicity(s, e) == s.insert(pos, e),
    decreases s.len(),
{
    if s.len() == 0 {
        assert(s.insert(pos, e) =~= seq![e]);
    } else if pos == s.len() {
        assert(s.insert(pos, e) =~= s.push(e));
    } else {
        lemma_insert_at(s.drop_last(), e, pos);
        assert(s.drop_last().insert(pos, e).push(s.last()) =~= s.insert(pos, e));
    }
}

/// Sums the votes for a law that needs `required` approval.
pub fn count_votes(parties: &Vec<Party>, required: i64) -> (r: i128)
    ensures
        r == votes(parties@, required),
{
    let mut sum: i128 = 0;
    let mut i: usize = 0;
    while i < parties.len()
        invariant
            i <= parties@.len(),
            sum == votes(parties@.take(i as int), required),
        decreases parties@.len() - i,
    {
        proof {
            let next = parties@.take(i as int + 1);
            assert(next.drop_last() =~= parties@.take(i as int));
            lemma_votes_bound(parties@.take(i as int), required);
        }
        let party = parties[i];
        if party.approval >= required {
            sum = sum + party.popularity as i128;
        }
        i = i + 1;
    }
    assert(parties@.take(parties@.len() as int) =~= parties@);
    sum
}

/// Takes every entry out of `rest`, ages it by one round and sorts the entries by
/// descending publicity, keeping the order of equals.
fn age_and_sort(rest: &mut VecDeque<PendingLaw>) -> (r: VecDeque<PendingLaw>)
    ensures
        r@ == sort_by_publicity(aged(old(rest)@)),
{
    let ghost orig = rest@;
    let n = rest.len();
    let mut sorted: VecDeque<PendingLaw> = VecDeque::new();
    let mut i: usize = 0;
    assert(aged(orig).take(0) =~= seq![]);
    while rest.len() > 0
        invariant
            i + rest@.len() == orig.len(),
            orig.len() == n,
            rest@ == orig.skip(i as int),
            sorted@ == sort_by_publicity(aged(orig).take(i as int)),
        decreases rest@.len(),
    {
        let e = rest.pop_front().unwrap();
        let entry = PendingLaw { law: e.law, publicity: add_saturating(e.publicity, 1) };
        let mut pos: usize = sorted.len();
        while pos > 0 && sorted[pos - 1].publicity < entry.publicity
            invariant
                pos <= sorted@.len(),
                forall|j: int| pos <= j < sorted@.len() ==> sorted@[j].publicity < entry.publicity,
            decreases pos,
        {
            pos = pos - 1;
        }
        proof {
            lemma_insert_at(sorted@, entry, pos as int);
            let next = aged(orig).take(i as int + 1);
            assert(next.drop_last() =~= aged(orig).take(i as int));
            assert(orig[i as int] == e);
            assert(next.last() == entry);
        }
        sorted.insert(pos, entry);
        i = i + 1;
        assert(rest@ =~= orig.skip(i as int));
    }
    assert(aged(orig).take(i as int) =~= aged(orig));
    sorted
}

/// The parties that a parliament starts with; the last one is the meme party.
pub open spec fn starting_parties() -> Seq<Party> {
    seq![
        Party { approval: 340_000_000, popularity: 350_000_000 },
        Party { approval: 220_000_000, popularity: 400_000_000 },
        Party { approval: 190_000_000, popularity: 250_000_000 },
        Party { approval: ONE, popularity: 0 },
    ]
}

impl PendingLaw {
    /// Lobbying for the law raises its publicity by one.
    pub fn lobby(&mut self)
        ensures
            final(self).law == old(self).law,
            final(self).publicity == saturate(old(self).publicity + 1),
    {
        self.publicity = add_saturating(self.publicity, 1);
    }

    /// Defaming the law lowers its publicity by one.
    pub fn defame(&mut self)
        ensures
            final(self).law == old(self).law,
            final(self).publicity == saturate(old(self).publicity - 1),
    {
        self.publicity = add_saturating(self.publicity, -1);
    }
}

impl Parlament {
    /// A parliament of the starting parties whose queue holds `laws` in order, with nothing
    /// passed and no progress toward a vote.
    pub fn new(laws: Vec<Law>) -> (r: Parlament)
        ensures
            r@.parties == starting_parties(),
            r@.voting_progress == 0,
            r@.passed == Seq::<Rc<Law>>::empty(),
            r@.available.len() == laws@.len(),
            forall|i: int|
                0 <= i < laws@.len() ==> {
                    &&& #[trigger] r@.available[i].law == laws@[i]
                    &&& r@.available[i].publicity == laws@[i].publicity
                },
    {
        let parties = vec![
            Party { approval: 340_000_000, popularity: 350_000_000 },
            Party { approval: 220_000_000, popularity: 400_000_000 },
            Party { approval: 190_000_000, popularity: 250_000_000 },
            Party { approval: ONE, popularity: 0 },
        ];
        assert(parties@ =~= starting_parties());
        let mut laws = laws;
        let ghost orig = laws@;
        let mut queue: VecDeque<PendingLaw> = VecDeque::new();
        while laws.len() > 0
            invariant
                laws@.len() <= orig.len(),
                laws@ == orig.take(laws@.len() as int),
                queue@.len() == orig.len() - laws@.len(),
                forall|i: int|
                    0 <= i < queue@.len() ==> {
                        &&& #[trigger] queue@[i].law == orig[laws@.len() + i]
                        &&& queue@[i].publicity == orig[laws@.len() + i].publicity
                    },
            decreases laws@.len(),
        {
            let law = laws.pop().unwrap();
            let publicity = law.publicity;
            queue.push_front(PendingLaw { law: Rc::new(law), publicity });
            assert(laws@ =~= orig.take(laws@.len() as int));
        }
        Parlament { parties, voting_progress: 0, available_laws: queue, passed_laws: VecDeque::new() }
    }

    /// Advances the vote by time `dt` (nanoseconds). When the vote is due, the parliament
    /// decides on the law at the front of its queue (see `vote_round`), the queued effects
    /// of that vote (see `vote_effects`) are appended to `effects`, and the progress keeps
    /// its overshoot.
    pub fn update(&mut self, dt: u64, effects: &mut Vec<Rc<Effect>>)
        requires
            old(self).available_laws@.len() > 0,
        ensures
            ({
                let p = progressed(old(self)@, dt);
                if p.voting_progress >= ONE {
                    &&& final(self)@ == vote_round(p)
                    &&& final(effects)@ == old(effects)@ + vote_effects(p)
                } else {
                    &&& final(self)@ == p
                    &&& final(effects)@ == old(effects)@
                }
            }),
    {
        self.voting_progress = add_saturating(self.voting_progress, (dt / VOTING_TIME) as i64);
        if self.voting_progress < ONE {
            return;
        }
        let ghost p = self@;
        let ghost effects0 = effects@;
        let law: Rc<Law> = self.available_laws[0].law.clone();
        let votes = count_votes(&self.parties, law.required_approval);
        let pass = votes > (ONE / 2) as i128;
        assert(pass == front_passes(p));
        if pass {
            queue_all(effects, &law.on_self_passed);
            if law.recurring {
                self.available_laws.push_back(PendingLaw { law: law.clone(), publicity: 0 });
            }
            if law.on_law_passed.len() > 0 {
                self.passed_laws.push_back(law.clone());
            }
        } else {
            self.available_laws.push_back(PendingLaw { law: law.clone(), publicity: 0 });
        }
        let _ = self.available_laws.pop_front();
        self.voting_progress = self.voting_progress - ONE;
        let ghost queued = effects@;
        let mut k: usize = 0;
        assert(self.passed_laws@.take(0) =~= seq![]);
        while k < self.passed_laws.len()
            invariant
                k <= self.passed_laws@.len(),
                effects@ == queued + passed_effects(self.passed_laws@.take(k as int)),
            decreases self.passed_laws@.len() - k,
        {
            queue_all(effects, &self.passed_laws[k].on_law_passed);
            assert(self.passed_laws@.take(k as int + 1).drop_last() =~= self.passed_laws@.take(
                k as int,
            ));
            k = k + 1;
        }
        assert(self.passed_laws@.take(k as int) =~= self.passed_laws@);
        let ghost waiting = self.available_laws@;
        self.available_laws = age_and_sort(&mut self.available_laws);
        proof {
            let back = if !pass || law.recurring {
                seq![PendingLaw { law, publicity: 0 }]
            } else {
                seq![]
            };
            assert(waiting =~= p.available.drop_first() + back);
            assert(self@ == vote_round(p));
            assert(effects@ =~= effects0 + vote_effects(p));
        }
    }
}


proof fn lemma_insert_multiset(s: Seq<PendingLaw>, e: PendingLaw)
    ensures
        insert_by_publicity(s, e).to_multiset() == s.to_multiset().insert(e),
    decreases s.len(),
{
    broadcast use group_to_multiset_ensures;

    if s.len() == 0 {
        assert(seq![e] =~= s.push(e));
    } else if s.last().publicity < e.publicity {
        lemma_insert_multiset(s.drop_last(), e);
        assert(s =~= s.drop_last().push(s.last()));
    }
}

proof fn lemma_sort_multiset(s: Seq<PendingLaw>)
    ensures
        sort_by_publicity(s).to_multiset() == s.to_multiset(),
    decreases s.len(),
{
    broadcast use group_to_multiset_ensures;

    if s.len() > 0 {
        lemma_sort_multiset(s.drop_last());
        lemma_insert_multiset(sort_by_publicity(s.drop_last()), s.last());
        assert(s =~= s.drop_last().push(s.last()));
    }
}

proof fn lemma_insert_bounded(s: Seq<PendingLaw>, e: PendingLaw, b: i64)
    requires
        forall|i: int| 0 <= i < s.len() ==> #[trigger] s[i].publicity >= b,
        e.publicity >= b,
    ensures
        forall|i: int|
            0 <= i < insert_by_publicity(s, e).len() ==> #[trigger] insert_by_publicity(
                s,
                e,
            )[i].publicity >= b,
    decreases s.len(),
{
    let r = insert_by_publicity(s, e);
    if s.len() == 0 {
        assert(r =~= seq![e]);
    } else if s.last().publicity >= e.publicity {
        assert forall|i: int| 0 <= i < r.len() implies #[trigger] r[i].publicity >= b by {
            if i < s.len() {
                assert(r[i] == s[i]);
            }
        }
    } else {
        let rest = s.drop_last();
        assert forall|i: int| 0 <= i < rest.len() implies #[trigger] rest[i].publicity >= b by {
            assert(rest[i] == s[i]);
        }
        lemma_insert_bounded(rest, e, b);
        let inner = insert_by_publicity(rest, e);
        assert forall|i: int| 0 <= i < r.len() implies #[trigger] r[i].publicity >= b by {
            if i < inner.len() {
                assert(r[i] == inner[i]);
            } else {
                assert(r[i] == s[s.len() - 1]);
            }
        }
    }
}

proof fn lemma_insert_sorted(s: Seq<PendingLaw>, e: PendingLaw)
    requires
        sorted_by_publicity(s),
    ensures
        sorted_by_publicity(insert_by_publicity(s, e)),
        insert_by_publicity(s, e).len() == s.len() + 1,
    decreases s.len(),
{
    if s.len() > 0 && s.last().publicity < e.publicity {
        let rest = s.drop_last();
        lemma_insert_sorted(rest, e);
        lemma_insert_bounded(rest, e, s.last().publicity);
    }
}

proof fn lemma_sort_sorted(s: Seq<PendingLaw>)
    ensures
        sorted_by_publicity(sort_by_publicity(s)),
        sort_by_publicity(s).len() == s.len(),
    decreases s.len(),
{
    if s.len() > 0 {
        lemma_sort_sorted(s.drop_last());
        lemma_insert_sorted(sort_by_publicity(s.drop_last()), s.last());
    }
}

/// A vote that passes queues the front law's own effects exactly once, ahead of the effects
/// of the passed laws; a recurring law comes back exactly once, as a fresh entry that went
/// in with publicity 0 and has aged one round with the rest of the queue; a law that does
/// not recur does not come back; and the queue ends sorted by descending publicity.
pub proof fn lemma_passing_vote(p: ParlamentView)
    requires
        p.available.len() > 0,
        front_passes(p),
    ensures
        ({
            let law = p.available[0].law;
            let next = vote_round(p);
            let waiting = aged(p.available.drop_first()).to_multiset();
            &&& vote_effects(p) == law.on_self_passed@ + passed_effects(next.passed)
            &&& law.recurring ==> next.available.to_multiset() == waiting.insert(
                aged_entry(PendingLaw { law, publicity: 0 }),
            )
            &&& !law.recurring ==> next.available.to_multiset() == waiting
            &&& aged_entry(PendingLaw { law, publicity: 0 }).publicity == 1
            &&& sorted_by_publicity(next.available)
            &&& next.passed == if law.on_law_passed@.len() > 0 {
                p.passed.push(law)
            } else {
                p.passed
            }
        }),
{
    broadcast use group_to_multiset_ensures;

    let law = p.available[0].law;
    let rest = p.available.drop_first();
    let entry = PendingLaw { law, publicity: 0 };
    if law.recurring {
        assert(aged(rest + seq![entry]) =~= aged(rest).push(aged_entry(entry)));
        lemma_sort_multiset(aged(rest + seq![entry]));
        lemma_sort_sorted(aged(rest + seq![entry]));
    } else {
        assert(rest + seq![] =~= rest);
        lemma_sort_multiset(aged(rest));
        lemma_sort_sorted(aged(rest));
    }
}

/// `e` after `k` voting rounds without a vote on it.
pub open spec fn aged_by(e: PendingLaw, k: int) -> PendingLaw {
    PendingLaw { law: e.law, publicity: (e.publicity + k) as i64 }
}

proof fn lemma_one_round(p: ParlamentView, x: PendingLaw)
    requires
        p.available.len() > 0,
        p.available.contains(x),
        p.available[0] != x,
        x.publicity < i64::MAX,
    ensures
        vote_round(p).available.contains(aged_entry(x)),
        sorted_by_publicity(vote_round(p).available),
{
    broadcast use group_to_multiset_ensures;

    let law = p.available[0].law;
    let back = if !front_passes(p) || law.recurring {
        seq![PendingLaw { law, publicity: 0 }]
    } else {
        seq![]
    };
    let waiting = p.available.drop_first() + back;
    let i = choose|i: int| 0 <= i < p.available.len() && p.available[i] == x;
    assert(i != 0);
    assert(waiting[i - 1] == x);
    assert(aged(waiting)[i - 1] == aged_entry(x));
    assert(aged(waiting).contains(aged_entry(x)));
    assert(aged(waiting).to_multiset().count(aged_entry(x)) > 0);
    lemma_sort_multiset(aged(waiting));
    lemma_sort_sorted(aged(waiting));
    assert(vote_round(p).available == sort_by_publicity(aged(waiting)));
    assert(sort_by_publicity(aged(waiting)).to_multiset().count(aged_entry(x)) > 0);
}

/// Over consecutive voting rounds, a law entry that is never the one voted on gains exactly
/// one publicity per round, and after every round the queue is sorted by descending
/// publicity. `rounds[k]` is the parliament before round `k`; whatever else happens
/// between rounds, the queue after a round is the one that the vote left.
pub proof fn lemma_publicity_aging(rounds: Seq<ParlamentView>, e: PendingLaw)
    requires
        rounds.len() > 0,
        forall|k: int|
            0 <= k < rounds.len() - 1 ==> (#[trigger] rounds[k]).available.len() > 0
                && rounds[k + 1].available == vote_round(rounds[k]).available,
        rounds[0].available.contains(e),
        forall|k: int|
            0 <= k < rounds.len() - 1 ==> (#[trigger] rounds[k]).available[0] != aged_by(e, k),
        e.publicity + rounds.len() <= i64::MAX,
    ensures
        forall|k: int|
            0 <= k < rounds.len() ==> (#[trigger] rounds[k]).available.contains(aged_by(e, k)),
        forall|k: int|
            0 < k < rounds.len() ==> sorted_by_publicity((#[trigger] rounds[k]).available),
    decreases rounds.len(),
{
    if rounds.len() == 1 {
        assert(aged_by(e, 0) == e);
    } else {
        let prefix = rounds.drop_last();
        assert forall|k: int| 0 <= k < prefix.len() - 1 implies (#[trigger] prefix[k]).available.len()
            > 0 && prefix[k + 1].available == vote_round(prefix[k]).available by {
            assert(prefix[k] == rounds[k]);
            assert(prefix[k + 1] == rounds[k + 1]);
        }
        assert forall|k: int| 0 <= k < prefix.len() - 1 implies (#[trigger] prefix[k]).available[0]
            != aged_by(e, k) by {
            assert(prefix[k] == rounds[k]);
        }
        lemma_publicity_aging(prefix, e);
        let last = rounds.len() - 2;
        assert(prefix[last] == rounds[last]);
        assert(rounds[last].available.contains(aged_by(e, last)));
        assert(rounds[last].available.len() > 0);
        assert(rounds[last].available[0] != aged_by(e, last));
        lemma_one_round(rounds[last], aged_by(e, last));
        assert(aged_entry(aged_by(e, last)) == aged_by(e, last + 1));
        assert forall|k: int| 0 <= k < rounds.len() implies (#[trigger] rounds[k]).available.contains(
            aged_by(e, k),
        ) by {
            if k < rounds.len() - 1 {
                assert(prefix[k] == rounds[k]);
            }
        }
        assert forall|k: int| 0 < k < rounds.len() implies sorted_by_publicity(
            (#[trigger] rounds[k]).available,
        ) by {
            if k < rounds.len() - 1 {
                assert(prefix[k] == rounds[k]);
            }
        }
    }
}

} // verus!
