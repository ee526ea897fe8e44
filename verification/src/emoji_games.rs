//! Outcome tables for the emoji mini-games and the per-game statistics.
//!
//! Each game kind maps a raw platform value to a reaction symbol, a score
//! delta and a reveal delay. The tables are pure and total on their declared
//! domains; a value outside the domain is a contract violation of the event
//! source and is excluded by precondition.

use vstd::prelude::*;

verus! {

/// The emoji games the bot settles: the slot machine and four dice-like
/// throws, each identified by the emoji the chat platform attaches to the
/// throw.
#[derive(Clone, Copy, Debug, PartialEq, Eq, Structural)]
pub enum GameKind {
    SlotMachine,
    Darts,
    Basketball,
    Bowling,
    Football,
}

/// The raw values the chat platform can deliver for each game kind.
pub open spec fn in_domain(kind: GameKind, value: u8) -> bool {
    match kind {
        GameKind::SlotMachine => 1 <= value <= 64,
        GameKind::Darts => 1 <= value <= 6,
        GameKind::Basketball => 1 <= value <= 5,
        GameKind::Bowling => 1 <= value <= 6,
        GameKind::Football => 1 <= value <= 5,
    }
}

/// The suspense pause, in seconds, before a game's outcome reaction is
/// shown; a constant per game kind.
pub open spec fn spec_delay(kind: GameKind) -> u64 {
    match kind {
        GameKind::SlotMachine => 2,
        GameKind::Darts => 3,
        GameKind::Basketball => 4,
        GameKind::Bowling => 4,
        GameKind::Football => 4,
    }
}

/// The three 2-bit reels packed into a slot-machine value, after the
/// platform's offset of one is removed.
pub open spec fn reel_left(raw: u8) -> u8 {
    (raw >> 4) & 3
}

pub open spec fn reel_middle(raw: u8) -> u8 {
    (raw >> 2) & 3
}

pub open spec fn reel_right(raw: u8) -> u8 {
    raw & 3
}

/// The four outcome categories of a slot-machine spin.
#[derive(Clone, Copy, Debug, PartialEq, Eq, Structural)]
pub enum SlotCategory {
    /// All three reels at the maximum symbol.
    Jackpot,
    /// All three reels equal, below the maximum.
    Triple,
    /// Exactly two reels equal.
    Pair,
    /// All reels different.
    Baseline,
}

/// Which category a raw slot value (with the offset of one already removed,
/// so in 0..=63) falls in. Every raw value falls in exactly one category.
pub open spec fn slot_category(raw: u8) -> SlotCategory {
    let l = reel_left(raw);
    let m = reel_middle(raw);
    let r = reel_right(raw);
    if l == 3 && m == 3 && r == 3 {
        SlotCategory::Jackpot
    } else if l == m && l == r {
        SlotCategory::Triple
    } else if l == m || m == r || l == r {
        SlotCategory::Pair
    } else {
        SlotCategory::Baseline
    }
}

/// The score delta a game kind awards for a raw value.
pub open spec fn spec_score(kind: GameKind, value: u8) -> i64 {
    match kind {
        GameKind::SlotMachine => match slot_category((value - 1) as u8) {
            SlotCategory::Jackpot => 30i64,
            SlotCategory::Triple => 10i64,
            SlotCategory::Pair => -1i64,
            SlotCategory::Baseline => -1i64,
        },
        GameKind::Darts => if value == 6 { 12i64 } else { -2i64 },
        GameKind::Basketball => if value == 5 { 6i64 } else if value == 4 { 4i64 } else { -3i64 },
        GameKind::Bowling => if value == 6 { 16i64 } else { -3i64 },
        GameKind::Football => if value == 3 { 1i64 } else if value >= 4 { 5i64 } else { -5i64 },
    }
}

/// The reaction symbol a game kind answers for a raw value.
pub open spec fn spec_reaction(kind: GameKind, value: u8) -> Seq<char> {
    match kind {
        GameKind::SlotMachine => match slot_category((value - 1) as u8) {
            SlotCategory::Jackpot => "🔥"@,
            SlotCategory::Triple => "🎉"@,
            SlotCategory::Pair => "😢"@,
            SlotCategory::Baseline => "🥱"@,
        },
        GameKind::Darts => match value {
            1u8 => "🤡"@,
            2u8 => "🥱"@,
            3u8 => "🤔"@,
            4u8 => "👀"@,
            5u8 => "🙊"@,
            _ => "😎"@,
        },
        GameKind::Basketball => match value {
            1u8 => "🫡"@,
            2u8 => "🥱"@,
            3u8 => "🥴"@,
            4u8 => "🆒"@,
            _ => "🤝"@,
        },
        GameKind::Bowling => match value {
            1u8 => "🌚"@,
            2u8 => "👨‍💻"@,
            3u8 => "🦄"@,
            4u8 => "😨"@,
            5u8 => "🤨"@,
            _ => "🗿"@,
        },
        GameKind::Football => match value {
            1u8 => "🌭"@,
            2u8 => "🐳"@,
            3u8 => "💅"@,
            4u8 => "🙏"@,
            _ => "👏"@,
        },
    }
}

/// Settles a slot-machine spin: decomposes the raw value into three 2-bit
/// reels and scores the spin by its category.
pub fn slot_machine_handler(value: u8) -> (outcome: (&'static str, i64, u64))
    requires
        in_domain(GameKind::SlotMachine, value),
    ensures
        outcome.0@ == spec_reaction(GameKind::SlotMachine, value),
        outcome.1 == spec_score(GameKind::SlotMachine, value),
        outcome.2 == spec_delay(GameKind::SlotMachine),
{
    let raw = value - 1;
    let left = (raw >> 4) & 0b11;
    let middle = (raw >> 2) & 0b11;
    let right = raw & 0b11;

    let (reaction, score): (&'static str, i64) = if left == 3 && middle == 3 && right == 3 {
        ("🔥", 30)
    } else if left == middle && left == right {
        ("🎉", 10)
    } else if left == middle || middle == right || left == right {
        ("😢", -1)
    } else {
        ("🥱", -1)
    };

    (reaction, score, 2)
}

/// Settles a darts throw: a bullseye rewards, anything else costs.
pub fn darts_handler(value: u8) -> (outcome: (&'static str, i64, u64))
    requires
        in_domain(GameKind::Darts, value),
    ensures
        outcome.0@ == spec_reaction(GameKind::Darts, value),
        outcome.1 == spec_score(GameKind::Darts, value),
        outcome.2 == spec_delay(GameKind::Darts),
{
    let (reaction, score): (&'static str, i64) = match value {
        1 => ("🤡", -2),
        2 => ("🥱", -2),
        3 => ("🤔", -2),
        4 => ("👀", -2),
        5 => ("🙊", -2),
        _ => ("😎", 12),
    };

    (reaction, score, 3)
}

/// Settles a basketball throw: the two best values score, the rest cost.
pub fn basketball_handler(value: u8) -> (outcome: (&'static str, i64, u64))
    requires
        in_domain(GameKind::Basketball, value),
    ensures
        outcome.0@ == spec_reaction(GameKind::Basketball, value),
        outcome.1 == spec_score(GameKind::Basketball, value),
        outcome.2 == spec_delay(GameKind::Basketball),
{
    let (reaction, score): (&'static str, i64) = match value {
        1 => ("🫡", -3),
        2 => ("🥱", -3),
        3 => ("🥴", -3),
        4 => ("🆒", 4),
        _ => ("🤝", 6),
    };

    (reaction, score, 4)
}

/// Settles a bowling throw: only a strike pays.
pub fn bowling_handler(value: u8) -> (outcome: (&'static str, i64, u64))
    requires
        in_domain(GameKind::Bowling, value),
    ensures
        outcome.0@ == spec_reaction(GameKind::Bowling, value),
        outcome.1 == spec_score(GameKind::Bowling, value),
        outcome.2 == spec_delay(GameKind::Bowling),
{
    let (reaction, score): (&'static str, i64) = match value {
        1 => ("🌚", -3),
        2 => ("👨‍💻", -3),
        3 => ("🦄", -3),
        4 => ("😨", -3),
        5 => ("🤨", -3),
        _ => ("🗿", 16),
    };

    (reaction, score, 4)
}

/// Settles a football kick: middling values score a little, the best two
/// score more, the worst cost.
pub fn football_handler(value: u8) -> (outcome: (&'static str, i64, u64))
    requires
        in_domain(GameKind::Football, value),
    ensures
        outcome.0@ == spec_reaction(GameKind::Football, value),
        outcome.1 == spec_score(GameKind::Football, value),
        outcome.2 == spec_delay(GameKind::Football),
{
    let (reaction, score): (&'static str, i64) = match value {
        1 => ("🌭", -5),
        2 => ("🐳", -5),
        3 => ("💅", 1),
        4 => ("🙏", 5),
        _ => ("👏", 5),
    };

    (reaction, score, 4)
}

/// Looks up the outcome triple of any game kind for an in-domain raw value.
pub fn game_outcome(kind: GameKind, value: u8) -> (outcome: (&'static str, i64, u64))
    requires
        in_domain(kind, value),
    ensures
        outcome.0@ == spec_reaction(kind, value),
        outcome.1 == spec_score(kind, value),
        outcome.2 == spec_delay(kind),
{
    match kind {
        GameKind::SlotMachine => slot_machine_handler(value),
        GameKind::Darts => darts_handler(value),
        GameKind::Basketball => basketball_handler(value),
        GameKind::Bowling => bowling_handler(value),
        GameKind::Football => football_handler(value),
    }
}

/// Purely additive counters of observed game outcomes: how often each raw
/// value came up, per game kind. Backs the stats query; not needed for the
/// games' own correctness.
#[derive(Clone)]
pub struct GameStats {
    entries: Vec<(GameKind, u8, u64)>,
}

impl GameStats {
    /// The stored (kind, value, count) triples, in insertion order.
    pub closed spec fn triples(self) -> Seq<(GameKind, u8, u64)> {
        self.entries@
    }

    /// Well-formed: no (kind, value) pair is counted twice.
    pub open spec fn wf(self) -> bool {
        forall|i: int, j: int|
            #![trigger self.triples()[i], self.triples()[j]]
            0 <= i < j < self.triples().len() ==> !(self.triples()[i].0 == self.triples()[j].0
                && self.triples()[i].1 == self.triples()[j].1)
    }

    /// Whether an outcome was recorded for this kind and value.
    pub open spec fn has_record(self, kind: GameKind, value: u8) -> bool {
        exists|i: int|
            0 <= i < self.triples().len() && (#[trigger] self.triples()[i]).0 == kind
                && self.triples()[i].1 == value
    }

    /// The index of the record for this kind and value, meaningful when
    /// `has_record`.
    pub open spec fn record_index(self, kind: GameKind, value: u8) -> int {
        choose|i: int|
            0 <= i < self.triples().len() && (#[trigger] self.triples()[i]).0 == kind
                && self.triples()[i].1 == value
    }

    /// How often this kind and raw value was observed.
    pub open spec fn count_of(self, kind: GameKind, value: u8) -> u64 {
        if self.has_record(kind, value) {
            self.triples()[self.record_index(kind, value)].2
        } else {
            0
        }
    }

    /// No outcome observed yet.
    pub fn new() -> (stats: GameStats)
        ensures
            stats.wf(),
            stats.triples() == Seq::<(GameKind, u8, u64)>::empty(),
    {
        GameStats { entries: Vec::new() }
    }

    /// Copies the stored (kind, value, count) triples out, for persistence.
    pub fn to_triples(&self) -> (triples: Vec<(GameKind, u8, u64)>)
        ensures
            triples@ == self.triples(),
    {
        let n = self.entries.len();
        let mut triples: Vec<(GameKind, u8, u64)> = Vec::new();
        let mut i: usize = 0;
        while i < n
            invariant
                n == self.entries@.len(),
                i <= n,
                triples@ == self.entries@.take(i as int),
            decreases n - i,
        {
            triples.push(self.entries[i]);
            proof {
                assert(self.entries@.take(i + 1) =~= self.entries@.take(i as int).push(
                    self.entries@[i as int],
                ));
            }
            i += 1;
        }
        proof {
            assert(self.entries@.take(n as int) =~= self.entries@);
        }
        triples
    }

    /// Rebuilds the statistics from persisted triples. Succeeds exactly
    /// when no (kind, value) pair occurs twice.
    pub fn from_triples(triples: Vec<(GameKind, u8, u64)>) -> (outcome: Option<GameStats>)
        ensures
            outcome matches Some(stats) ==> stats.wf() && stats.triples() == triples@,
            outcome is None ==> !distinct_outcomes(triples@),
            distinct_outcomes(triples@) ==> outcome is Some,
    {
        let n = triples.len();
        let mut i: usize = 0;
        while i < n
            invariant
                n == triples@.len(),
                i <= n,
                forall|a: int, b: int|
                    #![trigger triples@[a], triples@[b]]
                    0 <= a < b < triples@.len() && a < i ==> !(triples@[a].0 == triples@[b].0
                        && triples@[a].1 == triples@[b].1),
            decreases n - i,
        {
            let mut j: usize = i + 1;
            while j < n
                invariant
                    n == triples@.len(),
                    i < j <= n,
                    forall|b: int|
                        i < b < j ==> !((#[trigger] triples@[b]).0 == triples@[i as int].0
                            && triples@[b].1 == triples@[i as int].1),
                decreases n - j,
            {
                let a = triples[i];
                let b = triples[j];
                if a.0 == b.0 && a.1 == b.1 {
                    assert(!distinct_outcomes(triples@));
                    return None;
                }
                j += 1;
            }
            i += 1;
        }
        let stats = GameStats { entries: triples };
        assert(stats.wf());
        Some(stats)
    }

    /// Records one more observation of `value` for `kind`; every other
    /// counter is untouched.
    pub fn record(&mut self, kind: GameKind, value: u8)
        requires
            old(self).wf(),
            old(self).count_of(kind, value) < u64::MAX,
        ensures
            final(self).wf(),
            count_bumped(*old(self), *final(self), kind, value),
    {
        let n = self.entries.len();
        let mut i: usize = 0;
        while i < n
            invariant
                n == self.entries@.len(),
                i <= n,
                forall|j: int|
                    0 <= j < i ==> !((#[trigger] self.entries@[j]).0 == kind
                        && self.entries@[j].1 == value),
                self.wf(),
                *self == *old(self),
                old(self).count_of(kind, value) < u64::MAX,
            decreases n - i,
        {
            let entry = self.entries[i];
            if entry.0 == kind && entry.1 == value {
                proof {
                    self.lemma_record_index_is(i as int, kind, value);
                }
                self.entries.set(i, (kind, value, entry.2 + 1));
                proof {
                    let pre = *old(self);
                    assert(self.wf());
                    self.lemma_record_index_is(i as int, kind, value);
                    assert forall|k: GameKind, v: u8| !(k == kind && v == value)
                        implies self.count_of(k, v) == pre.count_of(k, v) by {
                        self.lemma_other_count_same(pre, i as int, k, v);
                    }
                }
                return;
            }
            i += 1;
        }
        assert(!self.has_record(kind, value));
        self.entries.push((kind, value, 1));
        proof {
            let pre = *old(self);
            let m = pre.triples().len() as int;
            assert forall|i2: int, j2: int|
                #![trigger self.triples()[i2], self.triples()[j2]]
                0 <= i2 < j2 < self.triples().len() implies !(self.triples()[i2].0
                == self.triples()[j2].0 && self.triples()[i2].1 == self.triples()[j2].1) by {
                if j2 < m {
                    assert(pre.triples()[i2] == self.triples()[i2]);
                    assert(pre.triples()[j2] == self.triples()[j2]);
                } else {
                    assert(self.triples()[j2] == (kind, value, 1u64));
                }
            }
            assert(self.triples()[m] == (kind, value, 1u64));
            self.lemma_record_index_is(m, kind, value);
            assert forall|k: GameKind, v: u8| !(k == kind && v == value)
                implies self.count_of(k, v) == pre.count_of(k, v) by {
                self.lemma_other_count_same(pre, m, k, v);
            }
        }
    }

    /// In well-formed stats, an index holding (kind, value) is the record
    /// index, so the count read there is the one `count_of` answers.
    proof fn lemma_record_index_is(self, i: int, kind: GameKind, value: u8)
        requires
            self.wf(),
            0 <= i < self.triples().len(),
            self.triples()[i].0 == kind,
            self.triples()[i].1 == value,
        ensures
            self.has_record(kind, value),
            self.record_index(kind, value) == i,
            self.count_of(kind, value) == self.triples()[i].2,
    {
        assert(self.has_record(kind, value));
        let j = self.record_index(kind, value);
        if i != j {
            assert(!(self.triples()[i].0 == self.triples()[j].0 && self.triples()[i].1
                == self.triples()[j].1));
        }
    }

    /// A change confined to the record of one (kind, value) pair leaves
    /// every other counter as it was.
    proof fn lemma_other_count_same(self, pre: GameStats, i: int, k: GameKind, v: u8)
        requires
            pre.wf(),
            self.wf(),
            0 <= i < self.triples().len(),
            pre.triples().len() <= self.triples().len(),
            forall|j: int|
                0 <= j < pre.triples().len() && j != i ==> pre.triples()[j] == #[trigger] self.triples()[j],
            self.triples().len() > pre.triples().len() ==> i == pre.triples().len()
                && self.triples().len() == pre.triples().len() + 1,
            !(self.triples()[i].0 == k && self.triples()[i].1 == v),
            i < pre.triples().len() ==> !(pre.triples()[i].0 == k && pre.triples()[i].1 == v),
        ensures
            self.count_of(k, v) == pre.count_of(k, v),
    {
        if pre.has_record(k, v) {
            let j = pre.record_index(k, v);
            assert(j != i);
            assert(self.triples()[j].0 == k && self.triples()[j].1 == v);
            self.lemma_record_index_is(j, k, v);
        } else {
            assert(!self.has_record(k, v)) by {
                if self.has_record(k, v) {
                    let j = self.record_index(k, v);
                    assert(j != i);
                    assert(pre.triples()[j].0 == k && pre.triples()[j].1 == v);
                }
            }
        }
    }
}

/// One entry per (kind, value) pair in a sequence of stat triples.
pub open spec fn distinct_outcomes(triples: Seq<(GameKind, u8, u64)>) -> bool {
    forall|a: int, b: int|
        #![trigger triples[a], triples[b]]
        0 <= a < b < triples.len() ==> !(triples[a].0 == triples[b].0 && triples[a].1
            == triples[b].1)
}

/// The (value, count) pairs that a sequence of stat triples records for
/// `kind`, in storage order.
pub open spec fn stats_of(s: Seq<(GameKind, u8, u64)>, kind: GameKind) -> Seq<(u8, u64)>
    decreases s.len(),
{
    if s.len() == 0 {
        Seq::empty()
    } else {
        let rest = stats_of(s.drop_last(), kind);
        if s.last().0 == kind {
            rest.push((s.last().1, s.last().2))
        } else {
            rest
        }
    }
}

/// The display order of a stats listing: ascending raw value, ties broken
/// by ascending count. A total order.
pub open spec fn stat_leq(a: (u8, u64), b: (u8, u64)) -> bool {
    a.0 < b.0 || (a.0 == b.0 && a.1 <= b.1)
}

/// `stat_leq` as a first-class relation.
pub open spec fn stat_order() -> spec_fn((u8, u64), (u8, u64)) -> bool {
    |a: (u8, u64), b: (u8, u64)| stat_leq(a, b)
}

/// Inserts one stat pair into a listing sorted by `stat_order`, keeping it
/// sorted; the contents grow by exactly that pair.
fn insert_stat(out: &mut Vec<(u8, u64)>, x: (u8, u64))
    requires
        vstd::relations::sorted_by(old(out)@, stat_order()),
    ensures
        vstd::relations::sorted_by(final(out)@, stat_order()),
        final(out)@.to_multiset() == old(out)@.to_multiset().insert(x),
{
    broadcast use vstd::seq_lib::group_to_multiset_ensures;

    let n = out.len();
    let mut k: usize = 0;
    while k < n && (out[k].0 < x.0 || (out[k].0 == x.0 && out[k].1 <= x.1))
        invariant
            n == out@.len(),
            k <= n,
            forall|j: int| 0 <= j < k ==> stat_leq(#[trigger] out@[j], x),
        decreases n - k,
    {
        k += 1;
    }
    out.insert(k, x);
    assert(vstd::relations::sorted_by(out@, stat_order())) by {
        let pre = old(out)@;
        let post = out@;
        let r = stat_order();
        assert forall|i: int, j: int| 0 <= i < j < post.len() implies #[trigger] r(post[i], post[j]) by {
            if j < k {
                assert(r(pre[i], pre[j]));
            } else if i < k && j == k {
                assert(stat_leq(pre[i], x));
            } else if i < k && j > k {
                assert(r(pre[i], pre[j - 1]));
            } else if i == k {
                assert(post[j] == pre[j - 1]);
                if k < n {
                    assert(!stat_leq(pre[k as int], x));
                    assert(r(x, pre[k as int]));
                    if j - 1 > k {
                        assert(r(pre[k as int], pre[j - 1]));
                    }
                }
            } else {
                assert(r(pre[i - 1], pre[j - 1]));
            }
        }
    }
}

impl GameStats {
    /// The recorded (value, count) pairs of one game kind, sorted by
    /// ascending raw value, for the stats query.
    pub fn stats_for(&self, kind: GameKind) -> (listing: Vec<(u8, u64)>)
        requires
            self.wf(),
        ensures
            vstd::relations::sorted_by(listing@, stat_order()),
            listing@.to_multiset() == stats_of(self.triples(), kind).to_multiset(),
    {
        broadcast use vstd::seq_lib::group_to_multiset_ensures;

        let n = self.entries.len();
        let mut out: Vec<(u8, u64)> = Vec::new();
        let mut i: usize = 0;
        assert(self.triples().take(0) =~= Seq::<(GameKind, u8, u64)>::empty());
        while i < n
            invariant
                n == self.entries@.len(),
                i <= n,
                vstd::relations::sorted_by(out@, stat_order()),
                out@.to_multiset() == stats_of(self.triples().take(i as int), kind).to_multiset(),
            decreases n - i,
        {
            let entry = self.entries[i];
            proof {
                assert(self.triples().take(i + 1).drop_last() =~= self.triples().take(i as int));
                assert(self.triples().take(i + 1).last() == self.triples()[i as int]);
            }
            if entry.0 == kind {
                insert_stat(&mut out, (entry.1, entry.2));
                proof {
                    vstd::seq_lib::to_multiset_build(
                        stats_of(self.triples().take(i as int), kind),
                        (entry.1, entry.2),
                    );
                }
            }
            i += 1;
        }
        proof {
            assert(self.triples().take(n as int) =~= self.triples());
        }
        out
    }
}

/// `post` is `pre` with one more observation of `value` under `kind`: that
/// counter grew by one and every other counter is unchanged.
pub open spec fn count_bumped(pre: GameStats, post: GameStats, kind: GameKind, value: u8) -> bool {
    &&& post.count_of(kind, value) == pre.count_of(kind, value) + 1
    &&& forall|k: GameKind, v: u8|
        !(k == kind && v == value) ==> #[trigger] post.count_of(k, v) == pre.count_of(k, v)
}

/// Minimum balance required to play a mini-game.
pub const MIN_PLAY_STAKE: i64 = 1;

/// What settling a mini-game throw came to.
#[derive(Debug)]
pub enum PlayOutcome {
    /// The player's balance is below the minimum stake: no outcome is
    /// recorded, nothing is paid, and the triggering message is removed.
    RefusedBroke,
    /// The throw was settled: show `reaction` after `reveal_delay` seconds.
    Played { reaction: &'static str, reveal_delay: u64 },
}

/// Settles one mini-game throw against the conversation state: a player
/// below the minimum stake is refused untouched; otherwise the outcome is
/// recorded in the statistics, the table's score delta is applied to the
/// player's balance, and the reaction with its reveal delay is returned.
pub fn play_game(
    state: &mut crate::state::State,
    player: u64,
    kind: GameKind,
    value: u8,
) -> (outcome: PlayOutcome)
    requires
        old(state).wf(),
        in_domain(kind, value),
        old(state).stats.count_of(kind, value) < u64::MAX,
        i64::MIN <= old(state).ledger.balance_of(player) + spec_score(kind, value) <= i64::MAX,
    ensures
        final(state).wf(),
        final(state).round == old(state).round,
        old(state).ledger.balance_of(player) < MIN_PLAY_STAKE ==> (outcome is RefusedBroke
            && *final(state) == *old(state)),
        old(state).ledger.balance_of(player) >= MIN_PLAY_STAKE ==> ({
            &&& outcome matches PlayOutcome::Played { reaction, reveal_delay }
            &&& reaction@ == spec_reaction(kind, value)
            &&& reveal_delay == spec_delay(kind)
            &&& crate::ledger::delta_applied(
                old(state).ledger,
                final(state).ledger,
                player,
                spec_score(kind, value) as int,
            )
            &&& count_bumped(old(state).stats, final(state).stats, kind, value)
        }),
{
    if state.get(player) < MIN_PLAY_STAKE {
        return PlayOutcome::RefusedBroke;
    }
    state.register_game_result(kind, value);
    let (reaction, score, reveal_delay) = game_outcome(kind, value);
    state.insert(player, score);
    PlayOutcome::Played { reaction, reveal_delay }
}

/// The outcome table of the slot machine is total on its domain: every raw
/// value in 0..=63 falls in one of the four categories, and the jackpot
/// category holds exactly the raw value 63.
pub proof fn lemma_slot_table_total(raw: u8)
    requires
        raw < 64,
    ensures
        slot_category(raw) is Jackpot <==> raw == 63,
        slot_category(raw) is Jackpot || slot_category(raw) is Triple || slot_category(raw)
            is Pair || slot_category(raw) is Baseline,
{
    assert(((raw >> 4) & 3 == 3 && (raw >> 2) & 3 == 3 && raw & 3 == 3) <==> raw == 63)
        by (bit_vector)
        requires
            raw < 64,
    ;
}

} // verus!
