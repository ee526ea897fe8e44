//! The per-player money ledger: a mapping from player id to signed balance.
//!
//! Players that were never seen hold the configured default balance; a
//! balance may go negative, no floor is enforced. The ledger also produces
//! the ranked listing behind the leaderboard command.

use vstd::prelude::*;
use vstd::relations::sorted_by;
use vstd::relations::total_ordering;
use vstd::seq_lib::lemma_sorted_unique;

verus! {

/// Balance granted to a player on first reference.
pub const DEFAULT_BALANCE: i64 = 100;

/// Mapping from player id to money, stored as a vector of pairs with
/// pairwise-distinct player ids.
#[derive(Clone)]
pub struct Ledger {
    entries: Vec<(u64, i64)>,
}

impl Ledger {
    /// The stored (player, balance) pairs, in insertion order.
    pub closed spec fn pairs(self) -> Seq<(u64, i64)> {
        self.entries@
    }

    /// Well-formed: no player id occurs twice.
    pub open spec fn wf(self) -> bool {
        forall|i: int, j: int|
            #![trigger self.pairs()[i], self.pairs()[j]]
            0 <= i < j < self.pairs().len() ==> self.pairs()[i].0 != self.pairs()[j].0
    }

    /// Whether the ledger holds an explicit entry for `player`.
    pub open spec fn has_player(self, player: u64) -> bool {
        exists|i: int| 0 <= i < self.pairs().len() && (#[trigger] self.pairs()[i]).0 == player
    }

    /// The index of the entry for `player`, meaningful when `has_player`.
    pub open spec fn entry_index(self, player: u64) -> int {
        choose|i: int| 0 <= i < self.pairs().len() && (#[trigger] self.pairs()[i]).0 == player
    }

    /// The balance the ledger answers for `player`: the stored one, or the
    /// default for a player never seen before.
    pub open spec fn balance_of(self, player: u64) -> i64 {
        if self.has_player(player) {
            self.pairs()[self.entry_index(player)].1
        } else {
            DEFAULT_BALANCE
        }
    }

    /// An empty ledger: every player is at the default balance.
    pub fn new() -> (ledger: Ledger)
        ensures
            ledger.wf(),
            ledger.pairs() == Seq::<(u64, i64)>::empty(),
    {
        Ledger { entries: Vec::new() }
    }

    /// Copies the stored (player, balance) pairs out, for persistence.
    pub fn to_pairs(&self) -> (pairs: Vec<(u64, i64)>)
        ensures
            pairs@ == self.pairs(),
    {
        let n = self.entries.len();
        let mut pairs: Vec<(u64, i64)> = Vec::new();
        let mut i: usize = 0;
        while i < n
            invariant
                n == self.entries@.len(),
                i <= n,
                pairs@ == self.entries@.take(i as int),
            decreases n - i,
        {
            pairs.push(self.entries[i]);
            proof {
                assert(self.entries@.take(i + 1) =~= self.entries@.take(i as int).push(
                    self.entries@[i as int],
                ));
            }
            i += 1;
        }
        proof {
            assert(self.entries@.take(n as int) =~= self.entries@);
        }
        pairs
    }

    /// Rebuilds a ledger from persisted pairs. Succeeds exactly when no
    /// player id occurs twice; the stored balances are taken as they are.
    pub fn from_pairs(pairs: Vec<(u64, i64)>) -> (outcome: Option<Ledger>)
        ensures
            outcome matches Some(ledger) ==> ledger.wf() && ledger.pairs() == pairs@,
            outcome is None ==> !distinct_players(pairs@),
            distinct_players(pairs@) ==> outcome is Some,
    {
        let n = pairs.len();
        let mut i: usize = 0;
        while i < n
            invariant
                n == pairs@.len(),
                i <= n,
                forall|a: int, b: int|
                    #![trigger pairs@[a], pairs@[b]]
                    0 <= a < b < pairs@.len() && a < i ==> pairs@[a].0 != pairs@[b].0,
            decreases n - i,
        {
            let mut j: usize = i + 1;
            while j < n
                invariant
                    n == pairs@.len(),
                    i < j <= n,
                    forall|b: int| i < b < j ==> (#[trigger] pairs@[b]).0 != pairs@[i as int].0,
                decreases n - j,
            {
                if pairs[j].0 == pairs[i].0 {
                    assert(!distinct_players(pairs@));
                    return None;
                }
                j += 1;
            }
            i += 1;
        }
        let ledger = Ledger { entries: pairs };
        assert(ledger.wf());
        Some(ledger)
    }

    /// Returns the stored balance of `player`, or the default if the player
    /// was never seen. Never fails.
    pub fn get_balance(&self, player: u64) -> (balance: i64)
        requires
            self.wf(),
        ensures
            balance == self.balance_of(player),
    {
        let n = self.entries.len();
        let mut i: usize = 0;
        while i < n
            invariant
                n == self.entries@.len(),
                i <= n,
                forall|j: int| 0 <= j < i ==> (#[trigger] self.entries@[j]).0 != player,
                self.wf(),
            decreases n - i,
        {
            if self.entries[i].0 == player {
                proof {
                    self.lemma_entry_index_is(i as int, player);
                }
                return self.entries[i].1;
            }
            i += 1;
        }
        assert(!self.has_player(player));
        DEFAULT_BALANCE
    }

    /// Adds `delta` to the balance of `player`: the balance becomes
    /// `balance_of(player) + delta`, creating the entry from the default
    /// balance for a player never seen. Every other player is untouched.
    pub fn apply_delta(&mut self, player: u64, delta: i64)
        requires
            old(self).wf(),
            i64::MIN <= old(self).balance_of(player) + delta <= i64::MAX,
        ensures
            final(self).wf(),
            delta_applied(*old(self), *final(self), player, delta as int),
    {
        let n = self.entries.len();
        let mut i: usize = 0;
        while i < n
            invariant
                n == self.entries@.len(),
                i <= n,
                forall|j: int| 0 <= j < i ==> (#[trigger] self.entries@[j]).0 != player,
                self.wf(),
                *self == *old(self),
                i64::MIN <= old(self).balance_of(player) + delta <= i64::MAX,
            decreases n - i,
        {
            if self.entries[i].0 == player {
                proof {
                    self.lemma_entry_index_is(i as int, player);
                }
                let updated = self.entries[i].1 + delta;
                self.entries.set(i, (player, updated));
                proof {
                    self.lemma_update_effect(*old(self), i as int, player, delta);
                }
                return;
            }
            i += 1;
        }
        assert(!self.has_player(player));
        self.entries.push((player, DEFAULT_BALANCE + delta));
        proof {
            self.lemma_push_effect(*old(self), player, delta);
        }
    }

    /// Updating the entry at the index of `player` in place changes that
    /// player's balance alone and keeps the ledger well-formed.
    proof fn lemma_update_effect(self, pre: Ledger, i: int, player: u64, delta: i64)
        requires
            pre.wf(),
            0 <= i < pre.pairs().len(),
            pre.pairs()[i].0 == player,
            self.pairs() == pre.pairs().update(i, (player, (pre.pairs()[i].1 + delta) as i64)),
            i64::MIN <= pre.pairs()[i].1 + delta <= i64::MAX,
        ensures
            self.wf(),
            delta_applied(pre, self, player, delta as int),
    {
        pre.lemma_entry_index_is(i, player);
        assert(self.wf());
        self.lemma_entry_index_is(i, player);
        assert forall|q: u64| q != player implies self.balance_of(q) == pre.balance_of(q) by {
            if pre.has_player(q) {
                let k = pre.entry_index(q);
                assert(self.pairs()[k].0 == q);
                self.lemma_entry_index_is(k, q);
            } else {
                assert(!self.has_player(q)) by {
                    if self.has_player(q) {
                        let k = self.entry_index(q);
                        assert(pre.pairs()[k].0 == q);
                    }
                }
            }
        }
    }

    /// Appending an entry for a player the ledger does not hold changes that
    /// player's balance alone and keeps the ledger well-formed.
    proof fn lemma_push_effect(self, pre: Ledger, player: u64, delta: i64)
        requires
            pre.wf(),
            !pre.has_player(player),
            i64::MIN <= DEFAULT_BALANCE + delta <= i64::MAX,
            self.pairs() == pre.pairs().push((player, (DEFAULT_BALANCE + delta) as i64)),
        ensures
            self.wf(),
            delta_applied(pre, self, player, delta as int),
    {
        let n = pre.pairs().len() as int;
        assert forall|i: int, j: int|
            #![trigger self.pairs()[i], self.pairs()[j]]
            0 <= i < j < self.pairs().len() implies self.pairs()[i].0 != self.pairs()[j].0 by {
            if j < n {
                assert(pre.pairs()[i].0 != pre.pairs()[j].0);
            } else {
                assert(self.pairs()[j].0 == player);
                assert(pre.pairs()[i].0 != player);
            }
        }
        assert(self.pairs()[n].0 == player);
        self.lemma_entry_index_is(n, player);
        assert forall|q: u64| q != player implies self.balance_of(q) == pre.balance_of(q) by {
            if pre.has_player(q) {
                let k = pre.entry_index(q);
                assert(self.pairs()[k].0 == q);
                self.lemma_entry_index_is(k, q);
            } else {
                assert(!self.has_player(q)) by {
                    if self.has_player(q) {
                        let k = self.entry_index(q);
                        assert(0 <= k < n && pre.pairs()[k].0 == q);
                    }
                }
            }
        }
    }

    /// In a well-formed ledger, an index holding `player` is the entry index,
    /// so the balance read there is the one `balance_of` answers.
    proof fn lemma_entry_index_is(self, i: int, player: u64)
        requires
            self.wf(),
            0 <= i < self.pairs().len(),
            self.pairs()[i].0 == player,
        ensures
            self.has_player(player),
            self.entry_index(player) == i,
            self.balance_of(player) == self.pairs()[i].1,
    {
        assert(self.has_player(player));
        let j = self.entry_index(player);
        assert(0 <= j < self.pairs().len() && self.pairs()[j].0 == player);
        if i != j {
            assert(self.pairs()[i].0 != self.pairs()[j].0);
        }
    }
}

/// One entry per player id in a sequence of (player, balance) pairs.
pub open spec fn distinct_players(pairs: Seq<(u64, i64)>) -> bool {
    forall|a: int, b: int|
        #![trigger pairs[a], pairs[b]]
        0 <= a < b < pairs.len() ==> pairs[a].0 != pairs[b].0
}

/// The leaderboard order on (player, balance) pairs: higher balance first,
/// ties broken by ascending player id. A total order, so the ranked listing
/// of a well-formed ledger is unique.
pub open spec fn ranked_leq(a: (u64, i64), b: (u64, i64)) -> bool {
    a.1 > b.1 || (a.1 == b.1 && a.0 <= b.0)
}

/// `ranked_leq` as a first-class relation, so that every use names the same
/// function value.
pub open spec fn ranked_order() -> spec_fn((u64, i64), (u64, i64)) -> bool {
    |a: (u64, i64), b: (u64, i64)| ranked_leq(a, b)
}

/// The leaderboard order is a total order.
pub proof fn lemma_ranked_order_total()
    ensures
        total_ordering(ranked_order()),
{
    let r = ranked_order();
    assert forall|x: (u64, i64)| #[trigger] r(x, x) by {}
    assert forall|x: (u64, i64), y: (u64, i64)| #[trigger] r(x, y) && #[trigger] r(y, x) implies x == y by {}
    assert forall|x: (u64, i64), y: (u64, i64), z: (u64, i64)|
        #[trigger] r(x, y) && #[trigger] r(y, z) implies r(x, z) by {}
    assert forall|x: (u64, i64), y: (u64, i64)| #[trigger] r(x, y) || #[trigger] r(y, x) by {}
}

/// Inserts `x` into a vector sorted by the leaderboard order, keeping it
/// sorted; the contents grow by exactly `x`.
fn insert_ranked(out: &mut Vec<(u64, i64)>, x: (u64, i64))
    requires
        sorted_by(old(out)@, ranked_order()),
    ensures
        sorted_by(final(out)@, ranked_order()),
        final(out)@.to_multiset() == old(out)@.to_multiset().insert(x),
{
    broadcast use vstd::seq_lib::group_to_multiset_ensures;

    let n = out.len();
    let mut k: usize = 0;
    while k < n && (out[k].1 > x.1 || (out[k].1 == x.1 && out[k].0 <= x.0))
        invariant
            n == out@.len(),
            k <= n,
            forall|j: int| 0 <= j < k ==> ranked_leq(#[trigger] out@[j], x),
        decreases n - k,
    {
        k += 1;
    }
    proof {
        lemma_ranked_order_total();
    }
    out.insert(k, x);
    assert(sorted_by(out@, ranked_order())) by {
        let pre = old(out)@;
        let post = out@;
        let r = ranked_order();
        assert forall|i: int, j: int| 0 <= i < j < post.len() implies #[trigger] r(post[i], post[j]) by {
            if j < k {
                assert(r(pre[i], pre[j]));
            } else if i < k && j == k {
                assert(ranked_leq(pre[i], x));
            } else if i < k && j > k {
                assert(r(pre[i], pre[j - 1]));
            } else if i == k {
                // x goes before every element from position k on
                assert(post[j] == pre[j - 1]);
                if k < n {
                    assert(!ranked_leq(pre[k as int], x));
                    assert(r(x, pre[k as int]));
                    if j - 1 > k {
                        assert(r(pre[k as int], pre[j - 1]));
                    }
                }
            } else {
                assert(r(pre[i - 1], pre[j - 1]));
            }
        }
    }
}

impl Ledger {
    /// The pairs of the ledger arranged in the leaderboard order. Because
    /// the order is total and player ids are distinct, this sequence is the
    /// unique sorted arrangement of the ledger's contents.
    pub open spec fn ranked_seq(self) -> Seq<(u64, i64)> {
        self.pairs().sort_by(ranked_order())
    }

    /// Returns every (player, balance) pair, sorted by descending balance,
    /// ties broken by ascending player id. Re-running on an unchanged ledger
    /// returns the same listing.
    pub fn ranked_full(&self) -> (listing: Vec<(u64, i64)>)
        requires
            self.wf(),
        ensures
            listing@ == self.ranked_seq(),
            sorted_by(listing@, ranked_order()),
    {
        broadcast use vstd::seq_lib::group_to_multiset_ensures;

        let n = self.entries.len();
        let mut out: Vec<(u64, i64)> = Vec::new();
        let mut i: usize = 0;
        assert(self.pairs().take(0) =~= Seq::<(u64, i64)>::empty());
        while i < n
            invariant
                n == self.entries@.len(),
                i <= n,
                sorted_by(out@, ranked_order()),
                out@.to_multiset() == self.pairs().take(i as int).to_multiset(),
            decreases n - i,
        {
            let x = self.entries[i];
            insert_ranked(&mut out, x);
            proof {
                assert(self.pairs().take(i + 1) =~= self.pairs().take(i as int).push(x));
                vstd::seq_lib::to_multiset_build(self.pairs().take(i as int), x);
            }
            i += 1;
        }
        proof {
            assert(self.pairs().take(n as int) =~= self.pairs());
            lemma_ranked_order_total();
            self.pairs().lemma_sort_by_ensures(ranked_order());
            lemma_sorted_unique(out@, self.ranked_seq(), ranked_order());
            assert(out@ == self.ranked_seq());
        }
        out
    }

    /// The ranked listing truncated to the first `limit` places: the
    /// leaderboard shown in chat.
    pub fn ranked_listing(&self, limit: usize) -> (listing: Vec<(u64, i64)>)
        requires
            self.wf(),
        ensures
            listing@ == self.ranked_seq().take(vstd::math::min(limit as int, self.pairs().len() as int)),
            sorted_by(listing@, ranked_order()),
    {
        broadcast use vstd::seq_lib::group_to_multiset_ensures;

        let mut out = self.ranked_full();
        proof {
            lemma_ranked_order_total();
            self.pairs().lemma_sort_by_ensures(ranked_order());
            assert(self.ranked_seq().len() == self.ranked_seq().to_multiset().len());
            assert(self.ranked_seq().len() == self.pairs().len());
        }
        if limit < out.len() {
            out.truncate(limit);
            proof {
                let full = self.ranked_seq();
                let r = ranked_order();
                assert forall|i: int, j: int| 0 <= i < j < out@.len() implies #[trigger] r(out@[i], out@[j]) by {
                    assert(r(full[i], full[j]));
                }
            }
        } else {
            proof {
                assert(self.ranked_seq().take(self.ranked_seq().len() as int) =~= self.ranked_seq());
            }
        }
        out
    }
}

/// `post` is `pre` with `delta` applied to `player`'s balance: that balance
/// moved by exactly `delta` and every other player's balance is unchanged.
pub open spec fn delta_applied(pre: Ledger, post: Ledger, player: u64, delta: int) -> bool {
    &&& post.balance_of(player) == pre.balance_of(player) + delta
    &&& forall|q: u64| q != player ==> #[trigger] post.balance_of(q) == pre.balance_of(q)
}

/// The ranked listing is stable: any two listings that arrange the same
/// ledger contents in the leaderboard order are the same listing, so
/// re-running the leaderboard on an unchanged ledger cannot reorder it.
pub proof fn lemma_ranked_listing_unique(a: Seq<(u64, i64)>, b: Seq<(u64, i64)>)
    requires
        sorted_by(a, ranked_order()),
        sorted_by(b, ranked_order()),
        a.to_multiset() == b.to_multiset(),
    ensures
        a == b,
{
    lemma_ranked_order_total();
    lemma_sorted_unique(a, b, ranked_order());
}

/// A player the ledger has never seen is answered exactly the configured
/// default balance; the default is fixed once, not drawn per call.
pub proof fn lemma_default_balance(ledger: Ledger, player: u64)
    requires
        !ledger.has_player(player),
    ensures
        ledger.balance_of(player) == DEFAULT_BALANCE,
{
}

/// Applying `d1` and then `d2` to the same player leaves every balance equal
/// to what applying `d1 + d2` in a single step leaves.
pub proof fn lemma_apply_delta_associative(
    base: Ledger,
    once: Ledger,
    twice: Ledger,
    combined: Ledger,
    player: u64,
    d1: int,
    d2: int,
)
    requires
        delta_applied(base, once, player, d1),
        delta_applied(once, twice, player, d2),
        delta_applied(base, combined, player, d1 + d2),
    ensures
        forall|q: u64| #[trigger] twice.balance_of(q) == combined.balance_of(q),
{
}

} // verus!
