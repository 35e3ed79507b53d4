//! The bid book: a fixed-capacity registry of active bids for one auction.
//!
//! Occupied slots obey three structural invariants, captured by
//! [`bids_wf`]: no bidder occupies two slots, every escrowed amount is
//! positive, and the recency ranks (`order`) of the occupied slots form
//! exactly the dense set `{1, ..., active_count}`.

use vstd::prelude::*;

use crate::error::BiddingError;
use crate::funds::{occ_count, sum_amounts};

verus! {

/// Number of bid slots in every auction's book (the capacity N).
pub const MAX_BIDS: usize = 10;

/// The sentinel identity marking an empty slot; no real party carries it.
pub const NO_BIDDER: u64 = 0;

/// One slot of the bid book: empty (sentinel bidder) or an active bid.
#[derive(Clone, Copy, Debug, PartialEq, Eq)]
pub struct Bid {
    /// Identity of the party who placed the bid; `NO_BIDDER` when empty.
    pub bidder: u64,
    /// Funds escrowed for this bid; positive for any occupied slot.
    pub amount: u64,
    /// Recency rank: occupied slots hold exactly `{1, ..., active_count}`,
    /// higher meaning more recently placed or revised.
    pub order: usize,
}

/// The per-asset auction record: the bid book plus the funds held in
/// custody on its behalf.
#[derive(Clone, Debug, PartialEq, Eq)]
pub struct Auction {
    /// The party who created the auction and receives its proceeds.
    pub owner: u64,
    /// Identity of the unique asset under auction.
    pub asset_id: u64,
    /// The fixed-length array of bid slots.
    pub bids: Vec<Bid>,
    /// Number of occupied slots, between 0 and `MAX_BIDS`.
    pub active_count: usize,
    /// The rank the next inserted or revised bid would take; always
    /// `active_count + 1`.
    pub next_order: usize,
    /// Funds currently held in custody for this auction: always the sum of
    /// the escrowed amounts of the occupied slots.
    pub custody: u64,
}

/// Whether a slot holds an active bid.
pub open spec fn occupied(b: Bid) -> bool {
    b.bidder != NO_BIDDER
}

/// The empty slot value.
pub open spec fn spec_empty_bid() -> Bid {
    Bid { bidder: NO_BIDDER, amount: 0, order: 0 }
}

/// Whether `bidder` holds an occupied slot of `s`.
pub open spec fn spec_has_bid(s: Seq<Bid>, bidder: u64) -> bool {
    exists|i: int| 0 <= i < s.len() && occupied(#[trigger] s[i]) && s[i].bidder == bidder
}

/// The index of `bidder`'s slot in `s`; meaningful only when
/// `spec_has_bid(s, bidder)` holds (and then unique, by well-formedness).
pub open spec fn spec_bid_index(s: Seq<Bid>, bidder: u64) -> int {
    choose|i: int| 0 <= i < s.len() && occupied(#[trigger] s[i]) && s[i].bidder == bidder
}

/// The amount `bidder` currently has escrowed in `s`, or 0 without a bid.
pub open spec fn spec_current_amount(s: Seq<Bid>, bidder: u64) -> int {
    if spec_has_bid(s, bidder) {
        s[spec_bid_index(s, bidder)].amount as int
    } else {
        0
    }
}

/// Whether some occupied slot of `s` carries the rank `k`.
pub open spec fn has_order(s: Seq<Bid>, k: int) -> bool {
    exists|i: int| 0 <= i < s.len() && occupied(#[trigger] s[i]) && s[i].order == k
}

/// Structural well-formedness of a bid array holding `count` active bids:
/// full fixed length, empty slots fully zeroed, positive amounts, unique
/// bidders, and ranks that form exactly `{1, ..., count}`.
pub open spec fn bids_wf(s: Seq<Bid>, count: int) -> bool {
    &&& s.len() == MAX_BIDS
    &&& 0 <= count <= MAX_BIDS
    &&& occ_count(s) == count
    &&& forall|i: int| 0 <= i < s.len() && !occupied(#[trigger] s[i]) ==> s[i] == spec_empty_bid()
    &&& forall|i: int|
        0 <= i < s.len() && occupied(#[trigger] s[i]) ==> 0 < s[i].amount && 1 <= s[i].order
            <= count
    &&& forall|i: int, j: int|
        0 <= i < s.len() && 0 <= j < s.len() && i != j && occupied(#[trigger] s[i]) && occupied(
            #[trigger] s[j],
        ) ==> s[i].bidder != s[j].bidder && s[i].order != s[j].order
    &&& forall|k: int| 1 <= k <= count ==> #[trigger] has_order(s, k)
}

/// A slot as it stands after the rank `cut` is retired: every occupied
/// slot more recent than `cut` moves down one rank, the rest are unchanged.
pub open spec fn shifted_down(b: Bid, cut: int) -> Bid {
    if occupied(b) && b.order > cut {
        Bid { bidder: b.bidder, amount: b.amount, order: (b.order - 1) as usize }
    } else {
        b
    }
}

/// The book after an in-place revision of slot `i` to `amount`: slot `i`
/// becomes the most recent bid (rank `count`), every slot that was more
/// recent than slot `i`'s old rank moves down one, all else is unchanged.
pub open spec fn spec_rebid(s: Seq<Bid>, i: int, amount: u64, count: int) -> Seq<Bid> {
    Seq::new(
        s.len(),
        |j: int|
            if j == i {
                Bid { bidder: s[i].bidder, amount, order: count as usize }
            } else {
                shifted_down(s[j], s[i].order as int)
            },
    )
}

/// The book after slot `i` is removed: the slot reverts to the sentinel
/// and every occupied slot more recent than it moves down one rank.
pub open spec fn spec_removed(s: Seq<Bid>, i: int) -> Seq<Bid> {
    Seq::new(
        s.len(),
        |j: int|
            if j == i {
                spec_empty_bid()
            } else {
                shifted_down(s[j], s[i].order as int)
            },
    )
}

/// The lowest empty slot index of `s`; meaningful only when an empty slot
/// exists.
pub open spec fn first_empty(s: Seq<Bid>) -> int {
    choose|i: int|
        0 <= i < s.len() && !occupied(s[i]) && (forall|j: int|
            0 <= j < i ==> occupied(#[trigger] s[j]))
}

/// The book after a new bid enters the lowest empty slot with the next
/// rank, `count + 1`.
pub open spec fn spec_inserted(s: Seq<Bid>, bidder: u64, amount: u64, count: int) -> Seq<Bid> {
    s.update(first_empty(s), Bid { bidder, amount, order: (count + 1) as usize })
}

/// The book after `upsert_bid(bidder, amount)` succeeds on a book holding
/// `count` active bids: a revision in place if the bidder is on file, an
/// insertion into the lowest empty slot otherwise.
pub open spec fn spec_upserted(s: Seq<Bid>, bidder: u64, amount: u64, count: int) -> Seq<Bid> {
    if spec_has_bid(s, bidder) {
        spec_rebid(s, spec_bid_index(s, bidder), amount, count)
    } else {
        spec_inserted(s, bidder, amount, count)
    }
}

/// Whether bid `a` is at least as good as bid `b`: strictly more
/// escrowed, or equally much with an older (smaller) rank.
pub open spec fn leads(a: Bid, b: Bid) -> bool {
    a.amount > b.amount || (a.amount == b.amount && a.order <= b.order)
}

/// Whether slot `i` currently leads `s`: occupied and at least as good as
/// every occupied slot.
pub open spec fn is_top_bid(s: Seq<Bid>, i: int) -> bool {
    &&& 0 <= i < s.len()
    &&& occupied(s[i])
    &&& forall|j: int| 0 <= j < s.len() && occupied(#[trigger] s[j]) ==> leads(s[i], s[j])
}

/// Law: in every well-formed book the recency ranks of the occupied
/// slots form exactly the dense set `{1, ..., active_count}` — a rank is
/// held iff it lies in that range — and no rank is held twice. Every
/// mutation of the book ensures well-formedness, so this holds after any
/// sequence of successful insertions, revisions and removals.
pub proof fn lemma_orders_dense(a: Auction)
    requires
        a.book_wf(),
    ensures
        forall|k: int| #[trigger] has_order(a.bids@, k) <==> 1 <= k <= a.active_count,
        forall|i: int, j: int|
            0 <= i < a.bids@.len() && 0 <= j < a.bids@.len() && i != j && occupied(
                #[trigger] a.bids@[i],
            ) && occupied(#[trigger] a.bids@[j]) ==> a.bids@[i].order != a.bids@[j].order,
{
    assert forall|k: int| #[trigger] has_order(a.bids@, k) implies 1 <= k <= a.active_count by {
        let w = choose|i: int|
            0 <= i < a.bids@.len() && occupied(a.bids@[i]) && a.bids@[i].order == k;
        assert(occupied(a.bids@[w]));
    }
}

/// Law: the rank counter always sits one past the number of active bids,
/// so ranks are assigned without gaps even across removals.
pub proof fn lemma_next_order_tracks_count(a: Auction)
    requires
        a.book_wf(),
    ensures
        a.next_order == a.active_count + 1,
{
}

/// Law: the leader is unique — any two slots that both lead the book are
/// the same slot. Equal top amounts are split by rank, and ranks never
/// repeat.
pub proof fn lemma_top_bid_unique(a: Auction, i: int, j: int)
    requires
        a.book_wf(),
        is_top_bid(a.bids@, i),
        is_top_bid(a.bids@, j),
    ensures
        i == j,
{
    assert(leads(a.bids@[i], a.bids@[j]));
    assert(leads(a.bids@[j], a.bids@[i]));
    if i != j {
        assert(a.bids@[i].order != a.bids@[j].order);
    }
}

/// Law: fund conservation — in every well-formed auction the custody
/// balance equals the sum of the amounts escrowed in the occupied slots.
/// Every settlement operation ensures well-formedness, so this holds
/// after any sequence of successful operations.
pub proof fn lemma_fund_conservation(a: Auction)
    requires
        a.wf(),
    ensures
        a.custody == sum_amounts(a.bids@),
{
}

/// In a well-formed book, an occupied slot is the one slot its bidder
/// holds, so it is the slot `spec_bid_index` names.
pub(crate) proof fn lemma_bid_index_is(s: Seq<Bid>, count: int, i: int)
    requires
        bids_wf(s, count),
        0 <= i < s.len(),
        occupied(s[i]),
    ensures
        spec_has_bid(s, s[i].bidder),
        spec_bid_index(s, s[i].bidder) == i,
{
    assert(spec_has_bid(s, s[i].bidder));
    let j = spec_bid_index(s, s[i].bidder);
    assert(0 <= j < s.len() && occupied(s[j]) && s[j].bidder == s[i].bidder);
    if j != i {
        assert(s[i].bidder != s[j].bidder);
    }
}

/// Revising a bid in place preserves well-formedness and moves the escrow
/// sum by the difference of the new and old amounts.
proof fn lemma_rebid_wf(s: Seq<Bid>, i: int, amount: u64, count: int)
    requires
        bids_wf(s, count),
        0 <= i < s.len(),
        occupied(s[i]),
        amount != 0,
    ensures
        bids_wf(spec_rebid(s, i, amount, count), count),
        sum_amounts(spec_rebid(s, i, amount, count)) == sum_amounts(s) - s[i].amount + amount,
{
    let t = spec_rebid(s, i, amount, count);
    let cut = s[i].order as int;
    assert(1 <= cut <= count);
    let nb = Bid { bidder: s[i].bidder, amount, order: count as usize };
    let u = s.update(i, nb);
    crate::funds::lemma_update_aggregates(s, i, nb);
    assert(forall|j: int|
        0 <= j < s.len() && j != i ==> #[trigger] t[j] == shifted_down(s[j], cut));
    assert(t[i] == nb);
    assert(forall|j: int|
        0 <= j < s.len() ==> occupied(#[trigger] t[j]) == occupied(u[j]) && t[j].amount
            == u[j].amount);
    crate::funds::lemma_pointwise_aggregates(u, t);
    assert forall|j: int| 0 <= j < t.len() && !occupied(#[trigger] t[j]) implies t[j]
        == spec_empty_bid() by {
        assert(j != i);
        assert(t[j] == s[j]);
    }
    assert forall|j: int| 0 <= j < t.len() && occupied(#[trigger] t[j]) implies 0 < t[j].amount
        && 1 <= t[j].order <= count by {
        if j != i {
            assert(occupied(s[j]));
            if s[j].order > cut {
                assert(t[j].order == s[j].order - 1);
            } else {
                assert(t[j] == s[j]);
                assert(s[j].order != cut);
            }
        }
    }
    assert forall|a: int, b: int|
        0 <= a < t.len() && 0 <= b < t.len() && a != b && occupied(t[a]) && occupied(
            t[b],
        ) implies t[a].bidder != t[b].bidder && t[a].order != t[b].order by {
        if a != i {
            assert(occupied(s[a]) && t[a].bidder == s[a].bidder);
            assert(s[a].order != cut);
        }
        if b != i {
            assert(occupied(s[b]) && t[b].bidder == s[b].bidder);
            assert(s[b].order != cut);
        }
        if a == i {
            assert(t[a].order == count);
            assert(t[b].order < count || t[b].order == s[b].order - 1);
            assert(s[b].order <= count);
        } else if b == i {
            assert(t[b].order == count);
            assert(s[a].order <= count);
        } else {
            assert(s[a].order != s[b].order);
        }
    }
    assert forall|k: int| 1 <= k <= count implies #[trigger] has_order(t, k) by {
        if k == count {
            assert(occupied(t[i]) && t[i].order == k);
            assert(has_order(t, k));
        } else if k >= cut {
            assert(has_order(s, k + 1));
            let w = choose|w: int| 0 <= w < s.len() && occupied(s[w]) && s[w].order == k + 1;
            assert(w != i);
            assert(t[w] == shifted_down(s[w], cut));
            assert(occupied(t[w]) && t[w].order == k);
            assert(has_order(t, k));
        } else {
            assert(has_order(s, k));
            let w = choose|w: int| 0 <= w < s.len() && occupied(s[w]) && s[w].order == k;
            assert(w != i);
            assert(t[w] == s[w]);
            assert(has_order(t, k));
        }
    }
}

/// Inserting a new bidder into an empty slot with the next rank takes a
/// well-formed book of `count` bids to one of `count + 1`, and adds the
/// new amount to the escrow sum.
proof fn lemma_insert_wf(s: Seq<Bid>, e: int, bidder: u64, amount: u64, count: int)
    requires
        bids_wf(s, count),
        count < MAX_BIDS,
        0 <= e < s.len(),
        !occupied(s[e]),
        !spec_has_bid(s, bidder),
        bidder != NO_BIDDER,
        amount != 0,
    ensures
        bids_wf(s.update(e, Bid { bidder, amount, order: (count + 1) as usize }), count + 1),
        sum_amounts(s.update(e, Bid { bidder, amount, order: (count + 1) as usize }))
            == sum_amounts(s) + amount,
{
    let nb = Bid { bidder, amount, order: (count + 1) as usize };
    let t = s.update(e, nb);
    crate::funds::lemma_update_aggregates(s, e, nb);
    assert forall|a: int, b: int|
        0 <= a < t.len() && 0 <= b < t.len() && a != b && occupied(t[a]) && occupied(
            t[b],
        ) implies t[a].bidder != t[b].bidder && t[a].order != t[b].order by {
        if a == e {
            assert(occupied(s[b]) && s[b].order <= count && s[b].bidder != bidder);
        } else if b == e {
            assert(occupied(s[a]) && s[a].order <= count && s[a].bidder != bidder);
        } else {
            assert(occupied(s[a]) && occupied(s[b]));
        }
    }
    assert forall|k: int| 1 <= k <= count + 1 implies #[trigger] has_order(t, k) by {
        if k <= count {
            assert(has_order(s, k));
            let w = choose|w: int| 0 <= w < s.len() && occupied(s[w]) && s[w].order == k;
            assert(w != e);
            assert(occupied(t[w]) && t[w].order == k);
            assert(has_order(t, k));
        } else {
            assert(occupied(t[e]) && t[e].order == k);
            assert(has_order(t, k));
        }
    }
}

/// Removing an occupied slot takes a well-formed book of `count` bids to
/// one of `count - 1`, and subtracts its amount from the escrow sum.
proof fn lemma_removed_wf(s: Seq<Bid>, i: int, count: int)
    requires
        bids_wf(s, count),
        0 <= i < s.len(),
        occupied(s[i]),
    ensures
        bids_wf(spec_removed(s, i), count - 1),
        sum_amounts(spec_removed(s, i)) == sum_amounts(s) - s[i].amount,
{
    let t = spec_removed(s, i);
    let cut = s[i].order as int;
    assert(1 <= cut <= count);
    let u = s.update(i, spec_empty_bid());
    crate::funds::lemma_update_aggregates(s, i, spec_empty_bid());
    assert(forall|j: int|
        0 <= j < s.len() && j != i ==> #[trigger] t[j] == shifted_down(s[j], cut));
    assert(t[i] == spec_empty_bid());
    assert(forall|j: int|
        0 <= j < s.len() ==> occupied(#[trigger] t[j]) == occupied(u[j]) && t[j].amount
            == u[j].amount);
    crate::funds::lemma_pointwise_aggregates(u, t);
    assert forall|j: int| 0 <= j < t.len() && !occupied(#[trigger] t[j]) implies t[j]
        == spec_empty_bid() by {
        if j != i {
            assert(t[j] == s[j]);
        }
    }
    assert forall|j: int| 0 <= j < t.len() && occupied(#[trigger] t[j]) implies 0 < t[j].amount
        && 1 <= t[j].order <= count - 1 by {
        assert(j != i);
        assert(occupied(s[j]));
        assert(s[j].order != cut);
        if s[j].order > cut {
            assert(t[j].order == s[j].order - 1);
        } else {
            assert(t[j] == s[j]);
        }
    }
    assert forall|a: int, b: int|
        0 <= a < t.len() && 0 <= b < t.len() && a != b && occupied(t[a]) && occupied(
            t[b],
        ) implies t[a].bidder != t[b].bidder && t[a].order != t[b].order by {
        assert(a != i && b != i);
        assert(occupied(s[a]) && occupied(s[b]));
        assert(s[a].order != s[b].order && s[a].order != cut && s[b].order != cut);
    }
    assert forall|k: int| 1 <= k <= count - 1 implies #[trigger] has_order(t, k) by {
        if k >= cut {
            assert(has_order(s, k + 1));
            let w = choose|w: int| 0 <= w < s.len() && occupied(s[w]) && s[w].order == k + 1;
            assert(w != i);
            assert(occupied(t[w]) && t[w].order == k);
            assert(has_order(t, k));
        } else {
            assert(has_order(s, k));
            let w = choose|w: int| 0 <= w < s.len() && occupied(s[w]) && s[w].order == k;
            assert(w != i);
            assert(t[w] == s[w]);
            assert(has_order(t, k));
        }
    }
}

impl Auction {
    /// Structural well-formedness of the book inside this record.
    pub open spec fn book_wf(self) -> bool {
        &&& bids_wf(self.bids@, self.active_count as int)
        &&& self.next_order == self.active_count + 1
    }

    /// Full well-formedness: a well-formed book whose custody balance
    /// equals the sum of the escrowed amounts (fund conservation).
    pub open spec fn wf(self) -> bool {
        &&& self.book_wf()
        &&& self.custody == sum_amounts(self.bids@)
    }

    /// Check whether a slot is empty (sentinel bidder).
    fn is_empty_bid(bid: &Bid) -> (r: bool)
        ensures
            r == !occupied(*bid),
    {
        bid.bidder == NO_BIDDER
    }

    /// Find the index of the occupied slot held by `bidder`, if any.
    pub fn find_bid_index(&self, bidder: u64) -> (r: Option<usize>)
        requires
            self.book_wf(),
        ensures
            match r {
                Some(i) => i < MAX_BIDS && occupied(self.bids@[i as int])
                    && self.bids@[i as int].bidder == bidder,
                None => !spec_has_bid(self.bids@, bidder),
            },
    {
        let mut i: usize = 0;
        while i < MAX_BIDS
            invariant
                i <= MAX_BIDS,
                self.bids@.len() == MAX_BIDS,
                forall|j: int|
                    0 <= j < i ==> !(occupied(#[trigger] self.bids@[j]) && self.bids@[j].bidder
                        == bidder),
            decreases MAX_BIDS - i,
        {
            if !Self::is_empty_bid(&self.bids[i]) && self.bids[i].bidder == bidder {
                return Some(i);
            }
            i = i + 1;
        }
        None
    }

    /// Whether `bidder` currently has an active bid on file.
    pub fn has_bid(&self, bidder: u64) -> (r: bool)
        requires
            self.book_wf(),
        ensures
            r == spec_has_bid(self.bids@, bidder),
    {
        match self.find_bid_index(bidder) {
            Some(_) => true,
            None => false,
        }
    }

    /// Reset this record to a fresh auction for `asset_id` owned by
    /// `owner`: an all-empty book, ranks starting at 1, nothing in custody.
    pub fn initialize(&mut self, owner: u64, asset_id: u64)
        ensures
            final(self).wf(),
            final(self).owner == owner,
            final(self).asset_id == asset_id,
            final(self).active_count == 0,
            final(self).next_order == 1,
            final(self).custody == 0,
            forall|i: int| 0 <= i < MAX_BIDS ==> final(self).bids@[i] == spec_empty_bid(),
    {
        self.owner = owner;
        self.asset_id = asset_id;
        let mut slots: Vec<Bid> = Vec::new();
        let mut i: usize = 0;
        while i < MAX_BIDS
            invariant
                slots@.len() == i,
                i <= MAX_BIDS,
                forall|k: int| 0 <= k < i ==> slots@[k] == spec_empty_bid(),
            decreases MAX_BIDS - i,
        {
            slots.push(Bid { bidder: NO_BIDDER, amount: 0, order: 0 });
            i = i + 1;
        }
        self.bids = slots;
        self.active_count = 0;
        self.next_order = 1;
        self.custody = 0;
        proof {
            assert(forall|k: int| 0 <= k < self.bids@.len() ==> !occupied(#[trigger] self.bids@[k]));
            crate::funds::lemma_aggregates_when_none(self.bids@);
        }
    }

    /// The current leader: the occupied slot with the greatest escrowed
    /// amount, ties going to the smallest (longest-standing) rank; `None`
    /// on a book with no active bids.
    pub fn get_top_bid(&self) -> (r: Option<Bid>)
        requires
            self.book_wf(),
        ensures
            match r {
                Some(b) => self.active_count > 0 && exists|i: int|
                    #[trigger] is_top_bid(self.bids@, i) && b == self.bids@[i],
                None => self.active_count == 0 && forall|j: int|
                    0 <= j < self.bids@.len() ==> !occupied(#[trigger] self.bids@[j]),
            },
    {
        let mut best: Option<usize> = None;
        let mut j: usize = 0;
        while j < MAX_BIDS
            invariant
                j <= MAX_BIDS,
                self.bids@.len() == MAX_BIDS,
                match best {
                    Some(bi) => bi < j && occupied(self.bids@[bi as int]) && forall|k: int|
                        0 <= k < j && occupied(#[trigger] self.bids@[k]) ==> leads(
                            self.bids@[bi as int],
                            self.bids@[k],
                        ),
                    None => forall|k: int| 0 <= k < j ==> !occupied(#[trigger] self.bids@[k]),
                },
            decreases MAX_BIDS - j,
        {
            let b = self.bids[j];
            if b.bidder != NO_BIDDER {
                best = match best {
                    Some(bi) => {
                        let c = self.bids[bi];
                        if b.amount > c.amount || (b.amount == c.amount && b.order < c.order) {
                            Some(j)
                        } else {
                            Some(bi)
                        }
                    },
                    None => Some(j),
                };
            }
            j = j + 1;
        }
        match best {
            Some(bi) => {
                proof {
                    assert(is_top_bid(self.bids@, bi as int));
                }
                Some(self.bids[bi])
            },
            None => {
                proof {
                    crate::funds::lemma_aggregates_when_none(self.bids@);
                }
                None
            },
        }
    }

    /// Add a new bid or revise the bidder's bid in place.
    ///
    /// A revision keeps the slot and makes it the most recent bid: its old
    /// rank is retired and every slot that was more recent moves down one,
    /// so the ranks stay dense. An insertion takes the lowest empty slot
    /// and the next rank. Returns `Ok(true)` exactly when this call fills
    /// the book (reaching capacity locks the auction). Rejects a zero
    /// amount, a revision to the amount already on file, and a new bidder
    /// on a full book; a rejected call changes nothing.
    #[verifier::loop_isolation(false)]
    pub fn upsert_bid(&mut self, bidder: u64, amount: u64) -> (r: Result<bool, BiddingError>)
        requires
            old(self).book_wf(),
            bidder != NO_BIDDER,
        ensures
            final(self).owner == old(self).owner,
            final(self).asset_id == old(self).asset_id,
            final(self).custody == old(self).custody,
            match r {
                Ok(reached) => ({
                    &&& final(self).book_wf()
                    &&& amount != 0
                    &&& final(self).bids@ == spec_upserted(
                        old(self).bids@,
                        bidder,
                        amount,
                        old(self).active_count as int,
                    )
                    &&& sum_amounts(final(self).bids@) == sum_amounts(old(self).bids@) + amount
                        - spec_current_amount(old(self).bids@, bidder)
                    &&& (if spec_has_bid(old(self).bids@, bidder) {
                        &&& amount != spec_current_amount(old(self).bids@, bidder)
                        &&& final(self).active_count == old(self).active_count
                        &&& reached == false
                    } else {
                        &&& old(self).active_count < MAX_BIDS
                        &&& final(self).active_count == old(self).active_count + 1
                        &&& 0 <= first_empty(old(self).bids@) < MAX_BIDS
                        &&& !occupied(old(self).bids@[first_empty(old(self).bids@)])
                        &&& reached == (final(self).active_count == MAX_BIDS)
                    })
                    &&& final(self).next_order == final(self).active_count + 1
                    &&& spec_has_bid(final(self).bids@, bidder)
                    &&& spec_current_amount(final(self).bids@, bidder) == amount
                }),
                Err(e) => ({
                    &&& *final(self) == *old(self)
                    &&& (e == BiddingError::InvalidAmount <==> amount == 0 || (spec_has_bid(
                        old(self).bids@,
                        bidder,
                    ) && amount == spec_current_amount(old(self).bids@, bidder)))
                    &&& (e == BiddingError::CapacityReached <==> amount != 0 && !spec_has_bid(
                        old(self).bids@,
                        bidder,
                    ) && old(self).active_count == MAX_BIDS)
                    &&& (e == BiddingError::InvalidAmount || e == BiddingError::CapacityReached)
                }),
            },
    {
        let ghost s0 = self.bids@;
        let ghost count = self.active_count as int;
        match self.find_bid_index(bidder) {
            Some(idx) => {
                proof {
                    lemma_bid_index_is(s0, count, idx as int);
                }
                let current = self.bids[idx].amount;
                if amount == 0 || amount == current {
                    return Err(BiddingError::InvalidAmount);
                }
                let cut = self.bids[idx].order;
                let mut j: usize = 0;
                while j < MAX_BIDS
                    invariant
                        j <= MAX_BIDS,
                        self.bids@.len() == MAX_BIDS,
                        self.owner == old(self).owner,
                        self.asset_id == old(self).asset_id,
                        self.active_count == old(self).active_count,
                        self.next_order == old(self).next_order,
                        self.custody == old(self).custody,
                        forall|k: int|
                            0 <= k < j ==> #[trigger] self.bids@[k] == shifted_down(
                                s0[k],
                                cut as int,
                            ),
                        forall|k: int| j <= k < MAX_BIDS ==> #[trigger] self.bids@[k] == s0[k],
                    decreases MAX_BIDS - j,
                {
                    let b = self.bids[j];
                    if b.bidder != NO_BIDDER && b.order > cut {
                        self.bids.set(
                            j,
                            Bid { bidder: b.bidder, amount: b.amount, order: b.order - 1 },
                        );
                    }
                    j = j + 1;
                }
                self.bids.set(idx, Bid { bidder, amount, order: self.active_count });
                proof {
                    assert(self.bids@ =~= spec_rebid(s0, idx as int, amount, count));
                    lemma_rebid_wf(s0, idx as int, amount, count);
                    lemma_bid_index_is(self.bids@, count, idx as int);
                }
                Ok(false)
            },
            None => {
                if amount == 0 {
                    return Err(BiddingError::InvalidAmount);
                }
                if self.active_count == MAX_BIDS {
                    return Err(BiddingError::CapacityReached);
                }
                let mut e: usize = 0;
                while e < MAX_BIDS && self.bids[e].bidder != NO_BIDDER
                    invariant
                        e <= MAX_BIDS,
                        forall|k: int| 0 <= k < e ==> occupied(#[trigger] s0[k]),
                    decreases MAX_BIDS - e,
                {
                    e = e + 1;
                }
                if e == MAX_BIDS {
                    proof {
                        crate::funds::lemma_occ_count_when_all(s0);
                        assert(false);
                    }
                    return Err(BiddingError::CapacityReached);
                }
                let ord = self.next_order;
                self.bids.set(e, Bid { bidder, amount, order: ord });
                self.active_count = self.active_count + 1;
                self.next_order = self.next_order + 1;
                proof {
                    assert(0 <= e < s0.len() && !occupied(s0[e as int]) && (forall|k: int|
                        0 <= k < e ==> occupied(#[trigger] s0[k])));
                    let f = first_empty(s0);
                    assert(0 <= f < s0.len() && !occupied(s0[f]) && (forall|k: int|
                        0 <= k < f ==> occupied(#[trigger] s0[k])));
                    if f < e {
                        assert(occupied(s0[f]));
                        assert(false);
                    }
                    if f > e {
                        assert(occupied(s0[e as int]));
                        assert(false);
                    }
                    assert(f == e);
                    lemma_insert_wf(s0, e as int, bidder, amount, count);
                    lemma_bid_index_is(self.bids@, count + 1, e as int);
                }
                Ok(self.active_count == MAX_BIDS)
            },
        }
    }

    /// Remove `bidder`'s bid and report the amount that was escrowed for
    /// it. The slot reverts to the sentinel and, symmetrically to a
    /// revision, every more recent slot moves down one rank, keeping the
    /// remaining ranks dense; the rank counter retreats in step. Fails,
    /// changing nothing, when the bidder has no bid on file.
    #[verifier::loop_isolation(false)]
    pub fn remove_bid(&mut self, bidder: u64) -> (r: Result<u64, BiddingError>)
        requires
            old(self).book_wf(),
        ensures
            final(self).owner == old(self).owner,
            final(self).asset_id == old(self).asset_id,
            final(self).custody == old(self).custody,
            match r {
                Ok(amt) => ({
                    &&& spec_has_bid(old(self).bids@, bidder)
                    &&& amt == spec_current_amount(old(self).bids@, bidder)
                    &&& final(self).book_wf()
                    &&& final(self).bids@ == spec_removed(
                        old(self).bids@,
                        spec_bid_index(old(self).bids@, bidder),
                    )
                    &&& sum_amounts(final(self).bids@) == sum_amounts(old(self).bids@) - amt
                    &&& final(self).active_count == old(self).active_count - 1
                    &&& final(self).next_order == old(self).next_order - 1
                    &&& !spec_has_bid(final(self).bids@, bidder)
                }),
                Err(e) => ({
                    &&& *final(self) == *old(self)
                    &&& e == BiddingError::BidNotFound
                    &&& !spec_has_bid(old(self).bids@, bidder)
                }),
            },
    {
        let ghost s0 = self.bids@;
        let ghost count = self.active_count as int;
        match self.find_bid_index(bidder) {
            None => Err(BiddingError::BidNotFound),
            Some(idx) => {
                proof {
                    lemma_bid_index_is(s0, count, idx as int);
                }
                let amt = self.bids[idx].amount;
                let cut = self.bids[idx].order;
                self.bids.set(idx, Bid { bidder: NO_BIDDER, amount: 0, order: 0 });
                let mut j: usize = 0;
                while j < MAX_BIDS
                    invariant
                        j <= MAX_BIDS,
                        self.bids@.len() == MAX_BIDS,
                        self.owner == old(self).owner,
                        self.asset_id == old(self).asset_id,
                        self.active_count == old(self).active_count,
                        self.next_order == old(self).next_order,
                        self.custody == old(self).custody,
                        forall|k: int|
                            0 <= k < j ==> #[trigger] self.bids@[k] == spec_removed(
                                s0,
                                idx as int,
                            )[k],
                        forall|k: int|
                            j <= k < MAX_BIDS ==> #[trigger] self.bids@[k] == (if k == idx {
                                spec_empty_bid()
                            } else {
                                s0[k]
                            }),
                    decreases MAX_BIDS - j,
                {
                    let b = self.bids[j];
                    if b.bidder != NO_BIDDER && b.order > cut {
                        self.bids.set(
                            j,
                            Bid { bidder: b.bidder, amount: b.amount, order: b.order - 1 },
                        );
                    }
                    j = j + 1;
                }
                self.active_count = self.active_count - 1;
                self.next_order = self.next_order - 1;
                proof {
                    assert(self.bids@ =~= spec_removed(s0, idx as int));
                    lemma_removed_wf(s0, idx as int, count);
                    assert forall|k: int|
                        0 <= k < self.bids@.len() && occupied(
                            #[trigger] self.bids@[k],
                        ) implies self.bids@[k].bidder != bidder by {
                        assert(k != idx);
                        assert(occupied(s0[k]));
                        assert(s0[k].bidder != s0[idx as int].bidder);
                    }
                }
                Ok(amt)
            },
        }
    }
}

} // verus!
