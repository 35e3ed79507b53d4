//! Aggregate measures over the bid array: how many slots are occupied, how
//! much is escrowed in total, how much one party has on file, and the
//! schedule of refunds owed when an auction ends. The settlement engine's
//! fund-conservation guarantees are stated and proved in these terms.

use vstd::prelude::*;

use crate::state::{occupied, Bid};

verus! {

/// One owed transfer of escrowed funds back to a bidder.
#[derive(Clone, Copy, Debug, PartialEq, Eq)]
pub struct Payout {
    /// The party the funds are owed to.
    pub bidder: u64,
    /// The full escrowed amount being returned.
    pub amount: u64,
}

/// How many slots of `s` are occupied.
pub open spec fn occ_count(s: Seq<Bid>) -> int
    decreases s.len(),
{
    if s.len() == 0 {
        0
    } else {
        occ_count(s.drop_last()) + if occupied(s.last()) {
            1int
        } else {
            0int
        }
    }
}

/// The sum of the escrowed amounts over all occupied slots of `s`.
pub open spec fn sum_amounts(s: Seq<Bid>) -> int
    decreases s.len(),
{
    if s.len() == 0 {
        0
    } else {
        sum_amounts(s.drop_last()) + if occupied(s.last()) {
            s.last().amount as int
        } else {
            0int
        }
    }
}

/// The total escrowed in `s` under the identity `bidder`.
pub open spec fn bidder_escrow(s: Seq<Bid>, bidder: u64) -> int
    decreases s.len(),
{
    if s.len() == 0 {
        0
    } else {
        bidder_escrow(s.drop_last(), bidder) + if occupied(s.last()) && s.last().bidder == bidder {
            s.last().amount as int
        } else {
            0int
        }
    }
}

/// The refunds owed, in slot order, to every occupied slot of `s` whose
/// bidder is not `excluded`.
pub open spec fn refund_schedule(s: Seq<Bid>, excluded: u64) -> Seq<Payout>
    decreases s.len(),
{
    if s.len() == 0 {
        Seq::<Payout>::empty()
    } else {
        refund_schedule(s.drop_last(), excluded) + if occupied(s.last()) && s.last().bidder
            != excluded {
            seq![Payout { bidder: s.last().bidder, amount: s.last().amount }]
        } else {
            Seq::<Payout>::empty()
        }
    }
}

/// The sum of the amounts of a payout schedule.
pub open spec fn payout_total(p: Seq<Payout>) -> int
    decreases p.len(),
{
    if p.len() == 0 {
        0
    } else {
        payout_total(p.drop_last()) + p.last().amount as int
    }
}

/// An occupied slot's contribution to `occ_count`.
pub open spec fn occ_of(b: Bid) -> int {
    if occupied(b) {
        1
    } else {
        0
    }
}

/// A slot's contribution to `sum_amounts`.
pub open spec fn amount_of(b: Bid) -> int {
    if occupied(b) {
        b.amount as int
    } else {
        0
    }
}

/// Replacing one slot changes the occupied count and the escrow sum by
/// exactly the difference of the contributions of the old and new values.
pub proof fn lemma_update_aggregates(s: Seq<Bid>, i: int, b: Bid)
    requires
        0 <= i < s.len(),
    ensures
        occ_count(s.update(i, b)) == occ_count(s) - occ_of(s[i]) + occ_of(b),
        sum_amounts(s.update(i, b)) == sum_amounts(s) - amount_of(s[i]) + amount_of(b),
    decreases s.len(),
{
    let t = s.update(i, b);
    if i == s.len() - 1 {
        assert(t.drop_last() =~= s.drop_last());
        assert(t.last() == b);
        assert(s.last() == s[i]);
    } else {
        assert(t.drop_last() =~= s.drop_last().update(i, b));
        assert(t.last() == s.last());
        assert(s.drop_last()[i] == s[i]);
        lemma_update_aggregates(s.drop_last(), i, b);
    }
}

/// Two arrays that agree slot by slot on occupancy and amounts have the
/// same occupied count and the same escrow sum.
pub proof fn lemma_pointwise_aggregates(s: Seq<Bid>, t: Seq<Bid>)
    requires
        s.len() == t.len(),
        forall|j: int|
            0 <= j < s.len() ==> occupied(#[trigger] t[j]) == occupied(s[j]) && t[j].amount
                == s[j].amount,
    ensures
        occ_count(t) == occ_count(s),
        sum_amounts(t) == sum_amounts(s),
    decreases s.len(),
{
    if s.len() > 0 {
        assert(forall|j: int| 0 <= j < s.len() - 1 ==> #[trigger] s.drop_last()[j] == s[j]);
        assert(forall|j: int| 0 <= j < t.len() - 1 ==> #[trigger] t.drop_last()[j] == t[j]);
        lemma_pointwise_aggregates(s.drop_last(), t.drop_last());
        assert(s.last() == s[s.len() - 1]);
        assert(t.last() == t[s.len() - 1]);
    }
}

/// The escrow sum is never negative.
pub proof fn lemma_sum_nonneg(s: Seq<Bid>)
    ensures
        sum_amounts(s) >= 0,
    decreases s.len(),
{
    if s.len() > 0 {
        lemma_sum_nonneg(s.drop_last());
    }
}

/// The escrow sum covers each single occupied slot's amount.
pub proof fn lemma_sum_covers_slot(s: Seq<Bid>, i: int)
    requires
        0 <= i < s.len(),
        occupied(s[i]),
    ensures
        sum_amounts(s) >= s[i].amount,
    decreases s.len(),
{
    lemma_sum_nonneg(s.drop_last());
    if i == s.len() - 1 {
        assert(s.last() == s[i]);
    } else {
        assert(s.drop_last()[i] == s[i]);
        lemma_sum_covers_slot(s.drop_last(), i);
    }
}

/// An array with no occupied slot counts zero and sums to zero.
pub proof fn lemma_aggregates_when_none(s: Seq<Bid>)
    requires
        forall|j: int| 0 <= j < s.len() ==> !occupied(#[trigger] s[j]),
    ensures
        occ_count(s) == 0,
        sum_amounts(s) == 0,
    decreases s.len(),
{
    if s.len() > 0 {
        assert(forall|j: int| 0 <= j < s.len() - 1 ==> #[trigger] s.drop_last()[j] == s[j]);
        lemma_aggregates_when_none(s.drop_last());
        assert(s.last() == s[s.len() - 1]);
    }
}

/// An array whose every slot is occupied counts its full length.
pub proof fn lemma_occ_count_when_all(s: Seq<Bid>)
    requires
        forall|j: int| 0 <= j < s.len() ==> occupied(#[trigger] s[j]),
    ensures
        occ_count(s) == s.len(),
    decreases s.len(),
{
    if s.len() > 0 {
        assert(forall|j: int| 0 <= j < s.len() - 1 ==> #[trigger] s.drop_last()[j] == s[j]);
        lemma_occ_count_when_all(s.drop_last());
        assert(s.last() == s[s.len() - 1]);
    }
}

/// Appending one payout adds its amount to the schedule's total.
pub proof fn lemma_payout_total_push(p: Seq<Payout>, x: Payout)
    ensures
        payout_total(p.push(x)) == payout_total(p) + x.amount,
{
    assert(p.push(x).drop_last() =~= p);
    assert(p.push(x).last() == x);
}

/// The refunds owed by `s`, excluding `excluded`, total the full escrow
/// sum less whatever `excluded` itself has escrowed.
pub proof fn lemma_refund_total(s: Seq<Bid>, excluded: u64)
    ensures
        payout_total(refund_schedule(s, excluded)) == sum_amounts(s) - bidder_escrow(s, excluded),
    decreases s.len(),
{
    if s.len() > 0 {
        lemma_refund_total(s.drop_last(), excluded);
        let pre = refund_schedule(s.drop_last(), excluded);
        if occupied(s.last()) && s.last().bidder != excluded {
            let x = Payout { bidder: s.last().bidder, amount: s.last().amount };
            assert(refund_schedule(s, excluded) =~= pre.push(x));
            lemma_payout_total_push(pre, x);
        } else {
            assert(refund_schedule(s, excluded) =~= pre);
        }
    }
}

/// A party that occupies no slot of `s` has nothing escrowed in it.
pub proof fn lemma_bidder_escrow_absent(s: Seq<Bid>, bidder: u64)
    requires
        forall|j: int| 0 <= j < s.len() && occupied(#[trigger] s[j]) ==> s[j].bidder != bidder,
    ensures
        bidder_escrow(s, bidder) == 0,
    decreases s.len(),
{
    if s.len() > 0 {
        assert(forall|j: int| 0 <= j < s.len() - 1 ==> #[trigger] s.drop_last()[j] == s[j]);
        lemma_bidder_escrow_absent(s.drop_last(), bidder);
        assert(s.last() == s[s.len() - 1]);
    }
}

/// A party that occupies exactly the one slot `i` has exactly that slot's
/// amount escrowed.
pub proof fn lemma_bidder_escrow_single(s: Seq<Bid>, bidder: u64, i: int)
    requires
        0 <= i < s.len(),
        occupied(s[i]),
        s[i].bidder == bidder,
        forall|j: int|
            0 <= j < s.len() && j != i && occupied(#[trigger] s[j]) ==> s[j].bidder != bidder,
    ensures
        bidder_escrow(s, bidder) == s[i].amount,
    decreases s.len(),
{
    assert(forall|j: int| 0 <= j < s.len() - 1 ==> #[trigger] s.drop_last()[j] == s[j]);
    if i == s.len() - 1 {
        assert(s.last() == s[i]);
        lemma_bidder_escrow_absent(s.drop_last(), bidder);
    } else {
        assert(s.last() == s[s.len() - 1]);
        lemma_bidder_escrow_single(s.drop_last(), bidder, i);
    }
}

/// Extending the scanned prefix of `s` by one slot extends its refund
/// schedule by that slot's payout, when one is owed.
pub proof fn lemma_refund_schedule_step(s: Seq<Bid>, j: int, excluded: u64)
    requires
        0 <= j < s.len(),
    ensures
        refund_schedule(s.take(j + 1), excluded) == if occupied(s[j]) && s[j].bidder != excluded {
            refund_schedule(s.take(j), excluded).push(
                Payout { bidder: s[j].bidder, amount: s[j].amount },
            )
        } else {
            refund_schedule(s.take(j), excluded)
        },
{
    let t = s.take(j + 1);
    assert(t.drop_last() =~= s.take(j));
    assert(t.last() == s[j]);
    if occupied(s[j]) && s[j].bidder != excluded {
        let x = Payout { bidder: s[j].bidder, amount: s[j].amount };
        assert(refund_schedule(t, excluded) =~= refund_schedule(s.take(j), excluded).push(x));
    } else {
        assert(refund_schedule(t, excluded) =~= refund_schedule(s.take(j), excluded));
    }
}

} // verus!
