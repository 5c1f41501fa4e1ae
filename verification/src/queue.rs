//! The mathematics of one price level's queue.
//!
//! A queue is a sequence of resting orders, earliest first. An incoming
//! quantity is handed out from the front: each resting order gives what is
//! left of the incoming quantity once everything ahead of it has given, up
//! to its own size.

use crate::order::OrderView;
use crate::prefix::{leading, lemma_leading_bounded, lemma_leading_holds, lemma_leading_stops};
use vstd::prelude::*;

verus! {

/// Resting orders stand in strictly ascending arrival order, so no two of
/// them share an arrival number.
pub open spec fn ascending(q: Seq<OrderView>) -> bool {
    forall|i: int, j: int| 0 <= i < j < q.len() ==> q[i].entry_seq < q[j].entry_seq
}

/// The quantity resting in front of position `i`.
pub open spec fn qty_ahead(q: Seq<OrderView>, i: int) -> nat
    decreases i,
{
    if i <= 0 {
        0
    } else {
        qty_ahead(q, i - 1) + q[i - 1].qty
    }
}

/// The quantity resting in the whole queue.
pub open spec fn total_qty(q: Seq<OrderView>) -> nat {
    qty_ahead(q, q.len() as int)
}

/// What the order at position `i` trades against an incoming quantity `n`.
pub open spec fn fill_at(q: Seq<OrderView>, n: nat, i: int) -> nat {
    let ahead = qty_ahead(q, i);
    if ahead >= n {
        0
    } else if q[i].qty <= n - ahead {
        q[i].qty
    } else {
        (n - ahead) as nat
    }
}

/// The incoming quantity reaches position `i`: something of it is left
/// when the orders ahead have traded.
pub open spec fn reached(q: Seq<OrderView>, n: nat, i: int) -> bool {
    qty_ahead(q, i) < n
}

/// The incoming quantity reaches position `i` and takes all of that order.
pub open spec fn used_up(q: Seq<OrderView>, n: nat, i: int) -> bool {
    qty_ahead(q, i) < n && q[i].qty <= n - qty_ahead(q, i)
}

/// Whether the incoming quantity `n` reaches a position.
pub open spec fn reached_at(q: Seq<OrderView>, n: nat) -> spec_fn(int) -> bool {
    |i: int| reached(q, n, i)
}

/// Whether the incoming quantity `n` takes the order at a position whole.
pub open spec fn used_up_at(q: Seq<OrderView>, n: nat) -> spec_fn(int) -> bool {
    |i: int| used_up(q, n, i)
}

/// How many orders, from the front, an incoming quantity `n` trades with.
pub open spec fn reached_count(q: Seq<OrderView>, n: nat) -> nat {
    leading(reached_at(q, n), 0, q.len() as int)
}

/// How many orders, from the front, an incoming quantity `n` takes whole.
pub open spec fn used_up_count(q: Seq<OrderView>, n: nat) -> nat {
    leading(used_up_at(q, n), 0, q.len() as int)
}

/// The identifiers of the first `count` orders, earliest first.
pub open spec fn leading_ids(q: Seq<OrderView>, count: nat) -> Seq<Seq<char>> {
    Seq::new(count, |i: int| q[i].id)
}

/// The identifiers of the orders traded with, earliest first.
pub open spec fn matched_ids(q: Seq<OrderView>, n: nat) -> Seq<Seq<char>> {
    leading_ids(q, reached_count(q, n))
}

/// The total quantity that trades.
pub open spec fn executed_qty(q: Seq<OrderView>, n: nat) -> nat {
    if n <= total_qty(q) {
        n
    } else {
        total_qty(q)
    }
}

/// The quantity traded by the orders in front of position `i`.
pub open spec fn filled_ahead(q: Seq<OrderView>, n: nat, i: int) -> nat
    decreases i,
{
    if i <= 0 {
        0
    } else {
        filled_ahead(q, n, i - 1) + fill_at(q, n, i - 1)
    }
}

/// Price times quantity, summed over the trades of the orders in front of
/// position `i`.
pub open spec fn notional_ahead(q: Seq<OrderView>, n: nat, i: int) -> nat
    decreases i,
{
    if i <= 0 {
        0
    } else {
        notional_ahead(q, n, i - 1) + q[i - 1].price * fill_at(q, n, i - 1)
    }
}

/// Price times quantity, summed over every trade.
pub open spec fn executed_notional(q: Seq<OrderView>, n: nat) -> nat {
    notional_ahead(q, n, q.len() as int)
}

/// The queue once an incoming quantity `n` has traded: the orders taken
/// whole are gone, every other order keeps its place and loses what it
/// traded.
pub open spec fn queue_after_match(q: Seq<OrderView>, n: nat) -> Seq<OrderView> {
    let gone = used_up_count(q, n) as int;
    Seq::new(
        (q.len() - gone) as nat,
        |j: int| q[gone + j].with_qty((q[gone + j].qty - fill_at(q, n, gone + j)) as nat),
    )
}

/// Some order of the queue carries the arrival number `seq`.
pub open spec fn has_entry_seq(q: Seq<OrderView>, seq: nat) -> bool {
    exists|i: int| 0 <= i < q.len() && #[trigger] q[i].entry_seq == seq
}

/// Whether the order at a position arrived before `seq`.
pub open spec fn arrived_before(q: Seq<OrderView>, seq: nat) -> spec_fn(int) -> bool {
    |i: int| q[i].entry_seq < seq
}

/// How many orders, from the front, arrived before `seq`.
pub open spec fn rank_of(q: Seq<OrderView>, seq: nat) -> nat {
    leading(arrived_before(q, seq), 0, q.len() as int)
}

/// The queue once `o` has joined it. An order whose arrival number is
/// already taken does not join: the queue stays as it is.
pub open spec fn queue_with(q: Seq<OrderView>, o: OrderView) -> Seq<OrderView> {
    if has_entry_seq(q, o.entry_seq) {
        q
    } else {
        q.insert(rank_of(q, o.entry_seq) as int, o)
    }
}

/// The quantity ahead never shrinks along the queue.
pub proof fn lemma_qty_ahead_monotone(q: Seq<OrderView>, i: int, j: int)
    requires
        i <= j,
    ensures
        qty_ahead(q, i) <= qty_ahead(q, j),
    decreases j - i,
{
    if i < j {
        lemma_qty_ahead_monotone(q, i, j - 1);
    }
}

/// The orders in front of position `i` trade, together, the incoming
/// quantity or all they have, whichever is less.
pub proof fn lemma_filled_ahead(q: Seq<OrderView>, n: nat, i: int)
    ensures
        filled_ahead(q, n, i) == if n <= qty_ahead(q, i) {
            n
        } else {
            qty_ahead(q, i)
        },
    decreases i,
{
    if i > 0 {
        lemma_filled_ahead(q, n, i - 1);
    }
}

/// With `stop` orders taken whole and the next one, if any, not, the count
/// of orders taken whole is `stop`.
pub proof fn lemma_used_up_count(q: Seq<OrderView>, n: nat, stop: int)
    requires
        0 <= stop <= q.len(),
        forall|k: int| 0 <= k < stop ==> used_up(q, n, k),
        stop < q.len() ==> !used_up(q, n, stop),
    ensures
        used_up_count(q, n) == stop,
{
    let p = used_up_at(q, n);
    lemma_leading_stops(p, 0, stop, q.len() as int);
}

/// With the incoming quantity still running at every position before
/// `stop` and, unless `stop` is the end of the queue, used up there, the
/// count of orders reached is `stop`.
pub proof fn lemma_reached_count(q: Seq<OrderView>, n: nat, stop: int)
    requires
        0 <= stop <= q.len(),
        stop > 0 ==> reached(q, n, stop - 1),
        stop < q.len() ==> !reached(q, n, stop),
    ensures
        reached_count(q, n) == stop,
{
    let p = reached_at(q, n);
    assert forall|k: int| 0 <= k < stop implies #[trigger] p(k) by {
        lemma_qty_ahead_monotone(q, k, stop - 1);
    }
    lemma_leading_stops(p, 0, stop, q.len() as int);
}

/// Once the incoming quantity is used up before position `from`, the
/// orders from there on trade nothing, so the notional stops growing.
pub proof fn lemma_notional_stops(q: Seq<OrderView>, n: nat, from: int, to: int)
    requires
        0 <= from <= to,
        qty_ahead(q, from) >= n,
    ensures
        notional_ahead(q, n, to) == notional_ahead(q, n, from),
    decreases to - from,
{
    if from < to {
        lemma_notional_stops(q, n, from, to - 1);
        lemma_qty_ahead_monotone(q, from, to - 1);
        assert(fill_at(q, n, to - 1) == 0);
    }
}

/// An order joins an ascending queue behind everything that arrived
/// before it and in front of everything that arrived after it.
pub proof fn lemma_rank_of(q: Seq<OrderView>, seq: nat)
    requires
        ascending(q),
    ensures
        rank_of(q, seq) <= q.len(),
        forall|k: int| 0 <= k < rank_of(q, seq) ==> (#[trigger] q[k]).entry_seq < seq,
        forall|k: int| rank_of(q, seq) <= k < q.len() ==> (#[trigger] q[k]).entry_seq >= seq,
{
    let p = arrived_before(q, seq);
    let r = rank_of(q, seq) as int;
    lemma_leading_bounded(p, 0, q.len() as int);
    lemma_leading_holds(p, 0, q.len() as int);
    assert forall|k: int| 0 <= k < r implies (#[trigger] q[k]).entry_seq < seq by {
        assert(p(k));
    }
}

/// Joining keeps a queue in ascending arrival order, never shortens it, and
/// adds nothing but the order that joins.
pub proof fn lemma_queue_with(q: Seq<OrderView>, o: OrderView)
    requires
        ascending(q),
    ensures
        ascending(queue_with(q, o)),
        queue_with(q, o).len() >= q.len(),
        !has_entry_seq(q, o.entry_seq) ==> queue_with(q, o).len() == q.len() + 1,
        forall|k: int|
            0 <= k < queue_with(q, o).len() ==> (#[trigger] queue_with(q, o)[k]) == o || exists|
                j: int,
            | 0 <= j < q.len() && q[j] == queue_with(q, o)[k],
{
    if !has_entry_seq(q, o.entry_seq) {
        lemma_rank_of(q, o.entry_seq);
    }
}

/// The orders taken whole stand in front of every other order, and each
/// of them is reached.
pub proof fn lemma_used_up_prefix(q: Seq<OrderView>, n: nat)
    ensures
        used_up_count(q, n) <= reached_count(q, n) <= q.len(),
        forall|k: int| 0 <= k < used_up_count(q, n) ==> used_up(q, n, k),
        used_up_count(q, n) < q.len() ==> !used_up(q, n, used_up_count(q, n) as int),
        forall|k: int| 0 <= k < reached_count(q, n) ==> reached(q, n, k),
        forall|k: int| reached_count(q, n) <= k < q.len() ==> !reached(q, n, k),
{
    let pu = used_up_at(q, n);
    let pr = reached_at(q, n);
    let len = q.len() as int;
    lemma_leading_bounded(pu, 0, len);
    lemma_leading_holds(pu, 0, len);
    lemma_leading_bounded(pr, 0, len);
    lemma_leading_holds(pr, 0, len);
    let u = used_up_count(q, n) as int;
    let r = reached_count(q, n) as int;
    assert forall|k: int| 0 <= k < u implies used_up(q, n, k) by {
        assert(pu(k));
    }
    assert forall|k: int| 0 <= k < r implies reached(q, n, k) by {
        assert(pr(k));
    }
    assert forall|k: int| r <= k < len implies !reached(q, n, k) by {
        lemma_qty_ahead_monotone(q, r, k);
    }
    if u > r {
        assert(pu(r));
    }
}

/// Matching keeps a queue in ascending arrival order; what stays of it are
/// orders of the old queue, each with no more quantity than before and
/// otherwise unchanged.
pub proof fn lemma_queue_after_match(q: Seq<OrderView>, n: nat)
    requires
        ascending(q),
    ensures
        ascending(queue_after_match(q, n)),
        queue_after_match(q, n).len() == q.len() - used_up_count(q, n),
        forall|j: int|
            0 <= j < queue_after_match(q, n).len() ==> {
                let before = q[used_up_count(q, n) + j];
                let after = #[trigger] queue_after_match(q, n)[j];
                after.qty <= before.qty && after == before.with_qty(after.qty)
            },
{
    lemma_used_up_prefix(q, n);
}

/// Time priority. Of two resting orders, the one that arrived earlier
/// stands in front, and whenever an incoming quantity reaches the later
/// one, the earlier one has traded whole.
pub proof fn lemma_earlier_trades_first(q: Seq<OrderView>, n: nat, i: int, j: int)
    requires
        ascending(q),
        0 <= i < q.len(),
        0 <= j < q.len(),
        q[i].entry_seq < q[j].entry_seq,
    ensures
        i < j,
        reached(q, n, j) ==> used_up(q, n, i) && fill_at(q, n, i) == q[i].qty,
        fill_at(q, n, j) > 0 ==> fill_at(q, n, i) == q[i].qty,
{
    lemma_qty_ahead_monotone(q, i + 1, j);
}

/// The place of an order in a queue does not depend on which of two other
/// orders joined first.
pub proof fn lemma_join_commutes(q: Seq<OrderView>, a: OrderView, b: OrderView)
    requires
        ascending(q),
        a.entry_seq != b.entry_seq,
    ensures
        queue_with(queue_with(q, a), b) == queue_with(queue_with(q, b), a),
{
    if a.entry_seq < b.entry_seq {
        lemma_join_in_turn(q, a, b);
    } else {
        lemma_join_in_turn(q, b, a);
    }
}

/// Joining leaves every order of the queue in it, and brings the order
/// that joins into it.
pub proof fn lemma_queue_with_keeps(q: Seq<OrderView>, o: OrderView, seq: nat)
    requires
        ascending(q),
    ensures
        has_entry_seq(queue_with(q, o), seq) <==> has_entry_seq(q, seq) || seq == o.entry_seq,
{
    let w = queue_with(q, o);
    if !has_entry_seq(q, o.entry_seq) {
        lemma_rank_of(q, o.entry_seq);
        let r = rank_of(q, o.entry_seq) as int;
        assert(w[r] == o);
        if has_entry_seq(q, seq) {
            let k = choose|k: int| 0 <= k < q.len() && #[trigger] q[k].entry_seq == seq;
            if k < r {
                assert(w[k] == q[k]);
            } else {
                assert(w[k + 1] == q[k]);
            }
        }
    }
}

/// The rank of an arrival number in a queue that `o` has just joined: one
/// more than before if `o` arrived earlier, the same if `o` arrived later.
proof fn lemma_rank_after_join(q: Seq<OrderView>, o: OrderView, seq: nat)
    requires
        ascending(q),
        !has_entry_seq(q, o.entry_seq),
        seq != o.entry_seq,
    ensures
        rank_of(q.insert(rank_of(q, o.entry_seq) as int, o), seq) == if o.entry_seq < seq {
            rank_of(q, seq) + 1
        } else {
            rank_of(q, seq)
        },
        rank_of(q, o.entry_seq) <= q.len(),
        rank_of(q, seq) <= q.len(),
        o.entry_seq < seq ==> rank_of(q, o.entry_seq) <= rank_of(q, seq),
{
    lemma_rank_of(q, o.entry_seq);
    lemma_rank_of(q, seq);
    let ro = rank_of(q, o.entry_seq) as int;
    let rs = rank_of(q, seq) as int;
    let w = q.insert(ro, o);
    let p = arrived_before(w, seq);
    if o.entry_seq < seq {
        if rs + 1 < w.len() {
            assert(w[rs + 1] == q[rs]);
        }
        lemma_leading_stops(p, 0, rs + 1, w.len() as int);
    } else {
        if ro < rs {
            assert(q[ro].entry_seq < seq);
        }
        lemma_leading_stops(p, 0, rs, w.len() as int);
    }
}

/// Two orders, the first of which arrived earlier, end up in the same
/// queue whichever of them joins first.
proof fn lemma_join_in_turn(q: Seq<OrderView>, a: OrderView, b: OrderView)
    requires
        ascending(q),
        a.entry_seq < b.entry_seq,
    ensures
        queue_with(queue_with(q, a), b) == queue_with(queue_with(q, b), a),
{
    lemma_queue_with_keeps(q, a, b.entry_seq);
    lemma_queue_with_keeps(q, b, a.entry_seq);
    if !has_entry_seq(q, a.entry_seq) && !has_entry_seq(q, b.entry_seq) {
        lemma_rank_after_join(q, a, b.entry_seq);
        lemma_rank_after_join(q, b, a.entry_seq);
    }
}

/// Quantity is conserved at the level: what the resting orders lose is
/// what trades, and that is the incoming quantity or all that rests,
/// whichever is less.
pub proof fn lemma_match_conserves_qty(q: Seq<OrderView>, n: nat)
    ensures
        total_qty(queue_after_match(q, n)) + executed_qty(q, n) == total_qty(q),
        filled_ahead(q, n, q.len() as int) == executed_qty(q, n),
        executed_qty(q, n) <= n,
{
    let after = queue_after_match(q, n);
    let gone = used_up_count(q, n) as int;
    lemma_used_up_prefix(q, n);
    lemma_filled_ahead(q, n, q.len() as int);
    lemma_filled_ahead(q, n, gone);
    if gone > 0 {
        assert(used_up(q, n, gone - 1));
    }
    lemma_rest_of_queue(q, n, after.len() as int);
}

/// The quantity left in the first `j` orders that stay is what they had
/// less what they traded.
proof fn lemma_rest_of_queue(q: Seq<OrderView>, n: nat, j: int)
    requires
        0 <= j <= queue_after_match(q, n).len(),
    ensures
        qty_ahead(queue_after_match(q, n), j) + filled_ahead(q, n, used_up_count(q, n) + j)
            + qty_ahead(q, used_up_count(q, n) as int) == qty_ahead(q, used_up_count(q, n) + j)
            + filled_ahead(q, n, used_up_count(q, n) as int),
    decreases j,
{
    if j > 0 {
        lemma_rest_of_queue(q, n, j - 1);
    }
}

/// Where the orders in front of position `i` all stand at one price, the
/// notional of their trades is that price times what they traded.
pub proof fn lemma_notional_at_one_price(q: Seq<OrderView>, n: nat, i: int, price: nat)
    requires
        0 <= i <= q.len(),
        forall|k: int| 0 <= k < i ==> (#[trigger] q[k]).price == price,
    ensures
        notional_ahead(q, n, i) == price * filled_ahead(q, n, i),
    decreases i,
{
    if i > 0 {
        lemma_notional_at_one_price(q, n, i - 1, price);
        let before = filled_ahead(q, n, i - 1);
        let fill = fill_at(q, n, i - 1);
        assert(q[i - 1].price == price);
        assert(price * before + price * fill == price * (before + fill)) by (nonlinear_arith);
    } else {
        assert(price * 0 == 0);
    }
}

/// An incoming quantity that covers all that rests, where every resting
/// order has some quantity, leaves the queue empty.
pub proof fn lemma_drained(q: Seq<OrderView>, n: nat)
    requires
        n >= total_qty(q),
        forall|k: int| 0 <= k < q.len() ==> (#[trigger] q[k]).qty > 0,
    ensures
        queue_after_match(q, n).len() == 0,
        executed_qty(q, n) == total_qty(q),
{
    assert forall|k: int| 0 <= k < q.len() implies used_up(q, n, k) by {
        lemma_qty_ahead_monotone(q, k + 1, q.len() as int);
    }
    lemma_used_up_count(q, n, q.len() as int);
}

} // verus!
