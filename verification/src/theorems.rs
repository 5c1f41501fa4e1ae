//! What holds of every book, whatever orders it has seen.

use crate::book::{
    contra_index, has_price, index_of_price, lemma_after_new_order, lemma_index_of_price,
    lemma_level_rank, lemma_side_with_order, level_rank, side_after_match, side_wf,
    side_with_order, BookView,
};
use crate::engine::{book_of, books_after_event, books_wf, event_result, order_after_event};
use crate::level::LevelView;
use crate::order::OrderView;
use crate::queue::{
    executed_qty, has_entry_seq, lemma_drained, lemma_earlier_trades_first, lemma_join_commutes,
    lemma_match_conserves_qty, lemma_notional_at_one_price, lemma_used_up_prefix, matched_ids, qty_ahead, queue_with, reached,
    reached_count, total_qty, used_up,
};
use crate::types::{EventType, OrderSide};
use vstd::prelude::*;

verus! {

/// The quantity resting in the first `i` levels of a side.
pub open spec fn side_qty_ahead(levels: Seq<LevelView>, i: int) -> nat
    decreases i,
{
    if i <= 0 {
        0
    } else {
        side_qty_ahead(levels, i - 1) + total_qty(levels[i - 1].orders)
    }
}

/// The quantity resting on a whole side.
pub open spec fn side_qty(levels: Seq<LevelView>) -> nat {
    side_qty_ahead(levels, levels.len() as int)
}

/// Price-time priority. Two orders resting on one side of a book at one
/// price rest in one level, the one that arrived earlier in front. Whatever
/// quantity comes in against that level, it reaches the later order only
/// when the earlier one has traded whole.
pub proof fn price_time_priority(
    book: BookView,
    side: OrderSide,
    x: int,
    i: int,
    y: int,
    j: int,
    n: nat,
)
    requires
        book.wf(),
        0 <= x < book.side(side).len(),
        0 <= i < book.side(side)[x].orders.len(),
        0 <= y < book.side(side).len(),
        0 <= j < book.side(side)[y].orders.len(),
        book.side(side)[x].orders[i].price == book.side(side)[y].orders[j].price,
        book.side(side)[x].orders[i].entry_seq < book.side(side)[y].orders[j].entry_seq,
    ensures
        x == y,
        i < j,
        reached(book.side(side)[x].orders, n, j) ==> used_up(book.side(side)[x].orders, n, i),
{
    let levels = book.side(side);
    assert(side_wf(levels, side));
    assert(levels[x].uniform() && levels[y].uniform());
    assert(levels[x].orders[i].price == levels[x].price);
    assert(levels[y].orders[j].price == levels[y].price);
    lemma_index_of_price(levels, side, x);
    lemma_index_of_price(levels, side, y);
    assert(levels[x].wf());
    lemma_earlier_trades_first(levels[x].orders, n, i, j);
}

/// The orders traded with are reported earliest first: the identifier at
/// position `k` of the report is that of the `k`-th resting order.
pub proof fn matches_are_reported_in_arrival_order(q: Seq<OrderView>, n: nat)
    ensures
        matched_ids(q, n).len() == reached_count(q, n),
        reached_count(q, n) <= q.len(),
        forall|k: int| 0 <= k < reached_count(q, n) ==> matched_ids(q, n)[k] == q[k].id,
        forall|k: int| 0 <= k < q.len() ==> (k < reached_count(q, n) <==> reached(q, n, k)),
{
    lemma_used_up_prefix(q, n);
}

/// Two orders of one side and one price, with different arrival numbers,
/// leave the same book behind whichever of them is rested first.
pub proof fn resting_order_is_irrelevant(book: BookView, a: OrderView, b: OrderView)
    requires
        book.wf(),
        a.side == b.side,
        a.price == b.price,
        a.entry_seq != b.entry_seq,
    ensures
        book.with_order(a).with_order(b) == book.with_order(b).with_order(a),
{
    let side = a.side;
    let levels = book.side(side);
    lemma_rested_twice(levels, a, b);
    lemma_rested_twice(levels, b, a);
    if has_price(levels, a.price) {
        let i = index_of_price(levels, a.price);
        assert(levels[i].wf());
        lemma_join_commutes(levels[i].orders, a, b);
    } else {
        lemma_join_commutes(Seq::<OrderView>::empty(), a, b);
    }
    assert(book.with_order(a).side(side) == side_with_order(levels, a));
    assert(book.with_order(b).side(side) == side_with_order(levels, b));
}

/// Resting two orders of one side and one price, one after the other, puts
/// both into the queue of one level.
proof fn lemma_rested_twice(levels: Seq<LevelView>, a: OrderView, b: OrderView)
    requires
        side_wf(levels, a.side),
        a.side == b.side,
        a.price == b.price,
    ensures
        side_with_order(side_with_order(levels, a), b) == if has_price(levels, a.price) {
            let i = index_of_price(levels, a.price);
            levels.update(
                i,
                LevelView { orders: queue_with(queue_with(levels[i].orders, a), b), ..levels[i] },
            )
        } else {
            levels.insert(
                level_rank(levels, a.side, a.price) as int,
                LevelView {
                    price: a.price,
                    side: a.side,
                    orders: queue_with(queue_with(Seq::empty(), a), b),
                },
            )
        },
{
    let side = a.side;
    let first = side_with_order(levels, a);
    lemma_side_with_order(levels, a);
    if has_price(levels, a.price) {
        let i = index_of_price(levels, a.price);
        lemma_index_of_price(first, side, i);
        assert(side_with_order(first, b) =~= levels.update(
            i,
            LevelView { orders: queue_with(queue_with(levels[i].orders, a), b), ..levels[i] },
        ));
    } else {
        lemma_level_rank(levels, side, a.price);
        let r = level_rank(levels, side, a.price) as int;
        assert(first[r].price == b.price);
        lemma_index_of_price(first, side, r);
        assert(side_with_order(first, b) =~= levels.insert(
            r,
            LevelView {
                price: a.price,
                side: a.side,
                orders: queue_with(queue_with(Seq::empty(), a), b),
            },
        ));
    }
}

/// Putting another level in place of the one at position `i` changes the
/// quantity resting on the side by the difference between the two.
proof fn lemma_side_qty_update(levels: Seq<LevelView>, i: int, level: LevelView, upto: int)
    requires
        0 <= i < levels.len(),
        0 <= upto <= levels.len(),
    ensures
        side_qty_ahead(levels.update(i, level), upto) + (if i < upto {
            total_qty(levels[i].orders)
        } else {
            0
        }) == side_qty_ahead(levels, upto) + (if i < upto {
            total_qty(level.orders)
        } else {
            0
        }),
    decreases upto,
{
    if upto > 0 {
        lemma_side_qty_update(levels, i, level, upto - 1);
    }
}

/// Taking out the level at position `i` takes its quantity off the side.
proof fn lemma_side_qty_remove(levels: Seq<LevelView>, i: int, upto: int)
    requires
        0 <= i < levels.len(),
        0 <= upto <= levels.len() - 1,
    ensures
        side_qty_ahead(levels.remove(i), upto) == if upto <= i {
            side_qty_ahead(levels, upto)
        } else {
            (side_qty_ahead(levels, upto + 1) - total_qty(levels[i].orders)) as nat
        },
        upto >= i ==> side_qty_ahead(levels, upto + 1) >= total_qty(levels[i].orders),
    decreases upto,
{
    if upto > 0 {
        lemma_side_qty_remove(levels, i, upto - 1);
        assert(levels.remove(i)[upto - 1] == if upto - 1 < i {
            levels[upto - 1]
        } else {
            levels[upto]
        });
    }
}

/// Quantity conservation in one book. Handling a new order trades no more
/// than the order has, and the resting orders of the opposite side lose, in
/// all, exactly the quantity that trades.
pub proof fn quantity_is_conserved(book: BookView, o: OrderView)
    ensures
        book.executed_by(o) <= o.qty,
        side_qty(book.after_new_order(o).side(o.side.spec_opposite())) + book.executed_by(o)
            == side_qty(book.side(o.side.spec_opposite())),
{
    let contra = o.side.spec_opposite();
    let levels = book.side(contra);
    assert(book.after_new_order(o).side(contra) == book.after_match(o).side(contra));
    match contra_index(levels, o) {
        None => {},
        Some(i) => {
            assert(0 <= i < levels.len());
            let q = levels[i].orders;
            lemma_match_conserves_qty(q, o.qty);
            let traded = levels[i].after_match(o.qty);
            if traded.orders.len() == 0 {
                lemma_side_qty_remove(levels, i, levels.len() - 1);
            } else {
                lemma_side_qty_update(levels, i, traded, levels.len() as int);
            }
        },
    }
}

/// The price of a match. In a book that is in order a match trades at the
/// price of the one level it is made against: the notional is that price
/// times the quantity traded, and the average price is that price exactly.
pub proof fn match_trades_at_the_level_price(book: BookView, o: OrderView)
    requires
        book.wf(),
        book.match_result(o) is Some,
    ensures
        book.contra_level(o) is Some,
        book.match_result(o)->0.executed_notional == book.contra_level(o)->0.price
            * book.match_result(o)->0.executed_qty,
        book.match_result(o)->0.executed_price == Some(book.contra_level(o)->0.price),
{
    let contra = o.side.spec_opposite();
    let levels = book.side(contra);
    assert(side_wf(levels, contra));
    let i = contra_index(levels, o)->0;
    assert(0 <= i < levels.len());
    let level = levels[i];
    assert(level.uniform());
    let q = level.orders;
    lemma_notional_at_one_price(q, o.qty, q.len() as int, level.price);
    lemma_match_conserves_qty(q, o.qty);
    let traded = executed_qty(q, o.qty);
    let price = level.price;
    assert((price * traded) / traded == price) by (nonlinear_arith)
        requires
            traded > 0,
    ;
}

/// No level without orders. A book that is in order stays in order when a
/// new order is handled, and in such a book every level holds an order.
pub proof fn no_level_is_empty(book: BookView, o: OrderView)
    requires
        book.wf(),
    ensures
        book.after_new_order(o).wf(),
        forall|side: OrderSide, k: int|
            #![trigger book.after_new_order(o).side(side)[k]]
            0 <= k < book.after_new_order(o).side(side).len() ==> book.after_new_order(o).side(
                side,
            )[k].orders.len() > 0,
{
    lemma_after_new_order(book, o);
    let after = book.after_new_order(o);
    assert forall|side: OrderSide, k: int|
        #![trigger after.side(side)[k]]
        0 <= k < after.side(side).len() implies after.side(side)[k].orders.len() > 0 by {
        assert(side_wf(after.side(side), side));
    }
}

/// A level that is drained leaves the book. An order that opens a level
/// and an incoming limit order of the opposite side at the same price that
/// covers it leave the side as it was before the level was opened: no level
/// stands at that price any more.
pub proof fn drained_level_leaves_book(book: BookView, a: OrderView, o: OrderView)
    requires
        book.wf(),
        !has_price(book.side(a.side), a.price),
        a.qty > 0,
        o.side == a.side.spec_opposite(),
        o.kind is Limit,
        o.price == a.price,
        o.qty >= a.qty,
    ensures
        book.with_order(a).after_match(o).side(a.side) == book.side(a.side),
        !has_price(book.with_order(a).after_match(o).side(a.side), a.price),
        book.with_order(a).executed_by(o) == a.qty,
{
    let side = a.side;
    let levels = book.side(side);
    let opened = side_with_order(levels, a);
    lemma_side_with_order(levels, a);
    lemma_level_rank(levels, side, a.price);
    let r = level_rank(levels, side, a.price) as int;
    let none = Seq::<OrderView>::empty();
    assert(!has_entry_seq(none, a.entry_seq));
    assert(queue_with(none, a) =~= seq![a]);
    lemma_index_of_price(opened, side, r);
    assert(contra_index(opened, o) == Some(r));
    let q = opened[r].orders;
    assert(total_qty(q) == a.qty) by {
        reveal_with_fuel(qty_ahead, 2);
    }
    lemma_drained(q, o.qty);
    assert(side_after_match(opened, r, o.qty) =~= levels);
}

/// An order with nothing to match. Where no level of the opposite side
/// qualifies, handling a new order reports nothing, leaves the opposite
/// side as it is, and leaves every level of the order's own side at another
/// price as it is: the order only rests.
pub proof fn unmatched_order_only_rests(book: BookView, o: OrderView)
    requires
        book.wf(),
        book.contra_level(o) is None,
    ensures
        book.match_result(o) is None,
        book.executed_by(o) == 0,
        book.after_new_order(o) == book.with_order(o),
        book.after_new_order(o).side(o.side.spec_opposite()) == book.side(o.side.spec_opposite()),
        forall|k: int|
            0 <= k < book.side(o.side).len() && (#[trigger] book.side(o.side)[k]).price != o.price
                ==> exists|m: int|
                0 <= m < book.after_new_order(o).side(o.side).len() && book.after_new_order(
                    o,
                ).side(o.side)[m] == book.side(o.side)[k],
{
    let contra = o.side.spec_opposite();
    assert(contra_index(book.side(contra), o) is None);
    assert(book.after_match(o) == book);
    let levels = book.side(o.side);
    let rested = side_with_order(levels, o);
    assert(book.after_new_order(o).side(o.side) == rested);
    assert forall|k: int| 0 <= k < levels.len() && (#[trigger] levels[k]).price
        != o.price implies exists|m: int| 0 <= m < rested.len() && rested[m] == levels[k] by {
        if has_price(levels, o.price) {
            assert(rested[k] == levels[k]);
        } else {
            lemma_level_rank(levels, o.side, o.price);
            let r = level_rank(levels, o.side, o.price) as int;
            if k < r {
                assert(rested[k] == levels[k]);
            } else {
                assert(rested[k + 1] == levels[k]);
            }
        }
    }
}

/// The first order of an instrument. On a book without orders a new order
/// trades nothing and comes to rest as the only order of the only level.
pub proof fn first_order_opens_the_book(o: OrderView)
    ensures
        BookView::empty().wf(),
        BookView::empty().match_result(o) is None,
        BookView::empty().after_new_order(o).side(o.side) == seq![
            LevelView { price: o.price, side: o.side, orders: seq![o] },
        ],
        BookView::empty().after_new_order(o).side(o.side.spec_opposite()) == Seq::<
            LevelView,
        >::empty(),
{
    let empty = BookView::empty();
    unmatched_order_only_rests(empty, o);
    let none = Seq::<OrderView>::empty();
    assert(queue_with(none, o) =~= seq![o]);
    let levels = Seq::<LevelView>::empty();
    assert(!has_price(levels, o.price));
    assert(side_with_order(levels, o) =~= seq![
        LevelView { price: o.price, side: o.side, orders: seq![o] },
    ]);
}

/// Quantity conservation for the incoming order. What a new order trades
/// and what is left of it afterwards add up to what it came with; any other
/// event trades nothing and leaves the order's quantity alone.
pub proof fn executed_and_remaining_add_up(
    kind: EventType,
    books: Map<Seq<char>, BookView>,
    o: OrderView,
)
    ensures
        order_after_event(kind, books, o).qty + (match event_result(kind, books, o) {
            Some(r) => r.executed_qty,
            None => 0,
        }) == o.qty,
        event_result(kind, books, o) matches Some(r) ==> 0 < r.executed_qty <= o.qty,
{
}

/// Handling an event keeps every book in order, so no event ever leaves a
/// level without orders behind.
pub proof fn books_stay_in_order(kind: EventType, books: Map<Seq<char>, BookView>, o: OrderView)
    requires
        books_wf(books),
    ensures
        books_wf(books_after_event(kind, books, o)),
{
    let book = book_of(books, o.symbol);
    assert(book.wf());
    lemma_after_new_order(book, o);
}

/// An event concerns one instrument. A new order changes no book but that
/// of its own symbol, and brings no other symbol into the engine.
pub proof fn other_instruments_are_untouched(
    kind: EventType,
    books: Map<Seq<char>, BookView>,
    o: OrderView,
    other: Seq<char>,
)
    requires
        other != o.symbol,
    ensures
        books_after_event(kind, books, o).contains_key(other) == books.contains_key(other),
        books.contains_key(other) ==> books_after_event(kind, books, o)[other] == books[other],
{
}

/// A new order for an instrument not seen before, or for one whose book has
/// no level on the opposite side, trades nothing and comes to rest.
pub proof fn new_order_against_no_liquidity_rests(books: Map<Seq<char>, BookView>, o: OrderView)
    requires
        books_wf(books),
        book_of(books, o.symbol).side(o.side.spec_opposite()).len() == 0,
    ensures
        event_result(EventType::New, books, o) is None,
        order_after_event(EventType::New, books, o) == o,
        books_after_event(EventType::New, books, o) == books.insert(
            o.symbol,
            book_of(books, o.symbol).with_order(o),
        ),
        book_of(books, o.symbol) == BookView::empty() ==> books_after_event(
            EventType::New,
            books,
            o,
        )[o.symbol].side(o.side) == seq![
            LevelView { price: o.price, side: o.side, orders: seq![o] },
        ],
{
    let book = book_of(books, o.symbol);
    let levels = book.side(o.side.spec_opposite());
    assert(!has_price(levels, o.price));
    unmatched_order_only_rests(book, o);
    first_order_opens_the_book(o);
}

} // verus!
