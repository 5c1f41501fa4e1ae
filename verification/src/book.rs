//! The order book of one instrument: bids and asks, best level first.

use crate::level::{match_outcome, precedes, Level, LevelView};
use crate::order::{Order, OrderView};
use crate::prefix::{leading, lemma_leading_bounded, lemma_leading_holds, lemma_leading_stops};
use crate::queue::{has_entry_seq, lemma_queue_after_match, lemma_queue_with};
use crate::result::{MatchingResult, MatchingResultView};
use crate::types::{OrderSide, OrderType};
use vstd::prelude::*;

verus! {

/// The mathematical value of an [`OrderBook`].
pub struct BookView {
    /// The bid levels, highest price first.
    pub bids: Seq<LevelView>,
    /// The ask levels, lowest price first.
    pub asks: Seq<LevelView>,
}

/// The views of a list of levels.
pub open spec fn levels_view(levels: Seq<Level>) -> Seq<LevelView> {
    levels.map_values(|l: Level| l@)
}

/// The levels of one side of a book are in order: each is a queue in
/// arrival order, holds at least one order, holds only orders of this side
/// at its own price, and stands before every level of lower priority. So a
/// price has at most one level.
pub open spec fn side_wf(levels: Seq<LevelView>, side: OrderSide) -> bool {
    &&& forall|i: int|
        0 <= i < levels.len() ==> {
            &&& (#[trigger] levels[i]).wf()
            &&& levels[i].side == side
            &&& levels[i].orders.len() > 0
            &&& levels[i].uniform()
        }
    &&& forall|i: int, j: int|
        0 <= i < j < levels.len() ==> precedes(side, levels[i].price, levels[j].price)
}

/// Some level stands at `price`.
pub open spec fn has_price(levels: Seq<LevelView>, price: nat) -> bool {
    exists|i: int| 0 <= i < levels.len() && #[trigger] levels[i].price == price
}

/// The position of the level at `price`, where there is one.
pub open spec fn index_of_price(levels: Seq<LevelView>, price: nat) -> int {
    choose|i: int| 0 <= i < levels.len() && #[trigger] levels[i].price == price
}

/// Whether the level at a position has priority over `price`.
pub open spec fn has_priority_at(levels: Seq<LevelView>, side: OrderSide, price: nat) -> spec_fn(
    int,
) -> bool {
    |i: int| precedes(side, levels[i].price, price)
}

/// How many levels, from the best on, have priority over `price`.
pub open spec fn level_rank(levels: Seq<LevelView>, side: OrderSide, price: nat) -> nat {
    leading(has_priority_at(levels, side, price), 0, levels.len() as int)
}

/// One side of a book once `o` rests on it: `o` joins the level at its
/// price, or opens a new level at the place its price gives it.
pub open spec fn side_with_order(levels: Seq<LevelView>, o: OrderView) -> Seq<LevelView> {
    if has_price(levels, o.price) {
        let i = index_of_price(levels, o.price);
        levels.update(i, levels[i].with_order(o))
    } else {
        levels.insert(
            level_rank(levels, o.side, o.price) as int,
            LevelView::empty_for(o).with_order(o),
        )
    }
}

/// The position of the level that `o` is matched against, looked for among
/// the levels of the side opposite to `o`: the best level for a market
/// order, the level at exactly the limit price for a limit order.
pub open spec fn contra_index(levels: Seq<LevelView>, o: OrderView) -> Option<int> {
    match o.kind {
        OrderType::Mkt => if levels.len() > 0 {
            Some(0int)
        } else {
            None
        },
        OrderType::Limit => if has_price(levels, o.price) {
            Some(index_of_price(levels, o.price))
        } else {
            None
        },
    }
}

/// One side of a book once an incoming quantity `n` has traded against its
/// level at position `i`: a level left without orders is taken out.
pub open spec fn side_after_match(levels: Seq<LevelView>, i: int, n: nat) -> Seq<LevelView> {
    let traded = levels[i].after_match(n);
    if traded.orders.len() == 0 {
        levels.remove(i)
    } else {
        levels.update(i, traded)
    }
}

/// One side of a book once `o`, an order of the opposite side, has been
/// matched against it.
pub open spec fn side_matched(levels: Seq<LevelView>, o: OrderView) -> Seq<LevelView> {
    match contra_index(levels, o) {
        None => levels,
        Some(i) => side_after_match(levels, i, o.qty),
    }
}

/// What matching `o` against the levels of the opposite side reports:
/// nothing where no level qualifies or no quantity trades.
pub open spec fn side_match_result(levels: Seq<LevelView>, o: OrderView) -> Option<
    MatchingResultView,
> {
    match contra_index(levels, o) {
        None => None,
        Some(i) => {
            let outcome = match_outcome(levels[i].orders, o.qty);
            if outcome.executed_qty > 0 {
                Some(outcome)
            } else {
                None
            }
        },
    }
}

/// The view of a result that may be absent.
pub open spec fn result_view(r: Option<MatchingResult>) -> Option<MatchingResultView> {
    match r {
        Some(m) => Some(m@),
        None => None,
    }
}

/// In a side that is in order, the level at a price is the only one there.
pub proof fn lemma_index_of_price(levels: Seq<LevelView>, side: OrderSide, i: int)
    requires
        side_wf(levels, side),
        0 <= i < levels.len(),
    ensures
        has_price(levels, levels[i].price),
        index_of_price(levels, levels[i].price) == i,
{
    let j = index_of_price(levels, levels[i].price);
    if j < i {
        assert(precedes(side, levels[j].price, levels[i].price));
    } else if i < j {
        assert(precedes(side, levels[i].price, levels[j].price));
    }
}

/// A price joins a side that is in order behind every level with priority
/// over it and in front of every level it has priority over.
pub proof fn lemma_level_rank(levels: Seq<LevelView>, side: OrderSide, price: nat)
    requires
        side_wf(levels, side),
    ensures
        level_rank(levels, side, price) <= levels.len(),
        forall|k: int|
            0 <= k < level_rank(levels, side, price) ==> precedes(
                side,
                (#[trigger] levels[k]).price,
                price,
            ),
        forall|k: int|
            level_rank(levels, side, price) <= k < levels.len() ==> !precedes(
                side,
                (#[trigger] levels[k]).price,
                price,
            ),
        has_price(levels, price) ==> index_of_price(levels, price) == level_rank(
            levels,
            side,
            price,
        ),
{
    let p = has_priority_at(levels, side, price);
    let len = levels.len() as int;
    let r = level_rank(levels, side, price) as int;
    lemma_leading_bounded(p, 0, len);
    lemma_leading_holds(p, 0, len);
    assert forall|k: int| 0 <= k < r implies precedes(
        side,
        (#[trigger] levels[k]).price,
        price,
    ) by {
        assert(p(k));
    }
    assert forall|k: int| r <= k < len implies !precedes(
        side,
        (#[trigger] levels[k]).price,
        price,
    ) by {
        if k > r {
            assert(precedes(side, levels[r].price, levels[k].price));
        }
    }
    if has_price(levels, price) {
        let i = index_of_price(levels, price);
        if i > r {
            assert(precedes(side, levels[r].price, levels[i].price));
        }
    }
}

/// Resting an order of a side on that side keeps the side in order.
pub proof fn lemma_side_with_order(levels: Seq<LevelView>, o: OrderView)
    requires
        side_wf(levels, o.side),
    ensures
        side_wf(side_with_order(levels, o), o.side),
{
    if has_price(levels, o.price) {
        let i = index_of_price(levels, o.price);
        lemma_queue_with(levels[i].orders, o);
    } else {
        lemma_level_rank(levels, o.side, o.price);
        assert(!has_entry_seq(Seq::<OrderView>::empty(), o.entry_seq));
    }
}

/// Trading against one level of a side keeps the side in order.
pub proof fn lemma_side_after_match(levels: Seq<LevelView>, side: OrderSide, i: int, n: nat)
    requires
        side_wf(levels, side),
        0 <= i < levels.len(),
    ensures
        side_wf(side_after_match(levels, i, n), side),
{
    lemma_queue_after_match(levels[i].orders, n);
}

impl BookView {
    /// The book with no level on either side.
    pub open spec fn empty() -> BookView {
        BookView { bids: Seq::empty(), asks: Seq::empty() }
    }

    /// Both sides are in order: bids from the highest price down, asks from
    /// the lowest price up.
    pub open spec fn wf(self) -> bool {
        side_wf(self.bids, OrderSide::Buy) && side_wf(self.asks, OrderSide::Sell)
    }

    /// The levels of one side, best first.
    pub open spec fn side(self, side: OrderSide) -> Seq<LevelView> {
        match side {
            OrderSide::Buy => self.bids,
            OrderSide::Sell => self.asks,
        }
    }

    /// The book with the levels of one side replaced.
    pub open spec fn with_side(self, side: OrderSide, levels: Seq<LevelView>) -> BookView {
        match side {
            OrderSide::Buy => BookView { bids: levels, ..self },
            OrderSide::Sell => BookView { asks: levels, ..self },
        }
    }

    /// The level that `o` is matched against, if any: on the side opposite
    /// to `o`, the best level for a market order, the level at exactly the
    /// limit price for a limit order.
    pub open spec fn contra_level(self, o: OrderView) -> Option<LevelView> {
        let levels = self.side(o.side.spec_opposite());
        match contra_index(levels, o) {
            None => None,
            Some(i) => Some(levels[i]),
        }
    }

    /// The book once `o` has been matched against its one contra level.
    pub open spec fn after_match(self, o: OrderView) -> BookView {
        let contra = o.side.spec_opposite();
        self.with_side(contra, side_matched(self.side(contra), o))
    }

    /// What matching `o` against the book reports.
    pub open spec fn match_result(self, o: OrderView) -> Option<MatchingResultView> {
        side_match_result(self.side(o.side.spec_opposite()), o)
    }

    /// The quantity of `o` that trades when `o` is matched against the book.
    pub open spec fn executed_by(self, o: OrderView) -> nat {
        match self.match_result(o) {
            Some(r) => r.executed_qty,
            None => 0,
        }
    }

    /// The book once the new order `o` has been handled: `o` is matched
    /// against its one contra level, and what is left of it rests. An
    /// order for which the match reports nothing rests as it came.
    pub open spec fn after_new_order(self, o: OrderView) -> BookView {
        let matched = self.after_match(o);
        match self.match_result(o) {
            None => matched.with_order(o),
            Some(r) => if o.qty > r.executed_qty {
                matched.with_order(o.with_qty((o.qty - r.executed_qty) as nat))
            } else {
                matched
            },
        }
    }

    /// The book once `o` rests on its own side.
    pub open spec fn with_order(self, o: OrderView) -> BookView {
        self.with_side(o.side, side_with_order(self.side(o.side), o))
    }

    /// The book once `o` has been offered as the first order at its price:
    /// it opens a level there, unless a level already stands at that price,
    /// in which case the book stays as it is.
    pub open spec fn with_first_order(self, o: OrderView) -> BookView {
        if has_price(self.side(o.side), o.price) {
            self
        } else {
            self.with_order(o)
        }
    }
}

/// No more of an order trades than the order has, and handling a new order
/// keeps a book in order.
pub proof fn lemma_after_new_order(book: BookView, o: OrderView)
    requires
        book.wf(),
    ensures
        book.executed_by(o) <= o.qty,
        book.after_match(o).wf(),
        book.after_new_order(o).wf(),
{
    let contra = o.side.spec_opposite();
    let levels = book.side(contra);
    match contra_index(levels, o) {
        None => {},
        Some(i) => {
            lemma_side_after_match(levels, contra, i, o.qty);
        },
    }
    let left = o.with_qty((o.qty - book.executed_by(o)) as nat);
    lemma_side_with_order(book.after_match(o).side(o.side), left);
}

/// The order book of one instrument.
#[derive(Debug)]
pub struct OrderBook {
    bids: Vec<Level>,
    asks: Vec<Level>,
}

impl View for OrderBook {
    type V = BookView;

    closed spec fn view(&self) -> BookView {
        BookView { bids: levels_view(self.bids@), asks: levels_view(self.asks@) }
    }
}

/// Finds where a level at the price of `probe` stands, or would stand,
/// among `levels`.
fn find_level(levels: &Vec<Level>, probe: &Level, Ghost(side): Ghost<OrderSide>) -> (i: usize)
    requires
        side_wf(levels_view(levels@), side),
    ensures
        i == level_rank(levels_view(levels@), side, probe@.price),
        i <= levels.len(),
        has_price(levels_view(levels@), probe@.price) <==> i < levels.len()
            && levels@[i as int]@.price == probe@.price,
        has_price(levels_view(levels@), probe@.price) ==> index_of_price(
            levels_view(levels@),
            probe@.price,
        ) == i,
{
    let ghost lv = levels_view(levels@);
    let len = levels.len();
    let mut i: usize = 0;
    while i < len && levels[i].has_priority_over(probe)
        invariant
            len == levels.len(),
            i <= len,
            lv == levels_view(levels@),
            side_wf(lv, side),
            forall|k: int| 0 <= k < i ==> precedes(side, (#[trigger] lv[k]).price, probe@.price),
        decreases len - i,
    {
        i += 1;
    }
    proof {
        let p = has_priority_at(lv, side, probe@.price);
        if i < len {
            assert(lv[i as int].side == side);
        }
        lemma_leading_stops(p, 0, i as int, len as int);
    }
    i
}

/// Finds the level among `levels`, the side opposite to `p_order`, that
/// `p_order` is matched against.
fn find_contra(levels: &Vec<Level>, p_order: &Order, Ghost(side): Ghost<OrderSide>) -> (r: Option<
    usize,
>)
    requires
        side_wf(levels_view(levels@), side),
    ensures
        match r {
            Some(i) => i < levels.len() && contra_index(levels_view(levels@), p_order@) == Some(
                i as int,
            ),
            None => contra_index(levels_view(levels@), p_order@) is None,
        },
{
    match p_order.order_type() {
        OrderType::Mkt => {
            if levels.len() > 0 {
                Some(0)
            } else {
                None
            }
        },
        OrderType::Limit => {
            let probe = Level::from_order(p_order);
            let i = find_level(levels, &probe, Ghost(side));
            if i < levels.len() && levels[i].same_price(&probe) {
                Some(i)
            } else {
                None
            }
        },
    }
}

/// Matches `p_order` against the one level of `levels`, the side opposite
/// to it, that qualifies, and takes that level out if nothing rests there
/// any more.
fn match_on_side(levels: &mut Vec<Level>, p_order: &Order, Ghost(side): Ghost<OrderSide>) -> (r:
    Option<MatchingResult>)
    requires
        side_wf(levels_view(old(levels)@), side),
    ensures
        side_wf(levels_view(final(levels)@), side),
        levels_view(final(levels)@) == side_matched(levels_view(old(levels)@), p_order@),
        result_view(r) == side_match_result(levels_view(old(levels)@), p_order@),
{
    let ghost lv = levels_view(levels@);
    match find_contra(levels, p_order, Ghost(side)) {
        None => None,
        Some(i) => {
            proof {
                lemma_side_after_match(lv, side, i as int, p_order@.qty);
            }
            let match_result = levels[i].match_order(p_order);
            if levels[i].is_empty() {
                levels.remove(i);
                assert(levels_view(levels@) =~= lv.remove(i as int));
            } else {
                assert(levels_view(levels@) =~= lv.update(
                    i as int,
                    lv[i as int].after_match(p_order@.qty),
                ));
            }
            if match_result.executed_qty() > 0 {
                Some(match_result)
            } else {
                None
            }
        },
    }
}

/// Rests `p_order` on the side it belongs to.
fn rest_on_side(levels: &mut Vec<Level>, p_order: &Order)
    requires
        side_wf(levels_view(old(levels)@), p_order@.side),
    ensures
        side_wf(levels_view(final(levels)@), p_order@.side),
        levels_view(final(levels)@) == side_with_order(levels_view(old(levels)@), p_order@),
{
    let ghost lv = levels_view(levels@);
    let mut temp_level = Level::from_order(p_order);
    let i = find_level(levels, &temp_level, Ghost(p_order@.side));
    proof {
        lemma_side_with_order(lv, p_order@);
    }
    if i < levels.len() && levels[i].same_price(&temp_level) {
        levels[i].add_order(p_order);
        assert(levels_view(levels@) =~= lv.update(i as int, lv[i as int].with_order(p_order@)));
    } else {
        temp_level.add_order(p_order);
        levels.insert(i, temp_level);
        assert(levels_view(levels@) =~= lv.insert(
            i as int,
            LevelView::empty_for(p_order@).with_order(p_order@),
        ));
    }
}

impl OrderBook {
    /// Both sides of the book are in order.
    pub open spec fn wf(&self) -> bool {
        self@.wf()
    }

    /// A book with no resting orders.
    pub fn new() -> (r: OrderBook)
        ensures
            r.wf(),
            r@ == BookView::empty(),
    {
        let r = OrderBook { bids: Vec::new(), asks: Vec::new() };
        assert(r@.bids =~= Seq::empty());
        assert(r@.asks =~= Seq::empty());
        r
    }

    /// Offers `p_order` as the first order at its price on its side. Where
    /// a level already stands at that price the book stays as it is.
    pub fn add_first_order(&mut self, p_order: &Order)
        requires
            old(self).wf(),
        ensures
            final(self).wf(),
            final(self)@ == old(self)@.with_first_order(p_order@),
    {
        let probe = Level::from_order(p_order);
        match p_order.side() {
            OrderSide::Buy => {
                let i = find_level(&self.bids, &probe, Ghost(OrderSide::Buy));
                if !(i < self.bids.len() && self.bids[i].same_price(&probe)) {
                    rest_on_side(&mut self.bids, p_order);
                }
            },
            OrderSide::Sell => {
                let i = find_level(&self.asks, &probe, Ghost(OrderSide::Sell));
                if !(i < self.asks.len() && self.asks[i].same_price(&probe)) {
                    rest_on_side(&mut self.asks, p_order);
                }
            },
        }
    }

    /// The level that `p_input_order` is matched against, if any.
    pub fn get_level_match(&self, p_input_order: &Order) -> (r: Option<&Level>)
        requires
            self.wf(),
        ensures
            match r {
                Some(level) => self@.contra_level(p_input_order@) == Some(level@),
                None => self@.contra_level(p_input_order@) is None,
            },
    {
        match p_input_order.side() {
            OrderSide::Buy => {
                match find_contra(&self.asks, p_input_order, Ghost(OrderSide::Sell)) {
                    Some(i) => Some(&self.asks[i]),
                    None => None,
                }
            },
            OrderSide::Sell => {
                match find_contra(&self.bids, p_input_order, Ghost(OrderSide::Buy)) {
                    Some(i) => Some(&self.bids[i]),
                    None => None,
                }
            },
        }
    }

    /// Matches `p_order` against the one contra level that qualifies:
    /// trades what can trade there, takes the level out of the book if
    /// nothing rests there any more, and reports the trades. Reports nothing
    /// where no level qualifies or no quantity trades. `p_order` itself is
    /// not changed.
    pub fn match_order(&mut self, p_order: &Order) -> (r: Option<MatchingResult>)
        requires
            old(self).wf(),
        ensures
            final(self).wf(),
            final(self)@ == old(self)@.after_match(p_order@),
            result_view(r) == old(self)@.match_result(p_order@),
    {
        match p_order.side() {
            OrderSide::Buy => match_on_side(&mut self.asks, p_order, Ghost(OrderSide::Sell)),
            OrderSide::Sell => match_on_side(&mut self.bids, p_order, Ghost(OrderSide::Buy)),
        }
    }

    /// The levels of one side, best first.
    pub fn levels(&self, side: OrderSide) -> (r: &Vec<Level>)
        ensures
            levels_view(r@) == self@.side(side),
    {
        match side {
            OrderSide::Buy => &self.bids,
            OrderSide::Sell => &self.asks,
        }
    }

    /// The level of one side at `price`, if there is one.
    pub fn level_at(&self, side: OrderSide, price: u64) -> (r: Option<&Level>)
        requires
            self.wf(),
        ensures
            match r {
                Some(level) => has_price(self@.side(side), price as nat) && level@ == self@.side(
                    side,
                )[index_of_price(self@.side(side), price as nat)],
                None => !has_price(self@.side(side), price as nat),
            },
    {
        let levels = self.levels(side);
        let len = levels.len();
        let mut i: usize = 0;
        while i < len
            invariant
                len == levels.len(),
                i <= len,
                levels_view(levels@) == self@.side(side),
                side_wf(self@.side(side), side),
                forall|k: int| 0 <= k < i ==> (#[trigger] self@.side(side)[k]).price != price,
            decreases len - i,
        {
            if levels[i].price() == price {
                proof {
                    lemma_index_of_price(self@.side(side), side, i as int);
                }
                return Some(&levels[i]);
            }
            i += 1;
        }
        None
    }

    /// Rests `p_order` on its own side: it joins the level at its price, or
    /// opens a new level there.
    pub fn add_order(&mut self, p_order: &Order)
        requires
            old(self).wf(),
        ensures
            final(self).wf(),
            final(self)@ == old(self)@.with_order(p_order@),
    {
        match p_order.side() {
            OrderSide::Buy => rest_on_side(&mut self.bids, p_order),
            OrderSide::Sell => rest_on_side(&mut self.asks, p_order),
        }
    }
}

} // verus!
