//! The engine: one order book per instrument, and the entry point that
//! routes events to it.

use crate::book::{result_view, BookView, OrderBook};
use crate::order::{Order, OrderView};
use crate::result::{MatchingResult, MatchingResultView};
use crate::types::EventType;
use vstd::prelude::*;

verus! {

/// The books of a venue, one per instrument symbol.
#[derive(Debug)]
pub struct MatchingEngine {
    symbols: Vec<String>,
    books: Vec<OrderBook>,
}

/// The book that an engine holds for `symbol`: the empty book where it holds
/// none yet.
pub open spec fn book_of(books: Map<Seq<char>, BookView>, symbol: Seq<char>) -> BookView {
    if books.contains_key(symbol) {
        books[symbol]
    } else {
        BookView::empty()
    }
}

/// What an event reports: the match of a new order, nothing otherwise.
pub open spec fn event_result(
    kind: EventType,
    books: Map<Seq<char>, BookView>,
    o: OrderView,
) -> Option<MatchingResultView> {
    match kind {
        EventType::New => book_of(books, o.symbol).match_result(o),
        EventType::Rpl => None,
        EventType::Cxl => None,
    }
}

/// The books once an event has been handled: a new order changes the book
/// of its instrument, no other event changes anything.
pub open spec fn books_after_event(
    kind: EventType,
    books: Map<Seq<char>, BookView>,
    o: OrderView,
) -> Map<Seq<char>, BookView> {
    match kind {
        EventType::New => books.insert(o.symbol, book_of(books, o.symbol).after_new_order(o)),
        EventType::Rpl => books,
        EventType::Cxl => books,
    }
}

/// The order once its event has been handled: a new order loses the
/// quantity that traded, no other event changes the order.
pub open spec fn order_after_event(
    kind: EventType,
    books: Map<Seq<char>, BookView>,
    o: OrderView,
) -> OrderView {
    match kind {
        EventType::New => o.with_qty((o.qty - book_of(books, o.symbol).executed_by(o)) as nat),
        EventType::Rpl => o,
        EventType::Cxl => o,
    }
}

/// Every book is in order.
pub open spec fn books_wf(books: Map<Seq<char>, BookView>) -> bool {
    forall|symbol: Seq<char>| books.contains_key(symbol) ==> (#[trigger] books[symbol]).wf()
}

impl View for MatchingEngine {
    type V = Map<Seq<char>, BookView>;

    closed spec fn view(&self) -> Map<Seq<char>, BookView> {
        Map::new(
            |symbol: Seq<char>| self.slot_holds(symbol),
            |symbol: Seq<char>| self.books@[self.slot_of(symbol)]@,
        )
    }
}

impl MatchingEngine {
    /// Some slot is kept for `symbol`.
    spec fn slot_holds(&self, symbol: Seq<char>) -> bool {
        exists|i: int| 0 <= i < self.symbols@.len() && (#[trigger] self.symbols@[i])@ == symbol
    }

    /// The slot kept for `symbol`.
    spec fn slot_of(&self, symbol: Seq<char>) -> int {
        choose|i: int| 0 <= i < self.symbols@.len() && (#[trigger] self.symbols@[i])@ == symbol
    }

    /// Each instrument has one book, and every book is in order.
    pub closed spec fn wf(&self) -> bool {
        &&& self.symbols@.len() == self.books@.len()
        &&& forall|i: int, j: int|
            #![trigger self.symbols@[i], self.symbols@[j]]
            0 <= i < j < self.symbols@.len() ==> self.symbols@[i]@ != self.symbols@[j]@
        &&& forall|i: int| 0 <= i < self.books@.len() ==> (#[trigger] self.books@[i]).wf()
    }

    /// In a well-formed engine every book is in order.
    pub proof fn lemma_books_wf(&self)
        requires
            self.wf(),
        ensures
            books_wf(self@),
    {
    }

    /// The slot `i` holds the book of the symbol kept there.
    proof fn lemma_slot(&self, i: int)
        requires
            self.wf(),
            0 <= i < self.symbols@.len(),
        ensures
            self@.contains_key(self.symbols@[i]@),
            self@[self.symbols@[i]@] == self.books@[i]@,
            self.slot_of(self.symbols@[i]@) == i,
    {
    }

    /// Putting another book, itself in order, into slot `i` changes the
    /// engine's value at that slot's symbol and nowhere else.
    proof fn lemma_book_replaced(before: MatchingEngine, after: MatchingEngine, i: int)
        requires
            before.wf(),
            0 <= i < before.symbols@.len(),
            after.symbols@ == before.symbols@,
            after.books@.len() == before.books@.len(),
            forall|k: int|
                0 <= k < before.books@.len() && k != i ==> after.books@[k] == before.books@[k],
            after.books@[i].wf(),
        ensures
            after.wf(),
            after@ == before@.insert(before.symbols@[i]@, after.books@[i]@),
    {
        before.lemma_slot(i);
    }

    /// An engine with no books.
    pub fn new() -> (r: MatchingEngine)
        ensures
            r.wf(),
            r@ == Map::<Seq<char>, BookView>::empty(),
    {
        MatchingEngine { symbols: Vec::new(), books: Vec::new() }
    }

    /// Whether the engine holds a book for `p_symbol`.
    pub fn contains(&self, p_symbol: &String) -> (r: bool)
        ensures
            r == self@.contains_key(p_symbol@),
    {
        self.get_book_by_symbol(p_symbol).is_some()
    }

    /// Handles a new order: matches it against the one contra level of its
    /// instrument's book that qualifies, takes the traded quantity off the
    /// order, and rests what is left of it. The first order ever seen for an
    /// instrument opens that instrument's book and rests there.
    ///
    /// Never fails. What is reported is the match, or nothing where no
    /// quantity traded.
    pub fn process_new_order(&mut self, p_order: &mut Order) -> (r: Result<
        Option<MatchingResult>,
        String,
    >)
        requires
            old(self).wf(),
        ensures
            final(self).wf(),
            books_wf(final(self)@),
            r is Ok,
            result_view(r->Ok_0) == book_of(old(self)@, old(p_order)@.symbol).match_result(
                old(p_order)@,
            ),
            final(self)@ == old(self)@.insert(
                old(p_order)@.symbol,
                book_of(old(self)@, old(p_order)@.symbol).after_new_order(old(p_order)@),
            ),
            final(p_order)@ == old(p_order)@.with_qty(
                (old(p_order)@.qty - book_of(old(self)@, old(p_order)@.symbol).executed_by(
                    old(p_order)@,
                )) as nat,
            ),
            final(p_order)@.qty + book_of(old(self)@, old(p_order)@.symbol).executed_by(
                old(p_order)@,
            ) == old(p_order)@.qty,
    {
        let ghost before = *self;
        let ghost o = p_order@;
        let r = match self.get_book_by_symbol(p_order.symbol()) {
            None => {
                let i = self.add_order_book(p_order.symbol());
                let ghost opened = *self;
                self.books[i].add_first_order(p_order);
                proof {
                    opened.lemma_slot(i as int);
                    Self::lemma_book_replaced(opened, *self, i as int);
                    assert(self@ =~= before@.insert(
                        o.symbol,
                        BookView::empty().after_new_order(o),
                    ));
                }
                Ok(None)
            },
            Some(i) => {
                proof {
                    before.lemma_slot(i as int);
                }
                let matching_result_or_none = self.books[i].match_order(p_order);
                match matching_result_or_none {
                    None => {
                        self.books[i].add_order(p_order);
                        proof {
                            Self::lemma_book_replaced(before, *self, i as int);
                        }
                        Ok(None)
                    },
                    Some(match_result) => {
                        let left = p_order.qty() - match_result.executed_qty();
                        p_order.set_qty(left);
                        if left > 0 {
                            self.books[i].add_order(p_order);
                        }
                        proof {
                            Self::lemma_book_replaced(before, *self, i as int);
                        }
                        Ok(Some(match_result))
                    },
                }
            },
        };
        proof {
            self.lemma_books_wf();
        }
        r
    }

    /// The book of `p_symbol`, if the engine holds one.
    pub fn book(&self, p_symbol: &String) -> (r: Option<&OrderBook>)
        requires
            self.wf(),
        ensures
            match r {
                Some(book) => self@.contains_key(p_symbol@) && book@ == self@[p_symbol@]
                    && book.wf(),
                None => !self@.contains_key(p_symbol@),
            },
    {
        match self.get_book_by_symbol(p_symbol) {
            Some(i) => Some(&self.books[i]),
            None => None,
        }
    }

    /// The slot of the book for `p_symbol`, if the engine holds one.
    fn get_book_by_symbol(&self, p_symbol: &String) -> (r: Option<usize>)
        ensures
            match r {
                Some(i) => i < self.symbols@.len() && self.symbols@[i as int]@ == p_symbol@,
                None => !self@.contains_key(p_symbol@),
            },
    {
        let len = self.symbols.len();
        let mut i: usize = 0;
        while i < len
            invariant
                len == self.symbols@.len(),
                i <= len,
                forall|k: int| 0 <= k < i ==> (#[trigger] self.symbols@[k])@ != p_symbol@,
            decreases len - i,
        {
            if self.symbols[i] == *p_symbol {
                return Some(i);
            }
            i += 1;
        }
        None
    }

    /// Opens an empty book for `p_symbol`, which must not have one yet, and
    /// gives back its slot.
    fn add_order_book(&mut self, p_symbol: &String) -> (i: usize)
        requires
            old(self).wf(),
            !old(self)@.contains_key(p_symbol@),
        ensures
            final(self).wf(),
            final(self)@ == old(self)@.insert(p_symbol@, BookView::empty()),
            i < final(self).symbols@.len(),
            final(self).symbols@[i as int]@ == p_symbol@,
    {
        let new_order_book = OrderBook::new();
        let i = self.symbols.len();
        self.symbols.push(p_symbol.clone());
        self.books.push(new_order_book);
        proof {
            let target = old(self)@.insert(p_symbol@, BookView::empty());
            assert forall|symbol: Seq<char>| self@.contains_key(symbol) <==> target.contains_key(
                symbol,
            ) by {
                if self@.contains_key(symbol) {
                    let k = self.slot_of(symbol);
                    if k != i {
                        assert(old(self).symbols@[k]@ == symbol);
                    }
                }
                if target.contains_key(symbol) {
                    if symbol == p_symbol@ {
                        assert(self.symbols@[i as int]@ == symbol);
                    } else {
                        let k = old(self).slot_of(symbol);
                        assert(self.symbols@[k]@ == symbol);
                    }
                }
            }
        }
        i
    }
}

/// The single entry point: handles one event for one order.
///
/// A new order is matched and rested. A replace or a cancel is accepted and
/// changes nothing: it reports no match and leaves engine and order as they
/// are.
pub fn process_event(
    p_event_type: EventType,
    p_order: &mut Order,
    p_order_book_collection: &mut MatchingEngine,
) -> (r: Result<Option<MatchingResult>, String>)
    requires
        old(p_order_book_collection).wf(),
    ensures
        final(p_order_book_collection).wf(),
        books_wf(final(p_order_book_collection)@),
        r is Ok,
        result_view(r->Ok_0) == event_result(
            p_event_type,
            old(p_order_book_collection)@,
            old(p_order)@,
        ),
        final(p_order_book_collection)@ == books_after_event(
            p_event_type,
            old(p_order_book_collection)@,
            old(p_order)@,
        ),
        final(p_order)@ == order_after_event(
            p_event_type,
            old(p_order_book_collection)@,
            old(p_order)@,
        ),
{
    proof {
        p_order_book_collection.lemma_books_wf();
    }
    match p_event_type {
        EventType::New => p_order_book_collection.process_new_order(p_order),
        EventType::Rpl => Ok(None),
        EventType::Cxl => Ok(None),
    }
}

} // verus!
