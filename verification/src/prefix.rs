//! Counting how far a property reaches from the front of a sequence.

use vstd::prelude::*;

verus! {

/// The number of consecutive indices, starting at `from` and staying below
/// `to`, at which `p` holds.
pub open spec fn leading(p: spec_fn(int) -> bool, from: int, to: int) -> nat
    decreases to - from,
{
    if from >= to || !p(from) {
        0
    } else {
        1 + leading(p, from + 1, to)
    }
}

/// If `p` holds on `from..stop` and fails at `stop` (unless `stop` is `to`),
/// then exactly `stop - from` indices lead.
pub proof fn lemma_leading_stops(p: spec_fn(int) -> bool, from: int, stop: int, to: int)
    requires
        from <= stop <= to,
        forall|k: int| from <= k < stop ==> #[trigger] p(k),
        stop < to ==> !p(stop),
    ensures
        leading(p, from, to) == stop - from,
    decreases stop - from,
{
    if from < stop {
        lemma_leading_stops(p, from + 1, stop, to);
    }
}

/// The leading run never leaves the range it was counted in.
pub proof fn lemma_leading_bounded(p: spec_fn(int) -> bool, from: int, to: int)
    requires
        from <= to,
    ensures
        leading(p, from, to) <= to - from,
    decreases to - from,
{
    if from < to && p(from) {
        lemma_leading_bounded(p, from + 1, to);
    }
}

/// `p` holds at every index of the leading run and fails right after it.
pub proof fn lemma_leading_holds(p: spec_fn(int) -> bool, from: int, to: int)
    requires
        from <= to,
    ensures
        forall|k: int| from <= k < from + leading(p, from, to) ==> #[trigger] p(k),
        from + leading(p, from, to) < to ==> !p(from + leading(p, from, to)),
    decreases to - from,
{
    if from < to && p(from) {
        lemma_leading_holds(p, from + 1, to);
    }
}

} // verus!
