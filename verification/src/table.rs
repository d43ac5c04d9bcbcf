//! The counter table: one counter per range index. An index whose counter
//! is zero was never matched; `table_map` renders the table as the partial
//! mapping that holds only the matched indices, and such indices are
//! omitted from the report.

use vstd::prelude::*;
use crate::ranges::NUM_RANGES;

verus! {

/// Counts of matched values per range index, built by one forward pass
/// over the input and read-only afterwards.
pub struct CounterTable {
    counts: Vec<u64>,
}

impl View for CounterTable {
    type V = Seq<u64>;

    closed spec fn view(&self) -> Seq<u64> {
        self.counts@
    }
}

impl CounterTable {
    /// Every table holds exactly one counter per range.
    #[verifier::type_invariant]
    spec fn wf(self) -> bool {
        self.counts@.len() == NUM_RANGES
    }

    /// The table as a mapping from range index to count, holding exactly
    /// the indices that were matched at least once.
    pub open spec fn table_map(self) -> Map<int, u64> {
        Map::new(|i: int| 0 <= i < NUM_RANGES && self@[i] != 0, |i: int| self@[i])
    }

    /// A table in which no index was ever matched is empty as a mapping:
    /// it holds no entry at all.
    pub proof fn lemma_zero_table_is_empty(self)
        requires
            forall|i: int| 0 <= i < NUM_RANGES ==> self@[i] == 0,
        ensures
            self.table_map() == Map::<int, u64>::empty(),
    {
        assert(self.table_map() =~= Map::<int, u64>::empty());
    }

    /// The empty table: no index was matched yet.
    pub fn new() -> (t: CounterTable)
        ensures
            t@.len() == NUM_RANGES,
            forall|i: int| 0 <= i < NUM_RANGES ==> t@[i] == 0,
    {
        let counts: Vec<u64> = vec![0u64, 0u64, 0u64, 0u64, 0u64];
        CounterTable { counts }
    }

    /// The count recorded for range index `i`.
    pub fn get(&self, i: usize) -> (c: u64)
        requires
            i < NUM_RANGES,
        ensures
            c == self@[i as int],
            self@.len() == NUM_RANGES,
    {
        proof {
            use_type_invariant(self);
        }
        self.counts[i]
    }

    /// Record one more match for range index `i`.
    pub fn increment(&mut self, i: usize)
        requires
            i < NUM_RANGES,
            old(self)@[i as int] < u64::MAX,
        ensures
            final(self)@ == old(self)@.update(i as int, (old(self)@[i as int] + 1) as u64),
    {
        proof {
            use_type_invariant(&*self);
        }
        let c = self.counts[i];
        self.counts[i] = c + 1;
    }
}

} // verus!
