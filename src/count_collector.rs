use vstd::prelude::*;
use crate::doc::{DocId, Score, SegmentLocalId};

verus! {

/// Counts the matching documents.
#[derive(Clone, Copy, Debug, PartialEq, Eq, Structural)]
pub struct CountCollector;

/// The per-segment part of `CountCollector`.
#[derive(Clone, Copy, Debug, PartialEq, Eq, Structural)]
pub struct SegmentCountCollector {
    pub count: u64,
}

/// The sum of a list of counts.
pub open spec fn sum_counts(s: Seq<u64>) -> int
    decreases s.len(),
{
    if s.len() == 0 {
        0
    } else {
        sum_counts(s.drop_last()) + s.last()
    }
}

impl CountCollector {
    /// Counting does not need the scores.
    pub fn requires_scoring(&self) -> (r: bool)
        ensures
            !r,
    {
        false
    }

    /// A fresh per-segment counter.
    pub fn for_segment(&self, segment_local_id: SegmentLocalId) -> (r: SegmentCountCollector)
        ensures
            r.count == 0,
    {
        SegmentCountCollector { count: 0 }
    }

    /// The total over all segments.
    pub fn merge_fruits(&self, child_fruits: Vec<u64>) -> (r: u64)
        requires
            sum_counts(child_fruits@) <= u64::MAX,
        ensures
            r == sum_counts(child_fruits@),
    {
        let mut total: u64 = 0;
        let mut i: usize = 0;
        while i < child_fruits.len()
            invariant
                i <= child_fruits@.len(),
                sum_counts(child_fruits@) <= u64::MAX,
                total == sum_counts(child_fruits@.subrange(0, i as int)),
            decreases child_fruits@.len() - i,
        {
            proof {
                let s = child_fruits@;
                assert(s.subrange(0, i + 1).drop_last() =~= s.subrange(0, i as int));
                lemma_sum_counts_prefix(s, i + 1);
            }
            total = total + child_fruits[i];
            i = i + 1;
        }
        assert(child_fruits@.subrange(0, child_fruits@.len() as int) =~= child_fruits@);
        total
    }
}

/// A prefix sums to no more than the whole list.
pub proof fn lemma_sum_counts_prefix(s: Seq<u64>, n: int)
    requires
        0 <= n <= s.len(),
    ensures
        sum_counts(s.subrange(0, n)) <= sum_counts(s),
    decreases s.len() - n,
{
    if n < s.len() {
        lemma_sum_counts_prefix(s, n + 1);
        assert(s.subrange(0, n + 1).drop_last() =~= s.subrange(0, n));
    } else {
        assert(s.subrange(0, n) =~= s);
    }
}

impl SegmentCountCollector {
    /// Counts one more document.
    pub fn collect(&mut self, doc: DocId, score: Score)
        requires
            old(self).count < u64::MAX,
        ensures
            final(self).count == old(self).count + 1,
    {
        self.count = self.count + 1;
    }

    /// The number of documents counted.
    pub fn harvest(self) -> (r: u64)
        ensures
            r == self.count,
    {
        self.count
    }
}

/// However the matching documents are split into segments, the merged count
/// is the number of documents: each segment counts its own part.
pub proof fn lemma_count_shard_invariance(parts: Seq<Seq<DocId>>, counts: Seq<u64>)
    requires
        counts.len() == parts.len(),
        forall|i: int| 0 <= i < parts.len() ==> #[trigger] counts[i] == parts[i].len(),
    ensures
        sum_counts(counts) == parts.flatten_alt().len(),
    decreases parts.len(),
{
    if parts.len() > 0 {
        lemma_count_shard_invariance(parts.drop_last(), counts.drop_last());
        assert(counts[counts.len() - 1] == parts[parts.len() - 1].len());
    }
}

} // verus!
