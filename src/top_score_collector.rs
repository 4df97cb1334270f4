use vstd::prelude::*;
use crate::doc::{DocAddress, DocId, Score, SegmentLocalId};
use crate::ranking::{concat_all, insert_bounded, is_top_k, ScoredDoc};

verus! {

/// Errors raised while configuring a collector.
#[derive(Clone, Copy, Debug, PartialEq, Eq, Structural)]
pub enum CollectorError {
    /// A bounded ranking collector was asked to keep no document.
    ZeroLimit,
}

/// Keeps the `limit` documents of best score, best first; equal scores are
/// ordered by address.
pub struct TopDocs {
    limit: usize,
}

/// The per-segment part of `TopDocs`.
pub struct TopScoreSegmentCollector {
    segment_local_id: SegmentLocalId,
    limit: usize,
    top: Vec<ScoredDoc>,
    seen: Ghost<Seq<ScoredDoc>>,
}

/// The views of a list of fruits of `TopDocs`.
pub open spec fn views_of(lists: Seq<Vec<ScoredDoc>>) -> Seq<Seq<ScoredDoc>> {
    lists.map_values(|l: Vec<ScoredDoc>| l@)
}

impl TopDocs {
    /// The number of documents kept.
    pub closed spec fn limit_spec(&self) -> nat {
        self.limit as nat
    }

    /// A collector that keeps at least one document.
    pub closed spec fn wf(&self) -> bool {
        self.limit >= 1
    }

    /// A top-score collector keeping `limit` documents; a limit of zero is a
    /// configuration error.
    pub fn with_limit(limit: usize) -> (r: Result<TopDocs, CollectorError>)
        ensures
            limit == 0 <==> r is Err,
            r matches Err(e) ==> e == CollectorError::ZeroLimit,
            r matches Ok(t) ==> t.wf() && t.limit_spec() == limit,
    {
        if limit == 0 {
            Err(CollectorError::ZeroLimit)
        } else {
            Ok(TopDocs { limit })
        }
    }

    /// The number of documents kept.
    pub fn limit(&self) -> (r: usize)
        ensures
            r == self.limit_spec(),
    {
        self.limit
    }

    /// Ranking by score needs the scores.
    pub fn requires_scoring(&self) -> (r: bool)
        ensures
            r,
    {
        true
    }

    /// A fresh per-segment collector for the segment `segment_local_id`.
    pub fn for_segment(&self, segment_local_id: SegmentLocalId) -> (r: TopScoreSegmentCollector)
        requires
            self.wf(),
        ensures
            r.wf(),
            r.segment_spec() == segment_local_id,
            r.limit_spec() == self.limit_spec(),
            r.seen() == Seq::<ScoredDoc>::empty(),
    {
        TopScoreSegmentCollector {
            segment_local_id,
            limit: self.limit,
            top: Vec::new(),
            seen: Ghost(Seq::empty()),
        }
    }

    /// Offers every entry of `fruit` to `top`.
    pub(crate) fn merge_into(
        &self,
        top: &mut Vec<ScoredDoc>,
        fruit: &Vec<ScoredDoc>,
        Ghost(seen): Ghost<Seq<ScoredDoc>>,
    )
        requires
            self.wf(),
            is_top_k(old(top)@, seen, self.limit_spec()),
        ensures
            is_top_k(final(top)@, seen + fruit@, self.limit_spec()),
    {
        let mut j: usize = 0;
        while j < fruit.len()
            invariant
                self.wf(),
                j <= fruit@.len(),
                is_top_k(top@, seen + fruit@.subrange(0, j as int), self.limit_spec()),
            decreases fruit@.len() - j,
        {
            let ghost before = seen + fruit@.subrange(0, j as int);
            insert_bounded(top, self.limit, fruit[j], Ghost(before));
            assert(before.push(fruit@[j as int]) =~= seen + fruit@.subrange(0, j + 1));
            j = j + 1;
        }
        assert(fruit@.subrange(0, fruit@.len() as int) =~= fruit@);
    }

    /// The `limit` best entries among all the per-segment lists.
    pub fn merge_fruits(&self, child_fruits: Vec<Vec<ScoredDoc>>) -> (r: Vec<ScoredDoc>)
        requires
            self.wf(),
        ensures
            is_top_k(r@, concat_all(views_of(child_fruits@)), self.limit_spec()),
    {
        let mut top: Vec<ScoredDoc> = Vec::new();
        let ghost views = views_of(child_fruits@);
        let mut i: usize = 0;
        while i < child_fruits.len()
            invariant
                self.wf(),
                i <= child_fruits@.len(),
                views == views_of(child_fruits@),
                is_top_k(top@, concat_all(views.subrange(0, i as int)), self.limit_spec()),
            decreases child_fruits@.len() - i,
        {
            self.merge_into(&mut top, &child_fruits[i], Ghost(concat_all(views.subrange(0, i as int))));
            assert(views.subrange(0, i + 1).drop_last() =~= views.subrange(0, i as int));
            i = i + 1;
        }
        assert(views.subrange(0, views.len() as int) =~= views);
        top
    }
}

impl TopScoreSegmentCollector {
    /// The entries offered so far.
    pub closed spec fn seen(&self) -> Seq<ScoredDoc> {
        self.seen@
    }

    /// The number of documents kept.
    pub closed spec fn limit_spec(&self) -> nat {
        self.limit as nat
    }

    /// The segment whose documents are collected.
    pub closed spec fn segment_spec(&self) -> SegmentLocalId {
        self.segment_local_id
    }

    /// The kept list is the top list of what was offered.
    pub closed spec fn wf(&self) -> bool {
        self.limit >= 1 && is_top_k(self.top@, self.seen@, self.limit as nat)
    }

    /// Offers the document `doc` of this segment with score `score`.
    pub fn collect(&mut self, doc: DocId, score: Score)
        requires
            old(self).wf(),
        ensures
            final(self).wf(),
            final(self).seen() == old(self).seen().push((score, DocAddress(old(self).segment_spec(), doc))),
            final(self).limit_spec() == old(self).limit_spec(),
            final(self).segment_spec() == old(self).segment_spec(),
    {
        let e: ScoredDoc = (score, DocAddress(self.segment_local_id, doc));
        insert_bounded(&mut self.top, self.limit, e, Ghost(self.seen@));
        self.seen = Ghost(self.seen@.push(e));
    }

    /// The best entries offered, best first.
    pub fn harvest(self) -> (r: Vec<ScoredDoc>)
        requires
            self.wf(),
        ensures
            is_top_k(r@, self.seen(), self.limit_spec()),
    {
        self.top
    }
}

} // verus!
