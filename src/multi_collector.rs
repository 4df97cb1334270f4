use vstd::prelude::*;
use crate::count_collector::{sum_counts, CountCollector, SegmentCountCollector};
use crate::doc::{DocAddress, DocId, Score, SegmentLocalId};
use crate::ranking::{concat_all, is_top_k, lemma_top_k_unique, ScoredDoc};
use crate::top_score_collector::{TopDocs, TopScoreSegmentCollector};

verus! {

/// A collector of any of the kinds this library offers.
pub enum AnyCollector {
    Count(CountCollector),
    TopDocs(TopDocs),
}

/// The result of a collector whose kind is only known at run time.
pub enum AnyFruit {
    Count(u64),
    TopDocs(Vec<ScoredDoc>),
}

/// A per-segment collector whose kind is only known at run time.
pub enum AnySegmentCollector {
    Count(SegmentCountCollector),
    TopDocs(TopScoreSegmentCollector),
}

/// A collector behind the one interface shared by all kinds.
pub struct CollectorWrapper(pub AnyCollector);

/// The count of a fruit that holds one, else zero.
pub open spec fn count_of(f: AnyFruit) -> u64 {
    match f {
        AnyFruit::Count(n) => n,
        _ => 0,
    }
}

/// The ranked list of a fruit that holds one, else the empty list.
pub open spec fn top_of(f: AnyFruit) -> Seq<ScoredDoc> {
    match f {
        AnyFruit::TopDocs(v) => v@,
        _ => Seq::empty(),
    }
}

/// The counts held by a list of fruits.
pub open spec fn counts_of(fruits: Seq<AnyFruit>) -> Seq<u64> {
    fruits.map_values(|f: AnyFruit| count_of(f))
}

/// The ranked lists held by a list of fruits.
pub open spec fn tops_of(fruits: Seq<AnyFruit>) -> Seq<Seq<ScoredDoc>> {
    fruits.map_values(|f: AnyFruit| top_of(f))
}

/// Two fruits hold the same value.
pub open spec fn same_fruit(a: AnyFruit, b: AnyFruit) -> bool {
    match (a, b) {
        (AnyFruit::Count(x), AnyFruit::Count(y)) => x == y,
        (AnyFruit::TopDocs(x), AnyFruit::TopDocs(y)) => x@ == y@,
        _ => false,
    }
}

impl AnyFruit {
    /// The fruit holds a count.
    pub open spec fn is_count(&self) -> bool {
        self is Count
    }

    /// The fruit holds a ranked list.
    pub open spec fn is_top_docs(&self) -> bool {
        self is TopDocs
    }

    /// The count this fruit holds.
    pub fn into_count(self) -> (r: u64)
        requires
            self.is_count(),
        ensures
            r == count_of(self),
    {
        match self {
            AnyFruit::Count(n) => n,
            AnyFruit::TopDocs(_) => 0,
        }
    }

    /// The ranked list this fruit holds.
    pub fn into_top_docs(self) -> (r: Vec<ScoredDoc>)
        requires
            self.is_top_docs(),
        ensures
            r@ == top_of(self),
    {
        match self {
            AnyFruit::TopDocs(v) => v,
            AnyFruit::Count(_) => Vec::new(),
        }
    }
}

impl AnySegmentCollector {
    /// The collector holds a consistent state.
    pub open spec fn wf(&self) -> bool {
        match self {
            AnySegmentCollector::Count(_) => true,
            AnySegmentCollector::TopDocs(t) => t.wf(),
        }
    }

    /// The collector can take one more document.
    pub open spec fn ready(&self) -> bool {
        match self {
            AnySegmentCollector::Count(c) => c.count < u64::MAX,
            AnySegmentCollector::TopDocs(t) => t.wf(),
        }
    }

    /// `next` is this collector after it was offered `doc` with `score`.
    pub open spec fn advanced(&self, next: AnySegmentCollector, doc: DocId, score: Score) -> bool {
        match (*self, next) {
            (AnySegmentCollector::Count(a), AnySegmentCollector::Count(b)) => b.count == a.count + 1,
            (AnySegmentCollector::TopDocs(a), AnySegmentCollector::TopDocs(b)) => {
                &&& b.wf()
                &&& b.seen() == a.seen().push((score, DocAddress(a.segment_spec(), doc)))
                &&& b.limit_spec() == a.limit_spec()
                &&& b.segment_spec() == a.segment_spec()
            },
            _ => false,
        }
    }

    /// Two collectors of the same kind that were offered the same documents.
    pub open spec fn same_stream(&self, other: AnySegmentCollector) -> bool {
        match (*self, other) {
            (AnySegmentCollector::Count(a), AnySegmentCollector::Count(b)) => a.count == b.count,
            (AnySegmentCollector::TopDocs(a), AnySegmentCollector::TopDocs(b)) => {
                &&& a.seen() == b.seen()
                &&& a.limit_spec() == b.limit_spec()
                &&& a.segment_spec() == b.segment_spec()
            },
            _ => false,
        }
    }

    /// `f` is what this collector yields when harvested.
    pub open spec fn yields(&self, f: AnyFruit) -> bool {
        match (*self, f) {
            (AnySegmentCollector::Count(c), AnyFruit::Count(n)) => n == c.count,
            (AnySegmentCollector::TopDocs(t), AnyFruit::TopDocs(v)) => is_top_k(
                v@,
                t.seen(),
                t.limit_spec(),
            ),
            _ => false,
        }
    }

    /// Offers the document `doc` with score `score`.
    pub fn collect(&mut self, doc: DocId, score: Score)
        requires
            old(self).ready(),
        ensures
            old(self).advanced(*final(self), doc, score),
    {
        match self {
            AnySegmentCollector::Count(c) => c.collect(doc, score),
            AnySegmentCollector::TopDocs(t) => t.collect(doc, score),
        }
    }

    /// The result for this segment.
    pub fn harvest(self) -> (r: AnyFruit)
        requires
            self.wf(),
        ensures
            self.yields(r),
    {
        match self {
            AnySegmentCollector::Count(c) => AnyFruit::Count(c.harvest()),
            AnySegmentCollector::TopDocs(t) => AnyFruit::TopDocs(t.harvest()),
        }
    }
}

impl CollectorWrapper {
    /// The wrapped collector is well configured.
    pub open spec fn wf(&self) -> bool {
        match self.0 {
            AnyCollector::Count(_) => true,
            AnyCollector::TopDocs(t) => t.wf(),
        }
    }

    /// Whether the wrapped collector needs the scores.
    pub open spec fn needs_scores(&self) -> bool {
        match self.0 {
            AnyCollector::Count(_) => false,
            AnyCollector::TopDocs(_) => true,
        }
    }

    /// `c` is a fresh per-segment collector of this collector for `segment`.
    pub open spec fn fresh(&self, c: AnySegmentCollector, segment: SegmentLocalId) -> bool {
        match (self.0, c) {
            (AnyCollector::Count(_), AnySegmentCollector::Count(s)) => s.count == 0,
            (AnyCollector::TopDocs(t), AnySegmentCollector::TopDocs(s)) => {
                &&& s.wf()
                &&& s.seen() == Seq::<ScoredDoc>::empty()
                &&& s.limit_spec() == t.limit_spec()
                &&& s.segment_spec() == segment
            },
            _ => false,
        }
    }

    /// `f` is a per-segment fruit of this collector's kind.
    pub open spec fn fits(&self, f: AnyFruit) -> bool {
        match self.0 {
            AnyCollector::Count(_) => f is Count,
            AnyCollector::TopDocs(_) => f is TopDocs,
        }
    }

    /// The per-segment fruits can be merged without overflow.
    pub open spec fn mergeable(&self, fruits: Seq<AnyFruit>) -> bool {
        &&& forall|s: int| 0 <= s < fruits.len() ==> self.fits(#[trigger] fruits[s])
        &&& (self.0 is Count ==> sum_counts(counts_of(fruits)) <= u64::MAX)
    }

    /// `r` is the merge of the per-segment fruits `fruits`.
    pub open spec fn merged(&self, fruits: Seq<AnyFruit>, r: AnyFruit) -> bool {
        match (self.0, r) {
            (AnyCollector::Count(_), AnyFruit::Count(n)) => n == sum_counts(counts_of(fruits)),
            (AnyCollector::TopDocs(t), AnyFruit::TopDocs(v)) => is_top_k(
                v@,
                concat_all(tops_of(fruits)),
                t.limit_spec(),
            ),
            _ => false,
        }
    }

    /// Wraps a collector.
    pub fn new(collector: AnyCollector) -> (r: CollectorWrapper)
        ensures
            r.0 == collector,
    {
        CollectorWrapper(collector)
    }

    /// A fresh per-segment collector for the segment `segment_local_id`.
    pub fn for_segment(&self, segment_local_id: SegmentLocalId) -> (r: AnySegmentCollector)
        requires
            self.wf(),
        ensures
            self.fresh(r, segment_local_id),
    {
        match &self.0 {
            AnyCollector::Count(c) => AnySegmentCollector::Count(c.for_segment(segment_local_id)),
            AnyCollector::TopDocs(t) => AnySegmentCollector::TopDocs(t.for_segment(segment_local_id)),
        }
    }

    /// Whether the wrapped collector needs the scores.
    pub fn requires_scoring(&self) -> (r: bool)
        ensures
            r == self.needs_scores(),
    {
        match &self.0 {
            AnyCollector::Count(c) => c.requires_scoring(),
            AnyCollector::TopDocs(t) => t.requires_scoring(),
        }
    }

    /// Merges the per-segment fruits of the wrapped collector, read back as
    /// the kind it produced.
    pub fn merge_children_anys(&self, childrens: &Vec<AnyFruit>) -> (r: AnyFruit)
        requires
            self.wf(),
            self.mergeable(childrens@),
        ensures
            self.merged(childrens@, r),
    {
        let ghost fruits = childrens@;
        match &self.0 {
            AnyCollector::Count(c) => {
                let mut total: u64 = 0;
                let mut i: usize = 0;
                while i < childrens.len()
                    invariant
                        self.0 is Count,
                        fruits == childrens@,
                        self.mergeable(fruits),
                        i <= fruits.len(),
                        total == sum_counts(counts_of(fruits).subrange(0, i as int)),
                    decreases fruits.len() - i,
                {
                    let n = match &childrens[i] {
                        AnyFruit::Count(n) => *n,
                        AnyFruit::TopDocs(_) => 0,
                    };
                    proof {
                        let s = counts_of(fruits);
                        assert(self.fits(fruits[i as int]));
                        assert(s.subrange(0, i + 1).drop_last() =~= s.subrange(0, i as int));
                        crate::count_collector::lemma_sum_counts_prefix(s, i + 1);
                    }
                    total = total + n;
                    i = i + 1;
                }
                assert(counts_of(fruits).subrange(0, fruits.len() as int) =~= counts_of(fruits));
                AnyFruit::Count(total)
            },
            AnyCollector::TopDocs(t) => {
                let ghost views = tops_of(fruits);
                let mut top: Vec<ScoredDoc> = Vec::new();
                let mut i: usize = 0;
                while i < childrens.len()
                    invariant
                        self.0 == AnyCollector::TopDocs(*t),
                        t.wf(),
                        fruits == childrens@,
                        views == tops_of(fruits),
                        i <= fruits.len(),
                        is_top_k(top@, concat_all(views.subrange(0, i as int)), t.limit_spec()),
                    decreases fruits.len() - i,
                {
                    let ghost before = concat_all(views.subrange(0, i as int));
                    match &childrens[i] {
                        AnyFruit::TopDocs(v) => {
                            t.merge_into(&mut top, v, Ghost(before));
                        },
                        AnyFruit::Count(_) => {},
                    }
                    assert(views.subrange(0, i + 1).drop_last() =~= views.subrange(0, i as int));
                    i = i + 1;
                }
                assert(views.subrange(0, views.len() as int) =~= views);
                AnyFruit::TopDocs(top)
            },
        }
    }
}

/// The fruit of slot `i` of every segment, in segment order.
pub open spec fn column(segments: Seq<Vec<AnyFruit>>, i: int) -> Seq<AnyFruit> {
    Seq::new(segments.len(), |s: int| segments[s]@[i])
}

/// Runs several collectors, of kinds chosen at run time, in one scan.
pub struct MultiCollector {
    collector_wrappers: Vec<CollectorWrapper>,
}

/// The per-segment part of `MultiCollector`: one child per collector, in
/// the order the collectors were added.
pub struct MultiCollectorChild {
    children: Vec<AnySegmentCollector>,
}

impl MultiCollector {
    /// The registered collectors, in the order they were added.
    pub closed spec fn wrappers(&self) -> Seq<CollectorWrapper> {
        self.collector_wrappers@
    }

    /// Every registered collector is well configured.
    pub open spec fn wf(&self) -> bool {
        forall|i: int| 0 <= i < self.wrappers().len() ==> (#[trigger] self.wrappers()[i]).wf()
    }

    /// A composite with no collector.
    pub fn new() -> (r: MultiCollector)
        ensures
            r.wrappers() == Seq::<CollectorWrapper>::empty(),
    {
        MultiCollector { collector_wrappers: Vec::new() }
    }

    /// Registers one more collector, after those already there.
    pub fn add_collector(&mut self, collector: AnyCollector)
        ensures
            final(self).wrappers() == old(self).wrappers().push(CollectorWrapper(collector)),
    {
        let collector_wrapper = CollectorWrapper::new(collector);
        self.collector_wrappers.push(collector_wrapper);
    }

    /// One fresh per-segment collector for each registered collector, in
    /// the order of registration.
    pub fn for_segment(&self, segment_local_id: SegmentLocalId) -> (r: MultiCollectorChild)
        requires
            self.wf(),
        ensures
            r.children().len() == self.wrappers().len(),
            forall|i: int|
                0 <= i < self.wrappers().len() ==> #[trigger] self.wrappers()[i].fresh(
                    r.children()[i],
                    segment_local_id,
                ),
    {
        let mut children: Vec<AnySegmentCollector> = Vec::new();
        let mut i: usize = 0;
        while i < self.collector_wrappers.len()
            invariant
                self.wf(),
                i <= self.wrappers().len(),
                children@.len() == i,
                forall|j: int|
                    0 <= j < i ==> #[trigger] self.wrappers()[j].fresh(children@[j], segment_local_id),
            decreases self.wrappers().len() - i,
        {
            assert(self.wrappers()[i as int].wf());
            let child = self.collector_wrappers[i].for_segment(segment_local_id);
            children.push(child);
            i = i + 1;
        }
        MultiCollectorChild { children }
    }

    /// Whether any registered collector needs the scores.
    pub fn requires_scoring(&self) -> (r: bool)
        ensures
            r == exists|i: int|
                0 <= i < self.wrappers().len() && (#[trigger] self.wrappers()[i]).needs_scores(),
    {
        let mut i: usize = 0;
        while i < self.collector_wrappers.len()
            invariant
                i <= self.wrappers().len(),
                forall|j: int| 0 <= j < i ==> !(#[trigger] self.wrappers()[j]).needs_scores(),
            decreases self.wrappers().len() - i,
        {
            if self.collector_wrappers[i].requires_scoring() {
                return true;
            }
            i = i + 1;
        }
        false
    }

    /// The per-segment fruits can be merged: each segment gave one fruit per
    /// collector, each of its collector's kind, and no count overflows.
    pub open spec fn mergeable(&self, segments: Seq<Vec<AnyFruit>>) -> bool {
        &&& forall|s: int| 0 <= s < segments.len() ==> (#[trigger] segments[s])@.len() == self.wrappers().len()
        &&& forall|i: int|
            0 <= i < self.wrappers().len() ==> (#[trigger] self.wrappers()[i]).mergeable(column(segments, i))
    }

    /// Regroups the per-segment fruits by collector and merges each group
    /// with its own collector.
    pub fn merge_fruits(&self, segments_multifruits: Vec<Vec<AnyFruit>>) -> (r: Vec<AnyFruit>)
        requires
            self.wf(),
            self.mergeable(segments_multifruits@),
        ensures
            r@.len() == self.wrappers().len(),
            forall|i: int|
                0 <= i < self.wrappers().len() ==> #[trigger] self.wrappers()[i].merged(
                    column(segments_multifruits@, i),
                    r@[i],
                ),
    {
        let ghost segs = segments_multifruits@;
        let n = self.collector_wrappers.len();
        let mut segment_fruits_list: Vec<Vec<AnyFruit>> = Vec::new();
        let mut i: usize = 0;
        while i < n
            invariant
                n == self.wrappers().len(),
                i <= n,
                segment_fruits_list@.len() == i,
                forall|j: int| 0 <= j < i ==> (#[trigger] segment_fruits_list@[j])@ == Seq::<AnyFruit>::empty(),
            decreases n - i,
        {
            segment_fruits_list.push(Vec::new());
            i = i + 1;
        }
        let mut segments_multifruits = segments_multifruits;
        let mut s: usize = 0;
        while s < segments_multifruits.len()
            invariant
                n == self.wrappers().len(),
                self.mergeable(segs),
                segments_multifruits@.len() == segs.len(),
                s <= segs.len(),
                forall|t: int| s <= t < segs.len() ==> #[trigger] segments_multifruits@[t] == segs[t],
                segment_fruits_list@.len() == n,
                forall|j: int|
                    0 <= j < n ==> (#[trigger] segment_fruits_list@[j])@ == column(segs, j).subrange(0, s as int),
            decreases segs.len() - s,
        {
            let mut segment_multifruit: Vec<AnyFruit> = Vec::new();
            core::mem::swap(&mut segments_multifruits[s], &mut segment_multifruit);
            assert(segment_multifruit == segs[s as int]);
            assert(segment_multifruit@.len() == n);
            let mut idx: usize = 0;
            while idx < n
                invariant
                    n == self.wrappers().len(),
                    segment_multifruit@.len() == n,
                    s < segs.len(),
                    idx <= n,
                    forall|t: int| idx <= t < n ==> #[trigger] segment_multifruit@[t] == segs[s as int]@[t],
                    segment_fruits_list@.len() == n,
                    forall|j: int|
                        0 <= j < idx ==> (#[trigger] segment_fruits_list@[j])@ == column(segs, j).subrange(0, s + 1),
                    forall|j: int|
                        idx <= j < n ==> (#[trigger] segment_fruits_list@[j])@ == column(segs, j).subrange(0, s as int),
                decreases n - idx,
            {
                let mut segment_fruit = AnyFruit::Count(0);
                core::mem::swap(&mut segment_multifruit[idx], &mut segment_fruit);
                segment_fruits_list[idx].push(segment_fruit);
                assert(column(segs, idx as int).subrange(0, s + 1) =~= column(segs, idx as int).subrange(0, s as int).push(segs[s as int]@[idx as int]));
                idx = idx + 1;
            }
            s = s + 1;
        }
        let mut merged: Vec<AnyFruit> = Vec::new();
        let mut i: usize = 0;
        while i < n
            invariant
                n == self.wrappers().len(),
                self.wf(),
                self.mergeable(segs),
                segment_fruits_list@.len() == n,
                forall|j: int| 0 <= j < n ==> (#[trigger] segment_fruits_list@[j])@ == column(segs, j),
                merged@.len() == i,
                i <= n,
                forall|j: int| 0 <= j < i ==> #[trigger] self.wrappers()[j].merged(column(segs, j), merged@[j]),
            decreases n - i,
        {
            assert(self.wrappers()[i as int].wf());
            assert(self.wrappers()[i as int].mergeable(column(segs, i as int)));
            let fruit = self.collector_wrappers[i].merge_children_anys(&segment_fruits_list[i]);
            merged.push(fruit);
            i = i + 1;
        }
        merged
    }
}

impl MultiCollectorChild {
    /// The per-segment collectors, in the order of registration.
    pub closed spec fn children(&self) -> Seq<AnySegmentCollector> {
        self.children@
    }

    /// Offers the document `doc` with score `score` to every child.
    pub fn collect(&mut self, doc: DocId, score: Score)
        requires
            forall|i: int| 0 <= i < old(self).children().len() ==> (#[trigger] old(self).children()[i]).ready(),
        ensures
            final(self).children().len() == old(self).children().len(),
            forall|i: int|
                0 <= i < old(self).children().len() ==> #[trigger] old(self).children()[i].advanced(
                    final(self).children()[i],
                    doc,
                    score,
                ),
    {
        let ghost before = self.children@;
        assert forall|j: int| 0 <= j < before.len() implies (#[trigger] before[j]).ready() by {
            assert(old(self).children()[j].ready());
        }
        let n = self.children.len();
        let mut i: usize = 0;
        while i < n
            invariant
                n == before.len(),
                self.children@.len() == n,
                i <= n,
                forall|j: int| 0 <= j < n ==> (#[trigger] before[j]).ready(),
                forall|j: int| 0 <= j < i ==> #[trigger] before[j].advanced(self.children@[j], doc, score),
                forall|j: int| i <= j < n ==> #[trigger] self.children@[j] == before[j],
            decreases n - i,
        {
            self.children[i].collect(doc, score);
            i = i + 1;
        }
    }

    /// One fruit per child, in the order of the children.
    pub fn harvest(self) -> (r: Vec<AnyFruit>)
        requires
            forall|i: int| 0 <= i < self.children().len() ==> (#[trigger] self.children()[i]).wf(),
        ensures
            r@.len() == self.children().len(),
            forall|i: int| 0 <= i < self.children().len() ==> #[trigger] self.children()[i].yields(r@[i]),
    {
        let ghost before = self.children@;
        assert forall|j: int| 0 <= j < before.len() implies (#[trigger] before[j]).wf() by {
            assert(self.children()[j].wf());
        }
        let mut children = self.children;
        let n = children.len();
        let mut fruits: Vec<AnyFruit> = Vec::new();
        let mut i: usize = 0;
        while i < n
            invariant
                n == before.len(),
                children@.len() == n,
                i <= n,
                forall|j: int| 0 <= j < n ==> (#[trigger] before[j]).wf(),
                forall|j: int| i <= j < n ==> #[trigger] children@[j] == before[j],
                fruits@.len() == i,
                forall|j: int| 0 <= j < i ==> #[trigger] before[j].yields(fruits@[j]),
            decreases n - i,
        {
            let mut child = AnySegmentCollector::Count(SegmentCountCollector { count: 0 });
            core::mem::swap(&mut children[i], &mut child);
            fruits.push(child.harvest());
            i = i + 1;
        }
        fruits
    }
}

/// Two fresh per-segment collectors of one collector for one segment are in
/// the same state.
pub proof fn lemma_fresh_same_stream(
    w: CollectorWrapper,
    a: AnySegmentCollector,
    b: AnySegmentCollector,
    segment: SegmentLocalId,
)
    requires
        w.fresh(a, segment),
        w.fresh(b, segment),
    ensures
        a.same_stream(b),
{
}

/// Two per-segment collectors in the same state that are offered the same
/// document stay in the same state, whether they run alone or inside a
/// composite.
pub proof fn lemma_same_stream_advances(
    a: AnySegmentCollector,
    b: AnySegmentCollector,
    a2: AnySegmentCollector,
    b2: AnySegmentCollector,
    doc: DocId,
    score: Score,
)
    requires
        a.same_stream(b),
        a.advanced(a2, doc, score),
        b.advanced(b2, doc, score),
    ensures
        a2.same_stream(b2),
{
}

/// Two per-segment collectors in the same state yield the same fruit.
pub proof fn lemma_same_stream_same_fruit(
    a: AnySegmentCollector,
    b: AnySegmentCollector,
    fa: AnyFruit,
    fb: AnyFruit,
)
    requires
        a.same_stream(b),
        a.yields(fa),
        b.yields(fb),
    ensures
        same_fruit(fa, fb),
{
    match (a, b, fa, fb) {
        (
            AnySegmentCollector::TopDocs(ta),
            AnySegmentCollector::TopDocs(tb),
            AnyFruit::TopDocs(va),
            AnyFruit::TopDocs(vb),
        ) => {
            lemma_top_k_unique(va@, ta.seen(), vb@, tb.seen(), ta.limit_spec());
        },
        _ => {},
    }
}

/// A collector merges per-segment fruits of the same values into the same
/// final fruit, whether it runs alone or inside a composite.
pub proof fn lemma_same_fruits_same_merge(
    w: CollectorWrapper,
    fruits_a: Seq<AnyFruit>,
    fruits_b: Seq<AnyFruit>,
    ra: AnyFruit,
    rb: AnyFruit,
)
    requires
        fruits_a.len() == fruits_b.len(),
        forall|s: int| 0 <= s < fruits_a.len() ==> same_fruit(#[trigger] fruits_a[s], fruits_b[s]),
        w.merged(fruits_a, ra),
        w.merged(fruits_b, rb),
    ensures
        same_fruit(ra, rb),
{
    assert(counts_of(fruits_a) =~= counts_of(fruits_b)) by {
        assert forall|s: int| 0 <= s < fruits_a.len() implies count_of(fruits_a[s]) == count_of(
            fruits_b[s],
        ) by {
            assert(same_fruit(fruits_a[s], fruits_b[s]));
        }
    }
    assert(tops_of(fruits_a) =~= tops_of(fruits_b)) by {
        assert forall|s: int| 0 <= s < fruits_a.len() implies top_of(fruits_a[s]) == top_of(
            fruits_b[s],
        ) by {
            assert(same_fruit(fruits_a[s], fruits_b[s]));
        }
    }
    match (w.0, ra, rb) {
        (AnyCollector::TopDocs(t), AnyFruit::TopDocs(va), AnyFruit::TopDocs(vb)) => {
            let c = concat_all(tops_of(fruits_a));
            lemma_top_k_unique(va@, c, vb@, c, t.limit_spec());
        },
        _ => {},
    }
}

} // verus!
