use tantivy_collect::count_collector::CountCollector;
use tantivy_collect::doc::{score_from_bits, score_to_bits, DocAddress, Score};
use tantivy_collect::multi_collector::{
    AnyCollector, AnyFruit, AnySegmentCollector, CollectorWrapper, MultiCollector,
};
use tantivy_collect::top_score_collector::{CollectorError, TopDocs};

fn key(score: f32) -> Score {
    score_from_bits(score.to_bits())
}

fn float(key: Score) -> f32 {
    f32::from_bits(score_to_bits(key))
}

fn readable(fruit: Vec<(Score, DocAddress)>) -> Vec<(f32, DocAddress)> {
    fruit.into_iter().map(|(k, a)| (float(k), a)).collect()
}

/// Runs a top collector over one segment holding the given (doc, score) hits.
fn top_docs_of(limit: usize, hits: &[(u32, f32)]) -> Vec<(f32, DocAddress)> {
    let top = TopDocs::with_limit(limit).unwrap();
    let mut segment = top.for_segment(0);
    for &(doc, score) in hits {
        segment.collect(doc, key(score));
    }
    let fruit = segment.harvest();
    readable(top.merge_fruits(vec![fruit]))
}

#[test]
fn test_top_collector_not_at_capacity() {
    let score_docs = top_docs_of(4, &[(0, 0.48527452), (1, 0.81221175), (2, 0.5376842)]);
    assert_eq!(
        score_docs,
        vec![
            (0.81221175, DocAddress(0u32, 1)),
            (0.5376842, DocAddress(0u32, 2)),
            (0.48527452, DocAddress(0, 0))
        ]
    );
}

#[test]
fn test_top_collector_at_capacity() {
    let score_docs = top_docs_of(2, &[(0, 0.48527452), (1, 0.81221175), (2, 0.5376842)]);
    assert_eq!(
        score_docs,
        vec![(0.81221175, DocAddress(0u32, 1)), (0.5376842, DocAddress(0u32, 2)),]
    );
}

#[test]
#[should_panic]
fn test_top_0() {
    TopDocs::with_limit(0).unwrap();
}

#[test]
fn zero_limit_is_a_configuration_error() {
    assert!(matches!(TopDocs::with_limit(0), Err(CollectorError::ZeroLimit)));
    assert_eq!(TopDocs::with_limit(1).unwrap().limit(), 1);
    assert_eq!(TopDocs::with_limit(usize::MAX).unwrap().limit(), usize::MAX);
}

#[test]
fn two_matches_out_of_four_documents() {
    let score_docs = top_docs_of(2, &[(1, 0.7261542), (3, 0.6099695)]);
    assert_eq!(
        score_docs,
        vec![(0.7261542, DocAddress(0, 1)), (0.6099695, DocAddress(0, 3))]
    );
}

#[test]
fn count_and_top_two_in_one_scan() {
    let mut multi = MultiCollector::new();
    multi.add_collector(AnyCollector::Count(CountCollector));
    multi.add_collector(AnyCollector::TopDocs(TopDocs::with_limit(2).unwrap()));
    let mut segment = multi.for_segment(0);
    segment.collect(0, key(0.48527452));
    segment.collect(1, key(0.81221175));
    segment.collect(2, key(0.5376842));
    let fruits = multi.merge_fruits(vec![segment.harvest()]);
    let mut fruits = fruits.into_iter();
    assert_eq!(fruits.next().unwrap().into_count(), 3);
    assert_eq!(
        readable(fruits.next().unwrap().into_top_docs()),
        vec![(0.81221175, DocAddress(0, 1)), (0.5376842, DocAddress(0, 2))]
    );
    assert!(fruits.next().is_none());
}

#[test]
fn result_does_not_depend_on_arrival_order() {
    let hits = [(0, 0.5f32), (1, 0.9), (2, 0.5), (3, 0.1), (4, 0.7)];
    let forward = top_docs_of(3, &hits);
    let mut reversed = hits;
    reversed.reverse();
    let backward = top_docs_of(3, &reversed);
    assert_eq!(forward, backward);
    // equal scores are ordered by address
    assert_eq!(
        forward,
        vec![(0.9, DocAddress(0, 1)), (0.7, DocAddress(0, 4)), (0.5, DocAddress(0, 0))]
    );
}

#[test]
fn splitting_into_segments_keeps_the_result() {
    let top = TopDocs::with_limit(3).unwrap();
    let hits = [(0u32, 0.2f32), (1, 0.8), (2, 0.4), (3, 0.9), (4, 0.6), (5, 0.3)];
    // one part
    let mut whole = top.for_segment(0);
    for &(doc, score) in &hits {
        whole.collect(doc, key(score));
    }
    let single = top.merge_fruits(vec![whole.harvest()]);
    // three parts of the same entries
    let mut fruits = Vec::new();
    for part in hits.chunks(2) {
        let mut segment = top.for_segment(0);
        for &(doc, score) in part {
            segment.collect(doc, key(score));
        }
        fruits.push(segment.harvest());
    }
    let split = top.merge_fruits(fruits);
    assert_eq!(single, split);
    assert_eq!(
        readable(split),
        vec![(0.9, DocAddress(0, 3)), (0.8, DocAddress(0, 1)), (0.6, DocAddress(0, 4))]
    );
}

#[test]
fn merge_across_segments() {
    let top = TopDocs::with_limit(2).unwrap();
    let mut s0 = top.for_segment(0);
    s0.collect(5, key(0.3));
    s0.collect(6, key(0.9));
    let mut s1 = top.for_segment(1);
    s1.collect(0, key(0.9));
    s1.collect(1, key(0.95));
    let merged = top.merge_fruits(vec![s0.harvest(), s1.harvest()]);
    assert_eq!(
        readable(merged),
        vec![(0.95, DocAddress(1, 1)), (0.9, DocAddress(0, 6))]
    );
    assert!(top.merge_fruits(vec![]).is_empty());
}

#[test]
fn composite_gives_what_each_collector_gives_alone() {
    let hits = [(0u32, 0.4f32), (2, 0.1), (3, 0.8), (7, 0.6)];
    let count = CountCollector;
    let top = TopDocs::with_limit(2).unwrap();
    let mut alone_count = count.for_segment(0);
    let mut alone_top = top.for_segment(0);
    let mut multi = MultiCollector::new();
    multi.add_collector(AnyCollector::TopDocs(TopDocs::with_limit(2).unwrap()));
    multi.add_collector(AnyCollector::Count(CountCollector));
    let mut both = multi.for_segment(0);
    for &(doc, score) in &hits {
        alone_count.collect(doc, key(score));
        alone_top.collect(doc, key(score));
        both.collect(doc, key(score));
    }
    let alone_count = count.merge_fruits(vec![alone_count.harvest()]);
    let alone_top = top.merge_fruits(vec![alone_top.harvest()]);
    let mut fruits = multi.merge_fruits(vec![both.harvest()]).into_iter();
    assert_eq!(fruits.next().unwrap().into_top_docs(), alone_top);
    assert_eq!(fruits.next().unwrap().into_count(), alone_count);
    assert_eq!(alone_count, 4);
}

#[test]
fn composite_merges_each_slot_across_segments() {
    let mut multi = MultiCollector::new();
    multi.add_collector(AnyCollector::Count(CountCollector));
    multi.add_collector(AnyCollector::TopDocs(TopDocs::with_limit(1).unwrap()));
    let mut s0 = multi.for_segment(0);
    s0.collect(1, key(0.5));
    s0.collect(2, key(0.25));
    let mut s1 = multi.for_segment(1);
    s1.collect(0, key(0.75));
    let fruits = multi.merge_fruits(vec![s0.harvest(), s1.harvest()]);
    let mut fruits = fruits.into_iter();
    assert_eq!(fruits.next().unwrap().into_count(), 3);
    assert_eq!(readable(fruits.next().unwrap().into_top_docs()), vec![(0.75, DocAddress(1, 0))]);
}

#[test]
fn composite_requires_scoring_iff_a_member_does() {
    let empty = MultiCollector::new();
    assert!(!empty.requires_scoring());
    let mut counts = MultiCollector::new();
    counts.add_collector(AnyCollector::Count(CountCollector));
    counts.add_collector(AnyCollector::Count(CountCollector));
    assert!(!counts.requires_scoring());
    counts.add_collector(AnyCollector::TopDocs(TopDocs::with_limit(3).unwrap()));
    assert!(counts.requires_scoring());
    assert!(TopDocs::with_limit(3).unwrap().requires_scoring());
    assert!(!CountCollector.requires_scoring());
}

#[test]
fn wrapper_dispatches_to_the_wrapped_collector() {
    let wrapper = CollectorWrapper::new(AnyCollector::Count(CountCollector));
    assert!(!wrapper.requires_scoring());
    let mut segment = wrapper.for_segment(4);
    assert!(matches!(segment, AnySegmentCollector::Count(_)));
    segment.collect(0, 0);
    segment.collect(9, 0);
    let fruit = segment.harvest();
    let merged = wrapper.merge_children_anys(&vec![fruit, AnyFruit::Count(5)]);
    assert_eq!(merged.into_count(), 7);
}

#[test]
fn count_merge_sums_segments() {
    assert_eq!(CountCollector.merge_fruits(vec![3, 0, 4]), 7);
    assert_eq!(CountCollector.merge_fruits(vec![]), 0);
}

#[test]
fn score_keys_follow_float_order() {
    let values = [-3.5f32, -0.0, 0.0, 1e-30, 0.5, 0.7261542, 2.0];
    for w in values.windows(2) {
        assert!(key(w[0]) < key(w[1]));
    }
    for &v in &values {
        assert_eq!(float(key(v)).to_bits(), v.to_bits());
    }
    assert_eq!(key(0.0), 0x8000_0000);
    assert_eq!(key(-0.0), 0x7fff_ffff);
}
