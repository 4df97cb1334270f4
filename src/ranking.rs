use vstd::prelude::*;
use crate::doc::{address_lt, DocAddress, Score};

verus! {

/// A ranking entry: a score and the address of the document it belongs to.
pub type ScoredDoc = (Score, DocAddress);

/// `a` ranks strictly above `b`: higher score first, then lower address.
pub open spec fn ranks_above(a: ScoredDoc, b: ScoredDoc) -> bool {
    a.0 > b.0 || (a.0 == b.0 && address_lt(a.1, b.1))
}

/// Every entry ranks strictly above each entry after it.
pub open spec fn sorted_by_rank(r: Seq<ScoredDoc>) -> bool {
    forall|i: int, j: int| 0 <= i < j < r.len() ==> #[trigger] ranks_above(r[i], r[j])
}

/// `r` is the list of the `k` best-ranked entries of `s` (all of them when
/// `s` has fewer), best first.
pub open spec fn is_top_k(r: Seq<ScoredDoc>, s: Seq<ScoredDoc>, k: nat) -> bool {
    &&& sorted_by_rank(r)
    &&& r.len() <= k
    &&& forall|i: int| 0 <= i < r.len() ==> s.contains(#[trigger] r[i])
    &&& forall|x: ScoredDoc|
        #![trigger s.contains(x), r.contains(x)]
        s.contains(x) && !r.contains(x) ==> r.len() == k && forall|i: int|
            0 <= i < r.len() ==> #[trigger] ranks_above(r[i], x)
}

/// Executable form of `ranks_above`.
pub fn rank_above(a: &ScoredDoc, b: &ScoredDoc) -> (r: bool)
    ensures
        r == ranks_above(*a, *b),
{
    a.0 > b.0 || (a.0 == b.0 && (a.1.0 < b.1.0 || (a.1.0 == b.1.0 && a.1.1 < b.1.1)))
}

/// Offers `e` to a bounded top list: it goes in at its rank when the list has
/// room or when it ranks above the last entry, which then leaves.
pub fn insert_bounded(top: &mut Vec<ScoredDoc>, limit: usize, e: ScoredDoc, Ghost(seen): Ghost<
    Seq<ScoredDoc>,
>)
    requires
        limit >= 1,
        is_top_k(old(top)@, seen, limit as nat),
    ensures
        is_top_k(final(top)@, seen.push(e), limit as nat),
{
    let ghost r = top@;
    let n = top.len();
    let mut p: usize = 0;
    while p < n && rank_above(&top[p], &e)
        invariant
            n == top@.len(),
            top@ == r,
            p <= n,
            forall|i: int| 0 <= i < p ==> #[trigger] ranks_above(r[i], e),
        decreases n - p,
    {
        p = p + 1;
    }
    let ghost s2 = seen.push(e);
    assert forall|x: ScoredDoc| #[trigger] s2.contains(x) <==> seen.contains(x) || x == e by {
        if s2.contains(x) {
            let j = choose|j: int| 0 <= j < s2.len() && s2[j] == x;
            if j < seen.len() {
                assert(seen[j] == x);
            }
        }
        if seen.contains(x) {
            let j = choose|j: int| 0 <= j < seen.len() && seen[j] == x;
            assert(s2[j] == x);
        }
        if x == e {
            assert(s2[seen.len() as int] == x);
        }
    }
    if p < n && top[p].0 == e.0 && top[p].1 == e.1 {
        assert(r.contains(e));
        return;
    }
    // e is not in the list: it ranks below r[0..p] and above r[p..]
    assert forall|i: int| p <= i < n implies #[trigger] ranks_above(e, r[i]) by {
        if i > p {
            assert(ranks_above(r[p as int], r[i]));
        }
    }
    assert(!r.contains(e)) by {
        if r.contains(e) {
            let j = choose|j: int| 0 <= j < r.len() && r[j] == e;
            if j < p {
                assert(ranks_above(r[j], e));
            } else if j > p {
                assert(ranks_above(e, r[j]));
            }
        }
    }
    if n == limit {
        if p == n {
            return;
        }
        top.pop();
        let ghost last = r[n - 1];
        assert(top@ == r.subrange(0, n - 1));
        top.insert(p, e);
        let ghost t = top@;
        assert(t == r.subrange(0, p as int).push(e) + r.subrange(p as int, n - 1));
        assert(t.len() == n);
        assert forall|i: int| 0 <= i < t.len() implies #[trigger] t[i] == (if i < p {
            r[i]
        } else if i == p {
            e
        } else {
            r[i - 1]
        }) by {}
        assert forall|i: int, j: int| 0 <= i < j < t.len() implies #[trigger] ranks_above(
            t[i],
            t[j],
        ) by {
            if i < p && j > p {
                assert(ranks_above(r[i], r[j - 1]));
            } else if i > p {
                assert(ranks_above(r[i - 1], r[j - 1]));
            }
        }
        assert forall|i: int| 0 <= i < t.len() implies s2.contains(#[trigger] t[i]) by {
            if i < p {
                assert(r.contains(r[i]));
            } else if i > p {
                assert(r.contains(r[i - 1]));
            }
        }
        assert forall|x: ScoredDoc|
            #![trigger s2.contains(x), t.contains(x)]
            s2.contains(x) && !t.contains(x) implies t.len() == limit && forall|i: int|
                0 <= i < t.len() ==> #[trigger] ranks_above(t[i], x) by {
            assert(t[p as int] == e);
            if x == last {
                assert forall|i: int| 0 <= i < t.len() implies #[trigger] ranks_above(t[i], x) by {
                    if i < p {
                        assert(ranks_above(r[i], r[n - 1]));
                    } else if i > p {
                        assert(ranks_above(r[i - 1], r[n - 1]));
                    }
                }
            } else {
                assert(x != e);
                if r.contains(x) {
                    let j = choose|j: int| 0 <= j < r.len() && r[j] == x;
                    if j < p {
                        assert(t[j] == x);
                    } else {
                        assert(t[j + 1] == x);
                    }
                }
                assert(ranks_above(r[n - 1], x));
                assert forall|i: int| 0 <= i < t.len() implies #[trigger] ranks_above(t[i], x) by {
                    if i == p {
                        assert(ranks_above(e, r[n - 1]));
                    } else if i < p {
                        assert(ranks_above(r[i], r[n - 1]));
                    } else if i > p {
                        assert(ranks_above(r[i - 1], r[n - 1]));
                    }
                }
            }
        }
    } else {
        top.insert(p, e);
        let ghost t = top@;
        assert(t.len() == n + 1);
        assert forall|i: int| 0 <= i < t.len() implies #[trigger] t[i] == (if i < p {
            r[i]
        } else if i == p {
            e
        } else {
            r[i - 1]
        }) by {}
        assert forall|i: int, j: int| 0 <= i < j < t.len() implies #[trigger] ranks_above(
            t[i],
            t[j],
        ) by {
            if i < p && j > p {
                assert(ranks_above(r[i], r[j - 1]));
            } else if i > p {
                assert(ranks_above(r[i - 1], r[j - 1]));
            }
        }
        assert forall|i: int| 0 <= i < t.len() implies s2.contains(#[trigger] t[i]) by {
            if i < p {
                assert(r.contains(r[i]));
            } else if i > p {
                assert(r.contains(r[i - 1]));
            }
        }
        assert forall|x: ScoredDoc|
            #![trigger s2.contains(x), t.contains(x)]
            s2.contains(x) && !t.contains(x) implies t.len() == limit && forall|i: int|
                0 <= i < t.len() ==> #[trigger] ranks_above(t[i], x) by {
            assert(t[p as int] == e);
            if r.contains(x) {
                let j = choose|j: int| 0 <= j < r.len() && r[j] == x;
                if j < p {
                    assert(t[j] == x);
                } else {
                    assert(t[j + 1] == x);
                }
            }
        }
    }
}

/// The entries of all lists, one list after the other.
pub open spec fn concat_all(lists: Seq<Seq<ScoredDoc>>) -> Seq<ScoredDoc>
    decreases lists.len(),
{
    if lists.len() == 0 {
        Seq::empty()
    } else {
        concat_all(lists.drop_last()) + lists.last()
    }
}

/// An entry is in the concatenation iff it is in one of the lists.
pub proof fn lemma_concat_all_contains(lists: Seq<Seq<ScoredDoc>>, x: ScoredDoc)
    ensures
        concat_all(lists).contains(x) <==> exists|i: int|
            0 <= i < lists.len() && #[trigger] lists[i].contains(x),
    decreases lists.len(),
{
    if lists.len() > 0 {
        let init = lists.drop_last();
        let last = lists.last();
        lemma_concat_all_contains(init, x);
        let c = concat_all(init);
        assert(concat_all(lists) == c + last);
        if (c + last).contains(x) {
            let j = choose|j: int| 0 <= j < (c + last).len() && (c + last)[j] == x;
            if j < c.len() {
                assert(c[j] == x);
                let i = choose|i: int| 0 <= i < init.len() && #[trigger] init[i].contains(x);
                assert(lists[i] == init[i]);
            } else {
                assert(last[j - c.len()] == x);
                assert(lists[lists.len() - 1].contains(x));
            }
        }
        if exists|i: int| 0 <= i < lists.len() && #[trigger] lists[i].contains(x) {
            let i = choose|i: int| 0 <= i < lists.len() && #[trigger] lists[i].contains(x);
            if i < lists.len() - 1 {
                assert(init[i] == lists[i]);
                let j = choose|j: int| 0 <= j < c.len() && c[j] == x;
                assert((c + last)[j] == x);
            } else {
                let j = choose|j: int| 0 <= j < last.len() && last[j] == x;
                assert((c + last)[c.len() + j] == x);
            }
        }
    }
}

proof fn lemma_sorted_no_duplicates(r: Seq<ScoredDoc>)
    requires
        sorted_by_rank(r),
    ensures
        r.no_duplicates(),
{
    assert forall|i: int, j: int| 0 <= i < r.len() && 0 <= j < r.len() && i != j implies r[i]
        != r[j] by {
        if i < j {
            assert(ranks_above(r[i], r[j]));
        } else {
            assert(ranks_above(r[j], r[i]));
        }
    }
}

/// A list without duplicates whose entries all lie in another, which has an
/// entry more, is shorter.
proof fn lemma_strict_subset_shorter(a: Seq<ScoredDoc>, b: Seq<ScoredDoc>, z: ScoredDoc)
    requires
        a.no_duplicates(),
        b.no_duplicates(),
        forall|y: ScoredDoc| a.contains(y) ==> b.contains(y),
        b.contains(z),
        !a.contains(z),
    ensures
        a.len() < b.len(),
{
    broadcast use vstd::seq_lib::seq_to_set_is_finite;
    broadcast use vstd::set::group_set_axioms;
    a.unique_seq_to_set();
    b.unique_seq_to_set();
    let sa = a.to_set().insert(z);
    assert(sa.subset_of(b.to_set()));
    vstd::set_lib::lemma_len_subset(sa, b.to_set());
}

proof fn lemma_subset_not_longer(a: Seq<ScoredDoc>, b: Seq<ScoredDoc>)
    requires
        a.no_duplicates(),
        forall|y: ScoredDoc| a.contains(y) ==> b.contains(y),
    ensures
        a.len() <= b.len(),
{
    broadcast use vstd::seq_lib::seq_to_set_is_finite;
    a.unique_seq_to_set();
    b.lemma_cardinality_of_set();
    assert(a.to_set().subset_of(b.to_set()));
    vstd::set_lib::lemma_len_subset(a.to_set(), b.to_set());
}

/// The top list depends on the set of entries offered alone: not on their
/// order nor on repetitions.
pub proof fn lemma_top_k_unique(
    r1: Seq<ScoredDoc>,
    s1: Seq<ScoredDoc>,
    r2: Seq<ScoredDoc>,
    s2: Seq<ScoredDoc>,
    k: nat,
)
    requires
        is_top_k(r1, s1, k),
        is_top_k(r2, s2, k),
        forall|x: ScoredDoc| s1.contains(x) <==> s2.contains(x),
    ensures
        r1 == r2,
{
    lemma_sorted_no_duplicates(r1);
    lemma_sorted_no_duplicates(r2);
    lemma_top_k_same_entries(r1, s1, r2, s2, k);
    lemma_top_k_same_entries(r2, s2, r1, s1, k);
    assert(r1.len() == r2.len()) by {
        if r1.len() < r2.len() {
            lemma_same_entries_same_len(r1, r2);
        } else if r2.len() < r1.len() {
            lemma_same_entries_same_len(r2, r1);
        }
    }
    lemma_sorted_same_entries_equal(r1, r2, r1.len() as int);
    assert(r1 =~= r2);
}

proof fn lemma_same_entries_same_len(a: Seq<ScoredDoc>, b: Seq<ScoredDoc>)
    requires
        a.no_duplicates(),
        b.no_duplicates(),
        forall|y: ScoredDoc| a.contains(y) <==> b.contains(y),
    ensures
        a.len() == b.len(),
{
    broadcast use vstd::seq_lib::seq_to_set_is_finite;
    a.unique_seq_to_set();
    b.unique_seq_to_set();
    assert(a.to_set() =~= b.to_set());
}

proof fn lemma_top_k_same_entries(
    r1: Seq<ScoredDoc>,
    s1: Seq<ScoredDoc>,
    r2: Seq<ScoredDoc>,
    s2: Seq<ScoredDoc>,
    k: nat,
)
    requires
        is_top_k(r1, s1, k),
        is_top_k(r2, s2, k),
        forall|x: ScoredDoc| s1.contains(x) <==> s2.contains(x),
        r1.no_duplicates(),
        r2.no_duplicates(),
    ensures
        forall|x: ScoredDoc| r1.contains(x) ==> r2.contains(x),
{
    assert forall|x: ScoredDoc| r1.contains(x) implies r2.contains(x) by {
        if !r2.contains(x) {
            let j = choose|j: int| 0 <= j < r1.len() && r1[j] == x;
            assert(s1.contains(r1[j]));
            assert(s2.contains(x));
            assert forall|y: ScoredDoc| r2.contains(y) implies r1.contains(y) by {
                let q = choose|q: int| 0 <= q < r2.len() && r2[q] == y;
                assert(s2.contains(r2[q]));
                assert(ranks_above(r2[q], x));
                if !r1.contains(y) {
                    assert(s1.contains(y));
                    assert(ranks_above(r1[j], y));
                }
            }
            lemma_strict_subset_shorter(r2, r1, x);
        }
    }
}

proof fn lemma_sorted_same_entries_equal(a: Seq<ScoredDoc>, b: Seq<ScoredDoc>, n: int)
    requires
        sorted_by_rank(a),
        sorted_by_rank(b),
        a.len() == b.len(),
        0 <= n <= a.len(),
        forall|y: ScoredDoc| a.contains(y) <==> b.contains(y),
    ensures
        forall|i: int| 0 <= i < n ==> a[i] == b[i],
    decreases n,
{
    if n > 0 {
        lemma_sorted_same_entries_equal(a, b, n - 1);
        let i = n - 1;
        if a[i] != b[i] {
            assert(a.contains(a[i]));
            let j = choose|j: int| 0 <= j < b.len() && b[j] == a[i];
            assert(b.contains(b[i]));
            let j2 = choose|j2: int| 0 <= j2 < a.len() && a[j2] == b[i];
            if j < i {
                assert(a[j] == b[j]);
                assert(ranks_above(a[j], a[i]));
            }
            if j2 < i {
                assert(a[j2] == b[j2]);
                assert(ranks_above(b[j2], b[i]));
            }
            assert(ranks_above(b[i], b[j]));
            assert(ranks_above(a[i], a[j2]));
        }
    }
}

/// Selecting the top entries again among the per-part top lists gives the
/// top list of all the parts together.
pub proof fn lemma_top_of_tops(
    parts: Seq<Seq<ScoredDoc>>,
    tops: Seq<Seq<ScoredDoc>>,
    merged: Seq<ScoredDoc>,
    k: nat,
)
    requires
        tops.len() == parts.len(),
        forall|i: int| 0 <= i < parts.len() ==> is_top_k(#[trigger] tops[i], parts[i], k),
        is_top_k(merged, concat_all(tops), k),
    ensures
        is_top_k(merged, concat_all(parts), k),
{
    lemma_sorted_no_duplicates(merged);
    let ct = concat_all(tops);
    let cp = concat_all(parts);
    assert forall|i: int| 0 <= i < merged.len() implies cp.contains(#[trigger] merged[i]) by {
        let x = merged[i];
        assert(ct.contains(x));
        lemma_concat_all_contains(tops, x);
        let q = choose|q: int| 0 <= q < tops.len() && #[trigger] tops[q].contains(x);
        let w = choose|w: int| 0 <= w < tops[q].len() && tops[q][w] == x;
        assert(parts[q].contains(tops[q][w]));
        lemma_concat_all_contains(parts, x);
    }
    assert forall|x: ScoredDoc|
        #![trigger cp.contains(x), merged.contains(x)]
        cp.contains(x) && !merged.contains(x) implies merged.len() == k && forall|i: int|
            0 <= i < merged.len() ==> #[trigger] ranks_above(merged[i], x) by {
        lemma_concat_all_contains(parts, x);
        let q = choose|q: int| 0 <= q < parts.len() && #[trigger] parts[q].contains(x);
        let t = tops[q];
        assert(is_top_k(t, parts[q], k));
        lemma_sorted_no_duplicates(t);
        if t.contains(x) {
            lemma_concat_all_contains(tops, x);
            assert(ct.contains(x));
        } else {
            assert(t.len() == k && forall|i: int| 0 <= i < t.len() ==> ranks_above(t[i], x));
            if merged.len() < k {
                assert forall|y: ScoredDoc| t.contains(y) implies merged.contains(y) by {
                    lemma_concat_all_contains(tops, y);
                    assert(ct.contains(y));
                }
                lemma_subset_not_longer(t, merged);
            }
            assert forall|i: int| 0 <= i < merged.len() implies #[trigger] ranks_above(
                merged[i],
                x,
            ) by {
                let z = merged[i];
                if !ranks_above(z, x) {
                    assert(ranks_above(x, z));
                    assert forall|y: ScoredDoc| t.contains(y) implies merged.contains(y) by {
                        let w = choose|w: int| 0 <= w < t.len() && t[w] == y;
                        assert(ranks_above(t[w], x));
                        lemma_concat_all_contains(tops, y);
                        assert(ct.contains(y));
                        if !merged.contains(y) {
                            assert(ranks_above(merged[i], y));
                        }
                    }
                    assert(merged.contains(z));
                    if t.contains(z) {
                        let w = choose|w: int| 0 <= w < t.len() && t[w] == z;
                        assert(ranks_above(t[w], x));
                    }
                    lemma_strict_subset_shorter(t, merged, z);
                }
            }
        }
    }
}

/// Splitting the same entries into parts in any way, taking the top list of
/// each part and then the top list of those, always ends in the same list.
pub proof fn lemma_shard_invariance(
    parts_a: Seq<Seq<ScoredDoc>>,
    tops_a: Seq<Seq<ScoredDoc>>,
    merged_a: Seq<ScoredDoc>,
    parts_b: Seq<Seq<ScoredDoc>>,
    tops_b: Seq<Seq<ScoredDoc>>,
    merged_b: Seq<ScoredDoc>,
    k: nat,
)
    requires
        tops_a.len() == parts_a.len(),
        forall|i: int| 0 <= i < parts_a.len() ==> is_top_k(#[trigger] tops_a[i], parts_a[i], k),
        is_top_k(merged_a, concat_all(tops_a), k),
        tops_b.len() == parts_b.len(),
        forall|i: int| 0 <= i < parts_b.len() ==> is_top_k(#[trigger] tops_b[i], parts_b[i], k),
        is_top_k(merged_b, concat_all(tops_b), k),
        forall|x: ScoredDoc| concat_all(parts_a).contains(x) <==> concat_all(parts_b).contains(x),
    ensures
        merged_a == merged_b,
{
    lemma_top_of_tops(parts_a, tops_a, merged_a, k);
    lemma_top_of_tops(parts_b, tops_b, merged_b, k);
    lemma_top_k_unique(merged_a, concat_all(parts_a), merged_b, concat_all(parts_b), k);
}

} // verus!
