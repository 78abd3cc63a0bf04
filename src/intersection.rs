//! The intersection engine: for one query, how many index entries each
//! reference shares with the query's codes.

use vstd::prelude::*;
use crate::count::{count_of, lemma_count_of_prefix, lemma_count_of_push};
use crate::index::Tree;
use crate::orientation::codes_in_range;

verus! {

/// Number of entries naming reference `x` over the posting lists of the codes
/// of `q`, a code counted once per occurrence in `q`.
pub open spec fn match_count(p: Seq<Seq<u32>>, q: Seq<u16>, x: u32) -> nat
    decreases q.len(),
{
    if q.len() == 0 {
        0
    } else {
        match_count(p, q.drop_last(), x) + count_of(p[q.last() as int], x)
    }
}

/// Sum over the codes of `q` of their populations.
pub open spec fn query_total(p: Seq<Seq<u32>>, q: Seq<u16>) -> nat
    decreases q.len(),
{
    if q.len() == 0 {
        0
    } else {
        query_total(p, q.drop_last()) + p[q.last() as int].len()
    }
}

/// The match-count vector of `q` against the first `n` references.
pub open spec fn match_vector(p: Seq<Seq<u32>>, q: Seq<u16>, n: nat) -> Seq<u32> {
    Seq::new(n, |i: int| match_count(p, q, i as u32) as u32)
}

proof fn lemma_match_count_take(p: Seq<Seq<u32>>, q: Seq<u16>, j: int, x: u32)
    requires
        0 <= j < q.len(),
    ensures
        match_count(p, q.take(j + 1), x) == match_count(p, q.take(j), x) + count_of(
            p[q[j] as int],
            x,
        ),
        match_count(p, q.take(j + 1), x) <= match_count(p, q, x),
    decreases q.len() - j,
{
    assert(q.take(j + 1).drop_last() =~= q.take(j));
    if j + 1 < q.len() {
        lemma_match_count_take(p, q, j + 1, x);
    } else {
        assert(q.take(j + 1) =~= q);
    }
}

/// Every match count of `q` against the first `n` references fits in a
/// `u32`.
pub open spec fn counts_fit(p: Seq<Seq<u32>>, q: Seq<u16>, n: nat) -> bool {
    forall|i: int| 0 <= i < n ==> #[trigger] match_count(p, q, i as u32) <= u32::MAX
}

/// Sum over the identifiers `i < n` of the occurrences of `i` in `s`.
pub open spec fn sum_count(s: Seq<u32>, n: nat) -> nat
    decreases n,
{
    if n == 0 {
        0
    } else {
        sum_count(s, (n - 1) as nat) + count_of(s, (n - 1) as u32)
    }
}

/// Sum over the references `i < n` of the match counts of `q`.
pub open spec fn sum_matches(p: Seq<Seq<u32>>, q: Seq<u16>, n: nat) -> nat
    decreases n,
{
    if n == 0 {
        0
    } else {
        sum_matches(p, q, (n - 1) as nat) + match_count(p, q, (n - 1) as u32)
    }
}

proof fn lemma_sum_count_push(s: Seq<u32>, y: u32, n: nat)
    requires
        n <= u32::MAX + 1,
    ensures
        sum_count(s.push(y), n) == sum_count(s, n) + if y < n {
            1nat
        } else {
            0nat
        },
    decreases n,
{
    if n > 0 {
        lemma_sum_count_push(s, y, (n - 1) as nat);
        lemma_count_of_push(s, y, (n - 1) as u32);
    }
}

/// When every identifier in `s` is below `n`, counting each identifier below
/// `n` counts every entry of `s` once.
pub proof fn lemma_sum_count_len(s: Seq<u32>, n: nat)
    requires
        n <= u32::MAX + 1,
        forall|j: int| 0 <= j < s.len() ==> s[j] < n,
    ensures
        sum_count(s, n) == s.len(),
    decreases s.len(),
{
    if s.len() == 0 {
        lemma_sum_count_empty(s, n);
    } else {
        let p = s.drop_last();
        lemma_sum_count_len(p, n);
        lemma_sum_count_push(p, s.last(), n);
        assert(p.push(s.last()) =~= s);
    }
}

proof fn lemma_sum_count_empty(s: Seq<u32>, n: nat)
    requires
        s.len() == 0,
    ensures
        sum_count(s, n) == 0,
    decreases n,
{
    if n > 0 {
        lemma_sum_count_empty(s, (n - 1) as nat);
    }
}

proof fn lemma_sum_matches_push(t: Tree, q: Seq<u16>, c: u16, n: nat)
    ensures
        sum_matches(t.postings(), q.push(c), n) == sum_matches(t.postings(), q, n) + sum_count(
            t.postings()[c as int],
            n,
        ),
    decreases n,
{
    assert(q.push(c).drop_last() =~= q);
    if n > 0 {
        lemma_sum_matches_push(t, q, c, (n - 1) as nat);
    }
}

proof fn lemma_sum_matches_empty(t: Tree, q: Seq<u16>, n: nat)
    requires
        q.len() == 0,
    ensures
        sum_matches(t.postings(), q, n) == 0,
    decreases n,
{
    if n > 0 {
        lemma_sum_matches_empty(t, q, (n - 1) as nat);
    }
}

proof fn lemma_sum_matches_zero(t: Tree, q: Seq<u16>, n: nat)
    ensures
        sum_matches(t.postings(), q, n) == 0 <==> forall|i: int| 0 <= i < n ==> #[trigger] match_count(t.postings(), q, i as u32)
            == 0,
    decreases n,
{
    if n > 0 {
        lemma_sum_matches_zero(t, q, (n - 1) as nat);
    }
}

proof fn lemma_query_total_zero(t: Tree, q: Seq<u16>)
    ensures
        query_total(t.postings(), q) == 0 <==> forall|j: int| 0 <= j < q.len() ==> t.postings()[q[j] as int].len()
            == 0,
    decreases q.len(),
{
    if q.len() > 0 {
        let p = q.drop_last();
        lemma_query_total_zero(t, p);
        if query_total(t.postings(), q) == 0 {
            assert forall|j: int| 0 <= j < q.len() implies t.postings()[q[j] as int].len() == 0 by {
                if j < p.len() {
                    assert(q[j] == p[j]);
                }
            }
        }
        if forall|j: int| 0 <= j < q.len() ==> t.postings()[q[j] as int].len() == 0 {
            assert forall|j: int| 0 <= j < p.len() implies t.postings()[p[j] as int].len() == 0 by {
                assert(q[j] == p[j]);
            }
        }
    }
}

/// Conservation: summed over all references, the match counts of a query
/// equal the sum of the populations of its codes; so every count is zero
/// exactly when no code of the query occurs anywhere in the index.
pub proof fn lemma_conservation(t: Tree, q: Seq<u16>)
    requires
        t.wf(),
        codes_in_range(t.num_codes(), q),
    ensures
        sum_matches(t.postings(), q, t.num_tips as nat) == query_total(t.postings(), q),
        (forall|i: int| 0 <= i < t.num_tips ==> #[trigger] match_count(t.postings(), q, i as u32) == 0) <==> (forall|
            j: int,
        |
            0 <= j < q.len() ==> t.postings()[q[j] as int].len() == 0),
    decreases q.len(),
{
    let n = t.num_tips as nat;
    if q.len() == 0 {
        lemma_sum_matches_empty(t, q, n);
    } else {
        let p = q.drop_last();
        let c = q.last();
        lemma_conservation(t, p);
        lemma_sum_matches_push(t, p, c, n);
        assert(p.push(c) =~= q);
        assert(t.postings()[c as int] == t.k_mer_map@[c as int]@);
        lemma_sum_count_len(t.postings()[c as int], n);
    }
    lemma_sum_matches_zero(t, q, n);
    lemma_query_total_zero(t, q);
}

/// The match counts of two queries joined end to end are the sums of their
/// match counts.
pub proof fn lemma_match_count_append(p: Seq<Seq<u32>>, s: Seq<u16>, t: Seq<u16>, x: u32)
    ensures
        match_count(p, s + t, x) == match_count(p, s, x) + match_count(p, t, x),
    decreases t.len(),
{
    if t.len() == 0 {
        assert(s + t =~= s);
    } else {
        lemma_match_count_append(p, s, t.drop_last(), x);
        assert((s + t).drop_last() =~= s + t.drop_last());
    }
}

proof fn lemma_match_count_remove(p: Seq<Seq<u32>>, q: Seq<u16>, i: int, x: u32)
    requires
        0 <= i < q.len(),
    ensures
        match_count(p, q, x) == match_count(p, q.remove(i), x) + count_of(p[q[i] as int], x),
{
    let a = q.take(i);
    let b = q.skip(i + 1);
    assert(q =~= a + seq![q[i]] + b);
    assert(q.remove(i) =~= a + b);
    lemma_match_count_append(p, a + seq![q[i]], b, x);
    lemma_match_count_append(p, a, seq![q[i]], x);
    lemma_match_count_append(p, a, b, x);
    let one = seq![q[i]];
    assert(one.drop_last() =~= Seq::<u16>::empty());
    assert(one.last() == q[i]);
    assert(match_count(p, one.drop_last(), x) == 0);
    assert(match_count(p, one, x) == count_of(p[q[i] as int], x));
}

/// The match counts of a query depend only on which codes it holds and how
/// often, never on their order: two queries with the same multiset of codes
/// give every reference the same count.
pub proof fn lemma_match_count_order_free(p: Seq<Seq<u32>>, q1: Seq<u16>, q2: Seq<u16>, x: u32)
    requires
        q1.to_multiset() == q2.to_multiset(),
    ensures
        match_count(p, q1, x) == match_count(p, q2, x),
    decreases q1.len(),
{
    broadcast use vstd::seq_lib::group_to_multiset_ensures;

    assert(q1.len() == q1.to_multiset().len());
    assert(q2.len() == q2.to_multiset().len());
    if q1.len() > 0 {
        let pre = q1.drop_last();
        let c = q1.last();
        assert(pre.push(c) =~= q1);
        assert(q1.to_multiset() =~= pre.to_multiset().insert(c));
        assert(q2.to_multiset().count(c) > 0);
        assert(q2.contains(c));
        let i = choose|i: int| 0 <= i < q2.len() && q2[i] == c;
        assert(q2.remove(i).to_multiset() =~= q2.to_multiset().remove(c));
        assert(pre.to_multiset() =~= q1.to_multiset().remove(c));
        lemma_match_count_order_free(p, pre, q2.remove(i), x);
        lemma_match_count_remove(p, q2, i, x);
    }
}

impl Tree {
    /// The match-count vector of a query with codes `kmers`, when every count
    /// fits in a `u32`: entry `i` is the number of entries naming reference
    /// `i` over the posting lists of the query's codes.
    pub fn checked_match_counts(&self, kmers: &Vec<u16>) -> (r: Option<Vec<u32>>)
        requires
            self.wf(),
            codes_in_range(self.num_codes(), kmers@),
        ensures
            r is None <==> !counts_fit(self.postings(), kmers@, self.num_tips as nat),
            r matches Some(counts) ==> counts@ == match_vector(
                self.postings(),
                kmers@,
                self.num_tips as nat,
            ),
    {
        let ghost p = self.postings();
        let mut counts: Vec<u32> = Vec::new();
        while counts.len() < self.num_tips
            invariant
                counts@.len() <= self.num_tips,
                forall|i: int| 0 <= i < counts@.len() ==> counts@[i] == 0,
            decreases self.num_tips - counts.len(),
        {
            counts.push(0);
        }
        let mut j: usize = 0;
        while j < kmers.len()
            invariant
                self.wf(),
                p == self.postings(),
                codes_in_range(self.num_codes(), kmers@),
                j <= kmers@.len(),
                counts@.len() == self.num_tips,
                forall|i: int|
                    0 <= i < self.num_tips ==> #[trigger] counts@[i] == match_count(
                        p,
                        kmers@.take(j as int),
                        i as u32,
                    ),
            decreases kmers.len() - j,
        {
            let list = &self.k_mer_map[kmers[j] as usize];
            proof {
                assert(p[kmers@[j as int] as int] == list@);
                assert(kmers@.take(j + 1).drop_last() =~= kmers@.take(j as int));
            }
            let mut m: usize = 0;
            while m < list.len()
                invariant
                    self.wf(),
                    p == self.postings(),
                    codes_in_range(self.num_codes(), kmers@),
                    j < kmers@.len(),
                    list@ == p[kmers@[j as int] as int],
                    m <= list@.len(),
                    counts@.len() == self.num_tips,
                    forall|i: int|
                        0 <= i < self.num_tips ==> #[trigger] counts@[i] == match_count(
                            p,
                            kmers@.take(j as int),
                            i as u32,
                        ) + count_of(list@.take(m as int), i as u32),
                decreases list.len() - m,
            {
                let id = list[m];
                proof {
                    assert(id < self.num_tips);
                    assert(list@.take(m + 1) =~= list@.take(m as int).push(id));
                    lemma_count_of_push(list@.take(m as int), id, id);
                    lemma_count_of_prefix(list@, m + 1, id);
                    lemma_match_count_take(p, kmers@, j as int, id);
                }
                if counts[id as usize] == u32::MAX {
                    proof {
                        assert(match_count(p, kmers@, (id as int) as u32) > u32::MAX);
                    }
                    return None;
                }
                counts.set(id as usize, counts[id as usize] + 1);
                proof {
                    assert forall|i: int| 0 <= i < self.num_tips implies #[trigger] counts@[i]
                        == match_count(p, kmers@.take(j as int), i as u32) + count_of(
                        list@.take(m + 1),
                        i as u32,
                    ) by {
                        lemma_count_of_push(list@.take(m as int), id, i as u32);
                    }
                }
                m = m + 1;
            }
            proof {
                assert(list@.take(m as int) =~= list@);
            }
            j = j + 1;
        }
        proof {
            assert(kmers@.take(kmers@.len() as int) =~= kmers@);
            assert(counts@ =~= match_vector(p, kmers@, self.num_tips as nat));
            assert forall|i: int| 0 <= i < self.num_tips implies #[trigger] match_count(
                p,
                kmers@,
                i as u32,
            ) <= u32::MAX by {
                assert(counts@[i] == match_count(p, kmers@, i as u32));
            }
        }
        Some(counts)
    }

    /// The match-count vector of a query with codes `kmers` (see
    /// `checked_match_counts`), for a query whose counts all fit in a `u32`.
    pub fn match_counts(&self, kmers: &Vec<u16>) -> (counts: Vec<u32>)
        requires
            self.wf(),
            codes_in_range(self.num_codes(), kmers@),
            counts_fit(self.postings(), kmers@, self.num_tips as nat),
        ensures
            counts@ == match_vector(self.postings(), kmers@, self.num_tips as nat),
    {
        match self.checked_match_counts(kmers) {
            Some(counts) => counts,
            None => {
                proof {
                    assert(false);
                }
                Vec::new()
            },
        }
    }
}

/// Match results for a batch of queries: for each, its label, its number of
/// codes and its match-count vector.
pub fn compute_intersections(queries: &Vec<(String, Vec<u16>)>, tree: &Tree) -> (r: Vec<
    (String, u32, Vec<u32>),
>)
    requires
        tree.wf(),
        forall|q: int|
            0 <= q < queries@.len() ==> {
                &&& codes_in_range(tree.num_codes(), #[trigger] queries@[q].1@)
                &&& counts_fit(tree.postings(), queries@[q].1@, tree.num_tips as nat)
                &&& queries@[q].1@.len() <= u32::MAX
            },
    ensures
        r@.len() == queries@.len(),
        forall|q: int|
            0 <= q < queries@.len() ==> {
                &&& #[trigger] r@[q].0 == queries@[q].0
                &&& r@[q].1 == queries@[q].1@.len()
                &&& r@[q].2@ == match_vector(tree.postings(), queries@[q].1@, tree.num_tips as nat)
            },
{
    let mut r: Vec<(String, u32, Vec<u32>)> = Vec::new();
    let mut q: usize = 0;
    while q < queries.len()
        invariant
            tree.wf(),
            q <= queries@.len(),
            r@.len() == q,
            forall|q: int|
                0 <= q < queries@.len() ==> {
                    &&& codes_in_range(tree.num_codes(), #[trigger] queries@[q].1@)
                    &&& counts_fit(tree.postings(), queries@[q].1@, tree.num_tips as nat)
                    &&& queries@[q].1@.len() <= u32::MAX
                },
            forall|i: int|
                0 <= i < q ==> {
                    &&& (#[trigger] r@[i]).0 == queries@[i].0
                    &&& r@[i].1 == queries@[i].1@.len()
                    &&& r@[i].2@ == match_vector(
                        tree.postings(),
                        queries@[i].1@,
                        tree.num_tips as nat,
                    )
                },
        decreases queries.len() - q,
    {
        let (label, kmers) = &queries[q];
        assert(codes_in_range(tree.num_codes(), queries@[q as int].1@));
        let counts = tree.match_counts(kmers);
        let ghost old_r = r@;
        r.push((label.clone(), kmers.len() as u32, counts));
        assert(r@ == old_r.push(r@[q as int]));
        q = q + 1;
    }
    r
}

} // verus!
