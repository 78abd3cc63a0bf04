//! Strand orientation: a population-weighted vote between each query code and
//! its complement decides whether a query is matched as given or reoriented:
//! every code complemented and the list reversed.
//!
//! Reorientation is a model of the complementary strand, not its exact k-mer
//! codes. Complementing a code complements each base in place but does not
//! reverse the bases inside the k-mer, so for `k > 1` the result is in general
//! not the code list of the reverse-complement sequence (with `k = 4`, `AACC`
//! has code 5 and its reverse complement `GGTT` has code 175, while
//! reorientation gives 250).

use vstd::prelude::*;
use crate::index::Tree;

verus! {

/// The complement of code `c` in a space of `n` codes. With `n == 4^k` and
/// two bits per base this is the bitwise complement of `c` over its `2k`
/// bits, the code of the base-complemented k-mer.
pub open spec fn complement(n: nat, c: u16) -> u16 {
    (n - 1 - c) as u16
}

/// Every code of `q` lies inside the index's code space.
pub open spec fn codes_in_range(n: nat, q: Seq<u16>) -> bool {
    forall|j: int| 0 <= j < q.len() ==> q[j] < n
}

/// Sum over the codes `c` of `q` of the population of `c` minus the
/// population of its complement.
pub open spec fn orientation_score(p: Seq<Seq<u32>>, q: Seq<u16>) -> int
    decreases q.len(),
{
    if q.len() == 0 {
        0
    } else {
        orientation_score(p, q.drop_last()) + p[q.last() as int].len() - p[complement(
            p.len(),
            q.last(),
        ) as int].len()
    }
}

/// `q` with every code complemented, in the same order.
pub open spec fn complemented(n: nat, q: Seq<u16>) -> Seq<u16> {
    Seq::new(q.len(), |j: int| complement(n, q[j]))
}

/// `q` with every code complemented and the order reversed: the model of the
/// complementary strand that reorientation uses (see the module comment).
pub open spec fn reoriented(n: nat, q: Seq<u16>) -> Seq<u16> {
    Seq::new(q.len(), |j: int| complement(n, q[q.len() - 1 - j]))
}

/// Whether a query with codes `kmers` is to be matched as given: the
/// orientation score is not negative (a tie keeps the query as given).
pub fn is_correct_oriented(kmers: &Vec<u16>, tree: &Tree) -> (r: bool)
    requires
        tree.wf(),
        codes_in_range(tree.num_codes(), kmers@),
    ensures
        r == (orientation_score(tree.postings(), kmers@) >= 0),
{
    let n = tree.k_mer_map.len();
    let ghost m = usize::MAX as int;
    let mut forward: u128 = 0;
    let mut backward: u128 = 0;
    let mut j: usize = 0;
    while j < kmers.len()
        invariant
            tree.wf(),
            n == tree.num_codes(),
            codes_in_range(tree.num_codes(), kmers@),
            j <= kmers@.len(),
            m == usize::MAX,
            forward - backward == orientation_score(tree.postings(), kmers@.take(j as int)),
            forward <= j * m,
            backward <= j * m,
        decreases kmers.len() - j,
    {
        let kmer = kmers[j] as usize;
        let comp = n - 1 - kmer;
        let here = tree.k_mer_map[kmer].len();
        let there = tree.k_mer_map[comp].len();
        proof {
            assert(tree.postings()[kmer as int] == tree.k_mer_map@[kmer as int]@);
            assert(tree.postings()[comp as int] == tree.k_mer_map@[comp as int]@);
            assert(kmers@.take(j + 1).drop_last() =~= kmers@.take(j as int));
            let jj = j as int;
            assert(jj + 1 <= m);
            assert((jj + 1) * m <= m * m) by (nonlinear_arith)
                requires
                    jj + 1 <= m,
                    0 <= m,
            ;
            assert(m * m < 0x1_0000_0000_0000_0000_0000_0000_0000_0000) by (nonlinear_arith)
                requires
                    0 <= m < 0x1_0000_0000_0000_0000,
            ;
            assert(jj * m + m == (jj + 1) * m) by (nonlinear_arith);
        }
        forward = forward + here as u128;
        backward = backward + there as u128;
        j = j + 1;
    }
    proof {
        assert(kmers@.take(kmers@.len() as int) =~= kmers@);
    }
    forward >= backward
}

/// The reoriented codes of a query: every code complemented, the order
/// reversed (see `reoriented` and the module comment).
pub fn reverse_complement(kmers: &Vec<u16>, tree: &Tree) -> (r: Vec<u16>)
    requires
        tree.wf(),
        codes_in_range(tree.num_codes(), kmers@),
    ensures
        r@ == reoriented(tree.num_codes(), kmers@),
        codes_in_range(tree.num_codes(), r@),
{
    let n = tree.k_mer_map.len();
    let mut r: Vec<u16> = Vec::new();
    let mut j: usize = kmers.len();
    while j > 0
        invariant
            n == tree.num_codes(),
            1 <= n <= 65536,
            codes_in_range(tree.num_codes(), kmers@),
            j <= kmers@.len(),
            r@.len() == kmers@.len() - j,
            forall|i: int|
                0 <= i < r@.len() ==> r@[i] == complement(n as nat, kmers@[kmers@.len() - 1 - i])
                    && r@[i] < n,
        decreases j,
    {
        j = j - 1;
        r.push((n - 1 - kmers[j] as usize) as u16);
    }
    proof {
        assert(r@ =~= reoriented(n as nat, kmers@));
    }
    r
}

/// Complementing every code of a query, without reordering, negates its
/// orientation score: the populations of each code and of its complement
/// trade places.
pub proof fn lemma_score_antisymmetric(t: Tree, q: Seq<u16>)
    requires
        t.wf(),
        codes_in_range(t.num_codes(), q),
    ensures
        orientation_score(t.postings(), complemented(t.num_codes(), q)) == -orientation_score(t.postings(), q),
    decreases q.len(),
{
    let n = t.num_codes();
    if q.len() > 0 {
        let pre = q.drop_last();
        lemma_score_antisymmetric(t, pre);
        assert(complemented(n, q).drop_last() =~= complemented(n, pre));
        assert(complement(n, complement(n, q.last())) == q.last());
    }
}

proof fn lemma_score_append(p: Seq<Seq<u32>>, s: Seq<u16>, t: Seq<u16>)
    ensures
        orientation_score(p, s + t) == orientation_score(p, s) + orientation_score(p, t),
    decreases t.len(),
{
    if t.len() == 0 {
        assert(s + t =~= s);
    } else {
        lemma_score_append(p, s, t.drop_last());
        assert((s + t).drop_last() =~= s + t.drop_last());
    }
}

proof fn lemma_score_reverse(p: Seq<Seq<u32>>, s: Seq<u16>)
    ensures
        orientation_score(p, s.reverse()) == orientation_score(p, s),
    decreases s.len(),
{
    if s.len() > 0 {
        let pre = s.drop_last();
        let one = seq![s.last()];
        lemma_score_reverse(p, pre);
        assert(s.reverse() =~= one + pre.reverse());
        lemma_score_append(p, one, pre.reverse());
        assert(one.drop_last() =~= Seq::<u16>::empty());
        assert(one.last() == s.last());
        assert(orientation_score(p, one.drop_last()) == 0);
    }
}

/// Reorienting a query negates its orientation score: the order of the codes
/// does not weigh in the vote.
pub proof fn lemma_score_reoriented(t: Tree, q: Seq<u16>)
    requires
        t.wf(),
        codes_in_range(t.num_codes(), q),
    ensures
        orientation_score(t.postings(), reoriented(t.num_codes(), q)) == -orientation_score(
            t.postings(),
            q,
        ),
{
    let n = t.num_codes();
    assert(reoriented(n, q) =~= complemented(n, q).reverse());
    lemma_score_reverse(t.postings(), complemented(n, q));
    lemma_score_antisymmetric(t, q);
}

} // verus!
