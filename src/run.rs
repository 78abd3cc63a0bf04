//! One classification run: build the index, orient every query, count its
//! matches, and report the reference sizes and lineages beside them.

use vstd::prelude::*;
use crate::count::{count_of, lemma_code_count_sum_len, lemma_ref_size_by_codes, ref_size};
use crate::index::{
    built_postings, code_space, has_code_out_of_range, has_oversized_reference, IndexError, Tree,
};
use crate::intersection::{counts_fit, match_vector};
use crate::orientation::{
    codes_in_range, is_correct_oriented, lemma_score_reoriented, orientation_score, reoriented, reverse_complement,
};

verus! {

/// Why a run produced no result.
#[derive(Debug, Clone, Copy, PartialEq, Eq)]
pub enum ClassifyError {
    /// The references could not be indexed.
    Index(IndexError),
    /// A query holds a code outside the index's code space.
    QueryKmerOutOfRange,
    /// A query has more codes, or more matching entries, than a `u32` counts.
    CountOverflow,
}

/// The codes a query is matched with: as given, unless complement correction
/// is on and the orientation score is negative, in which case its reverse
/// complement.
pub open spec fn oriented(p: Seq<Seq<u32>>, q: Seq<u16>, complement: bool) -> Seq<u16> {
    if complement && orientation_score(p, q) < 0 {
        reoriented(p.len(), q)
    } else {
        q
    }
}

/// What a run returns: per query its label, code count and match vector; per
/// reference its size; the lineages.
pub type RunOutput = (Vec<(String, u32, Vec<u32>)>, Vec<u32>, Vec<String>);

/// The references can be indexed under a space of `n` codes.
pub open spec fn indexable(refs: Seq<(Vec<u16>, String)>, n: nat) -> bool {
    !has_code_out_of_range(refs, n) && refs.len() <= u32::MAX && !has_oversized_reference(refs)
}

/// Some query, once oriented, has more codes than a `u32` counts, or a match
/// count against one of the first `refs_len` references that a `u32` cannot
/// hold.
pub open spec fn counts_overflow(
    p: Seq<Seq<u32>>,
    refs_len: nat,
    queries: Seq<(String, Vec<u16>)>,
    complement: bool,
) -> bool {
    exists|q: int|
        0 <= q < queries.len() && (queries[q].1@.len() > u32::MAX || !counts_fit(
            p,
            oriented(p, queries[q].1@, complement),
            refs_len,
        ))
}

/// `out` is the result of a run with codes of length `k` over `refs` and
/// `queries`.
pub open spec fn is_run_output(
    k: nat,
    refs: Seq<(Vec<u16>, String)>,
    queries: Seq<(String, Vec<u16>)>,
    complement: bool,
    out: RunOutput,
) -> bool {
    let p = built_postings(code_space(k), refs);
    &&& out.0@.len() == queries.len()
    &&& forall|q: int|
        0 <= q < queries.len() ==> {
            &&& (#[trigger] out.0@[q]).0 == queries[q].0
            &&& out.0@[q].1 == queries[q].1@.len()
            &&& out.0@[q].2@ == match_vector(
                p,
                oriented(p, queries[q].1@, complement),
                refs.len(),
            )
        }
    &&& out.1@ == Seq::new(refs.len(), |i: int| ref_size(p, i as u32) as u32)
    &&& out.1@ == Seq::new(refs.len(), |i: int| refs[i].0@.len() as u32)
    &&& out.2@ == Seq::new(refs.len(), |i: int| refs[i].1)
}

/// The codes a query is matched with (see `oriented`).
pub fn orient_query(kmers: &Vec<u16>, tree: &Tree, complement: bool) -> (r: Vec<u16>)
    requires
        tree.wf(),
        codes_in_range(tree.num_codes(), kmers@),
    ensures
        r@ == oriented(tree.postings(), kmers@, complement),
        codes_in_range(tree.num_codes(), r@),
        complement ==> orientation_score(tree.postings(), r@) >= 0,
{
    if complement && !is_correct_oriented(kmers, tree) {
        proof {
            lemma_score_reoriented(*tree, kmers@);
        }
        reverse_complement(kmers, tree)
    } else {
        let mut r: Vec<u16> = Vec::new();
        let mut j: usize = 0;
        while j < kmers.len()
            invariant
                j <= kmers@.len(),
                r@ == kmers@.take(j as int),
            decreases kmers.len() - j,
        {
            r.push(kmers[j]);
            j = j + 1;
            assert(r@ =~= kmers@.take(j as int));
        }
        assert(r@ =~= kmers@);
        r
    }
}

/// One run: index the references (codes of length `k`, and a lineage each),
/// orient every query when `complement` is set, and count its matches.
pub fn classify(
    k: u32,
    references: &Vec<(Vec<u16>, String)>,
    queries: &Vec<(String, Vec<u16>)>,
    complement: bool,
) -> (r: Result<RunOutput, ClassifyError>)
    requires
        1 <= k <= 8,
    ensures
        r == Err::<RunOutput, ClassifyError>(ClassifyError::Index(IndexError::KmerOutOfRange))
            <==> has_code_out_of_range(references@, code_space(k as nat)),
        r == Err::<RunOutput, ClassifyError>(ClassifyError::Index(IndexError::CapacityExceeded))
            <==> (!has_code_out_of_range(references@, code_space(k as nat)) && !indexable(
            references@,
            code_space(k as nat),
        )),
        r == Err::<RunOutput, ClassifyError>(ClassifyError::QueryKmerOutOfRange) <==> (indexable(
            references@,
            code_space(k as nat),
        ) && exists|q: int|
            0 <= q < queries@.len() && !codes_in_range(
                code_space(k as nat),
                #[trigger] queries@[q].1@,
            )),
        r == Err::<RunOutput, ClassifyError>(ClassifyError::CountOverflow) <==> (indexable(
            references@,
            code_space(k as nat),
        ) && (forall|q: int|
            0 <= q < queries@.len() ==> codes_in_range(
                code_space(k as nat),
                #[trigger] queries@[q].1@,
            )) && counts_overflow(
            built_postings(code_space(k as nat), references@),
            references@.len(),
            queries@,
            complement,
        )),
        r matches Ok(out) ==> is_run_output(
            k as nat,
            references@,
            queries@,
            complement,
            out,
        ),
{
    let tree = match Tree::build(k, references) {
        Ok(t) => t,
        Err(e) => {
            return Err(ClassifyError::Index(e));
        },
    };
    let ghost p = tree.postings();
    let n = tree.k_mer_map.len();
    assert(indexable(references@, n as nat));
    proof {
        assert forall|i: int| 0 <= i < references@.len() implies ref_size(p, i as u32)
            == references@[i].0@.len() by {
            assert forall|c: int| 0 <= c < p.len() implies count_of(#[trigger] p[c], i as u32)
                == count_of(references@[i].0@, c as u16) by {}
            lemma_ref_size_by_codes(p, i as u32, references@[i].0@);
            assert(!has_code_out_of_range(references@, n as nat));
            assert forall|j: int| 0 <= j < references@[i].0@.len() implies references@[i].0@[j]
                < n by {}
            lemma_code_count_sum_len(references@[i].0@, n as nat);
        }
    }
    let mut q: usize = 0;
    while q < queries.len()
        invariant
            tree.wf(),
            p == tree.postings(),
            n == tree.num_codes(),
            n == code_space(k as nat),
            p == built_postings(n as nat, references@),
            tree.num_tips == references@.len(),
            forall|i: int| 0 <= i < references@.len() ==> tree.lineages@[i] == references@[i].1,
            indexable(references@, n as nat),
            forall|i: int|
                0 <= i < references@.len() ==> #[trigger] ref_size(p, i as u32)
                    == references@[i].0@.len(),
            q <= queries@.len(),
            forall|i: int| 0 <= i < q ==> codes_in_range(n as nat, #[trigger] queries@[i].1@),
        decreases queries.len() - q,
    {
        let kmers = &queries[q].1;
        let mut j: usize = 0;
        while j < kmers.len()
            invariant
                n == tree.num_codes(),
                n == code_space(k as nat),
                indexable(references@, n as nat),
                    forall|i: int|
                        0 <= i < references@.len() ==> #[trigger] ref_size(p, i as u32)
                            == references@[i].0@.len(),
                q < queries@.len(),
                *kmers == queries@[q as int].1,
                j <= kmers@.len(),
                forall|jj: int| 0 <= jj < j ==> kmers@[jj] < n,
            decreases kmers.len() - j,
        {
            if kmers[j] as usize >= n {
                assert(!codes_in_range(n as nat, queries@[q as int].1@));
                return Err(ClassifyError::QueryKmerOutOfRange);
            }
            j = j + 1;
        }
        q = q + 1;
    }
    let mut results: Vec<(String, u32, Vec<u32>)> = Vec::new();
    q = 0;
    while q < queries.len()
        invariant
            tree.wf(),
            p == tree.postings(),
            n == tree.num_codes(),
            n == code_space(k as nat),
            p == built_postings(n as nat, references@),
            tree.num_tips == references@.len(),
            forall|i: int| 0 <= i < references@.len() ==> tree.lineages@[i] == references@[i].1,
            indexable(references@, n as nat),
            forall|i: int|
                0 <= i < references@.len() ==> #[trigger] ref_size(p, i as u32)
                    == references@[i].0@.len(),
            q <= queries@.len(),
            forall|i: int|
                0 <= i < queries@.len() ==> codes_in_range(n as nat, #[trigger] queries@[i].1@),
            results@.len() == q,
            forall|i: int|
                0 <= i < q ==> {
                    &&& (#[trigger] results@[i]).0 == queries@[i].0
                    &&& results@[i].1 == queries@[i].1@.len()
                    &&& results@[i].2@ == match_vector(
                        p,
                        oriented(p, queries@[i].1@, complement),
                        references@.len(),
                    )
                    &&& queries@[i].1@.len() <= u32::MAX
                    &&& counts_fit(p, oriented(p, queries@[i].1@, complement), references@.len())
                },
        decreases queries.len() - q,
    {
        let (label, kmers) = &queries[q];
        assert(codes_in_range(n as nat, queries@[q as int].1@));
        let codes = orient_query(kmers, &tree, complement);
        if kmers.len() > u32::MAX as usize {
            return Err(ClassifyError::CountOverflow);
        }
        let counts = match tree.checked_match_counts(&codes) {
            None => {
                return Err(ClassifyError::CountOverflow);
            },
            Some(counts) => counts,
        };
        let ghost before = results@;
        results.push((label.clone(), kmers.len() as u32, counts));
        assert(results@ == before.push(results@[q as int]));
        q = q + 1;
    }
    proof {
        if counts_overflow(p, references@.len(), queries@, complement) {
            let i = choose|i: int|
                0 <= i < queries@.len() && (queries@[i].1@.len() > u32::MAX || !counts_fit(
                    p,
                    oriented(p, queries@[i].1@, complement),
                    references@.len(),
                ));
            assert(results@[i].0 == queries@[i].0);
        }
    }
    let sizes = tree.reference_set_sizes();
    let ghost rv = results@;
    let out = (results, sizes, tree.lineages);
    assert(out.0@ == rv);
    proof {
        assert forall|qq: int| 0 <= qq < queries@.len() implies {
            &&& (#[trigger] out.0@[qq]).0 == queries@[qq].0
            &&& out.0@[qq].1 == queries@[qq].1@.len()
            &&& out.0@[qq].2@ == match_vector(
                p,
                oriented(p, queries@[qq].1@, complement),
                references@.len(),
            )
        } by {
            assert(rv[qq].0 == queries@[qq].0);
        }
        assert(out.1@ =~= Seq::new(references@.len(), |i: int| ref_size(p, i as u32) as u32));
        assert(out.1@ =~= Seq::new(references@.len(), |i: int| references@[i].0@.len() as u32));
        assert(out.2@ =~= Seq::new(references@.len(), |i: int| references@[i].1));
    }
    Ok(out)
}

/// Determinism: two results of runs on the same references, queries and
/// complement flag agree, label for label and count for count.
pub proof fn lemma_run_deterministic(
    k: nat,
    refs: Seq<(Vec<u16>, String)>,
    queries: Seq<(String, Vec<u16>)>,
    complement: bool,
    a: RunOutput,
    b: RunOutput,
)
    requires
        is_run_output(k, refs, queries, complement, a),
        is_run_output(k, refs, queries, complement, b),
    ensures
        a.0@.len() == b.0@.len(),
        forall|q: int|
            0 <= q < a.0@.len() ==> (#[trigger] a.0@[q]).0 == b.0@[q].0 && a.0@[q].1 == b.0@[q].1
                && a.0@[q].2@ == b.0@[q].2@,
        a.1@ == b.1@,
        a.2@ == b.2@,
{
    assert forall|q: int| 0 <= q < a.0@.len() implies (#[trigger] a.0@[q]).0 == b.0@[q].0
        && a.0@[q].1 == b.0@[q].1 && a.0@[q].2@ == b.0@[q].2@ by {
        assert(b.0@[q].0 == queries[q].0);
    }
}

} // verus!
