//! The reference index: for every k-mer code, the identifiers of the
//! references that hold it, once per occurrence.

use vstd::prelude::*;
use crate::count::{
    count_of, lemma_code_count_sum_len, lemma_count_of_absent, lemma_count_of_append,
    lemma_count_of_prefix, lemma_count_of_push, lemma_count_of_repeat, lemma_ref_size_by_codes,
    lemma_ref_size_congruent, lemma_ref_size_take, ref_size, repeat,
};

verus! {

/// The posting list of code `c` in the index of `refs`: reference by
/// reference, the identifier `i` once for each occurrence of `c` in
/// reference `i`.
pub open spec fn built_list(refs: Seq<(Vec<u16>, String)>, c: u16) -> Seq<u32>
    decreases refs.len(),
{
    if refs.len() == 0 {
        Seq::empty()
    } else {
        built_list(refs.drop_last(), c) + repeat(
            (refs.len() - 1) as u32,
            count_of(refs.last().0@, c),
        )
    }
}

/// The posting lists of the index of `refs` over a space of `n` codes.
pub open spec fn built_postings(n: nat, refs: Seq<(Vec<u16>, String)>) -> Seq<Seq<u32>> {
    Seq::new(n, |c: int| built_list(refs, c as u16))
}

/// Some reference holds more codes than a `u32` counts.
pub open spec fn has_oversized_reference(refs: Seq<(Vec<u16>, String)>) -> bool {
    exists|r: int| 0 <= r < refs.len() && refs[r].0@.len() > u32::MAX
}

/// Some reference holds a code outside a space of `n` codes.
pub open spec fn has_code_out_of_range(refs: Seq<(Vec<u16>, String)>, n: nat) -> bool {
    exists|r: int, j: int| 0 <= r < refs.len() && 0 <= j < refs[r].0@.len() && refs[r].0@[j] >= n
}

/// Size of the code space for k-mers of length `k` over a four-letter
/// alphabet packed two bits per base.
pub open spec fn code_space(k: nat) -> nat
    decreases k,
{
    if k == 0 {
        1
    } else {
        4 * code_space((k - 1) as nat)
    }
}

/// Why a reference could not be added to the index.
#[derive(Debug, Clone, Copy, PartialEq, Eq, Structural)]
pub enum IndexError {
    /// A k-mer code lies outside the index's code space.
    KmerOutOfRange,
    /// The index would hold more references or entries than a `u32` counts.
    CapacityExceeded,
}

/// Inverted index over the reference sequences.
///
/// `k_mer_map[c]` lists the identifier of every reference that holds code `c`,
/// once per occurrence, in the order the references were added;
/// `lineages[i]` describes reference `i`.
pub struct Tree {
    pub k_mer_map: Vec<Vec<u32>>,
    pub num_tips: usize,
    pub lineages: Vec<String>,
}

impl Tree {
    /// The posting lists, as mathematical sequences.
    pub open spec fn postings(&self) -> Seq<Seq<u32>> {
        Seq::new(self.k_mer_map@.len(), |c: int| self.k_mer_map@[c]@)
    }

    /// Number of k-mer codes the index covers.
    pub open spec fn num_codes(&self) -> nat {
        self.k_mer_map@.len()
    }

    /// Length of the posting list of code `c`.
    pub open spec fn population(&self, c: int) -> nat {
        self.k_mer_map@[c]@.len()
    }

    pub open spec fn wf(&self) -> bool {
        &&& 1 <= self.k_mer_map@.len() <= 65536
        &&& self.num_tips <= u32::MAX
        &&& self.lineages@.len() == self.num_tips
        &&& forall|c: int, j: int|
            0 <= c < self.k_mer_map@.len() && 0 <= j < self.k_mer_map@[c]@.len()
                ==> self.k_mer_map@[c]@[j] < self.num_tips
        &&& forall|i: int|
            0 <= i < self.num_tips ==> #[trigger] ref_size(self.postings(), i as u32) <= u32::MAX
    }

    /// An empty index for k-mers of length `k`: one empty list per code.
    pub fn new(k: u32) -> (t: Tree)
        requires
            1 <= k <= 8,
        ensures
            t.wf(),
            t.num_codes() == code_space(k as nat),
            t.num_tips == 0,
            forall|c: int| 0 <= c < t.num_codes() ==> t.population(c) == 0,
    {
        let mut n: usize = 1;
        let mut i: u32 = 0;
        while i < k
            invariant
                i <= k <= 8,
                n == code_space(i as nat),
                1 <= n <= 65536,
            decreases k - i,
        {
            proof {
                lemma_code_space_mono((i + 1) as nat, 8);
                reveal_with_fuel(code_space, 9);
            }
            n = n * 4;
            i = i + 1;
        }
        let mut map: Vec<Vec<u32>> = Vec::new();
        while map.len() < n
            invariant
                map@.len() <= n,
                forall|c: int| 0 <= c < map@.len() ==> map@[c]@.len() == 0,
            decreases n - map.len(),
        {
            map.push(Vec::new());
        }
        Tree { k_mer_map: map, num_tips: 0, lineages: Vec::new() }
    }

    /// Adds one reference, given as its k-mer codes and its lineage, under the
    /// next free identifier, which is returned. Every occurrence of a code
    /// appends that identifier to the code's list.
    pub fn add_reference(&mut self, kmers: &Vec<u16>, lineage: String) -> (r: Result<
        u32,
        IndexError,
    >)
        requires
            old(self).wf(),
        ensures
            final(self).wf(),
            (exists|j: int| 0 <= j < kmers@.len() && kmers@[j] >= old(self).num_codes())
                <==> r == Err::<u32, IndexError>(IndexError::KmerOutOfRange),
            r == Err::<u32, IndexError>(IndexError::CapacityExceeded) <==> (
                (forall|j: int| 0 <= j < kmers@.len() ==> kmers@[j] < old(self).num_codes())
                && (old(self).num_tips == u32::MAX || kmers@.len() > u32::MAX)),
            r is Err ==> *final(self) == *old(self),
            r is Ok ==> {
                &&& r == Ok::<u32, IndexError>(old(self).num_tips as u32)
                &&& final(self).num_tips == old(self).num_tips + 1
                &&& final(self).lineages@ == old(self).lineages@.push(lineage)
                &&& final(self).num_codes() == old(self).num_codes()
                &&& forall|c: int|
                    0 <= c < old(self).num_codes() ==> #[trigger] final(self).postings()[c]
                        == old(self).postings()[c] + repeat(
                        old(self).num_tips as u32,
                        count_of(kmers@, c as u16),
                    )
            },
    {
        let n = self.k_mer_map.len();
        let mut j: usize = 0;
        while j < kmers.len()
            invariant
                self.wf(),
                *self == *old(self),
                n == self.k_mer_map@.len(),
                j <= kmers@.len(),
                forall|i: int| 0 <= i < j ==> kmers@[i] < n,
            decreases kmers.len() - j,
        {
            if kmers[j] as usize >= n {
                return Err(IndexError::KmerOutOfRange);
            }
            j = j + 1;
        }
        if self.num_tips >= u32::MAX as usize || kmers.len() > u32::MAX as usize {
            return Err(IndexError::CapacityExceeded);
        }
        let id = self.num_tips as u32;
        let ghost old_p = self.postings();
        j = 0;
        while j < kmers.len()
            invariant
                n == self.k_mer_map@.len(),
                1 <= n <= 65536,
                id == self.num_tips,
                id < u32::MAX,
                j <= kmers@.len(),
                forall|i: int| 0 <= i < kmers@.len() ==> kmers@[i] < n,
                old_p.len() == n,
                forall|c: int|
                    0 <= c < n ==> #[trigger] self.k_mer_map@[c]@ == old_p[c] + repeat(
                        id,
                        count_of(kmers@.take(j as int), c as u16),
                    ),
                forall|c: int, i: int|
                    0 <= c < n && 0 <= i < self.k_mer_map@[c]@.len() ==> self.k_mer_map@[c]@[i]
                        <= id,
                self.lineages@ == old(self).lineages@,
                old_p == old(self).postings(),
            decreases kmers.len() - j,
        {
            let code = kmers[j] as usize;
            let ghost before = self.postings();
            self.k_mer_map[code].push(id);
            proof {
                assert(kmers@.take(j + 1) =~= kmers@.take(j as int).push(kmers@[j as int]));
                assert forall|c: int| 0 <= c < n implies #[trigger] self.k_mer_map@[c]@ == old_p[c]
                    + repeat(id, count_of(kmers@.take(j + 1), c as u16)) by {
                    lemma_count_of_push(kmers@.take(j as int), kmers@[j as int], c as u16);
                    let cnt = count_of(kmers@.take(j as int), c as u16);
                    if c == code {
                        assert(c as u16 == kmers@[j as int]);
                        assert(repeat(id, cnt + 1) =~= repeat(id, cnt).push(id));
                        assert(self.k_mer_map@[c]@ =~= old_p[c] + repeat(id, cnt + 1));
                    } else {
                        assert(c as u16 != kmers@[j as int]);
                    }
                }
            }
            j = j + 1;
        }
        self.num_tips = self.num_tips + 1;
        self.lineages.push(lineage);
        proof {
            assert(kmers@.take(kmers@.len() as int) =~= kmers@);
            assert forall|c: int| 0 <= c < n implies #[trigger] self.postings()[c] == old_p[c]
                + repeat(id, count_of(kmers@, c as u16)) by {
                assert(self.postings()[c] == self.k_mer_map@[c]@);
            }
            let np = self.postings();
            assert forall|x: int| 0 <= x < self.num_tips implies #[trigger] ref_size(np, x as u32)
                <= u32::MAX by {
                if x < id {
                    assert forall|c: int| 0 <= c < n implies count_of(#[trigger] np[c], x as u32)
                        == count_of(old_p[c], x as u32) by {
                        let cnt = count_of(kmers@, c as u16);
                        lemma_count_of_append(old_p[c], repeat(id, cnt), x as u32);
                        lemma_count_of_repeat(id, cnt, x as u32);
                    }
                    lemma_ref_size_congruent(np, old_p, x as u32);
                } else {
                    assert forall|c: int| 0 <= c < n implies count_of(#[trigger] np[c], id)
                        == count_of(kmers@, c as u16) by {
                        let cnt = count_of(kmers@, c as u16);
                        lemma_count_of_append(old_p[c], repeat(id, cnt), id);
                        lemma_count_of_repeat(id, cnt, id);
                        assert(old_p[c] == old(self).k_mer_map@[c]@);
                        lemma_count_of_absent(old_p[c], id, id);
                    }
                    lemma_ref_size_by_codes(np, id, kmers@);
                    lemma_code_count_sum_len(kmers@, n as nat);
                }
            }
        }
        Ok(id)
    }

    /// Builds the index of k-mers of length `k` over `refs`, where `refs[i]`
    /// holds the codes and the lineage of reference `i`.
    pub fn build(k: u32, refs: &Vec<(Vec<u16>, String)>) -> (r: Result<Tree, IndexError>)
        requires
            1 <= k <= 8,
        ensures
            r == Err::<Tree, IndexError>(IndexError::KmerOutOfRange) <==> has_code_out_of_range(
                refs@,
                code_space(k as nat),
            ),
            r == Err::<Tree, IndexError>(IndexError::CapacityExceeded) <==> (!has_code_out_of_range(
                refs@,
                code_space(k as nat),
            ) && (refs@.len() > u32::MAX || has_oversized_reference(refs@))),
            r matches Ok(t) ==> {
                &&& t.wf()
                &&& t.num_codes() == code_space(k as nat)
                &&& t.postings() == built_postings(code_space(k as nat), refs@)
                &&& t.num_tips == refs@.len()
                &&& forall|i: int| 0 <= i < refs@.len() ==> t.lineages@[i] == refs@[i].1
                &&& forall|i: int, c: int|
                    0 <= i < refs@.len() && 0 <= c < t.num_codes() ==> count_of(
                        #[trigger] t.postings()[c],
                        i as u32,
                    ) == count_of(#[trigger] refs@[i].0@, c as u16)
            },
    {
        let mut t = Tree::new(k);
        let n = t.k_mer_map.len();
        assert forall|c: int| 0 <= c < n implies #[trigger] t.postings()[c] =~= built_list(
            refs@.take(0),
            c as u16,
        ) by {
            assert(t.postings()[c].len() == t.population(c));
        }
        assert(t.postings() =~= built_postings(n as nat, refs@.take(0)));
        let mut i: usize = 0;
        while i < refs.len()
            invariant
                n == code_space(k as nat),
                i <= refs@.len(),
                forall|r: int, j: int|
                    0 <= r < i && 0 <= j < refs@[r].0@.len() ==> refs@[r].0@[j] < n,
            decreases refs.len() - i,
        {
            let kmers = &refs[i].0;
            let mut j: usize = 0;
            while j < kmers.len()
                invariant
                    n == code_space(k as nat),
                    i < refs@.len(),
                    *kmers == refs@[i as int].0,
                    j <= kmers@.len(),
                    forall|r: int, j: int|
                        0 <= r < i && 0 <= j < refs@[r].0@.len() ==> refs@[r].0@[j] < n,
                    forall|jj: int| 0 <= jj < j ==> kmers@[jj] < n,
                decreases kmers.len() - j,
            {
                if kmers[j] as usize >= n {
                    return Err(IndexError::KmerOutOfRange);
                }
                j = j + 1;
            }
            i = i + 1;
        }
        i = 0;
        while i < refs.len()
            invariant
                t.wf(),
                t.num_codes() == n,
                n == code_space(k as nat),
                i <= refs@.len(),
                !has_code_out_of_range(refs@, n as nat),
                t.num_tips == i,
                t.postings() == built_postings(n as nat, refs@.take(i as int)),
                forall|r: int| 0 <= r < i ==> refs@[r].0@.len() <= u32::MAX,
                forall|r: int| 0 <= r < i ==> t.lineages@[r] == refs@[r].1,
                forall|r: int, c: int|
                    0 <= r < i && 0 <= c < n ==> count_of(#[trigger] t.postings()[c], r as u32)
                        == count_of(#[trigger] refs@[r].0@, c as u16),
            decreases refs.len() - i,
        {
            let ghost before = t;
            proof {
                assert(refs@.take(i + 1).drop_last() =~= refs@.take(i as int));
            }
            let added = t.add_reference(&refs[i].0, refs[i].1.clone());
            match added {
                Err(e) => {
                    proof {
                        if i < u32::MAX {
                            assert(refs@[i as int].0@.len() > u32::MAX);
                        }
                    }
                    return Err(e);
                },
                Ok(_) => {},
            }
            proof {
                let ri = refs@.take(i + 1);
                assert(ri.drop_last() =~= refs@.take(i as int));
                assert forall|c: int| 0 <= c < n implies #[trigger] t.postings()[c] == built_list(
                    ri,
                    c as u16,
                ) by {}
                assert(t.postings() =~= built_postings(n as nat, ri));
                assert forall|r: int, c: int|
                    0 <= r < i + 1 && 0 <= c < n implies count_of(
                    #[trigger] t.postings()[c],
                    r as u32,
                ) == count_of(#[trigger] refs@[r].0@, c as u16) by {
                    let cnt = count_of(refs@[i as int].0@, c as u16);
                    lemma_count_of_append(before.postings()[c], repeat(i as u32, cnt), r as u32);
                    lemma_count_of_repeat(i as u32, cnt, r as u32);
                    if r == i {
                        lemma_count_of_absent(before.postings()[c], i as u32, r as u32);
                    }
                }
            }
            i = i + 1;
        }
        proof {
            assert(refs@.take(refs@.len() as int) =~= refs@);
        }
        Ok(t)
    }

    /// For every reference, the number of entries that name it over the
    /// whole index.
    pub fn reference_set_sizes(&self) -> (sizes: Vec<u32>)
        requires
            self.wf(),
        ensures
            sizes@.len() == self.num_tips,
            forall|i: int|
                0 <= i < self.num_tips ==> #[trigger] sizes@[i] == ref_size(
                    self.postings(),
                    i as u32,
                ),
    {
        let ghost p = self.postings();
        let mut sizes: Vec<u32> = Vec::new();
        while sizes.len() < self.num_tips
            invariant
                sizes@.len() <= self.num_tips,
                forall|i: int| 0 <= i < sizes@.len() ==> sizes@[i] == 0,
            decreases self.num_tips - sizes.len(),
        {
            sizes.push(0);
        }
        let mut j: usize = 0;
        while j < self.k_mer_map.len()
            invariant
                self.wf(),
                p == self.postings(),
                j <= p.len(),
                sizes@.len() == self.num_tips,
                forall|i: int|
                    0 <= i < self.num_tips ==> #[trigger] sizes@[i] == ref_size(
                        p.take(j as int),
                        i as u32,
                    ),
            decreases self.k_mer_map.len() - j,
        {
            let list = &self.k_mer_map[j];
            proof {
                assert(p[j as int] == list@);
            }
            let mut m: usize = 0;
            while m < list.len()
                invariant
                    self.wf(),
                    p == self.postings(),
                    j < p.len(),
                    list@ == p[j as int],
                    m <= list@.len(),
                    sizes@.len() == self.num_tips,
                    forall|i: int|
                        0 <= i < self.num_tips ==> #[trigger] sizes@[i] == ref_size(
                            p.take(j as int),
                            i as u32,
                        ) + count_of(list@.take(m as int), i as u32),
                decreases list.len() - m,
            {
                let id = list[m];
                proof {
                    assert(id < self.num_tips);
                    assert(list@.take(m + 1) =~= list@.take(m as int).push(id));
                    lemma_count_of_push(list@.take(m as int), id, id);
                    lemma_count_of_prefix(list@, m + 1, id);
                    lemma_ref_size_take(p, j as int, id);
                    assert(ref_size(self.postings(), (id as int) as u32) <= u32::MAX);
                }
                sizes.set(id as usize, sizes[id as usize] + 1);
                proof {
                    assert forall|i: int| 0 <= i < self.num_tips implies #[trigger] sizes@[i]
                        == ref_size(p.take(j as int), i as u32) + count_of(
                        list@.take(m + 1),
                        i as u32,
                    ) by {
                        lemma_count_of_push(list@.take(m as int), id, i as u32);
                    }
                }
                m = m + 1;
            }
            proof {
                assert(list@.take(m as int) =~= list@);
                assert(p.take(j + 1).drop_last() =~= p.take(j as int));
            }
            j = j + 1;
        }
        proof {
            assert(p.take(p.len() as int) =~= p);
        }
        sizes
    }
}

proof fn lemma_code_space_mono(i: nat, j: nat)
    requires
        i <= j,
    ensures
        code_space(i) <= code_space(j),
    decreases j - i,
{
    if i < j {
        lemma_code_space_mono(i, (j - 1) as nat);
    }
}

} // verus!
