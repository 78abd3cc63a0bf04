//! Occurrence counts over sequences, and the facts about them that the rest of
//! the library relies on.

use vstd::prelude::*;

verus! {

/// Number of positions of `s` that hold `x`.
pub open spec fn count_of<A>(s: Seq<A>, x: A) -> nat
    decreases s.len(),
{
    if s.len() == 0 {
        0
    } else {
        count_of(s.drop_last(), x) + if s.last() == x {
            1nat
        } else {
            0nat
        }
    }
}

/// The list that holds `x` exactly `n` times.
pub open spec fn repeat(x: u32, n: nat) -> Seq<u32> {
    Seq::new(n, |_j: int| x)
}

pub proof fn lemma_count_of_append<A>(s: Seq<A>, t: Seq<A>, x: A)
    ensures
        count_of(s + t, x) == count_of(s, x) + count_of(t, x),
    decreases t.len(),
{
    if t.len() == 0 {
        assert(s + t =~= s);
    } else {
        lemma_count_of_append(s, t.drop_last(), x);
        assert((s + t).drop_last() =~= s + t.drop_last());
    }
}

pub proof fn lemma_count_of_push<A>(s: Seq<A>, y: A, x: A)
    ensures
        count_of(s.push(y), x) == count_of(s, x) + if y == x {
            1nat
        } else {
            0nat
        },
{
    assert(s.push(y).drop_last() =~= s);
}

pub proof fn lemma_count_of_repeat(x: u32, n: nat, y: u32)
    ensures
        count_of(repeat(x, n), y) == if x == y {
            n
        } else {
            0
        },
    decreases n,
{
    if n > 0 {
        lemma_count_of_repeat(x, (n - 1) as nat, y);
        assert(repeat(x, n).drop_last() =~= repeat(x, (n - 1) as nat));
    }
}

pub proof fn lemma_count_of_absent(s: Seq<u32>, bound: u32, x: u32)
    requires
        forall|j: int| 0 <= j < s.len() ==> s[j] < bound,
        x >= bound,
    ensures
        count_of(s, x) == 0,
    decreases s.len(),
{
    if s.len() > 0 {
        lemma_count_of_absent(s.drop_last(), bound, x);
    }
}

/// A prefix of `s` holds `x` no more often than `s` does.
pub proof fn lemma_count_of_prefix<A>(s: Seq<A>, m: int, x: A)
    requires
        0 <= m <= s.len(),
    ensures
        count_of(s.take(m), x) <= count_of(s, x),
{
    assert(s =~= s.take(m) + s.skip(m));
    lemma_count_of_append(s.take(m), s.skip(m), x);
}

} // verus!

verus! {

/// Number of times `x` occurs over all the lists in `p`.
pub open spec fn ref_size(p: Seq<Seq<u32>>, x: u32) -> nat
    decreases p.len(),
{
    if p.len() == 0 {
        0
    } else {
        ref_size(p.drop_last(), x) + count_of(p.last(), x)
    }
}

pub proof fn lemma_ref_size_take(p: Seq<Seq<u32>>, j: int, x: u32)
    requires
        0 <= j < p.len(),
    ensures
        ref_size(p.take(j + 1), x) == ref_size(p.take(j), x) + count_of(p[j], x),
        ref_size(p.take(j + 1), x) <= ref_size(p, x),
    decreases p.len() - j,
{
    assert(p.take(j + 1).drop_last() =~= p.take(j));
    if j + 1 < p.len() {
        lemma_ref_size_take(p, j + 1, x);
    } else {
        assert(p.take(j + 1) =~= p);
    }
}

/// Lists that name `x` equally often give `x` the same size.
pub proof fn lemma_ref_size_congruent(p: Seq<Seq<u32>>, r: Seq<Seq<u32>>, x: u32)
    requires
        p.len() == r.len(),
        forall|c: int| 0 <= c < p.len() ==> count_of(#[trigger] p[c], x) == count_of(r[c], x),
    ensures
        ref_size(p, x) == ref_size(r, x),
    decreases p.len(),
{
    if p.len() > 0 {
        lemma_ref_size_congruent(p.drop_last(), r.drop_last(), x);
    }
}

} // verus!

verus! {

/// Sum over the codes `c < n` of the occurrences of `c` in `s`.
pub open spec fn code_count_sum(s: Seq<u16>, n: nat) -> nat
    decreases n,
{
    if n == 0 {
        0
    } else {
        code_count_sum(s, (n - 1) as nat) + count_of(s, (n - 1) as u16)
    }
}

proof fn lemma_code_count_sum_push(s: Seq<u16>, y: u16, n: nat)
    requires
        n <= 65536,
    ensures
        code_count_sum(s.push(y), n) == code_count_sum(s, n) + if y < n {
            1nat
        } else {
            0nat
        },
    decreases n,
{
    if n > 0 {
        lemma_code_count_sum_push(s, y, (n - 1) as nat);
        lemma_count_of_push(s, y, (n - 1) as u16);
    }
}

proof fn lemma_code_count_sum_empty(s: Seq<u16>, n: nat)
    requires
        s.len() == 0,
    ensures
        code_count_sum(s, n) == 0,
    decreases n,
{
    if n > 0 {
        lemma_code_count_sum_empty(s, (n - 1) as nat);
    }
}

/// When every code of `s` is below `n`, counting each code below `n` counts
/// every position of `s` once.
pub proof fn lemma_code_count_sum_len(s: Seq<u16>, n: nat)
    requires
        n <= 65536,
        forall|j: int| 0 <= j < s.len() ==> s[j] < n,
    ensures
        code_count_sum(s, n) == s.len(),
    decreases s.len(),
{
    if s.len() == 0 {
        lemma_code_count_sum_empty(s, n);
    } else {
        let pre = s.drop_last();
        lemma_code_count_sum_len(pre, n);
        lemma_code_count_sum_push(pre, s.last(), n);
        assert(pre.push(s.last()) =~= s);
    }
}

/// When list `c` of `p` names `x` as often as `s` holds code `c`, the entries
/// naming `x` over `p` number as many as the codes of `s` below `p.len()`.
pub proof fn lemma_ref_size_by_codes(p: Seq<Seq<u32>>, x: u32, s: Seq<u16>)
    requires
        forall|c: int| 0 <= c < p.len() ==> count_of(#[trigger] p[c], x) == count_of(s, c as u16),
    ensures
        ref_size(p, x) == code_count_sum(s, p.len()),
    decreases p.len(),
{
    if p.len() > 0 {
        lemma_ref_size_by_codes(p.drop_last(), x, s);
    }
}

} // verus!
