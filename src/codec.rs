//! Nucleotide k-mer codes: two bits per base (`A` 0, `C` 1, `G` 2, `T` 3,
//! either case), the first base most significant. Complementary bases have
//! complementary bit pairs, so the bitwise complement of a code over its `2k`
//! bits is the code of the base-complemented k-mer.

use vstd::prelude::*;
use crate::index::code_space;

verus! {

/// Whether `b` is one of the four bases.
pub open spec fn is_base(b: u8) -> bool {
    b == 65 || b == 97 || b == 67 || b == 99 || b == 71 || b == 103 || b == 84 || b == 116
}

/// The two-bit value of base `b`.
pub open spec fn base_value(b: u8) -> nat {
    if b == 65 || b == 97 {
        0
    } else if b == 67 || b == 99 {
        1
    } else if b == 71 || b == 103 {
        2
    } else {
        3
    }
}

/// The code of the bases of `w`, read as a base-4 number.
pub open spec fn kmer_value(w: Seq<u8>) -> nat
    decreases w.len(),
{
    if w.len() == 0 {
        0
    } else {
        kmer_value(w.drop_last()) * 4 + base_value(w.last())
    }
}

/// Every byte of `w` is a base.
pub open spec fn all_bases(w: Seq<u8>) -> bool {
    forall|j: int| 0 <= j < w.len() ==> is_base(w[j])
}

/// The window of length `k` of `s` at position `i`.
pub open spec fn window(s: Seq<u8>, k: nat, i: int) -> Seq<u8> {
    s.subrange(i, i + k)
}

/// The codes of the windows of length `k` of `s` that start before `i` and
/// hold bases only, in order.
pub open spec fn window_codes(s: Seq<u8>, k: nat, i: nat) -> Seq<u16>
    decreases i,
{
    if i == 0 {
        Seq::empty()
    } else {
        let w = window(s, k, i - 1);
        window_codes(s, k, (i - 1) as nat) + if all_bases(w) {
            seq![kmer_value(w) as u16]
        } else {
            Seq::empty()
        }
    }
}

/// The codes of all the windows of length `k` of `s` that hold bases only.
pub open spec fn kmer_codes(s: Seq<u8>, k: nat) -> Seq<u16> {
    if s.len() < k {
        Seq::empty()
    } else {
        window_codes(s, k, (s.len() - k + 1) as nat)
    }
}

/// A code is below the size of the code space of its length.
pub proof fn lemma_kmer_value_bound(w: Seq<u8>)
    ensures
        kmer_value(w) < code_space(w.len()),
    decreases w.len(),
{
    if w.len() > 0 {
        lemma_kmer_value_bound(w.drop_last());
    }
}

/// The complementary base of `b`, in the same case.
pub open spec fn complement_base(b: u8) -> u8 {
    if b == 65 {
        84
    } else if b == 97 {
        116
    } else if b == 67 {
        71
    } else if b == 99 {
        103
    } else if b == 71 {
        67
    } else if b == 103 {
        99
    } else if b == 84 {
        65
    } else {
        97
    }
}

/// Complementing every base of a k-mer, in place, complements its code
/// within the code space: the code becomes `4^k - 1` minus the code.
pub proof fn lemma_complement_bases(w: Seq<u8>)
    requires
        all_bases(w),
    ensures
        all_bases(w.map_values(|b: u8| complement_base(b))),
        kmer_value(w.map_values(|b: u8| complement_base(b))) + kmer_value(w) + 1 == code_space(
            w.len(),
        ),
    decreases w.len(),
{
    let cw = w.map_values(|b: u8| complement_base(b));
    if w.len() > 0 {
        let pre = w.drop_last();
        lemma_complement_bases(pre);
        assert(cw.drop_last() =~= pre.map_values(|b: u8| complement_base(b)));
        assert(is_base(w.last()));
    }
}

/// The two-bit value of a base, if `b` is one.
fn base_code(b: u8) -> (r: Option<u8>)
    ensures
        r == (if is_base(b) {
            Some(base_value(b) as u8)
        } else {
            None::<u8>
        }),
{
    if b == 65 || b == 97 {
        Some(0)
    } else if b == 67 || b == 99 {
        Some(1)
    } else if b == 71 || b == 103 {
        Some(2)
    } else if b == 84 || b == 116 {
        Some(3)
    } else {
        None
    }
}

/// The code of the window of length `k` at `i`, if it holds bases only.
fn window_code(seq: &Vec<u8>, k: usize, i: usize) -> (r: Option<u16>)
    requires
        1 <= k <= 8,
        i + k <= seq@.len(),
    ensures
        r == (if all_bases(window(seq@, k as nat, i as int)) {
            Some(kmer_value(window(seq@, k as nat, i as int)) as u16)
        } else {
            None::<u16>
        }),
{
    let ghost w = window(seq@, k as nat, i as int);
    let n = seq.len();
    let mut code: u32 = 0;
    let mut t: usize = 0;
    while t < k
        invariant
            n == seq@.len(),
            1 <= k <= 8,
            i + k <= seq@.len(),
            w == window(seq@, k as nat, i as int),
            t <= k,
            all_bases(w.take(t as int)),
            code == kmer_value(w.take(t as int)),
        decreases k - t,
    {
        proof {
            assert(w.take(t + 1).drop_last() =~= w.take(t as int));
            lemma_kmer_value_bound(w.take(t as int));
            lemma_code_space_le(t as nat);
        }
        match base_code(seq[i + t]) {
            None => {
                assert(!is_base(w[t as int]));
                return None;
            },
            Some(b) => {
                code = code * 4 + b as u32;
            },
        }
        t = t + 1;
        assert(all_bases(w.take(t as int)));
    }
    proof {
        assert(w.take(k as int) =~= w);
        lemma_kmer_value_bound(w);
        lemma_code_space_le(k as nat);
    }
    Some(code as u16)
}

proof fn lemma_code_space_le(t: nat)
    requires
        t <= 8,
    ensures
        code_space(t) <= 65536,
    decreases 8 - t,
{
    if t < 8 {
        lemma_code_space_le(t + 1);
    } else {
        reveal_with_fuel(code_space, 9);
    }
}

/// The codes of the k-mers of `seq`, window by window; windows that hold a
/// byte other than a base give no code.
pub fn sequence_to_kmers(seq: &Vec<u8>, k: usize) -> (r: Vec<u16>)
    requires
        1 <= k <= 8,
    ensures
        r@ == kmer_codes(seq@, k as nat),
        forall|j: int| 0 <= j < r@.len() ==> r@[j] < code_space(k as nat),
{
    let mut r: Vec<u16> = Vec::new();
    if seq.len() < k {
        return r;
    }
    let last = seq.len() - k + 1;
    let mut i: usize = 0;
    while i < last
        invariant
            1 <= k <= 8,
            k <= seq@.len(),
            last == seq@.len() - k + 1,
            i <= last,
            r@ == window_codes(seq@, k as nat, i as nat),
            forall|j: int| 0 <= j < r@.len() ==> r@[j] < code_space(k as nat),
        decreases last - i,
    {
        let ghost before = r@;
        match window_code(seq, k, i) {
            Some(c) => {
                proof {
                    lemma_kmer_value_bound(window(seq@, k as nat, i as int));
                }
                r.push(c);
            },
            None => {},
        }
        i = i + 1;
        assert(r@ =~= window_codes(seq@, k as nat, i as nat));
    }
    r
}

} // verus!
