//! Small verified helpers over vectors of plain values.

use vstd::prelude::*;

verus! {

/// Whether `v` holds `x`.
pub fn contains_u64(v: &Vec<u64>, x: u64) -> (r: bool)
    ensures
        r == v@.contains(x),
{
    let mut i: usize = 0;
    while i < v.len()
        invariant
            i <= v.len(),
            forall|j: int| 0 <= j < i ==> v@[j] != x,
        decreases v.len() - i,
    {
        if v[i] == x {
            return true;
        }
        i = i + 1;
    }
    false
}

/// Whether `v` holds `x`.
pub fn contains_u128(v: &Vec<u128>, x: u128) -> (r: bool)
    ensures
        r == v@.contains(x),
{
    let mut i: usize = 0;
    while i < v.len()
        invariant
            i <= v.len(),
            forall|j: int| 0 <= j < i ==> v@[j] != x,
        decreases v.len() - i,
    {
        if v[i] == x {
            return true;
        }
        i = i + 1;
    }
    false
}

/// `s` without every occurrence of `x`, order kept.
pub open spec fn seq_remove_u128(s: Seq<u128>, x: u128) -> Seq<u128> {
    s.filter(|y: u128| y != x)
}

/// Removes every occurrence of `x` from `v`, keeping the order of the rest.
pub fn remove_all_u128(v: &mut Vec<u128>, x: u128)
    ensures
        final(v)@ == seq_remove_u128(old(v)@, x),
{
    let ghost orig = v@;
    let mut out: Vec<u128> = Vec::new();
    let mut i: usize = 0;
    proof {
        assert(orig.subrange(0, 0) =~= Seq::<u128>::empty());
        assert(seq_remove_u128(Seq::<u128>::empty(), x) =~= Seq::<u128>::empty());
    }
    while i < v.len()
        invariant
            i <= v.len(),
            v@ == orig,
            out@ == seq_remove_u128(orig.subrange(0, i as int), x),
        decreases v.len() - i,
    {
        let e = v[i];
        proof {
            assert(orig.subrange(0, i + 1).drop_last() =~= orig.subrange(0, i as int));
            assert(orig.subrange(0, i + 1).last() == orig[i as int]);
            reveal_with_fuel(Seq::filter, 2);
        }
        if e != x {
            out.push(e);
        }
        i = i + 1;
    }
    proof {
        assert(orig.subrange(0, orig.len() as int) =~= orig);
    }
    *v = out;
}

/// Copies a vector of keys.
pub fn copy_u128s(v: &Vec<u128>) -> (out: Vec<u128>)
    ensures
        out@ == v@,
{
    let mut out: Vec<u128> = Vec::new();
    let mut i: usize = 0;
    while i < v.len()
        invariant
            i <= v.len(),
            out@ == v@.subrange(0, i as int),
        decreases v.len() - i,
    {
        out.push(v[i]);
        proof {
            assert(out@ =~= v@.subrange(0, i + 1));
        }
        i = i + 1;
    }
    proof {
        assert(v@.subrange(0, v@.len() as int) =~= v@);
    }
    out
}

/// Appending an element and filtering commute in the expected way; stated
/// here once for reuse in queue reasoning.
pub proof fn lemma_filter_contains_u128(s: Seq<u128>, x: u128, y: u128)
    ensures
        seq_remove_u128(s, x).contains(y) == (s.contains(y) && y != x),
    decreases s.len(),
{
    reveal_with_fuel(Seq::filter, 2);
    if s.len() > 0 {
        lemma_filter_contains_u128(s.drop_last(), x, y);
        if s.last() == y && y != x {
            assert(s.contains(y));
        }
        if seq_remove_u128(s, x).contains(y) {
            if seq_remove_u128(s.drop_last(), x).contains(y) {
                assert(s.drop_last().contains(y));
                let i = choose|i: int|
                    0 <= i < s.drop_last().len() && s.drop_last()[i] == y;
                assert(s[i] == y);
            }
        }
        if s.contains(y) && y != x {
            let i = choose|i: int| 0 <= i < s.len() && s[i] == y;
            if i < s.len() - 1 {
                assert(s.drop_last()[i] == y);
                assert(s.drop_last().contains(y));
            }
        }
    }
}

} // verus!
