//! Filtering a list by a parallel list of keep flags, as `Vec::retain` does
//! when the predicate was evaluated by the caller.

use vstd::prelude::*;

verus! {

/// The elements of `s` whose flag in `keep` is true, in order.
pub open spec fn kept<T>(s: Seq<T>, keep: Seq<bool>) -> Seq<T>
    decreases s.len(),
{
    if s.len() == 0 {
        Seq::empty()
    } else {
        let rest = kept(s.drop_first(), keep.drop_first());
        if keep[0] {
            seq![s[0]] + rest
        } else {
            rest
        }
    }
}

/// Keeping everything keeps the list unchanged.
pub proof fn lemma_kept_all<T>(s: Seq<T>, keep: Seq<bool>)
    requires
        keep.len() == s.len(),
        forall|i: int| 0 <= i < keep.len() ==> keep[i],
    ensures
        kept(s, keep) == s,
    decreases s.len(),
{
    if s.len() > 0 {
        lemma_kept_all(s.drop_first(), keep.drop_first());
        assert(seq![s[0]] + s.drop_first() =~= s);
    }
}

/// Filtering a list with one more element appended.
pub proof fn lemma_kept_push<T>(s: Seq<T>, keep: Seq<bool>, x: T, b: bool)
    requires
        keep.len() == s.len(),
    ensures
        kept(s.push(x), keep.push(b)) == if b { kept(s, keep).push(x) } else { kept(s, keep) },
    decreases s.len(),
{
    let sx = s.push(x);
    let kb = keep.push(b);
    if s.len() == 0 {
        assert(sx.drop_first() =~= Seq::<T>::empty());
        assert(kept(sx.drop_first(), kb.drop_first()) == Seq::<T>::empty());
        assert(kb[0] == b && sx[0] == x);
        assert(kept(s, keep) == Seq::<T>::empty());
        assert(seq![x] + Seq::<T>::empty() =~= Seq::<T>::empty().push(x));
    } else {
        assert(sx.drop_first() =~= s.drop_first().push(x));
        assert(kb.drop_first() =~= keep.drop_first().push(b));
        assert(kb[0] == keep[0] && sx[0] == s[0]);
        lemma_kept_push(s.drop_first(), keep.drop_first(), x, b);
        let r = kept(s.drop_first(), keep.drop_first());
        if b {
            assert(seq![s[0]] + r.push(x) =~= (seq![s[0]] + r).push(x));
        }
    }
}

/// An element whose flag is true is kept.
pub proof fn lemma_kept_contains<T>(s: Seq<T>, keep: Seq<bool>, j: int)
    requires
        keep.len() == s.len(),
        0 <= j < s.len(),
        keep[j],
    ensures
        kept(s, keep).contains(s[j]),
    decreases s.len(),
{
    if j == 0 {
        assert(kept(s, keep)[0] == s[0]);
    } else {
        lemma_kept_contains(s.drop_first(), keep.drop_first(), j - 1);
        let r = kept(s.drop_first(), keep.drop_first());
        let i = choose|i: int| 0 <= i < r.len() && r[i] == s.drop_first()[j - 1];
        if keep[0] {
            assert((seq![s[0]] + r)[i + 1] == s[j]);
        } else {
            assert(r[i] == s[j]);
        }
    }
}

/// The kept list is never longer, and every kept element comes from `s`
/// with a true flag.
pub proof fn lemma_kept_props<T>(s: Seq<T>, keep: Seq<bool>)
    requires
        keep.len() == s.len(),
    ensures
        kept(s, keep).len() <= s.len(),
        kept(s, keep).len() == s.len() <==> (forall|i: int| 0 <= i < s.len() ==> keep[i]),
        forall|x: T| kept(s, keep).contains(x) ==> exists|i: int| 0 <= i < s.len() && keep[i] && s[i] == x,
    decreases s.len(),
{
    if s.len() > 0 {
        let t = s.drop_first();
        let k = keep.drop_first();
        lemma_kept_props(t, k);
        let r = kept(t, k);
        assert forall|x: T| kept(s, keep).contains(x) implies exists|i: int|
            0 <= i < s.len() && keep[i] && s[i] == x by {
            let j = choose|j: int| 0 <= j < kept(s, keep).len() && kept(s, keep)[j] == x;
            if keep[0] && j == 0 {
                assert(s[0] == x);
            } else {
                let jj = if keep[0] { j - 1 } else { j };
                assert(r[jj] == x);
                assert(r.contains(x));
                let i = choose|i: int| 0 <= i < t.len() && k[i] && t[i] == x;
                assert(s[i + 1] == x && keep[i + 1]);
            }
        }
        if forall|i: int| 0 <= i < s.len() ==> keep[i] {
            assert forall|i: int| 0 <= i < t.len() implies k[i] by {
                assert(keep[i + 1]);
            }
        }
        if kept(s, keep).len() == s.len() {
            assert forall|i: int| 0 <= i < s.len() implies keep[i] by {
                if i > 0 {
                    assert(k[i - 1]);
                }
            }
        }
    }
}

/// Removes, in place, the elements of `v` whose flag in `keep` is false.
pub fn retain_kept<T>(v: &mut Vec<T>, keep: &Vec<bool>)
    requires
        keep@.len() == old(v)@.len(),
    ensures
        final(v)@ == kept(old(v)@, keep@),
{
    let ghost s = v@;
    let mut j: usize = v.len();
    proof {
        assert(s.skip(j as int) =~= Seq::<T>::empty());
        assert(s.take(j as int) =~= s);
        assert(v@ =~= s.take(j as int) + kept(s.skip(j as int), keep@.skip(j as int)));
    }
    while j > 0
        invariant
            j <= s.len(),
            keep@.len() == s.len(),
            v@ == s.take(j as int) + kept(s.skip(j as int), keep@.skip(j as int)),
        decreases j,
    {
        let i = j - 1;
        let ghost before = v@;
        proof {
            assert(s.skip(i as int).drop_first() =~= s.skip(j as int));
            assert(keep@.skip(i as int).drop_first() =~= keep@.skip(j as int));
            assert(s.skip(i as int)[0] == s[i as int]);
            assert(keep@.skip(i as int)[0] == keep@[i as int]);
        }
        if !keep[i] {
            v.remove(i);
            proof {
                assert(v@ =~= s.take(i as int) + kept(s.skip(i as int), keep@.skip(i as int)));
            }
        } else {
            proof {
                assert(s.take(j as int) =~= s.take(i as int) + seq![s[i as int]]);
                assert(v@ =~= s.take(i as int) + kept(s.skip(i as int), keep@.skip(i as int)));
            }
        }
        j = i;
    }
    proof {
        assert(s.take(0) =~= Seq::<T>::empty());
        assert(s.skip(0) =~= s);
        assert(keep@.skip(0) =~= keep@);
        assert(v@ =~= kept(s, keep@));
    }
}

/// The first element of `s` whose flag in `flags` is true.
pub open spec fn first_flagged<T>(s: Seq<T>, flags: Seq<bool>) -> Option<T>
    decreases s.len(),
{
    if s.len() == 0 {
        None
    } else if flags[0] {
        Some(s[0])
    } else {
        first_flagged(s.drop_first(), flags.drop_first())
    }
}

/// The first element of `s` that does not occur in `ex`.
pub open spec fn first_not_in(s: Seq<usize>, ex: Seq<usize>) -> Option<usize>
    decreases s.len(),
{
    if s.len() == 0 {
        None
    } else if !ex.contains(s[0]) {
        Some(s[0])
    } else {
        first_not_in(s.drop_first(), ex)
    }
}

/// The first element of `s` whose flag is true.
pub fn first_flagged_copy(s: &Vec<usize>, flags: &Vec<bool>) -> (r: Option<usize>)
    requires
        flags@.len() == s@.len(),
    ensures
        r == first_flagged(s@, flags@),
{
    let mut i: usize = 0;
    proof {
        assert(s@.skip(0) =~= s@);
        assert(flags@.skip(0) =~= flags@);
    }
    while i < s.len()
        invariant
            i <= s@.len(),
            flags@.len() == s@.len(),
            first_flagged(s@, flags@) == first_flagged(s@.skip(i as int), flags@.skip(i as int)),
        decreases s@.len() - i,
    {
        proof {
            assert(s@.skip(i as int).drop_first() =~= s@.skip(i + 1));
            assert(flags@.skip(i as int).drop_first() =~= flags@.skip(i + 1));
        }
        if flags[i] {
            return Some(s[i]);
        }
        i = i + 1;
    }
    None
}

/// Whether `x` occurs in `s`.
pub fn contains_usize(s: &Vec<usize>, x: usize) -> (r: bool)
    ensures
        r == s@.contains(x),
{
    let mut i: usize = 0;
    while i < s.len()
        invariant
            i <= s@.len(),
            forall|j: int| 0 <= j < i ==> s@[j] != x,
        decreases s@.len() - i,
    {
        if s[i] == x {
            return true;
        }
        i = i + 1;
    }
    false
}

/// The first element of `s` that does not occur in `ex`.
pub fn first_not_in_copy(s: &Vec<usize>, ex: &Vec<usize>) -> (r: Option<usize>)
    ensures
        r == first_not_in(s@, ex@),
{
    let mut i: usize = 0;
    proof {
        assert(s@.skip(0) =~= s@);
    }
    while i < s.len()
        invariant
            i <= s@.len(),
            first_not_in(s@, ex@) == first_not_in(s@.skip(i as int), ex@),
        decreases s@.len() - i,
    {
        proof {
            assert(s@.skip(i as int).drop_first() =~= s@.skip(i + 1));
        }
        if !contains_usize(ex, s[i]) {
            return Some(s[i]);
        }
        i = i + 1;
    }
    None
}

/// A copy of a list of handles.
pub fn copy_usizes(s: &Vec<usize>) -> (r: Vec<usize>)
    ensures
        r@ == s@,
{
    let mut r: Vec<usize> = Vec::new();
    let mut i: usize = 0;
    while i < s.len()
        invariant
            i <= s@.len(),
            r@ == s@.take(i as int),
        decreases s@.len() - i,
    {
        r.push(s[i]);
        i = i + 1;
        proof {
            assert(r@ =~= s@.take(i as int));
        }
    }
    proof {
        assert(s@.take(i as int) =~= s@);
    }
    r
}

/// Kept elements whose keys were pairwise distinct still have pairwise
/// distinct keys, and each comes from the input list.
pub proof fn lemma_kept_unique<T, K>(s: Seq<T>, keep: Seq<bool>, key: spec_fn(T) -> K)
    requires
        keep.len() == s.len(),
        forall|i: int, j: int| 0 <= i < s.len() && 0 <= j < s.len() && i != j ==> key(s[i]) != key(s[j]),
    ensures
        forall|i: int, j: int|
            0 <= i < kept(s, keep).len() && 0 <= j < kept(s, keep).len() && i != j ==> key(
                kept(s, keep)[i],
            ) != key(kept(s, keep)[j]),
        forall|i: int| 0 <= i < kept(s, keep).len() ==> s.contains(#[trigger] kept(s, keep)[i]),
    decreases s.len(),
{
    if s.len() > 0 {
        let t = s.drop_first();
        let k = keep.drop_first();
        assert forall|i: int, j: int| 0 <= i < t.len() && 0 <= j < t.len() && i != j implies key(t[i])
            != key(t[j]) by {
            assert(t[i] == s[i + 1] && t[j] == s[j + 1]);
        }
        lemma_kept_unique(t, k, key);
        lemma_kept_props(t, k);
        let r = kept(t, k);
        let out = kept(s, keep);
        assert forall|i: int| 0 <= i < out.len() implies s.contains(#[trigger] out[i]) by {
            if keep[0] && i == 0 {
                assert(s[0] == out[0]);
            } else {
                let ii = if keep[0] { i - 1 } else { i };
                assert(out[i] == r[ii]);
                assert(t.contains(r[ii]));
                let m = choose|m: int| 0 <= m < t.len() && t[m] == r[ii];
                assert(s[m + 1] == out[i]);
            }
        }
        if keep[0] {
            assert forall|i: int, j: int| 0 <= i < out.len() && 0 <= j < out.len() && i != j implies key(
                out[i],
            ) != key(out[j]) by {
                if i == 0 || j == 0 {
                    let o = if i == 0 { j } else { i };
                    assert(out[o] == r[o - 1]);
                    assert(t.contains(r[o - 1]));
                    let m = choose|m: int| 0 <= m < t.len() && t[m] == r[o - 1];
                    assert(s[m + 1] == r[o - 1]);
                    assert(key(s[0]) != key(s[m + 1]));
                } else {
                    assert(out[i] == r[i - 1] && out[j] == r[j - 1]);
                }
            }
        }
    }
}

} // verus!
