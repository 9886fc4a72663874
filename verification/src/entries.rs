//! Directory listings: entries are ordered directories first, then by their
//! lowercased names.

use vstd::prelude::*;
use crate::text::{chars_of, lowercase, to_lowercase};

verus! {

/// One entry of a directory listing.
#[derive(Clone, Debug)]
pub struct DirEntry {
    pub name: String,
    pub path: String,
    pub is_dir: bool,
}

/// Strict lexicographic order on character sequences, characters compared
/// by code point (the order in which `String` compares).
pub open spec fn chars_lt(a: Seq<char>, b: Seq<char>) -> bool
    decreases a.len(),
{
    if a.len() == 0 {
        b.len() > 0
    } else if b.len() == 0 {
        false
    } else if a[0] != b[0] {
        a[0] < b[0]
    } else {
        chars_lt(a.drop_first(), b.drop_first())
    }
}

/// The sort key of an entry: directories rank before files, then the
/// lowercased name.
pub open spec fn entry_rank(e: DirEntry) -> int {
    if e.is_dir { 0 } else { 1 }
}

/// Whether entry `a` sorts strictly before entry `b`.
pub open spec fn entry_before(a: DirEntry, b: DirEntry) -> bool {
    entry_rank(a) < entry_rank(b) || (entry_rank(a) == entry_rank(b) && chars_lt(
        lowercase(a.name@),
        lowercase(b.name@),
    ))
}

/// A listing in order: no entry sorts strictly before one ahead of it.
pub open spec fn entries_sorted(s: Seq<DirEntry>) -> bool {
    forall|i: int, j: int| 0 <= i < j < s.len() ==> !entry_before(s[j], s[i])
}

/// Whether two entries sort alike: same rank and same lowercased name.
pub open spec fn same_key(a: DirEntry, b: DirEntry) -> bool {
    entry_rank(a) == entry_rank(b) && lowercase(a.name@) == lowercase(b.name@)
}

/// The entries of `s` that sort alike with `e`, in their order in `s`.
pub open spec fn key_class(s: Seq<DirEntry>, e: DirEntry) -> Seq<DirEntry> {
    s.filter(|x: DirEntry| same_key(x, e))
}

/// A proper prefix sorts before the longer name, as `String`'s order has it.
pub proof fn lemma_chars_lt_prefix(a: Seq<char>, b: Seq<char>)
    requires
        a.len() < b.len(),
        b.take(a.len() as int) == a,
    ensures
        chars_lt(a, b),
    decreases a.len(),
{
    if a.len() > 0 {
        assert(a[0] == b.take(a.len() as int)[0]);
        assert(b.drop_first().take(a.drop_first().len() as int) =~= a.drop_first()) by {
            assert forall|t: int| 0 <= t < a.len() - 1 implies b.drop_first()[t] == a.drop_first()[t] by {
                assert(b.take(a.len() as int)[t + 1] == a[t + 1]);
            }
        }
        lemma_chars_lt_prefix(a.drop_first(), b.drop_first());
    }
}

/// Names that agree up to position `i` and differ there are ordered by the
/// character at `i`.
pub proof fn lemma_chars_lt_first_difference(a: Seq<char>, b: Seq<char>, i: int)
    requires
        0 <= i < a.len(),
        i < b.len(),
        a.take(i) == b.take(i),
        a[i] != b[i],
    ensures
        chars_lt(a, b) == (a[i] < b[i]),
    decreases i,
{
    if i > 0 {
        assert(a[0] == a.take(i)[0]);
        assert(b[0] == b.take(i)[0]);
        assert(a.drop_first().take(i - 1) =~= b.drop_first().take(i - 1)) by {
            assert forall|t: int| 0 <= t < i - 1 implies a.drop_first()[t] == b.drop_first()[t] by {
                assert(a.take(i)[t + 1] == b.take(i)[t + 1]);
                assert(a.take(i)[t + 1] == a[t + 1]);
                assert(b.take(i)[t + 1] == b[t + 1]);
            }
        }
        lemma_chars_lt_first_difference(a.drop_first(), b.drop_first(), i - 1);
    }
}

/// `chars_lt` is irreflexive and asymmetric.
pub proof fn lemma_chars_lt_asym(a: Seq<char>, b: Seq<char>)
    ensures
        !chars_lt(a, a),
        chars_lt(a, b) ==> !chars_lt(b, a),
    decreases a.len(),
{
    if a.len() > 0 && b.len() > 0 {
        lemma_chars_lt_asym(a.drop_first(), b.drop_first());
        if a[0] == b[0] {
        }
    }
    if a.len() > 0 {
        lemma_chars_lt_asym(a.drop_first(), a.drop_first());
    }
}

/// `chars_lt` is transitive.
pub proof fn lemma_chars_lt_trans(a: Seq<char>, b: Seq<char>, c: Seq<char>)
    requires
        chars_lt(a, b),
        chars_lt(b, c),
    ensures
        chars_lt(a, c),
    decreases a.len(),
{
    if a.len() > 0 && b.len() > 0 && c.len() > 0 {
        if a[0] == b[0] && b[0] == c[0] {
            lemma_chars_lt_trans(a.drop_first(), b.drop_first(), c.drop_first());
        }
    }
}

/// `chars_lt` is total on distinct sequences.
pub proof fn lemma_chars_lt_total(a: Seq<char>, b: Seq<char>)
    ensures
        a != b ==> chars_lt(a, b) || chars_lt(b, a),
    decreases a.len(),
{
    if a.len() > 0 && b.len() > 0 && a[0] == b[0] {
        lemma_chars_lt_total(a.drop_first(), b.drop_first());
        if a.drop_first() == b.drop_first() {
            assert(a.len() == b.len()) by {
                assert(a.drop_first().len() == b.drop_first().len());
            }
            assert forall|i: int| 0 <= i < a.len() implies a[i] == b[i] by {
                if i > 0 {
                    assert(a[i] == a.drop_first()[i - 1]);
                    assert(b[i] == b.drop_first()[i - 1]);
                }
            }
            assert(a =~= b);
        }
    } else if a.len() == 0 && b.len() == 0 {
        assert(a =~= b);
    } else if a.len() > 0 && b.len() > 0 {
        assert(a[0] < b[0] || b[0] < a[0]);
    }
}

/// `entry_before` is a strict weak order: asymmetric, and when `a` sorts
/// before `b`, every `c` sorts after `a` or before `b`.
pub proof fn lemma_entry_order(a: DirEntry, b: DirEntry, c: DirEntry)
    ensures
        !entry_before(a, a),
        entry_before(a, b) ==> !entry_before(b, a),
        entry_before(a, b) ==> entry_before(a, c) || entry_before(c, b),
{
    let (ka, kb, kc) = (lowercase(a.name@), lowercase(b.name@), lowercase(c.name@));
    lemma_chars_lt_asym(ka, kb);
    lemma_chars_lt_total(ka, kc);
    lemma_chars_lt_total(kc, kb);
    if chars_lt(ka, kc) && chars_lt(kc, kb) {
    } else if chars_lt(kc, ka) && chars_lt(ka, kb) {
        lemma_chars_lt_trans(kc, ka, kb);
    } else if chars_lt(ka, kb) && chars_lt(kb, kc) {
        lemma_chars_lt_trans(ka, kb, kc);
    }
}

/// Two entries neither of which sorts before the other sort alike.
proof fn lemma_unordered_same_key(a: DirEntry, b: DirEntry)
    ensures
        (!entry_before(a, b) && !entry_before(b, a)) <==> same_key(a, b),
{
    let (ka, kb) = (lowercase(a.name@), lowercase(b.name@));
    lemma_chars_lt_total(ka, kb);
    lemma_chars_lt_asym(ka, kb);
}

proof fn lemma_filter_none(s: Seq<DirEntry>, e: DirEntry)
    requires
        forall|j: int| 0 <= j < s.len() ==> !same_key(#[trigger] s[j], e),
    ensures
        key_class(s, e) == Seq::<DirEntry>::empty(),
{
    broadcast use vstd::seq_lib::group_filter_ensures;

    let f = key_class(s, e);
    if f.len() > 0 {
        assert(same_key(f[0], e));
        s.lemma_filter_contains_rev(|x: DirEntry| same_key(x, e), f[0]);
        let j = choose|j: int| 0 <= j < s.len() && s[j] == f[0];
        assert(!same_key(s[j], e));
    }
    assert(f =~= Seq::<DirEntry>::empty());
}

/// Inserting `e` before entries that all sort after it appends `e` to its
/// class and leaves every other class as it was.
proof fn lemma_key_class_insert(o: Seq<DirEntry>, k: int, e: DirEntry, e0: DirEntry)
    requires
        0 <= k <= o.len(),
        forall|j: int| k <= j < o.len() ==> entry_before(e, #[trigger] o[j]),
    ensures
        key_class(o.insert(k, e), e0) == if same_key(e, e0) {
            key_class(o, e0).push(e)
        } else {
            key_class(o, e0)
        },
{
    broadcast use Seq::filter_distributes_over_add, Seq::lemma_filter_push;

    let p = |x: DirEntry| same_key(x, e0);
    let (a, b) = (o.take(k), o.skip(k));
    assert(o =~= a + b);
    assert(o.insert(k, e) =~= a + (seq![e] + b));
    assert(seq![e] =~= Seq::<DirEntry>::empty().push(e));
    assert(Seq::<DirEntry>::empty().filter(p) =~= Seq::<DirEntry>::empty());
    if same_key(e, e0) {
        assert forall|j: int| 0 <= j < b.len() implies !same_key(#[trigger] b[j], e0) by {
            assert(b[j] == o[k + j]);
            lemma_unordered_same_key(e, b[j]);
            lemma_entry_order(e, b[j], e);
        }
        lemma_filter_none(b, e0);
        assert(key_class(o.insert(k, e), e0) =~= key_class(o, e0).push(e));
    } else {
        assert(key_class(o.insert(k, e), e0) =~= key_class(o, e0));
    }
}

/// Whether `a` sorts strictly before `b`, compared as `String`s compare.
fn chars_less(a: &Vec<char>, b: &Vec<char>) -> (r: bool)
    ensures
        r == chars_lt(a@, b@),
{
    let mut i: usize = 0;
    proof {
        assert(a@.skip(0) =~= a@);
        assert(b@.skip(0) =~= b@);
    }
    while i < a.len() && i < b.len()
        invariant
            i <= a@.len(),
            i <= b@.len(),
            chars_lt(a@, b@) == chars_lt(a@.skip(i as int), b@.skip(i as int)),
        decreases a.len() - i,
    {
        let x = a[i];
        let y = b[i];
        proof {
            assert(a@.skip(i as int)[0] == x);
            assert(b@.skip(i as int)[0] == y);
            assert(a@.skip(i as int).drop_first() =~= a@.skip(i + 1));
            assert(b@.skip(i as int).drop_first() =~= b@.skip(i + 1));
        }
        if x != y {
            return x < y;
        }
        i = i + 1;
    }
    i < b.len()
}

/// Inserts `e` after every entry that does not sort after it.
fn insert_sorted(out: &mut Vec<DirEntry>, keys: &mut Vec<Vec<char>>, e: DirEntry, key: Vec<char>)
    requires
        entries_sorted(old(out)@),
        old(keys)@.len() == old(out)@.len(),
        forall|i: int| 0 <= i < old(out)@.len() ==> #[trigger] old(keys)@[i]@ == lowercase(old(out)@[i].name@),
        key@ == lowercase(e.name@),
    ensures
        entries_sorted(final(out)@),
        final(out)@.to_multiset() == old(out)@.to_multiset().insert(e),
        final(keys)@.len() == final(out)@.len(),
        forall|i: int| 0 <= i < final(out)@.len() ==> #[trigger] final(keys)@[i]@ == lowercase(final(out)@[i].name@),
        forall|e0: DirEntry| #[trigger] key_class(final(out)@, e0) == if same_key(e, e0) {
            key_class(old(out)@, e0).push(e)
        } else {
            key_class(old(out)@, e0)
        },
{
    let ghost o = out@;
    let n = out.len();
    let mut k: usize = 0;
    while k < n
        invariant
            n == out@.len(),
            out@ == o,
            keys@.len() == n,
            forall|i: int| 0 <= i < n ==> #[trigger] keys@[i]@ == lowercase(out@[i].name@),
            k <= n,
            forall|i: int| 0 <= i < k ==> !entry_before(e, #[trigger] o[i]),
            key@ == lowercase(e.name@),
        ensures
            k <= n,
            forall|i: int| 0 <= i < k ==> !entry_before(e, #[trigger] o[i]),
            k < n ==> entry_before(e, o[k as int]),
        decreases n - k,
    {
        let before = if e.is_dir != out[k].is_dir {
            e.is_dir
        } else {
            chars_less(&key, &keys[k])
        };
        if before {
            proof {
                assert(before == entry_before(e, o[k as int]));
            }
            break;
        }
        proof {
            assert(before == entry_before(e, o[k as int]));
        }
        k = k + 1;
    }
    proof {
        assert forall|j: int| k <= j < n implies entry_before(e, #[trigger] o[j]) by {
            lemma_entry_order(e, o[k as int], o[j]);
        }
        assert forall|i: int, j: int| 0 <= i < j < n + 1 implies !entry_before(
            #[trigger] o.insert(k as int, e)[j],
            #[trigger] o.insert(k as int, e)[i],
        ) by {
            let s = o.insert(k as int, e);
            if i < k && j == k {
            } else if i == k && j > k {
                lemma_entry_order(e, s[j], e);
            } else if i < k && j > k {
                assert(s[i] == o[i] && s[j] == o[j - 1]);
            } else if j < k {
                assert(s[i] == o[i] && s[j] == o[j]);
            } else {
                assert(s[i] == o[i - 1] && s[j] == o[j - 1]);
            }
        }
        vstd::seq_lib::to_multiset_insert(o, k as int, e);
        assert forall|e0: DirEntry| #[trigger] key_class(o.insert(k as int, e), e0) == if same_key(e, e0) {
            key_class(o, e0).push(e)
        } else {
            key_class(o, e0)
        } by {
            lemma_key_class_insert(o, k as int, e, e0);
        }
    }
    out.insert(k, e);
    keys.insert(k, key);
    proof {
        assert(out@ =~= o.insert(k as int, e));
    }
}

/// Orders a listing as it is shown: directories first, then by lowercased
/// name; entries that sort alike keep their order (a stable sort).
pub fn sort_entries(entries: Vec<DirEntry>) -> (r: Vec<DirEntry>)
    ensures
        entries_sorted(r@),
        r@.to_multiset() == entries@.to_multiset(),
        forall|e0: DirEntry| #[trigger] key_class(r@, e0) == key_class(entries@, e0),
{
    let mut out: Vec<DirEntry> = Vec::new();
    let mut keys: Vec<Vec<char>> = Vec::new();
    let mut rest = entries;
    proof {
        broadcast use vstd::seq_lib::group_to_multiset_ensures;
        assert(entries@ =~= entries@.skip(0));
        assert(entries@.take(0) =~= Seq::<DirEntry>::empty());
        assert(out@ =~= Seq::<DirEntry>::empty());
        assert forall|e0: DirEntry| #[trigger] key_class(out@, e0) == key_class(entries@.take(0), e0) by {
            assert(key_class(out@, e0) =~= Seq::<DirEntry>::empty());
            assert(key_class(entries@.take(0), e0) =~= Seq::<DirEntry>::empty());
        }
    }
    while rest.len() > 0
        invariant
            rest@ == entries@.skip(entries@.len() - rest@.len()),
            rest@.len() <= entries@.len(),
            entries_sorted(out@),
            out@.to_multiset() == entries@.take(entries@.len() - rest@.len()).to_multiset(),
            forall|e0: DirEntry| #[trigger] key_class(out@, e0) == key_class(
                entries@.take(entries@.len() - rest@.len()),
                e0,
            ),
            keys@.len() == out@.len(),
            forall|j: int| 0 <= j < out@.len() ==> #[trigger] keys@[j]@ == lowercase(out@[j].name@),
        decreases rest@.len(),
    {
        let ghost done = entries@.len() - rest@.len();
        let e = rest.remove(0);
        let key = chars_of(to_lowercase(e.name.as_str()).as_str());
        insert_sorted(&mut out, &mut keys, e, key);
        proof {
            broadcast use vstd::seq_lib::group_to_multiset_ensures, Seq::lemma_filter_push;
            assert(entries@.take(done + 1) =~= entries@.take(done).push(e));
            assert(rest@ =~= entries@.skip(done + 1));
            assert forall|e0: DirEntry| #[trigger] key_class(out@, e0) == key_class(entries@.take(done + 1), e0) by {
                assert(key_class(entries@.take(done).push(e), e0) == if same_key(e, e0) {
                    key_class(entries@.take(done), e0).push(e)
                } else {
                    key_class(entries@.take(done), e0)
                });
            }
        }
    }
    proof {
        assert(entries@.take(entries@.len() as int) =~= entries@);
    }
    out
}

} // verus!
