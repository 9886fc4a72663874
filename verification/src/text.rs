//! Character-level helpers on strings: decimal formatting, ASCII-insensitive
//! comparison, whitespace handling and substring search.

use vstd::prelude::*;

verus! {

/// Appends one character to a string.
///
/// Trusted wrapper around `String::push`, which appends `c` to the end of the
/// string.
#[verifier::external_body]
pub(crate) fn push_char(s: &mut String, c: char)
    ensures
        final(s)@ == old(s)@.push(c),
{
    s.push(c)
}

/// The decimal digit character for `d < 10`.
pub open spec fn digit_char(d: nat) -> char {
    if d == 0 { '0' }
    else if d == 1 { '1' }
    else if d == 2 { '2' }
    else if d == 3 { '3' }
    else if d == 4 { '4' }
    else if d == 5 { '5' }
    else if d == 6 { '6' }
    else if d == 7 { '7' }
    else if d == 8 { '8' }
    else { '9' }
}

/// Decimal representation of a natural number, without leading zeros.
pub open spec fn decimal(n: nat) -> Seq<char>
    decreases n,
{
    if n < 10 {
        seq![digit_char(n)]
    } else {
        decimal(n / 10).push(digit_char(n % 10))
    }
}

proof fn lemma_decimal_len(n: nat)
    ensures
        decimal(n).len() >= 1,
        n >= 10 ==> decimal(n).len() >= 2,
    decreases n,
{
    if n >= 10 {
        lemma_decimal_len(n / 10);
    }
}

/// Distinct numbers have distinct decimal representations.
pub proof fn lemma_decimal_injective(a: nat, b: nat)
    requires
        decimal(a) == decimal(b),
    ensures
        a == b,
    decreases a,
{
    lemma_decimal_len(a);
    lemma_decimal_len(b);
    if a >= 10 && b >= 10 {
        let (da, db) = (decimal(a), decimal(b));
        assert(da.last() == digit_char(a % 10));
        assert(db.last() == digit_char(b % 10));
        assert(da.drop_last() =~= decimal(a / 10));
        assert(db.drop_last() =~= decimal(b / 10));
        lemma_decimal_injective(a / 10, b / 10);
    } else if a < 10 && b < 10 {
        assert(decimal(a)[0] == digit_char(a));
        assert(decimal(b)[0] == digit_char(b));
    }
}

fn digit(d: u64) -> (c: char)
    requires
        d < 10,
    ensures
        c == digit_char(d as nat),
{
    if d == 0 { '0' }
    else if d == 1 { '1' }
    else if d == 2 { '2' }
    else if d == 3 { '3' }
    else if d == 4 { '4' }
    else if d == 5 { '5' }
    else if d == 6 { '6' }
    else if d == 7 { '7' }
    else if d == 8 { '8' }
    else { '9' }
}

/// Appends the decimal representation of `n` to `s`.
pub fn push_decimal(s: &mut String, n: u64)
    ensures
        final(s)@ == old(s)@ + decimal(n as nat),
    decreases n,
{
    if n >= 10 {
        push_decimal(s, n / 10);
    }
    push_char(s, digit(n % 10));
    proof {
        assert(old(s)@ + decimal(n as nat) =~= s@);
    }
}

/// The characters of a string, one by one.
pub fn chars_of(s: &str) -> (v: Vec<char>)
    ensures
        v@ == s@,
{
    let n = s.unicode_len();
    let mut v: Vec<char> = Vec::new();
    let mut i: usize = 0;
    while i < n
        invariant
            n == s@.len(),
            i <= n,
            v@ == s@.take(i as int),
        decreases n - i,
    {
        let c = s.get_char(i);
        v.push(c);
        i = i + 1;
        proof {
            assert(v@ =~= s@.take(i as int));
        }
    }
    proof {
        assert(s@.take(n as int) =~= s@);
    }
    v
}

/// A string made of the characters `v[from..to]`.
pub fn string_of(v: &Vec<char>, from: usize, to: usize) -> (s: String)
    requires
        from <= to <= v@.len(),
    ensures
        s@ == v@.subrange(from as int, to as int),
{
    let mut s = String::new();
    let mut i = from;
    while i < to
        invariant
            from <= i <= to,
            to <= v@.len(),
            s@ == v@.subrange(from as int, i as int),
        decreases to - i,
    {
        push_char(&mut s, v[i]);
        i = i + 1;
        proof {
            assert(s@ =~= v@.subrange(from as int, i as int));
        }
    }
    s
}

/// Whether two character sequences are equal.
pub fn chars_equal(a: &Vec<char>, b: &Vec<char>) -> (r: bool)
    ensures
        r == (a@ == b@),
{
    if a.len() != b.len() {
        return false;
    }
    let mut i: usize = 0;
    while i < a.len()
        invariant
            a@.len() == b@.len(),
            i <= a@.len(),
            forall|j: int| 0 <= j < i ==> a@[j] == b@[j],
        decreases a@.len() - i,
    {
        if a[i] != b[i] {
            return false;
        }
        i = i + 1;
    }
    proof {
        assert(a@ =~= b@);
    }
    true
}

/// Whether `c` separates path components: a backslash, or also a slash
/// outside verbatim (`\\?\`) paths.
pub open spec fn is_sep_in(c: char, verbatim: bool) -> bool {
    c == '\\' || (!verbatim && c == '/')
}

/// Whether `c` is an ASCII letter.
pub open spec fn is_ascii_alpha(c: char) -> bool {
    ('a' <= c && c <= 'z') || ('A' <= c && c <= 'Z')
}

/// Whether the path is a verbatim one: it starts with exactly `\\?\`.
pub open spec fn is_verbatim(s: Seq<char>) -> bool {
    s.len() >= 4 && s[0] == '\\' && s[1] == '\\' && s[2] == '?' && s[3] == '\\'
}

/// The end of the component that starts at `i`: the next separator, or the
/// end of the path.
pub open spec fn comp_end(s: Seq<char>, i: int, verbatim: bool) -> int
    decreases s.len() - i,
{
    if i < 0 || i >= s.len() || is_sep_in(s[i], verbatim) {
        i
    } else {
        comp_end(s, i + 1, verbatim)
    }
}

/// Whether position `i` holds a slash or backslash.
pub open spec fn slash_at(s: Seq<char>, i: int) -> bool {
    0 <= i < s.len() && (s[i] == '\\' || s[i] == '/')
}

/// The length of the Windows path prefix (`std::path::Prefix`) the path
/// starts with, 0 if none: `\\?\UNC\server\share`, `\\?\name` (including
/// `\\?\C:`), `\\.\device`, `\\server\share` (both parts non-empty) or a
/// drive `C:`.
pub open spec fn prefix_len(s: Seq<char>) -> int {
    if is_verbatim(s) {
        if s.len() >= 8 && s[4] == 'U' && s[5] == 'N' && s[6] == 'C' && slash_at(s, 7) {
            let server_end = comp_end(s, 8, true);
            if server_end < s.len() { comp_end(s, server_end + 1, true) } else { server_end }
        } else {
            comp_end(s, 4, true)
        }
    } else if slash_at(s, 0) && slash_at(s, 1) {
        if s.len() >= 4 && s[2] == '.' && slash_at(s, 3) {
            comp_end(s, 4, false)
        } else {
            let server_end = comp_end(s, 2, false);
            if server_end > 2 && server_end < s.len() && comp_end(s, server_end + 1, false) > server_end + 1 {
                comp_end(s, server_end + 1, false)
            } else {
                0
            }
        }
    } else if s.len() >= 2 && is_ascii_alpha(s[0]) && s[1] == ':' {
        2
    } else {
        0
    }
}

/// The index just after the last separator in `s`, or 0 if there is none.
pub open spec fn after_last_sep(s: Seq<char>, verbatim: bool) -> int
    decreases s.len(),
{
    if s.len() == 0 {
        0
    } else if is_sep_in(s.last(), verbatim) {
        s.len() as int
    } else {
        after_last_sep(s.drop_last(), verbatim)
    }
}

/// The last component of a path (after its prefix), ignoring trailing
/// separators; a `.` component is skipped, except in verbatim paths, where
/// it is a component of its own that is not a name.
pub open spec fn last_component(s: Seq<char>, verbatim: bool) -> Option<Seq<char>>
    decreases s.len(),
{
    if s.len() == 0 {
        None
    } else if is_sep_in(s.last(), verbatim) {
        last_component(s.drop_last(), verbatim)
    } else {
        let k = after_last_sep(s, verbatim);
        if 0 <= k < s.len() && s.subrange(k, s.len() as int) == seq!['.'] {
            if verbatim { None } else { last_component(s.subrange(0, k), verbatim) }
        } else {
            Some(s.subrange(k, s.len() as int))
        }
    }
}

/// The final component of a Windows path, as `Path::file_name` gives it:
/// `None` when there is none (a bare prefix or root) or when it is `..`.
pub open spec fn spec_file_name(s: Seq<char>) -> Option<Seq<char>> {
    let p = prefix_len(s);
    match last_component(s.subrange(p, s.len() as int), is_verbatim(s)) {
        Some(c) => if c == seq!['.', '.'] { None } else { Some(c) },
        None => None,
    }
}

proof fn lemma_comp_end(s: Seq<char>, i: int, verbatim: bool)
    ensures
        0 <= i <= s.len() ==> i <= comp_end(s, i, verbatim) <= s.len(),
    decreases s.len() - i,
{
    if 0 <= i < s.len() && !is_sep_in(s[i], verbatim) {
        lemma_comp_end(s, i + 1, verbatim);
    }
}

/// The end of the component starting at `i`.
fn find_comp_end(v: &Vec<char>, i: usize, verbatim: bool) -> (e: usize)
    requires
        i <= v@.len(),
    ensures
        e as int == comp_end(v@, i as int, verbatim),
{
    let mut e = i;
    while e < v.len() && !(v[e] == '\\' || (!verbatim && v[e] == '/'))
        invariant
            i <= e <= v@.len(),
            comp_end(v@, i as int, verbatim) == comp_end(v@, e as int, verbatim),
        decreases v@.len() - e,
    {
        e = e + 1;
    }
    e
}

fn slash(v: &Vec<char>, i: usize) -> (r: bool)
    ensures
        r == slash_at(v@, i as int),
{
    i < v.len() && (v[i] == '\\' || v[i] == '/')
}

/// The prefix length and whether the path is verbatim.
fn path_prefix(v: &Vec<char>) -> (r: (usize, bool))
    ensures
        r.0 as int == prefix_len(v@),
        r.1 == is_verbatim(v@),
        r.0 <= v@.len(),
{
    let n = v.len();
    let verbatim = n >= 4 && v[0] == '\\' && v[1] == '\\' && v[2] == '?' && v[3] == '\\';
    proof {
        lemma_comp_end(v@, 2, false);
        lemma_comp_end(v@, 4, false);
        lemma_comp_end(v@, 4, true);
        lemma_comp_end(v@, 8, true);
    }
    if verbatim {
        if n >= 8 && v[4] == 'U' && v[5] == 'N' && v[6] == 'C' && slash(v, 7) {
            let server_end = find_comp_end(v, 8, true);
            if server_end < n {
                proof {
                    lemma_comp_end(v@, server_end + 1, true);
                }
                (find_comp_end(v, server_end + 1, true), true)
            } else {
                (server_end, true)
            }
        } else {
            (find_comp_end(v, 4, true), true)
        }
    } else if slash(v, 0) && slash(v, 1) {
        if n >= 4 && v[2] == '.' && slash(v, 3) {
            (find_comp_end(v, 4, false), false)
        } else {
            let server_end = find_comp_end(v, 2, false);
            if server_end > 2 && server_end < n {
                proof {
                    lemma_comp_end(v@, server_end + 1, false);
                }
                let share_end = find_comp_end(v, server_end + 1, false);
                if share_end > server_end + 1 {
                    (share_end, false)
                } else {
                    (0, false)
                }
            } else {
                (0, false)
            }
        }
    } else if n >= 2 && ((v[0] >= 'a' && v[0] <= 'z') || (v[0] >= 'A' && v[0] <= 'Z')) && v[1] == ':' {
        (2, false)
    } else {
        (0, false)
    }
}

proof fn lemma_after_last_sep_bound(s: Seq<char>, vb: bool)
    ensures
        0 <= after_last_sep(s, vb) <= s.len(),
        forall|i: int| after_last_sep(s, vb) <= i < s.len() ==> !is_sep_in(#[trigger] s[i], vb),
        after_last_sep(s, vb) > 0 ==> is_sep_in(s[after_last_sep(s, vb) - 1], vb),
    decreases s.len(),
{
    if s.len() > 0 && !is_sep_in(s.last(), vb) {
        let t = s.drop_last();
        lemma_after_last_sep_bound(t, vb);
        assert forall|i: int| after_last_sep(s, vb) <= i < s.len() implies !is_sep_in(#[trigger] s[i], vb) by {
            if i < s.len() - 1 {
                assert(s[i] == t[i]);
            }
        }
        if after_last_sep(s, vb) > 0 {
            assert(s[after_last_sep(s, vb) - 1] == t[after_last_sep(t, vb) - 1]);
        }
    }
}

proof fn lemma_after_last_sep_prefix(s: Seq<char>, n: int, vb: bool)
    requires
        0 <= n <= s.len(),
        forall|i: int| n <= i < s.len() ==> !is_sep_in(#[trigger] s[i], vb),
    ensures
        after_last_sep(s, vb) == after_last_sep(s.subrange(0, n), vb),
    decreases s.len(),
{
    if s.len() > n {
        assert(s.drop_last() =~= s.subrange(0, s.len() - 1));
        assert(s.subrange(0, s.len() - 1).subrange(0, n) =~= s.subrange(0, n));
        lemma_after_last_sep_prefix(s.drop_last(), n, vb);
    } else {
        assert(s.subrange(0, n) =~= s);
    }
}

/// The index just after the last separator in `v[..end]`.
fn find_after_last_sep(v: &Vec<char>, end: usize, vb: bool) -> (k: usize)
    requires
        end <= v@.len(),
    ensures
        k as int == after_last_sep(v@.subrange(0, end as int), vb),
{
    let mut k = end;
    proof {
        lemma_after_last_sep_prefix(v@.subrange(0, end as int), end as int, vb);
    }
    while k > 0 && !(v[k - 1] == '\\' || (!vb && v[k - 1] == '/'))
        invariant
            k <= end <= v@.len(),
            after_last_sep(v@.subrange(0, end as int), vb) == after_last_sep(v@.subrange(0, k as int), vb),
        decreases k,
    {
        proof {
            assert(v@.subrange(0, k as int).drop_last() =~= v@.subrange(0, k - 1));
        }
        k = k - 1;
    }
    k
}

/// The final component of a Windows path (see `spec_file_name`).
#[verifier::rlimit(100)]
pub fn file_name(path: &str) -> (r: Option<String>)
    ensures
        r matches Some(n) ==> spec_file_name(path@) == Some(n@),
        r is None ==> spec_file_name(path@) is None,
{
    let v = chars_of(path);
    let (start, vb) = path_prefix(&v);
    let ghost t = v@.subrange(start as int, v@.len() as int);
    let mut end: usize = v.len();
    loop
        invariant
            v@ == path@,
            vb == is_verbatim(path@),
            start as int == prefix_len(path@),
            start <= end <= v@.len(),
            t == v@.subrange(start as int, v@.len() as int),
            last_component(t, vb) == last_component(v@.subrange(start as int, end as int), vb),
        decreases end,
    {
        let ghost cur = v@.subrange(start as int, end as int);
        if end == start {
            proof {
                assert(cur.len() == 0);
            }
            return None;
        }
        if v[end - 1] == '\\' || (!vb && v[end - 1] == '/') {
            proof {
                assert(cur.drop_last() =~= v@.subrange(start as int, end - 1));
            }
            end = end - 1;
        } else {
            let k0 = find_after_last_sep(&v, end, vb);
            let k = if k0 < start { start } else { k0 };
            proof {
                let w = v@.subrange(0, end as int);
                lemma_after_last_sep_bound(w, vb);
                lemma_after_last_sep_bound(cur, vb);
                lemma_after_last_sep_shift(v@, start as int, end as int, vb);
                assert(start + after_last_sep(cur, vb) == k);
                assert(cur.subrange(after_last_sep(cur, vb), cur.len() as int) =~= v@.subrange(k as int, end as int));
                assert(cur.subrange(0, after_last_sep(cur, vb)) =~= v@.subrange(start as int, k as int));
            }
            proof {
                let kk = after_last_sep(cur, vb);
                assert(cur.last() == v@[end - 1]);
                assert(kk < cur.len()) by {
                    if kk == cur.len() {
                        assert(cur[kk - 1] == v@[end - 1]);
                    }
                }
                assert(last_component(cur, vb) == if cur.subrange(kk, cur.len() as int) == seq!['.'] {
                    if vb { None } else { last_component(cur.subrange(0, kk), vb) }
                } else {
                    Some(cur.subrange(kk, cur.len() as int))
                });
            }
            let is_dot = end - k == 1 && v[k] == '.';
            proof {
                let comp = v@.subrange(k as int, end as int);
                if !is_dot {
                    if comp.len() == 1 {
                        assert(comp[0] == v@[k as int]);
                    }
                    assert(comp != seq!['.']);
                } else {
                    assert(comp =~= seq!['.']);
                }
            }
            if is_dot {
                if vb {
                    return None;
                }
                end = k;
            } else {
                let is_dotdot = end - k == 2 && v[k] == '.' && v[k + 1] == '.';
                proof {
                    let comp = v@.subrange(k as int, end as int);
                    assert(last_component(t, vb) == Some(comp));
                    if is_dotdot {
                        assert(comp =~= seq!['.', '.']);
                    } else if comp.len() == 2 {
                        assert(comp[0] == v@[k as int]);
                        assert(comp[1] == v@[k + 1]);
                    }
                }
                if is_dotdot {
                    return None;
                }
                let name = string_of(&v, k, end);
                return Some(name);
            }
        }
    }
}

/// `after_last_sep` of an inner window of `s` is found by searching the
/// prefix of `s` and cutting at the window's start.
proof fn lemma_after_last_sep_shift(s: Seq<char>, start: int, end: int, vb: bool)
    requires
        0 <= start <= end <= s.len(),
    ensures
        start + after_last_sep(s.subrange(start, end), vb) == if after_last_sep(s.subrange(0, end), vb)
            < start {
            start
        } else {
            after_last_sep(s.subrange(0, end), vb)
        },
    decreases end - start,
{
    let cur = s.subrange(start, end);
    let w = s.subrange(0, end);
    if end == start {
        lemma_after_last_sep_bound(w, vb);
    } else if is_sep_in(s[end - 1], vb) {
        assert(cur.last() == s[end - 1]);
        assert(w.last() == s[end - 1]);
    } else {
        assert(cur.last() == s[end - 1]);
        assert(w.last() == s[end - 1]);
        assert(cur.drop_last() =~= s.subrange(start, end - 1));
        assert(w.drop_last() =~= s.subrange(0, end - 1));
        lemma_after_last_sep_shift(s, start, end - 1, vb);
    }
}

/// The Unicode lowercase mapping of a string, as `str::to_lowercase`
/// computes it.
pub uninterp spec fn lowercase(s: Seq<char>) -> Seq<char>;

/// Lowercases a string.
///
/// Trusted wrapper around `str::to_lowercase`; its result is named by
/// `lowercase`, which depends on the characters of `s` alone.
#[verifier::external_body]
pub(crate) fn to_lowercase(s: &str) -> (r: String)
    ensures
        r@ == lowercase(s@),
{
    s.to_lowercase()
}

/// The code of a character with ASCII capitals mapped to lowercase.
pub open spec fn ascii_lower_code(c: char) -> u32 {
    if 'A' <= c && c <= 'Z' { (c as u32 + 32) as u32 } else { c as u32 }
}

/// Equality up to ASCII case, as `str::eq_ignore_ascii_case` decides it.
pub open spec fn spec_eq_ignore_ascii_case(a: Seq<char>, b: Seq<char>) -> bool {
    a.len() == b.len() && forall|i: int| 0 <= i < a.len() ==> ascii_lower_code(a[i]) == ascii_lower_code(b[i])
}

fn lower_code(c: char) -> (r: u32)
    ensures
        r == ascii_lower_code(c),
{
    if c >= 'A' && c <= 'Z' {
        c as u32 + 32
    } else {
        c as u32
    }
}

/// Whether two strings are equal up to ASCII case.
pub fn eq_ignore_ascii_case(a: &str, b: &str) -> (r: bool)
    ensures
        r == spec_eq_ignore_ascii_case(a@, b@),
{
    let x = chars_of(a);
    let y = chars_of(b);
    if x.len() != y.len() {
        return false;
    }
    let mut i: usize = 0;
    while i < x.len()
        invariant
            x@ == a@,
            y@ == b@,
            x@.len() == y@.len(),
            i <= x@.len(),
            forall|j: int| 0 <= j < i ==> ascii_lower_code(x@[j]) == ascii_lower_code(y@[j]),
        decreases x@.len() - i,
    {
        if lower_code(x[i]) != lower_code(y[i]) {
            return false;
        }
        i = i + 1;
    }
    true
}

/// Whether `n` occurs in `h` as a contiguous run of characters.
pub open spec fn contains_seq(h: Seq<char>, n: Seq<char>) -> bool {
    exists|i: int| 0 <= i && i + n.len() <= h.len() && #[trigger] h.subrange(i, i + n.len()) == n
}

/// Whether `n` occurs in `h` starting at position `i`.
fn occurs_at(h: &Vec<char>, n: &Vec<char>, i: usize) -> (r: bool)
    requires
        i + n@.len() <= h@.len(),
    ensures
        r == (h@.subrange(i as int, i + n@.len()) == n@),
{
    let _hl = h.len();
    let mut j: usize = 0;
    while j < n.len()
        invariant
            i + n@.len() <= h@.len(),
            h@.len() <= usize::MAX,
            j <= n@.len(),
            forall|k: int| 0 <= k < j ==> h@[i + k] == n@[k],
        decreases n@.len() - j,
    {
        if h[i + j] != n[j] {
            proof {
                assert(h@.subrange(i as int, i + n@.len())[j as int] != n@[j as int]);
            }
            return false;
        }
        j = j + 1;
    }
    proof {
        assert(h@.subrange(i as int, i + n@.len()) =~= n@);
    }
    true
}

/// Whether `n` occurs in `h` (`str::contains` on strings).
pub fn contains_str(h: &str, n: &str) -> (r: bool)
    ensures
        r == contains_seq(h@, n@),
{
    let hv = chars_of(h);
    let nv = chars_of(n);
    if nv.len() > hv.len() {
        return false;
    }
    let last = hv.len() - nv.len();
    let mut i: usize = 0;
    loop
        invariant
            hv@ == h@,
            nv@ == n@,
            last + nv@.len() == hv@.len(),
            i <= last,
            forall|k: int| 0 <= k < i ==> #[trigger] hv@.subrange(k, k + nv@.len()) != nv@,
        decreases last - i,
    {
        if occurs_at(&hv, &nv, i) {
            return true;
        }
        if i == last {
            return false;
        }
        i = i + 1;
    }
}

/// Whether a window title (lowercased) belongs to a system input-method
/// window: it contains "msctfime" or "default ime", or is exactly "ime".
pub open spec fn is_ime_lower(t: Seq<char>) -> bool {
    contains_seq(t, "msctfime"@) || contains_seq(t, "default ime"@) || t == "ime"@
}

/// Whether a window title belongs to a system input-method window.
pub open spec fn spec_is_ime_title(title: Seq<char>) -> bool {
    is_ime_lower(lowercase(title))
}

/// Whether a window title belongs to a system input-method window, whose
/// handle may have been reused for an embedded window that died.
pub fn is_ime_title(title: &str) -> (r: bool)
    ensures
        r == spec_is_ime_title(title@),
{
    let t = to_lowercase(title);
    let a = contains_str(t.as_str(), "msctfime");
    let b = contains_str(t.as_str(), "default ime");
    let ime = String::from_str("ime");
    let c = t == ime;
    a || b || c
}

/// Whether `c` is Unicode white space (`char::is_whitespace`).
pub open spec fn is_ws(c: char) -> bool {
    ('\u{9}' <= c && c <= '\u{d}') || c == ' ' || c == '\u{85}' || c == '\u{a0}' || c == '\u{1680}'
        || ('\u{2000}' <= c && c <= '\u{200a}') || c == '\u{2028}' || c == '\u{2029}' || c == '\u{202f}'
        || c == '\u{205f}' || c == '\u{3000}'
}

/// Whether `c` is Unicode white space.
pub fn is_whitespace(c: char) -> (r: bool)
    ensures
        r == is_ws(c),
{
    (c >= '\u{9}' && c <= '\u{d}') || c == ' ' || c == '\u{85}' || c == '\u{a0}' || c == '\u{1680}'
        || (c >= '\u{2000}' && c <= '\u{200a}') || c == '\u{2028}' || c == '\u{2029}' || c == '\u{202f}'
        || c == '\u{205f}' || c == '\u{3000}'
}

/// Whether every character is white space (`s.trim().is_empty()`).
pub open spec fn is_blank(s: Seq<char>) -> bool {
    forall|i: int| 0 <= i < s.len() ==> is_ws(s[i])
}

/// Whether a string is empty or only white space.
pub fn blank(s: &str) -> (r: bool)
    ensures
        r == is_blank(s@),
{
    let v = chars_of(s);
    let mut i: usize = 0;
    while i < v.len()
        invariant
            v@ == s@,
            i <= v@.len(),
            forall|j: int| 0 <= j < i ==> is_ws(v@[j]),
        decreases v@.len() - i,
    {
        if !is_whitespace(v[i]) {
            return false;
        }
        i = i + 1;
    }
    true
}

/// Index of the first non-white-space character at or after `i` (or the
/// length).
pub open spec fn skip_ws(s: Seq<char>, i: int) -> int
    decreases s.len() - i,
{
    if i < 0 || i >= s.len() || !is_ws(s[i]) { i } else { skip_ws(s, i + 1) }
}

/// Index just after the white-space-free run starting at `i`.
pub open spec fn skip_word(s: Seq<char>, i: int) -> int
    decreases s.len() - i,
{
    if i < 0 || i >= s.len() || is_ws(s[i]) { i } else { skip_word(s, i + 1) }
}

/// The white-space separated words of `s` from position `i` on, as
/// `str::split_whitespace` yields them.
pub open spec fn words_from(s: Seq<char>, i: int) -> Seq<Seq<char>>
    decreases s.len() - i,
{
    if i < 0 || i > s.len() {
        Seq::empty()
    } else {
        let a = skip_ws(s, i);
        if a >= s.len() {
            Seq::empty()
        } else {
            let b = skip_word(s, a);
            proof {
                lemma_skip_ws(s, i);
                lemma_skip_word(s, a);
            }
            if b <= a {
                Seq::empty()
            } else {
                seq![s.subrange(a, b)] + words_from(s, b)
            }
        }
    }
}

/// The white-space separated words of `s`.
pub open spec fn words(s: Seq<char>) -> Seq<Seq<char>> {
    words_from(s, 0)
}

pub proof fn lemma_skip_ws(s: Seq<char>, i: int)
    requires
        0 <= i <= s.len(),
    ensures
        i <= skip_ws(s, i) <= s.len(),
        skip_ws(s, i) < s.len() ==> !is_ws(s[skip_ws(s, i)]),
    decreases s.len() - i,
{
    if i < s.len() && is_ws(s[i]) {
        lemma_skip_ws(s, i + 1);
    }
}

pub proof fn lemma_skip_word(s: Seq<char>, i: int)
    requires
        0 <= i <= s.len(),
    ensures
        i <= skip_word(s, i) <= s.len(),
    decreases s.len() - i,
{
    if i < s.len() && !is_ws(s[i]) {
        lemma_skip_word(s, i + 1);
    }
}

/// Splits a command-line argument string at white space
/// (`str::split_whitespace`), dropping empty pieces.
pub fn split_whitespace(s: &str) -> (v: Vec<String>)
    ensures
        v@.map_values(|w: String| w@) == words(s@),
{
    let c = chars_of(s);
    let n = c.len();
    let mut v: Vec<String> = Vec::new();
    let mut i: usize = 0;
    proof {
        assert(v@.map_values(|w: String| w@) + words_from(s@, 0) =~= words(s@));
    }
    while i < n
        invariant
            c@ == s@,
            n == c@.len(),
            i <= n,
            v@.map_values(|w: String| w@) + words_from(s@, i as int) == words(s@),
        decreases n - i,
    {
        let ghost vi = v@.map_values(|w: String| w@);
        let mut a = i;
        proof {
            lemma_skip_ws(s@, i as int);
        }
        while a < n && is_whitespace(c[a])
            invariant
                c@ == s@,
                n == c@.len(),
                i <= a <= n,
                skip_ws(s@, i as int) == skip_ws(s@, a as int),
            decreases n - a,
        {
            a = a + 1;
        }
        if a >= n {
            proof {
                assert(words_from(s@, i as int) =~= Seq::<Seq<char>>::empty());
                assert(v@.map_values(|w: String| w@) + words_from(s@, n as int) =~= words(s@));
            }
            i = n;
        } else {
            let mut b = a;
            proof {
                lemma_skip_word(s@, a as int);
            }
            while b < n && !is_whitespace(c[b])
                invariant
                    c@ == s@,
                    n == c@.len(),
                    a <= b <= n,
                    skip_word(s@, a as int) == skip_word(s@, b as int),
                decreases n - b,
            {
                b = b + 1;
            }
            proof {
                assert(!is_ws(s@[a as int]));
                assert(b > a);
            }
            let w = string_of(&c, a, b);
            v.push(w);
            proof {
                assert(words_from(s@, i as int) == seq![s@.subrange(a as int, b as int)] + words_from(s@, b as int));
                assert(v@.map_values(|w: String| w@) =~= vi.push(s@.subrange(a as int, b as int)));
                assert(v@.map_values(|w: String| w@) + words_from(s@, b as int) =~= vi + words_from(s@, i as int));
            }
            i = b;
        }
    }
    proof {
        assert(words_from(s@, n as int) =~= Seq::<Seq<char>>::empty());
        assert(v@.map_values(|w: String| w@) =~= words(s@));
    }
    v
}

/// `s` without leading and trailing white space (`str::trim`).
pub open spec fn trimmed(s: Seq<char>) -> Seq<char> {
    let a = skip_ws(s, 0);
    let b = trim_end_index(s, s.len() as int);
    if a < b { s.subrange(a, b) } else { Seq::empty() }
}

/// Index just after the last non-white-space character before `j` (or 0).
pub open spec fn trim_end_index(s: Seq<char>, j: int) -> int
    decreases j,
{
    if j <= 0 || j > s.len() || !is_ws(s[j - 1]) { j } else { trim_end_index(s, j - 1) }
}

pub proof fn lemma_trim_end(s: Seq<char>, j: int)
    requires
        0 <= j <= s.len(),
    ensures
        0 <= trim_end_index(s, j) <= j,
    decreases j,
{
    if j > 0 && is_ws(s[j - 1]) {
        lemma_trim_end(s, j - 1);
    }
}

/// The characters of `v[from..to]` without leading and trailing white
/// space.
pub fn trim_range(v: &Vec<char>, from: usize, to: usize) -> (s: String)
    requires
        from <= to <= v@.len(),
    ensures
        s@ == trimmed(v@.subrange(from as int, to as int)),
{
    let ghost t = v@.subrange(from as int, to as int);
    let mut a = from;
    proof {
        lemma_skip_ws(t, 0);
    }
    while a < to && is_whitespace(v[a])
        invariant
            from <= a <= to <= v@.len(),
            t == v@.subrange(from as int, to as int),
            skip_ws(t, 0) == skip_ws(t, a - from),
        decreases to - a,
    {
        a = a + 1;
    }
    let mut b = to;
    proof {
        lemma_trim_end(t, t.len() as int);
    }
    while b > from && is_whitespace(v[b - 1])
        invariant
            from <= b <= to <= v@.len(),
            t == v@.subrange(from as int, to as int),
            trim_end_index(t, t.len() as int) == trim_end_index(t, b - from),
        decreases b,
    {
        b = b - 1;
    }
    proof {
        lemma_skip_ws(t, 0);
        lemma_trim_end(t, t.len() as int);
    }
    if a < b {
        let r = string_of(v, a, b);
        proof {
            assert(t.subrange(a - from, b - from) =~= v@.subrange(a as int, b as int));
        }
        r
    } else {
        String::new()
    }
}

} // verus!
