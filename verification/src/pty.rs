//! Terminal sessions: the registry of live session ids, and the encoding of
//! terminal output for the frontend.

use vstd::prelude::*;
use base64::Engine;
use crate::text::{decimal, push_decimal};

verus! {

/// The ids of the live terminal sessions, the id the next one gets, and
/// whether that counter has wrapped round (after which ids may repeat).
pub struct PtySessions {
    pub ids: Vec<u32>,
    pub next_id: u32,
    pub wrapped: Ghost<bool>,
}

/// The character of the standard base64 alphabet for a six-bit value.
pub open spec fn base64_char(v: int) -> char {
    if v < 26 {
        (65 + v) as char
    } else if v < 52 {
        (97 + v - 26) as char
    } else if v < 62 {
        (48 + v - 52) as char
    } else if v == 62 {
        '+'
    } else {
        '/'
    }
}

/// Standard padded base64 of a byte sequence: each group of three bytes
/// becomes four characters, six bits each, most significant first; a last
/// group of one or two bytes is filled with zero bits and padded with `=`.
pub open spec fn base64_standard(b: Seq<u8>) -> Seq<char>
    decreases b.len(),
{
    if b.len() == 0 {
        seq![]
    } else {
        let x = b[0] as int;
        let y = if b.len() > 1 { b[1] as int } else { 0 };
        let z = if b.len() > 2 { b[2] as int } else { 0 };
        let c0 = base64_char(x / 4);
        let c1 = base64_char((x % 4) * 16 + y / 16);
        let c2 = base64_char((y % 16) * 4 + z / 64);
        let c3 = base64_char(z % 64);
        if b.len() == 1 {
            seq![c0, c1, '=', '=']
        } else if b.len() == 2 {
            seq![c0, c1, c2, '=']
        } else {
            seq![c0, c1, c2, c3] + base64_standard(b.subrange(3, b.len() as int))
        }
    }
}

/// Base64 has four characters for every started group of three bytes.
pub proof fn lemma_base64_len(b: Seq<u8>)
    ensures
        base64_standard(b).len() == 4 * ((b.len() + 2) / 3),
    decreases b.len(),
{
    if b.len() >= 3 {
        lemma_base64_len(b.subrange(3, b.len() as int));
    }
}

/// Encodes bytes as standard padded base64.
///
/// Trusted wrapper around `base64::engine::general_purpose::STANDARD.encode`:
/// the standard engine uses the standard alphabet with `=` padding, so its
/// output is `base64_standard` of the bytes. The crate panics when the
/// encoded length overflows `usize`, which the precondition excludes.
#[verifier::external_body]
pub(crate) fn base64_encode(bytes: &[u8]) -> (s: String)
    requires
        bytes@.len() <= usize::MAX / 2,
    ensures
        s@ == base64_standard(bytes@),
{
    base64::engine::general_purpose::STANDARD.encode(bytes)
}

/// The message for an unknown session id.
pub open spec fn no_session_error(id: u32) -> Seq<char> {
    "no pty session "@ + decimal(id as nat)
}

/// The output chunk `data` as sent to the frontend: standard base64.
pub fn encode_output(data: &[u8]) -> (s: String)
    requires
        data@.len() <= usize::MAX / 2,
    ensures
        s@ == base64_standard(data@),
{
    base64_encode(data)
}

impl PtySessions {
    /// Session ids are unique and, until the counter wraps, all below the
    /// next id.
    pub open spec fn wf(&self) -> bool {
        &&& self.ids@.no_duplicates()
        &&& !self.wrapped@ ==> forall|k: int| 0 <= k < self.ids@.len() ==> self.ids@[k] < self.next_id
    }

    /// No sessions; the first one gets id 1.
    pub fn new() -> (s: Self)
        ensures
            s.wf(),
            s.ids@.len() == 0,
            s.next_id == 1,
            !s.wrapped@,
    {
        PtySessions { ids: Vec::new(), next_id: 1, wrapped: Ghost(false) }
    }

    /// Whether session `id` is live.
    pub fn contains(&self, id: u32) -> (r: bool)
        ensures
            r == self.ids@.contains(id),
    {
        let mut i: usize = 0;
        while i < self.ids.len()
            invariant
                i <= self.ids@.len(),
                forall|j: int| 0 <= j < i ==> self.ids@[j] != id,
            decreases self.ids@.len() - i,
        {
            if self.ids[i] == id {
                return true;
            }
            i = i + 1;
        }
        false
    }

    /// Records a newly spawned session: it gets the next id (which then
    /// advances, wrapping round); returns that id.
    pub fn register(&mut self) -> (id: u32)
        requires
            old(self).wf(),
        ensures
            final(self).wf(),
            id == old(self).next_id,
            final(self).next_id == (if old(self).next_id == u32::MAX { 0 } else { old(self).next_id + 1 }),
            final(self).ids@.contains(id),
            final(self).ids@.to_set() == old(self).ids@.to_set().insert(id),
            !old(self).wrapped@ ==> !old(self).ids@.contains(id),
            final(self).wrapped@ == (old(self).wrapped@ || old(self).next_id == u32::MAX),
    {
        let id = self.next_id;
        self.next_id = if id == u32::MAX { 0 } else { id + 1 };
        proof {
            self.wrapped@ = self.wrapped@ || id == u32::MAX;
        }
        if !self.contains(id) {
            self.ids.push(id);
            proof {
                assert(self.ids@.last() == id);
                assert(self.ids@.to_set() =~= old(self).ids@.to_set().insert(id)) by {
                    assert forall|x: u32| self.ids@.to_set().contains(x) <==> old(self).ids@.to_set().insert(id).contains(x) by {
                        if x != id && self.ids@.contains(x) {
                            let j = choose|j: int| 0 <= j < self.ids@.len() && self.ids@[j] == x;
                            assert(old(self).ids@[j] == x);
                        }
                        if old(self).ids@.contains(x) {
                            let j = choose|j: int| 0 <= j < old(self).ids@.len() && old(self).ids@[j] == x;
                            assert(self.ids@[j] == x);
                        }
                    }
                }
                assert(self.ids@.no_duplicates()) by {
                    assert forall|a: int, b: int| 0 <= a < self.ids@.len() && 0 <= b < self.ids@.len() && a != b implies self.ids@[a] != self.ids@[b] by {
                        if a < old(self).ids@.len() && b < old(self).ids@.len() {
                            assert(self.ids@[a] == old(self).ids@[a]);
                            assert(self.ids@[b] == old(self).ids@[b]);
                        } else if a < old(self).ids@.len() {
                            assert(self.ids@[a] == old(self).ids@[a]);
                            assert(old(self).ids@.contains(self.ids@[a]));
                        } else if b < old(self).ids@.len() {
                            assert(self.ids@[b] == old(self).ids@[b]);
                            assert(old(self).ids@.contains(self.ids@[b]));
                        }
                    }
                }
            }
        } else {
            proof {
                assert(self.ids@.to_set() =~= old(self).ids@.to_set().insert(id));
            }
        }
        id
    }

    /// Checks that session `id` exists before input is written to it.
    pub fn write(&self, id: u32) -> (r: Result<(), String>)
        ensures
            self.ids@.contains(id) ==> r is Ok,
            !self.ids@.contains(id) ==> (r matches Err(e) && e@ == no_session_error(id)),
    {
        if self.contains(id) {
            Ok(())
        } else {
            let mut e = String::from_str("no pty session ");
            push_decimal(&mut e, id as u64);
            proof {
                reveal_strlit("no pty session ");
            }
            Err(e)
        }
    }

    /// Checks that session `id` exists before it is resized.
    pub fn resize(&self, id: u32) -> (r: Result<(), String>)
        ensures
            self.ids@.contains(id) ==> r is Ok,
            !self.ids@.contains(id) ==> (r matches Err(e) && e@ == no_session_error(id)),
    {
        self.write(id)
    }

    /// Forgets session `id` (the caller kills its process if it was live);
    /// killing an unknown session is not an error.
    pub fn kill(&mut self, id: u32) -> (r: Result<(), String>)
        requires
            old(self).wf(),
        ensures
            final(self).wf(),
            r is Ok,
            final(self).next_id == old(self).next_id,
            final(self).wrapped == old(self).wrapped,
            !final(self).ids@.contains(id),
            final(self).ids@.to_set() == old(self).ids@.to_set().remove(id),
    {
        let mut keep: Vec<bool> = Vec::new();
        let mut i: usize = 0;
        while i < self.ids.len()
            invariant
                i <= self.ids@.len(),
                self.ids@ == old(self).ids@,
                keep@ == Seq::new(i as nat, |j: int| self.ids@[j] != id),
            decreases self.ids@.len() - i,
        {
            keep.push(self.ids[i] != id);
            i = i + 1;
            proof {
                assert(keep@ =~= Seq::new(i as nat, |j: int| self.ids@[j] != id));
            }
        }
        let ghost before = self.ids@;
        proof {
            crate::seqs::lemma_kept_unique(before, keep@, |x: u32| x);
            crate::seqs::lemma_kept_props(before, keep@);
        }
        crate::seqs::retain_kept(&mut self.ids, &keep);
        proof {
            let after = self.ids@;
            assert(after =~= crate::seqs::kept(before, keep@));
            assert(!after.contains(id)) by {
                if after.contains(id) {
                    let j = choose|j: int| 0 <= j < after.len() && after[j] == id;
                    assert(before.contains(after[j]));
                    let k = choose|k: int| 0 <= k < before.len() && keep@[k] && before[k] == id;
                }
            }
            lemma_kept_keeps(before, keep@, id);
            assert(after.to_set() =~= before.to_set().remove(id)) by {
                assert forall|x: u32| after.to_set().contains(x) <==> before.to_set().remove(id).contains(x) by {
                    if after.contains(x) {
                        let k = choose|k: int| 0 <= k < before.len() && keep@[k] && before[k] == x;
                    }
                }
            }
        }
        Ok(())
    }
}

/// Every element of `s` other than `id` survives dropping `id`.
proof fn lemma_kept_keeps(s: Seq<u32>, keep: Seq<bool>, id: u32)
    requires
        keep == Seq::new(s.len(), |j: int| s[j] != id),
    ensures
        forall|x: u32| s.contains(x) && x != id ==> crate::seqs::kept(s, keep).contains(x),
    decreases s.len(),
{
    if s.len() > 0 {
        let t = s.drop_first();
        let k = keep.drop_first();
        assert(k =~= Seq::new(t.len(), |j: int| t[j] != id));
        lemma_kept_keeps(t, k, id);
        let r = crate::seqs::kept(t, k);
        assert forall|x: u32| s.contains(x) && x != id implies crate::seqs::kept(s, keep).contains(x) by {
            let j = choose|j: int| 0 <= j < s.len() && s[j] == x;
            if j == 0 {
                assert(keep[0]);
                assert(crate::seqs::kept(s, keep)[0] == x);
            } else {
                assert(t[j - 1] == x);
                assert(t.contains(x));
                assert(r.contains(x));
                let m = choose|m: int| 0 <= m < r.len() && r[m] == x;
                if keep[0] {
                    assert(crate::seqs::kept(s, keep)[m + 1] == x);
                } else {
                    assert(crate::seqs::kept(s, keep)[m] == x);
                }
            }
        }
    }
}

/// A session id is live from registration until it is killed: given the id
/// sets that `register` and then `kill` leave, the id is among the live ids
/// after registering and no longer after killing (so `write` and `resize`
/// accept it in between and refuse it afterwards).
pub proof fn lemma_session_lifecycle(before: Seq<u32>, registered: Seq<u32>, killed: Seq<u32>, id: u32)
    requires
        registered.to_set() == before.to_set().insert(id),
        killed.to_set() == registered.to_set().remove(id),
    ensures
        registered.contains(id),
        !killed.contains(id),
{
    assert(registered.to_set().contains(id));
    assert(!killed.to_set().contains(id));
}

} // verus!
