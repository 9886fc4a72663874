//! Custom application pages: adding and removing pages, and the list of
//! window instances embedded for each page with the one that is shown.

use vstd::prelude::*;
use crate::keyed::{
    find_instances, find_page, instance_index, lemma_instance_index, lemma_page_index,
    ManagedView, lemma_managed_upsert_view, mview_upsert, mviews, page_index, remove_at,
    upsert_managed,
};
use crate::seqs::{kept, lemma_kept_all, lemma_kept_props, lemma_kept_push, retain_kept};
use crate::state::{
    AppState, CustomInstances, CustomPage, ManagedWindow, SlotKind, FIRST_CUSTOM_PAGE,
    instance_pages_unique, managed_slots_unique, page_ids_valid,
};
use crate::text::{decimal, push_decimal};

verus! {

/// The instance list of a custom page with its active index, for the tabs.
#[derive(Debug)]
pub struct CustomState {
    pub list: Vec<usize>,
    pub active: usize,
}

/// What removing a custom page did: the windows to hand back to the
/// desktop, and whether the shell had to leave the removed page.
#[derive(Debug)]
pub struct RemovedPage {
    pub release: Vec<usize>,
    pub page_reset: bool,
}

/// The window instances embedded for `page` (empty when there are none).
pub open spec fn spec_instances(s: Seq<CustomInstances>, page: u8) -> Seq<usize> {
    let i = instance_index(s, page);
    if i >= 0 { s[i].hwnds@ } else { Seq::empty() }
}

/// The active instance index of `page` (0 when it has no instances).
pub open spec fn spec_active(s: Seq<CustomInstances>, page: u8) -> usize {
    let i = instance_index(s, page);
    if i >= 0 { s[i].active } else { 0 }
}

/// The slot name of the window embedded for custom page `page`.
pub open spec fn custom_slot_name(page: u8) -> Seq<char> {
    "custom-"@ + decimal(page as nat)
}

/// The message for a custom page id that does not exist.
pub open spec fn no_page_error(id: u8) -> Seq<char> {
    "no custom page "@ + decimal(id as nat)
}

/// The active index after the list of a page shrank to `len` entries.
pub open spec fn clamp_active(len: nat, active: usize) -> usize {
    if active >= len { (len - 1) as usize } else { active }
}

/// `new` is `old` with the entry at `i` holding `hwnds` and `active`
/// (page unchanged) and every other entry unchanged.
pub open spec fn entry_replaced(
    old: Seq<CustomInstances>,
    new: Seq<CustomInstances>,
    i: int,
    hwnds: Seq<usize>,
    active: usize,
) -> bool {
    &&& new.len() == old.len()
    &&& 0 <= i < old.len()
    &&& new[i].page == old[i].page
    &&& new[i].hwnds@ == hwnds
    &&& new[i].active == active
    &&& forall|j: int| 0 <= j < old.len() && j != i ==> new[j] == old[j]
}

/// The instance entries after pruning `page` with `keep` and clamping: an
/// emptied list disappears together with its active index.
pub open spec fn pruned_clamped(
    old: Seq<CustomInstances>,
    new: Seq<CustomInstances>,
    page: u8,
    keep: Seq<bool>,
) -> bool {
    let i = instance_index(old, page);
    if i < 0 {
        new == old
    } else {
        let l = kept(old[i].hwnds@, keep);
        if l.len() == 0 {
            new == old.remove(i)
        } else {
            entry_replaced(old, new, i, l, clamp_active(l.len(), old[i].active))
        }
    }
}

/// Largest custom page id (0 for no pages).
pub open spec fn max_page_id(s: Seq<CustomPage>) -> int
    decreases s.len(),
{
    if s.len() == 0 {
        0
    } else {
        let m = max_page_id(s.drop_last());
        if s.last().id as int > m { s.last().id as int } else { m }
    }
}

/// The id a new custom page gets: one more than the largest, or the first
/// custom id when there are none.
pub open spec fn next_page_id(s: Seq<CustomPage>) -> int {
    if s.len() == 0 { FIRST_CUSTOM_PAGE as int } else { max_page_id(s) + 1 }
}

/// The windows of managed entries that are custom windows of page `id`.
pub open spec fn custom_windows_of(m: Seq<ManagedWindow>, id: u8) -> Seq<usize>
    decreases m.len(),
{
    if m.len() == 0 {
        Seq::empty()
    } else {
        let rest = custom_windows_of(m.drop_last(), id);
        if m.last().kind == SlotKind::Custom && m.last().page == id {
            rest.push(m.last().hwnd)
        } else {
            rest
        }
    }
}

/// Keep flags that drop the custom windows of page `id` with handle `h`.
pub open spec fn keep_except_custom_window(m: Seq<ManagedWindow>, id: u8, h: usize) -> Seq<bool> {
    Seq::new(m.len(), |j: int| !(m[j].kind == SlotKind::Custom && m[j].page == id && m[j].hwnd == h))
}

/// Keep flags that drop every custom window of page `id`.
pub open spec fn keep_except_custom_page(m: Seq<ManagedWindow>, id: u8) -> Seq<bool> {
    Seq::new(m.len(), |j: int| !(m[j].kind == SlotKind::Custom && m[j].page == id))
}

/// Keep flags that drop the custom windows of page `id` that are gone.
pub open spec fn keep_live_custom(m: Seq<ManagedWindow>, id: u8, alive: Seq<bool>) -> Seq<bool> {
    Seq::new(m.len(), |j: int| !(m[j].kind == SlotKind::Custom && m[j].page == id && !alive[j]))
}

/// Keep flags that drop the custom page `id`.
pub open spec fn keep_except_page(p: Seq<CustomPage>, id: u8) -> Seq<bool> {
    Seq::new(p.len(), |j: int| p[j].id != id)
}

/// The instance entries after closing instance `index` of `page`.
pub open spec fn closed_instance(
    old: Seq<CustomInstances>,
    new: Seq<CustomInstances>,
    page: u8,
    index: usize,
) -> bool {
    let i = instance_index(old, page);
    if i < 0 {
        new == old
    } else {
        let l = remove_at(old[i].hwnds@, index as int);
        if l.len() == 0 {
            new == old.remove(i)
        } else {
            entry_replaced(old, new, i, l, clamp_active(l.len(), old[i].active))
        }
    }
}

proof fn lemma_max_page_id(s: Seq<CustomPage>)
    ensures
        forall|j: int| 0 <= j < s.len() ==> s[j].id <= max_page_id(s),
        0 <= max_page_id(s) <= 255,
        s.len() > 0 ==> exists|j: int| 0 <= j < s.len() && s[j].id == max_page_id(s),
    decreases s.len(),
{
    if s.len() > 0 {
        let t = s.drop_last();
        lemma_max_page_id(t);
        assert forall|j: int| 0 <= j < s.len() implies s[j].id <= max_page_id(s) by {
            if j < s.len() - 1 {
                assert(s[j] == t[j]);
            }
        }
        if max_page_id(s) != s.last().id {
            let j = choose|j: int| 0 <= j < t.len() && t[j].id == max_page_id(t);
            assert(s[j] == t[j]);
        }
    }
}

/// A new custom page always gets an id no page has yet, and the page list
/// stays well formed (while the largest id is below 255).
pub proof fn lemma_next_page_id_fresh(s: Seq<CustomPage>)
    requires
        page_ids_valid(s),
        forall|j: int| 0 <= j < s.len() ==> s[j].id < 255,
    ensures
        FIRST_CUSTOM_PAGE <= next_page_id(s) <= 255,
        forall|j: int| 0 <= j < s.len() ==> s[j].id != next_page_id(s),
{
    lemma_max_page_id(s);
    if s.len() > 0 {
        let j = choose|j: int| 0 <= j < s.len() && s[j].id == max_page_id(s);
        assert(s[j].id >= FIRST_CUSTOM_PAGE);
    }
}

/// The active instance after one press of the cycle key on a page with
/// `len` live instances.
pub open spec fn cycle_step(len: nat, active: usize) -> usize {
    ((clamp_active(len, active) + 1) % (len as int)) as usize
}

/// The active instance after `k` presses.
pub open spec fn cycle_iter(len: nat, active: usize, k: nat) -> usize
    decreases k,
{
    if k == 0 {
        active
    } else {
        cycle_step(len, cycle_iter(len, active, (k - 1) as nat))
    }
}

proof fn lemma_cycle_iter(len: nat, active: usize, k: nat)
    requires
        active < len,
        len <= usize::MAX,
    ensures
        cycle_iter(len, active, k) == (active + k) % (len as int),
    decreases k,
{
    if k == 0 {
        vstd::arithmetic::div_mod::lemma_small_mod(active as nat, len);
    } else {
        lemma_cycle_iter(len, active, (k - 1) as nat);
        let x = active + k - 1;
        vstd::arithmetic::div_mod::lemma_mod_bound(x, len as int);
        if len == 1 {
            vstd::arithmetic::div_mod::lemma_mod_self_0(1);
            vstd::arithmetic::div_mod::lemma_small_mod(0, 1);
            vstd::arithmetic::div_mod::lemma_fundamental_div_mod(x + 1, 1);
        } else {
            vstd::arithmetic::div_mod::lemma_add_mod_noop(x, 1, len as int);
            vstd::arithmetic::div_mod::lemma_small_mod(1, len);
        }
    }
}

/// With every instance alive, pressing the cycle key once per instance
/// comes back to the instance that was active.
pub proof fn lemma_cycle_full_round(len: nat, active: usize)
    requires
        active < len,
        len <= usize::MAX,
    ensures
        cycle_iter(len, active, len) == active,
{
    lemma_cycle_iter(len, active, len);
    vstd::arithmetic::div_mod::lemma_mod_add_multiples_vanish(active as int, len as int);
    vstd::arithmetic::div_mod::lemma_small_mod(active as nat, len);
}

/// With every instance alive, cycling keeps the page's instance list as it
/// was (and so activates `cycle_step` of its length).
pub proof fn lemma_cycle_all_alive(o: Seq<CustomInstances>, page: u8, keep: Seq<bool>)
    requires
        instance_index(o, page) >= 0,
        keep.len() == o[instance_index(o, page)].hwnds@.len(),
        forall|i: int| 0 <= i < keep.len() ==> keep[i],
    ensures
        kept(o[instance_index(o, page)].hwnds@, keep) == o[instance_index(o, page)].hwnds@,
{
    lemma_kept_all(o[instance_index(o, page)].hwnds@, keep);
}

/// Adding a custom page and then removing it gives back the page list it
/// was added to.
pub proof fn lemma_add_then_remove_page(pages: Seq<CustomPage>, p: CustomPage)
    requires
        page_ids_valid(pages),
        forall|j: int| 0 <= j < pages.len() ==> pages[j].id < 255,
        p.id == next_page_id(pages),
    ensures
        kept(pages.push(p), keep_except_page(pages.push(p), p.id)) == pages,
{
    lemma_next_page_id_fresh(pages);
    let all = pages.push(p);
    assert(keep_except_page(all, p.id) =~= keep_except_page(pages, p.id).push(false));
    lemma_kept_push(pages, keep_except_page(pages, p.id), p, false);
    lemma_kept_all(pages, keep_except_page(pages, p.id));
}

/// Keeps the managed windows whose flag is true; slot names stay unique.
fn retain_managed(m: &mut Vec<ManagedWindow>, keep: &Vec<bool>)
    requires
        keep@.len() == old(m)@.len(),
        managed_slots_unique(old(m)@),
    ensures
        final(m)@ == kept(old(m)@, keep@),
        managed_slots_unique(final(m)@),
{
    proof {
        crate::seqs::lemma_kept_unique(m@, keep@, |w: ManagedWindow| w.slot@);
    }
    retain_kept(m, keep);
}

/// Keeps the custom pages whose flag is true; ids stay valid.
fn retain_pages(p: &mut Vec<CustomPage>, keep: &Vec<bool>)
    requires
        keep@.len() == old(p)@.len(),
        page_ids_valid(old(p)@),
    ensures
        final(p)@ == kept(old(p)@, keep@),
        page_ids_valid(final(p)@),
{
    proof {
        crate::seqs::lemma_kept_unique(p@, keep@, |c: CustomPage| c.id);
        let k = kept(p@, keep@);
        assert forall|i: int| 0 <= i < k.len() implies k[i].id >= FIRST_CUSTOM_PAGE by {
            assert(p@.contains(k[i]));
        }
    }
    retain_kept(p, keep);
}

/// Removes the instance entry at `i`; page ids stay unique.
fn remove_instances(v: &mut Vec<CustomInstances>, i: usize)
    requires
        i < old(v)@.len(),
        instance_pages_unique(old(v)@),
    ensures
        final(v)@ == old(v)@.remove(i as int),
        instance_pages_unique(final(v)@),
        forall|j: int| 0 <= j < final(v)@.len() ==> final(v)@[j].page != old(v)@[i as int].page,
{
    v.remove(i);
    proof {
        let o = old(v)@;
        let n = v@;
        assert forall|a: int| 0 <= a < n.len() implies n[a] == o[if a < i { a } else { a + 1 }] by {}
    }
}

/// With unique pages, the index found for a page is the one holding it.
proof fn lemma_instance_unique_index(s: Seq<CustomInstances>, page: u8, i: int)
    requires
        instance_pages_unique(s),
        0 <= i < s.len(),
        s[i].page == page,
    ensures
        instance_index(s, page) == i,
{
    lemma_instance_index(s, page);
}

/// A copy of a custom page.
pub fn copy_custom_page(p: &CustomPage) -> (r: CustomPage)
    ensures
        r == *p,
{
    CustomPage { id: p.id, name: p.name.clone(), exe: p.exe.clone(), args: p.args.clone() }
}

/// The slot name of the window embedded for custom page `page`.
pub fn custom_slot(page: u8) -> (s: String)
    ensures
        s@ == custom_slot_name(page),
{
    let mut s = String::from_str("custom-");
    push_decimal(&mut s, page as u64);
    proof {
        reveal_strlit("custom-");
    }
    s
}

impl AppState {
    /// The instance list and active index of custom page `page` (empty and 0
    /// when it has none).
    pub fn custom_state(&self, page: u8) -> (s: CustomState)
        ensures
            s.list@ == spec_instances(self.custom_instances@, page),
            s.active == spec_active(self.custom_instances@, page),
    {
        proof {
            lemma_instance_index(self.custom_instances@, page);
        }
        match find_instances(&self.custom_instances, page) {
            Some(i) => CustomState {
                list: crate::seqs::copy_usizes(&self.custom_instances[i].hwnds),
                active: self.custom_instances[i].active,
            },
            None => CustomState { list: Vec::new(), active: 0 },
        }
    }

    /// The executable and arguments of custom page `id`.
    pub fn custom_page_target(&self, id: u8) -> (r: Result<(String, String), String>)
        ensures
            ({
                let i = page_index(self.custom_pages@, id);
                if i >= 0 {
                    r matches Ok((exe, args)) && exe@ == self.custom_pages@[i].exe@ && args@
                        == self.custom_pages@[i].args@
                } else {
                    r matches Err(e) && e@ == no_page_error(id)
                }
            }),
    {
        proof {
            lemma_page_index(self.custom_pages@, id);
        }
        match find_page(&self.custom_pages, id) {
            Some(i) => Ok((self.custom_pages[i].exe.clone(), self.custom_pages[i].args.clone())),
            None => {
                let mut e = String::from_str("no custom page ");
                push_decimal(&mut e, id as u64);
                proof {
                    reveal_strlit("no custom page ");
                }
                Err(e)
            },
        }
    }

    /// Tab click on a custom page: make instance `index` active, an index
    /// past the end being clamped to the last instance; returns whether the
    /// page has instances (and so whether anything was set).
    pub fn set_custom_active(&mut self, page: u8, index: usize) -> (changed: bool)
        requires
            old(self).wf(),
        ensures
            final(self).wf(),
            changed == (spec_instances(old(self).custom_instances@, page).len() > 0),
            changed ==> ({
                let i = instance_index(old(self).custom_instances@, page);
                entry_replaced(
                    old(self).custom_instances@,
                    final(self).custom_instances@,
                    i,
                    old(self).custom_instances@[i].hwnds@,
                    clamp_active(old(self).custom_instances@[i].hwnds@.len(), index),
                )
            }),
            !changed ==> *final(self) == *old(self),
            *final(self) == (AppState { custom_instances: final(self).custom_instances, ..*old(self) }),
    {
        proof {
            lemma_instance_index(self.custom_instances@, page);
        }
        match find_instances(&self.custom_instances, page) {
            Some(i) => {
                let len = self.custom_instances[i].hwnds.len();
                if len > 0 {
                    let mut e = self.custom_instances.remove(i);
                    e.active = if index >= len { len - 1 } else { index };
                    self.custom_instances.insert(i, e);
                    proof {
                        let o = old(self).custom_instances@;
                        let n = self.custom_instances@;
                        assert forall|j: int| 0 <= j < o.len() && j != i implies n[j] == o[j] by {
                            if j < i {
                                assert(n[j] == o[j]);
                            } else {
                                assert(n[j] == o[j]);
                            }
                        }
                        assert(instance_pages_unique(n)) by {
                            assert forall|a: int, b: int|
                                0 <= a < n.len() && 0 <= b < n.len() && a != b implies n[a].page
                                != n[b].page by {
                                assert(n[a].page == o[a].page);
                                assert(n[b].page == o[b].page);
                            }
                        }
                    }
                    true
                } else {
                    false
                }
            },
            None => false,
        }
    }

    /// Drops the instances of `page` whose window is gone (`keep[i]` false),
    /// without touching the active index.
    pub fn prune_custom(&mut self, page: u8, keep: &Vec<bool>)
        requires
            old(self).wf(),
            keep@.len() == spec_instances(old(self).custom_instances@, page).len(),
        ensures
            final(self).wf(),
            ({
                let o = old(self).custom_instances@;
                let i = instance_index(o, page);
                if i >= 0 {
                    entry_replaced(o, final(self).custom_instances@, i, kept(o[i].hwnds@, keep@), o[i].active)
                } else {
                    final(self).custom_instances@ == o
                }
            }),
            *final(self) == (AppState { custom_instances: final(self).custom_instances, ..*old(self) }),
    {
        proof {
            lemma_instance_index(self.custom_instances@, page);
        }
        match find_instances(&self.custom_instances, page) {
            Some(i) => {
                let mut e = self.custom_instances.remove(i);
                retain_kept(&mut e.hwnds, keep);
                self.custom_instances.insert(i, e);
                proof {
                    let o = old(self).custom_instances@;
                    let n = self.custom_instances@;
                    assert forall|j: int| 0 <= j < o.len() && j != i implies n[j] == o[j] by {}
                    assert(instance_pages_unique(n)) by {
                        assert forall|a: int, b: int|
                            0 <= a < n.len() && 0 <= b < n.len() && a != b implies n[a].page
                            != n[b].page by {
                            assert(n[a].page == o[a].page);
                            assert(n[b].page == o[b].page);
                        }
                    }
                }
            },
            None => {},
        }
    }

    /// Drops the instances of `page` whose window is gone; an emptied list
    /// is forgotten, otherwise the active index is clamped into the list.
    pub fn prune_custom_clamped(&mut self, page: u8, keep: &Vec<bool>)
        requires
            old(self).wf(),
            keep@.len() == spec_instances(old(self).custom_instances@, page).len(),
        ensures
            final(self).wf(),
            pruned_clamped(old(self).custom_instances@, final(self).custom_instances@, page, keep@),
            *final(self) == (AppState { custom_instances: final(self).custom_instances, ..*old(self) }),
    {
        proof {
            lemma_instance_index(self.custom_instances@, page);
        }
        match find_instances(&self.custom_instances, page) {
            Some(i) => {
                let mut e = self.custom_instances.remove(i);
                proof {
                    lemma_kept_props(e.hwnds@, keep@);
                }
                retain_kept(&mut e.hwnds, keep);
                if e.hwnds.len() == 0 {
                    proof {
                        let o = old(self).custom_instances@;
                        let n = self.custom_instances@;
                        assert(n =~= o.remove(i as int));
                        assert(instance_pages_unique(n)) by {
                            assert forall|a: int, b: int|
                                0 <= a < n.len() && 0 <= b < n.len() && a != b implies n[a].page
                                != n[b].page by {
                                let a0 = if a < i { a } else { a + 1 };
                                let b0 = if b < i { b } else { b + 1 };
                                assert(n[a] == o[a0]);
                                assert(n[b] == o[b0]);
                            }
                        }
                    }
                } else {
                    if e.active >= e.hwnds.len() {
                        e.active = e.hwnds.len() - 1;
                    }
                    self.custom_instances.insert(i, e);
                    proof {
                        let o = old(self).custom_instances@;
                        let n = self.custom_instances@;
                        assert forall|j: int| 0 <= j < o.len() && j != i implies n[j] == o[j] by {}
                        assert(instance_pages_unique(n)) by {
                            assert forall|a: int, b: int|
                                0 <= a < n.len() && 0 <= b < n.len() && a != b implies n[a].page
                                != n[b].page by {
                                assert(n[a].page == o[a].page);
                                assert(n[b].page == o[b].page);
                            }
                        }
                    }
                }
            },
            None => {},
        }
    }

    /// Ctrl+Shift+Tab on a custom page: prune dead instances, then move to the
    /// next instance (wrapping round); returns the new active index, or
    /// `None` when the page has no instances left.
    pub fn cycle_custom(&mut self, page: u8, keep: &Vec<bool>) -> (next: Option<usize>)
        requires
            old(self).wf(),
            keep@.len() == spec_instances(old(self).custom_instances@, page).len(),
        ensures
            final(self).wf(),
            *final(self) == (AppState { custom_instances: final(self).custom_instances, ..*old(self) }),
            ({
                let o = old(self).custom_instances@;
                let i = instance_index(o, page);
                let l = kept(o[i].hwnds@, keep@);
                if i < 0 || l.len() == 0 {
                    &&& next is None
                    &&& pruned_clamped(o, final(self).custom_instances@, page, keep@)
                } else {
                    let n = cycle_step(l.len(), o[i].active);
                    &&& next == Some(n)
                    &&& entry_replaced(o, final(self).custom_instances@, i, l, n)
                }
            }),
    {
        self.prune_custom_clamped(page, keep);
        proof {
            lemma_instance_index(self.custom_instances@, page);
            lemma_instance_index(old(self).custom_instances@, page);
            let o = old(self).custom_instances@;
            let i = instance_index(o, page);
            if i >= 0 {
                let l = kept(o[i].hwnds@, keep@);
                if l.len() == 0 {
                    // the entry was removed: no entry for the page remains
                    assert forall|j: int| 0 <= j < self.custom_instances@.len() implies
                        self.custom_instances@[j].page != page by {
                        let j0 = if j < i { j } else { j + 1 };
                        assert(self.custom_instances@[j] == o[j0]);
                    }
                } else {
                    assert(self.custom_instances@[i].page == page);
                }
            }
        }
        match find_instances(&self.custom_instances, page) {
            None => None,
            Some(i) => {
                let len = self.custom_instances[i].hwnds.len();
                if len == 0 {
                    proof {
                        lemma_instance_index(old(self).custom_instances@, page);
                    }
                    return None;
                }
                let mut e = self.custom_instances.remove(i);
                let next = (e.active + 1) % len;
                e.active = next;
                self.custom_instances.insert(i, e);
                proof {
                    let o = old(self).custom_instances@;
                    let n = self.custom_instances@;
                    assert(instance_pages_unique(n)) by {
                        assert forall|a: int, b: int|
                            0 <= a < n.len() && 0 <= b < n.len() && a != b implies n[a].page
                            != n[b].page by {
                            if a == i || b == i {
                            }
                        }
                    }
                }
                Some(next)
            },
        }
    }

    /// Records a window adopted for custom page `page`: it is placed in the
    /// page's slot, appended to the page's instances and made active.
    pub fn adopt_custom_window(&mut self, page: u8, hwnd: usize)
        requires
            old(self).wf(),
            spec_instances(old(self).custom_instances@, page).len() < usize::MAX,
        ensures
            final(self).wf(),
            mviews(final(self).managed@) == mview_upsert(
                mviews(old(self).managed@),
                ManagedView { hwnd, slot: custom_slot_name(page), page, kind: SlotKind::Custom },
            ),
            ({
                let o = old(self).custom_instances@;
                let n = final(self).custom_instances@;
                let i = instance_index(o, page);
                if i >= 0 {
                    entry_replaced(o, n, i, o[i].hwnds@.push(hwnd), o[i].hwnds@.len() as usize)
                } else {
                    &&& n.len() == o.len() + 1
                    &&& n.take(o.len() as int) == o
                    &&& n.last().page == page
                    &&& n.last().hwnds@ == seq![hwnd]
                    &&& n.last().active == 0
                }
            }),
            spec_instances(final(self).custom_instances@, page) == spec_instances(
                old(self).custom_instances@,
                page,
            ).push(hwnd),
            spec_active(final(self).custom_instances@, page) == spec_instances(
                old(self).custom_instances@,
                page,
            ).len(),
            *final(self) == (AppState {
                managed: final(self).managed,
                custom_instances: final(self).custom_instances,
                ..*old(self)
            }),
    {
        let w = ManagedWindow { hwnd, slot: custom_slot(page), page, kind: SlotKind::Custom };
        proof {
            lemma_managed_upsert_view(self.managed@, w);
        }
        upsert_managed(&mut self.managed, w);
        proof {
            lemma_instance_index(self.custom_instances@, page);
        }
        match find_instances(&self.custom_instances, page) {
            Some(i) => {
                let mut e = self.custom_instances.remove(i);
                e.hwnds.push(hwnd);
                e.active = e.hwnds.len() - 1;
                self.custom_instances.insert(i, e);
                proof {
                    let o = old(self).custom_instances@;
                    let n = self.custom_instances@;
                    assert forall|j: int| 0 <= j < o.len() && j != i implies n[j] == o[j] by {}
                    assert(instance_pages_unique(n)) by {
                        assert forall|a: int, b: int|
                            0 <= a < n.len() && 0 <= b < n.len() && a != b implies n[a].page
                            != n[b].page by {
                            assert(n[a].page == o[a].page);
                            assert(n[b].page == o[b].page);
                        }
                    }
                    lemma_instance_index(n, page);
                    lemma_instance_unique_index(n, page, i as int);
                }
            },
            None => {
                let mut hwnds: Vec<usize> = Vec::new();
                hwnds.push(hwnd);
                self.custom_instances.push(CustomInstances { page, hwnds, active: 0 });
                proof {
                    let o = old(self).custom_instances@;
                    let n = self.custom_instances@;
                    assert(n.take(o.len() as int) =~= o);
                    assert(instance_pages_unique(n)) by {
                        assert forall|a: int, b: int|
                            0 <= a < n.len() && 0 <= b < n.len() && a != b implies n[a].page
                            != n[b].page by {
                            if a < o.len() {
                                assert(n[a] == o[a]);
                            }
                            if b < o.len() {
                                assert(n[b] == o[b]);
                            }
                        }
                    }
                    assert(n.last().hwnds@ =~= seq![hwnd]);
                    assert(n.drop_last() =~= o);
                }
            },
        }
    }

    /// Settles a close request for instance `index` of `page`, whose window
    /// is `hwnd`. If the window is still there (`gone` false: the user
    /// cancelled), nothing changes. Once it is gone, the page's custom slot
    /// entries for that window are dropped, the instance is removed, and an
    /// emptied list is forgotten (otherwise the active index is clamped).
    pub fn close_custom_window(&mut self, page: u8, index: usize, hwnd: usize, gone: bool)
        requires
            old(self).wf(),
        ensures
            final(self).wf(),
            !gone ==> *final(self) == *old(self),
            gone ==> final(self).managed@ == kept(
                old(self).managed@,
                keep_except_custom_window(old(self).managed@, page, hwnd),
            ),
            gone ==> closed_instance(old(self).custom_instances@, final(self).custom_instances@, page, index),
            *final(self) == (AppState {
                managed: final(self).managed,
                custom_instances: final(self).custom_instances,
                ..*old(self)
            }),
    {
        if !gone {
            return;
        }
        let mut keep: Vec<bool> = Vec::new();
        let mut j: usize = 0;
        while j < self.managed.len()
            invariant
                j <= self.managed@.len(),
                self.managed@ == old(self).managed@,
                keep@ == keep_except_custom_window(self.managed@, page, hwnd).take(j as int),
            decreases self.managed@.len() - j,
        {
            let w = &self.managed[j];
            keep.push(!(w.kind == SlotKind::Custom && w.page == page && w.hwnd == hwnd));
            j = j + 1;
            proof {
                assert(keep@ =~= keep_except_custom_window(self.managed@, page, hwnd).take(j as int));
            }
        }
        proof {
            assert(keep@ =~= keep_except_custom_window(self.managed@, page, hwnd));
        }
        retain_managed(&mut self.managed, &keep);
        proof {
            lemma_instance_index(self.custom_instances@, page);
        }
        match find_instances(&self.custom_instances, page) {
            Some(i) => {
                let mut e = self.custom_instances.remove(i);
                if index < e.hwnds.len() {
                    e.hwnds.remove(index);
                }
                if e.hwnds.len() == 0 {
                    proof {
                        let o = old(self).custom_instances@;
                        let n = self.custom_instances@;
                        assert(n =~= o.remove(i as int));
                        assert(instance_pages_unique(n)) by {
                            assert forall|a: int, b: int|
                                0 <= a < n.len() && 0 <= b < n.len() && a != b implies n[a].page
                                != n[b].page by {
                                let a0 = if a < i { a } else { a + 1 };
                                let b0 = if b < i { b } else { b + 1 };
                                assert(n[a] == o[a0]);
                                assert(n[b] == o[b0]);
                            }
                        }
                    }
                } else {
                    if e.active >= e.hwnds.len() {
                        e.active = e.hwnds.len() - 1;
                    }
                    self.custom_instances.insert(i, e);
                    proof {
                        let o = old(self).custom_instances@;
                        let n = self.custom_instances@;
                        assert forall|j: int| 0 <= j < o.len() && j != i implies n[j] == o[j] by {}
                        assert(instance_pages_unique(n)) by {
                            assert forall|a: int, b: int|
                                0 <= a < n.len() && 0 <= b < n.len() && a != b implies n[a].page
                                != n[b].page by {
                                assert(n[a].page == o[a].page);
                                assert(n[b].page == o[b].page);
                            }
                        }
                    }
                }
            },
            None => {},
        }
    }

    /// Drops the custom slot entries of `page` whose window is gone
    /// (`alive[j]` is the liveness of `managed[j]`).
    pub fn prune_custom_managed(&mut self, page: u8, alive: &Vec<bool>)
        requires
            old(self).wf(),
            alive@.len() == old(self).managed@.len(),
        ensures
            final(self).wf(),
            final(self).managed@ == kept(
                old(self).managed@,
                keep_live_custom(old(self).managed@, page, alive@),
            ),
            *final(self) == (AppState { managed: final(self).managed, ..*old(self) }),
    {
        let mut keep: Vec<bool> = Vec::new();
        let mut j: usize = 0;
        while j < self.managed.len()
            invariant
                j <= self.managed@.len(),
                alive@.len() == self.managed@.len(),
                self.managed@ == old(self).managed@,
                keep@ == keep_live_custom(self.managed@, page, alive@).take(j as int),
            decreases self.managed@.len() - j,
        {
            let w = &self.managed[j];
            keep.push(!(w.kind == SlotKind::Custom && w.page == page && !alive[j]));
            j = j + 1;
            proof {
                assert(keep@ =~= keep_live_custom(self.managed@, page, alive@).take(j as int));
            }
        }
        proof {
            assert(keep@ =~= keep_live_custom(self.managed@, page, alive@));
        }
        retain_managed(&mut self.managed, &keep);
    }

    /// Adds a custom page named `name` running `exe` with `args`; it gets the
    /// next free id. Returns the new page.
    pub fn add_custom_page(&mut self, name: String, exe: String, args: String) -> (page: CustomPage)
        requires
            old(self).wf(),
            forall|j: int| 0 <= j < old(self).custom_pages@.len() ==> old(self).custom_pages@[j].id < 255,
        ensures
            final(self).wf(),
            page.id == next_page_id(old(self).custom_pages@),
            page.name == name && page.exe == exe && page.args == args,
            final(self).custom_pages@ == old(self).custom_pages@.push(page),
            *final(self) == (AppState { custom_pages: final(self).custom_pages, ..*old(self) }),
    {
        proof {
            lemma_next_page_id_fresh(self.custom_pages@);
        }
        let mut max: u8 = 0;
        let mut j: usize = 0;
        while j < self.custom_pages.len()
            invariant
                j <= self.custom_pages@.len(),
                max as int == max_page_id(self.custom_pages@.take(j as int)),
            decreases self.custom_pages@.len() - j,
        {
            proof {
                assert(self.custom_pages@.take(j + 1).drop_last() =~= self.custom_pages@.take(j as int));
            }
            if self.custom_pages[j].id > max {
                max = self.custom_pages[j].id;
            }
            j = j + 1;
        }
        proof {
            assert(self.custom_pages@.take(j as int) =~= self.custom_pages@);
        }
        let id: u8 = if self.custom_pages.len() == 0 { FIRST_CUSTOM_PAGE } else { max + 1 };
        let page = CustomPage { id, name, exe, args };
        let copy = copy_custom_page(&page);
        self.custom_pages.push(page);
        proof {
            let o = old(self).custom_pages@;
            let n = self.custom_pages@;
            assert(page_ids_valid(n)) by {
                assert forall|a: int, b: int| 0 <= a < n.len() && 0 <= b < n.len() && a != b implies n[a].id
                    != n[b].id by {
                    if a < o.len() {
                        assert(n[a] == o[a]);
                    }
                    if b < o.len() {
                        assert(n[b] == o[b]);
                    }
                }
                assert forall|a: int| 0 <= a < n.len() implies n[a].id >= FIRST_CUSTOM_PAGE by {
                    if a < o.len() {
                        assert(n[a] == o[a]);
                    }
                }
            }
        }
        copy
    }

    /// Removes custom page `id`: its embedded windows are listed for release,
    /// its slot entries, instances and page entry are dropped, and the shell
    /// returns to page 1 if it was showing the removed page.
    pub fn remove_custom_page(&mut self, id: u8) -> (r: RemovedPage)
        requires
            old(self).wf(),
        ensures
            final(self).wf(),
            r.release@ == custom_windows_of(old(self).managed@, id),
            final(self).managed@ == kept(old(self).managed@, keep_except_custom_page(old(self).managed@, id)),
            final(self).custom_pages@ == kept(old(self).custom_pages@, keep_except_page(old(self).custom_pages@, id)),
            final(self).custom_instances@ == remove_at(
                old(self).custom_instances@,
                instance_index(old(self).custom_instances@, id),
            ),
            r.page_reset == (old(self).current_page == id),
            final(self).current_page == if r.page_reset { 1 } else { old(self).current_page },
            *final(self) == (AppState {
                managed: final(self).managed,
                custom_pages: final(self).custom_pages,
                custom_instances: final(self).custom_instances,
                current_page: final(self).current_page,
                ..*old(self)
            }),
    {
        let mut release: Vec<usize> = Vec::new();
        let mut keep: Vec<bool> = Vec::new();
        let mut j: usize = 0;
        while j < self.managed.len()
            invariant
                j <= self.managed@.len(),
                self.managed@ == old(self).managed@,
                release@ == custom_windows_of(self.managed@.take(j as int), id),
                keep@ == keep_except_custom_page(self.managed@, id).take(j as int),
            decreases self.managed@.len() - j,
        {
            proof {
                assert(self.managed@.take(j + 1).drop_last() =~= self.managed@.take(j as int));
            }
            let w = &self.managed[j];
            let is_page = w.kind == SlotKind::Custom && w.page == id;
            if is_page {
                release.push(w.hwnd);
            }
            keep.push(!is_page);
            j = j + 1;
            proof {
                assert(keep@ =~= keep_except_custom_page(self.managed@, id).take(j as int));
            }
        }
        proof {
            assert(keep@ =~= keep_except_custom_page(self.managed@, id));
            assert(self.managed@.take(j as int) =~= self.managed@);
        }
        retain_managed(&mut self.managed, &keep);
        let mut pkeep: Vec<bool> = Vec::new();
        let mut k: usize = 0;
        while k < self.custom_pages.len()
            invariant
                k <= self.custom_pages@.len(),
                self.custom_pages@ == old(self).custom_pages@,
                pkeep@ == keep_except_page(self.custom_pages@, id).take(k as int),
            decreases self.custom_pages@.len() - k,
        {
            pkeep.push(self.custom_pages[k].id != id);
            k = k + 1;
            proof {
                assert(pkeep@ =~= keep_except_page(self.custom_pages@, id).take(k as int));
            }
        }
        proof {
            assert(pkeep@ =~= keep_except_page(self.custom_pages@, id));
        }
        retain_pages(&mut self.custom_pages, &pkeep);
        proof {
            lemma_instance_index(self.custom_instances@, id);
        }
        match find_instances(&self.custom_instances, id) {
            Some(i) => {
                remove_instances(&mut self.custom_instances, i);
            },
            None => {},
        }
        let page_reset = self.current_page == id;
        if page_reset {
            self.current_page = 1;
        }
        RemovedPage { release, page_reset }
    }
}

} // verus!
