//! The keyed collections of the state, held as lists with unique keys: slot
//! rectangles by slot id, managed windows by slot name, messenger paths by
//! kind, custom-page instances by page id. Lookup, insert-or-replace and
//! removal by key.

use vstd::prelude::*;
use crate::state::{
    Rect, SlotKind, CustomInstances, CustomPage, ImPath, ManagedWindow, SlotRect, im_kinds_unique,
    managed_slots_unique, slot_ids_unique,
};

verus! {

/// Index of the entry of `s` with slot id `k`, or -1.
pub open spec fn slot_index(s: Seq<SlotRect>, k: Seq<char>) -> int
    decreases s.len(),
{
    if s.len() == 0 {
        -1
    } else if s.last().id@ == k {
        s.len() - 1
    } else {
        slot_index(s.drop_last(), k)
    }
}

/// Index of the managed window in slot `k`, or -1.
pub open spec fn managed_index(s: Seq<ManagedWindow>, k: Seq<char>) -> int
    decreases s.len(),
{
    if s.len() == 0 {
        -1
    } else if s.last().slot@ == k {
        s.len() - 1
    } else {
        managed_index(s.drop_last(), k)
    }
}

/// Index of the messenger path for kind `k`, or -1.
pub open spec fn im_path_index(s: Seq<ImPath>, k: Seq<char>) -> int
    decreases s.len(),
{
    if s.len() == 0 {
        -1
    } else if s.last().kind@ == k {
        s.len() - 1
    } else {
        im_path_index(s.drop_last(), k)
    }
}

/// Index of the instance entry of custom page `page`, or -1.
pub open spec fn instance_index(s: Seq<CustomInstances>, page: u8) -> int
    decreases s.len(),
{
    if s.len() == 0 {
        -1
    } else if s.last().page == page {
        s.len() - 1
    } else {
        instance_index(s.drop_last(), page)
    }
}

/// Index of the custom page with id `id`, or -1.
pub open spec fn page_index(s: Seq<CustomPage>, id: u8) -> int
    decreases s.len(),
{
    if s.len() == 0 {
        -1
    } else if s.last().id == id {
        s.len() - 1
    } else {
        page_index(s.drop_last(), id)
    }
}

/// `s` with `r` stored under its id: the entry with the same id replaced,
/// or `r` appended.
pub open spec fn slot_upsert(s: Seq<SlotRect>, r: SlotRect) -> Seq<SlotRect> {
    let i = slot_index(s, r.id@);
    if i >= 0 { s.update(i, r) } else { s.push(r) }
}

/// `s` with `w` stored under its slot name.
pub open spec fn managed_upsert(s: Seq<ManagedWindow>, w: ManagedWindow) -> Seq<ManagedWindow> {
    let i = managed_index(s, w.slot@);
    if i >= 0 { s.update(i, w) } else { s.push(w) }
}

/// `s` with `p` stored under its kind.
pub open spec fn im_path_upsert(s: Seq<ImPath>, p: ImPath) -> Seq<ImPath> {
    let i = im_path_index(s, p.kind@);
    if i >= 0 { s.update(i, p) } else { s.push(p) }
}

/// `s` without the entry at index `i` (unchanged for `i < 0`).
pub open spec fn remove_at<T>(s: Seq<T>, i: int) -> Seq<T> {
    if 0 <= i < s.len() { s.remove(i) } else { s }
}

pub proof fn lemma_slot_index(s: Seq<SlotRect>, k: Seq<char>)
    ensures
        -1 <= slot_index(s, k) < s.len(),
        slot_index(s, k) >= 0 ==> s[slot_index(s, k)].id@ == k,
        slot_index(s, k) < 0 ==> forall|j: int| 0 <= j < s.len() ==> s[j].id@ != k,
    decreases s.len(),
{
    if s.len() > 0 && s.last().id@ != k {
        lemma_slot_index(s.drop_last(), k);
        assert forall|j: int| 0 <= j < s.len() - 1 implies s[j] == s.drop_last()[j] by {}
    }
}

pub proof fn lemma_managed_index(s: Seq<ManagedWindow>, k: Seq<char>)
    ensures
        -1 <= managed_index(s, k) < s.len(),
        managed_index(s, k) >= 0 ==> s[managed_index(s, k)].slot@ == k,
        managed_index(s, k) < 0 ==> forall|j: int| 0 <= j < s.len() ==> s[j].slot@ != k,
    decreases s.len(),
{
    if s.len() > 0 && s.last().slot@ != k {
        lemma_managed_index(s.drop_last(), k);
        assert forall|j: int| 0 <= j < s.len() - 1 implies s[j] == s.drop_last()[j] by {}
    }
}

pub proof fn lemma_im_path_index(s: Seq<ImPath>, k: Seq<char>)
    ensures
        -1 <= im_path_index(s, k) < s.len(),
        im_path_index(s, k) >= 0 ==> s[im_path_index(s, k)].kind@ == k,
        im_path_index(s, k) < 0 ==> forall|j: int| 0 <= j < s.len() ==> s[j].kind@ != k,
    decreases s.len(),
{
    if s.len() > 0 && s.last().kind@ != k {
        lemma_im_path_index(s.drop_last(), k);
        assert forall|j: int| 0 <= j < s.len() - 1 implies s[j] == s.drop_last()[j] by {}
    }
}

pub proof fn lemma_instance_index(s: Seq<CustomInstances>, page: u8)
    ensures
        -1 <= instance_index(s, page) < s.len(),
        instance_index(s, page) >= 0 ==> s[instance_index(s, page)].page == page,
        instance_index(s, page) < 0 ==> forall|j: int| 0 <= j < s.len() ==> s[j].page != page,
    decreases s.len(),
{
    if s.len() > 0 && s.last().page != page {
        lemma_instance_index(s.drop_last(), page);
        assert forall|j: int| 0 <= j < s.len() - 1 implies s[j] == s.drop_last()[j] by {}
    }
}

pub proof fn lemma_page_index(s: Seq<CustomPage>, id: u8)
    ensures
        -1 <= page_index(s, id) < s.len(),
        page_index(s, id) >= 0 ==> s[page_index(s, id)].id == id,
        page_index(s, id) < 0 ==> forall|j: int| 0 <= j < s.len() ==> s[j].id != id,
    decreases s.len(),
{
    if s.len() > 0 && s.last().id != id {
        lemma_page_index(s.drop_last(), id);
        assert forall|j: int| 0 <= j < s.len() - 1 implies s[j] == s.drop_last()[j] by {}
    }
}

/// Position of slot id `k` in `s`.
pub fn find_slot(s: &Vec<SlotRect>, k: &String) -> (r: Option<usize>)
    ensures
        r matches Some(i) ==> i as int == slot_index(s@, k@),
        r is None ==> slot_index(s@, k@) < 0,
{
    let mut i = s.len();
    proof {
        assert(s@.take(i as int) =~= s@);
    }
    while i > 0
        invariant
            i <= s@.len(),
            slot_index(s@, k@) == slot_index(s@.take(i as int), k@),
        decreases i,
    {
        proof {
            assert(s@.take(i as int).drop_last() =~= s@.take(i - 1));
        }
        if s[i - 1].id == *k {
            return Some(i - 1);
        }
        i = i - 1;
    }
    None
}

/// Position of the managed window in slot `k`.
pub fn find_managed(s: &Vec<ManagedWindow>, k: &String) -> (r: Option<usize>)
    ensures
        r matches Some(i) ==> i as int == managed_index(s@, k@),
        r is None ==> managed_index(s@, k@) < 0,
{
    let mut i = s.len();
    proof {
        assert(s@.take(i as int) =~= s@);
    }
    while i > 0
        invariant
            i <= s@.len(),
            managed_index(s@, k@) == managed_index(s@.take(i as int), k@),
        decreases i,
    {
        proof {
            assert(s@.take(i as int).drop_last() =~= s@.take(i - 1));
        }
        if s[i - 1].slot == *k {
            return Some(i - 1);
        }
        i = i - 1;
    }
    None
}

/// Position of the messenger path for kind `k`.
pub fn find_im_path(s: &Vec<ImPath>, k: &String) -> (r: Option<usize>)
    ensures
        r matches Some(i) ==> i as int == im_path_index(s@, k@),
        r is None ==> im_path_index(s@, k@) < 0,
{
    let mut i = s.len();
    proof {
        assert(s@.take(i as int) =~= s@);
    }
    while i > 0
        invariant
            i <= s@.len(),
            im_path_index(s@, k@) == im_path_index(s@.take(i as int), k@),
        decreases i,
    {
        proof {
            assert(s@.take(i as int).drop_last() =~= s@.take(i - 1));
        }
        if s[i - 1].kind == *k {
            return Some(i - 1);
        }
        i = i - 1;
    }
    None
}

/// Position of the instance entry of custom page `page`.
pub fn find_instances(s: &Vec<CustomInstances>, page: u8) -> (r: Option<usize>)
    ensures
        r matches Some(i) ==> i as int == instance_index(s@, page),
        r is None ==> instance_index(s@, page) < 0,
{
    let mut i = s.len();
    proof {
        assert(s@.take(i as int) =~= s@);
    }
    while i > 0
        invariant
            i <= s@.len(),
            instance_index(s@, page) == instance_index(s@.take(i as int), page),
        decreases i,
    {
        proof {
            assert(s@.take(i as int).drop_last() =~= s@.take(i - 1));
        }
        if s[i - 1].page == page {
            return Some(i - 1);
        }
        i = i - 1;
    }
    None
}

/// Position of the custom page with id `id`.
pub fn find_page(s: &Vec<CustomPage>, id: u8) -> (r: Option<usize>)
    ensures
        r matches Some(i) ==> i as int == page_index(s@, id),
        r is None ==> page_index(s@, id) < 0,
{
    let mut i = s.len();
    proof {
        assert(s@.take(i as int) =~= s@);
    }
    while i > 0
        invariant
            i <= s@.len(),
            page_index(s@, id) == page_index(s@.take(i as int), id),
        decreases i,
    {
        proof {
            assert(s@.take(i as int).drop_last() =~= s@.take(i - 1));
        }
        if s[i - 1].id == id {
            return Some(i - 1);
        }
        i = i - 1;
    }
    None
}

/// Stores `r` under its slot id, replacing the previous entry for that id.
pub fn upsert_slot(s: &mut Vec<SlotRect>, r: SlotRect)
    requires
        slot_ids_unique(old(s)@),
    ensures
        final(s)@ == slot_upsert(old(s)@, r),
        slot_ids_unique(final(s)@),
{
    proof {
        lemma_slot_index(s@, r.id@);
    }
    match find_slot(s, &r.id) {
        Some(i) => {
            s.set(i, r);
        },
        None => {
            s.push(r);
        },
    }
}

/// Stores `w` under its slot name, replacing the previous entry for that slot.
pub fn upsert_managed(s: &mut Vec<ManagedWindow>, w: ManagedWindow)
    requires
        managed_slots_unique(old(s)@),
    ensures
        final(s)@ == managed_upsert(old(s)@, w),
        managed_slots_unique(final(s)@),
{
    proof {
        lemma_managed_index(s@, w.slot@);
    }
    match find_managed(s, &w.slot) {
        Some(i) => {
            s.set(i, w);
        },
        None => {
            s.push(w);
        },
    }
}

/// Stores `p` under its kind, replacing the previous path for that kind.
pub fn upsert_im_path(s: &mut Vec<ImPath>, p: ImPath)
    requires
        im_kinds_unique(old(s)@),
    ensures
        final(s)@ == im_path_upsert(old(s)@, p),
        im_kinds_unique(final(s)@),
{
    proof {
        lemma_im_path_index(s@, p.kind@);
    }
    match find_im_path(s, &p.kind) {
        Some(i) => {
            s.set(i, p);
        },
        None => {
            s.push(p);
        },
    }
}

/// A managed window as a mathematical value.
pub struct ManagedView {
    pub hwnd: usize,
    pub slot: Seq<char>,
    pub page: u8,
    pub kind: SlotKind,
}

/// A slot rectangle as a mathematical value.
pub struct SlotView {
    pub id: Seq<char>,
    pub rect: Rect,
    pub kind: SlotKind,
    pub page: u8,
}

impl View for ManagedWindow {
    type V = ManagedView;

    open spec fn view(&self) -> ManagedView {
        ManagedView { hwnd: self.hwnd, slot: self.slot@, page: self.page, kind: self.kind }
    }
}

impl View for SlotRect {
    type V = SlotView;

    open spec fn view(&self) -> SlotView {
        SlotView { id: self.id@, rect: self.rect, kind: self.kind, page: self.page }
    }
}

/// The managed windows as values.
pub open spec fn mviews(s: Seq<ManagedWindow>) -> Seq<ManagedView> {
    s.map_values(|w: ManagedWindow| w@)
}

/// The slot rectangles as values.
pub open spec fn sviews(s: Seq<SlotRect>) -> Seq<SlotView> {
    s.map_values(|r: SlotRect| r@)
}

/// Index of the managed window value in slot `k`, or -1.
pub open spec fn mview_index(s: Seq<ManagedView>, k: Seq<char>) -> int
    decreases s.len(),
{
    if s.len() == 0 {
        -1
    } else if s.last().slot == k {
        s.len() - 1
    } else {
        mview_index(s.drop_last(), k)
    }
}

/// Index of the slot value with id `k`, or -1.
pub open spec fn sview_index(s: Seq<SlotView>, k: Seq<char>) -> int
    decreases s.len(),
{
    if s.len() == 0 {
        -1
    } else if s.last().id == k {
        s.len() - 1
    } else {
        sview_index(s.drop_last(), k)
    }
}

/// `s` with `w` stored under its slot name.
pub open spec fn mview_upsert(s: Seq<ManagedView>, w: ManagedView) -> Seq<ManagedView> {
    let i = mview_index(s, w.slot);
    if i >= 0 { s.update(i, w) } else { s.push(w) }
}

/// `s` with `r` stored under its slot id.
pub open spec fn sview_upsert(s: Seq<SlotView>, r: SlotView) -> Seq<SlotView> {
    let i = sview_index(s, r.id);
    if i >= 0 { s.update(i, r) } else { s.push(r) }
}

pub proof fn lemma_mview_index(s: Seq<ManagedWindow>, k: Seq<char>)
    ensures
        mview_index(mviews(s), k) == managed_index(s, k),
    decreases s.len(),
{
    if s.len() > 0 {
        assert(mviews(s).drop_last() =~= mviews(s.drop_last()));
        lemma_mview_index(s.drop_last(), k);
    }
}

pub proof fn lemma_sview_index(s: Seq<SlotRect>, k: Seq<char>)
    ensures
        sview_index(sviews(s), k) == slot_index(s, k),
    decreases s.len(),
{
    if s.len() > 0 {
        assert(sviews(s).drop_last() =~= sviews(s.drop_last()));
        lemma_sview_index(s.drop_last(), k);
    }
}

/// Upserting a window upserts its value.
pub proof fn lemma_managed_upsert_view(s: Seq<ManagedWindow>, w: ManagedWindow)
    ensures
        mviews(managed_upsert(s, w)) == mview_upsert(mviews(s), w@),
{
    lemma_mview_index(s, w.slot@);
    lemma_managed_index(s, w.slot@);
    assert(mviews(managed_upsert(s, w)) =~= mview_upsert(mviews(s), w@));
}

/// Upserting a slot rectangle upserts its value.
pub proof fn lemma_slot_upsert_view(s: Seq<SlotRect>, r: SlotRect)
    ensures
        sviews(slot_upsert(s, r)) == sview_upsert(sviews(s), r@),
{
    lemma_sview_index(s, r.id@);
    lemma_slot_index(s, r.id@);
    assert(sviews(slot_upsert(s, r)) =~= sview_upsert(sviews(s), r@));
}

} // verus!
